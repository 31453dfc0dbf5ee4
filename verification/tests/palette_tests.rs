use colorcolumn::errors::ConfigError;
use colorcolumn::palette::build_palette;
use colorcolumn::palette::init_palette;
use colorcolumn::palette::parse_filter;

#[test]
fn parse_filter_reads_the_listed_ids() {
    assert_eq!(parse_filter("8,10"), Some(vec![8, 10]));
    assert_eq!(parse_filter("0"), Some(vec![0]));
    assert_eq!(parse_filter("255"), Some(vec![255]));
    assert_eq!(parse_filter("8,10,11,16,17,18,19,52,54"), Some(vec![8, 10, 11, 16, 17, 18, 19, 52, 54]));
}

#[test]
// A plus sign is the one decoration a numeric entry may carry.
fn parse_filter_accepts_a_leading_plus() {
    assert_eq!(parse_filter("+8"), Some(vec![8]));
    assert_eq!(parse_filter("8,+10,54"), Some(vec![8, 10, 54]));
    assert_eq!(parse_filter("+"), None);
    assert_eq!(parse_filter("++8"), None);
    assert_eq!(parse_filter("8+"), None);
    assert_eq!(parse_filter("-8"), None);
}

#[test]
fn parse_filter_rejects_malformed_entries() {
    assert_eq!(parse_filter(""), None);
    assert_eq!(parse_filter("8,x,10"), None);
    assert_eq!(parse_filter("256"), None);
    assert_eq!(parse_filter("8,,10"), None);
    assert_eq!(parse_filter("8, 10"), None);
    assert_eq!(parse_filter("8,"), None);
}

#[test]
fn default_filter_builds_default_palette() {
    let palette = init_palette("8,10,11,16,17,18,19,52,54").unwrap();
    assert_eq!(palette.len(), 245);
    assert_eq!(palette[0], 1);
    assert_eq!(*palette.last().unwrap(), 254);
    assert!(!palette.contains(&8));
    assert!(!palette.contains(&54));
    assert!(palette.contains(&9));
    let mut prev = 0;
    for &c in palette.iter() {
        assert!(prev < c);
        prev = c;
    }
}

#[test]
fn empty_filter_list_is_a_bad_entry() {
    assert_eq!(init_palette(""), Err(ConfigError::BadFilterEntry));
    assert_eq!(init_palette("8,oops"), Err(ConfigError::BadFilterEntry));
}

#[test]
// A filter that lists every assignable color id leaves nothing to build the
// palette from.
fn filter_of_everything_empties_the_palette() {
    let mut filter = String::new();
    for c in 1u32..=254 {
        if c > 1 {
            filter.push(',');
        }
        filter.push_str(&c.to_string());
    }
    assert_eq!(init_palette(&filter), Err(ConfigError::EmptyPalette));
}

#[test]
fn build_palette_without_filter_spans_the_range() {
    let palette = build_palette(&Vec::new());
    assert_eq!(palette.len(), 254);
    assert_eq!(palette[0], 1);
    assert_eq!(palette[253], 254);
}

#[test]
fn build_palette_skips_filtered_ids() {
    let palette = build_palette(&vec![1, 2, 3]);
    assert_eq!(palette[0], 4);
    assert_eq!(palette.len(), 251);
}
