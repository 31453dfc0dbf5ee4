use colorcolumn::assign::assign_color;
use colorcolumn::assign::parse_line;
use colorcolumn::delimiter::Delimiter;
use colorcolumn::keymap::KeyColorMap;

#[test]
// Make sure that the color scheme is drained, and the color map is expanded
// when there's no match.
fn parse_line_with_no_match() {
    let delimiter = Delimiter::new(r"[ \t]+").unwrap();
    let column = 1;
    let mut color_map = KeyColorMap::new();
    color_map.insert("keyword".to_string(), 1);
    let mut color_scheme: Vec<u8> = [2, 3, 4].to_vec();

    assert_eq!(
        parse_line("word key word", &delimiter, column, &mut color_map, &mut color_scheme),
        Some(2)
    );
    assert_eq!(color_map.len(), 2);
    assert_eq!(color_scheme, [3, 4]);
}

#[test]
// Make sure that the color scheme and color map is unchanged when there's
// a match.
fn parse_line_with_match() {
    let delimiter = Delimiter::new(r"[ \t]+").unwrap();
    let column = 1;
    let mut color_map = KeyColorMap::new();
    color_map.insert("key".to_string(), 1);
    let mut color_scheme: Vec<u8> = [2, 3, 4].to_vec();

    assert_eq!(
        parse_line("word key word", &delimiter, column, &mut color_map, &mut color_scheme),
        Some(1)
    );
    assert_eq!(color_map.len(), 1);
    assert_eq!(color_scheme, [2, 3, 4]);
}

#[test]
// Make sure that the color scheme and color map is unchanged when there's
// only a single color left.
fn running_out_of_colors() {
    let delimiter = Delimiter::new(r"[ \t]+").unwrap();
    let column = 1;
    let mut color_map = KeyColorMap::new();
    color_map.insert("keyword".to_string(), 1);
    let mut color_scheme: Vec<u8> = [2].to_vec();

    assert_eq!(
        parse_line("word key word", &delimiter, column, &mut color_map, &mut color_scheme),
        Some(2)
    );
    assert_eq!(color_map.len(), 1);
    assert_eq!(color_scheme, [2]);
}

#[test]
// Make sure that we handle invalid column gracefully
fn invalid_column() {
    let delimiter = Delimiter::new(r"[ \t]+").unwrap();
    let column = 4;
    let mut color_map = KeyColorMap::new();
    color_map.insert("keyword".to_string(), 1);
    let mut color_scheme: Vec<u8> = [2].to_vec();

    assert_eq!(
        parse_line("word key word", &delimiter, column, &mut color_map, &mut color_scheme),
        None
    );
    assert_eq!(color_map.len(), 1);
    assert_eq!(color_scheme, [2]);
}

#[test]
// A new key seen with an empty map takes the first palette color, which is
// spent, and the key is recorded.
fn new_key_from_empty_map() {
    let delimiter = Delimiter::new(r"[ \t]+").unwrap();
    let mut color_map = KeyColorMap::new();
    let mut color_scheme: Vec<u8> = vec![2, 3, 4];

    assert_eq!(
        parse_line("word key word", &delimiter, 1, &mut color_map, &mut color_scheme),
        Some(2)
    );
    assert_eq!(color_map.len(), 1);
    assert_eq!(color_map.get(&"key".to_string()), Some(2));
    assert_eq!(color_scheme, [3, 4]);
}

#[test]
// Three lines, colored by column 0 with a palette of two colors: the first
// key spends color 1, the second key hits the floor color 2 and is never
// recorded, the first key keeps its color on repeat.
fn full_run_color_order() {
    let delimiter = Delimiter::new(" ").unwrap();
    let mut color_map = KeyColorMap::new();
    let mut color_scheme: Vec<u8> = vec![1, 2];
    let lines = ["a b", "c b", "a d"];
    let mut colors: Vec<Option<u8>> = Vec::new();
    for line in lines.iter() {
        colors.push(parse_line(line, &delimiter, 0, &mut color_map, &mut color_scheme));
    }

    assert_eq!(colors, vec![Some(1), Some(2), Some(1)]);
    assert_eq!(color_scheme, [2]);
    assert_eq!(color_map.len(), 1);
    assert_eq!(color_map.get(&"a".to_string()), Some(1));
    assert_eq!(color_map.get(&"c".to_string()), None);
}

#[test]
// Repeated assignment of the same key returns the same color and leaves
// both structures alone.
fn assign_color_new_then_repeat() {
    let mut color_map = KeyColorMap::new();
    let mut color_scheme: Vec<u8> = vec![5, 6];

    assert_eq!(assign_color("x".to_string(), &mut color_map, &mut color_scheme), 5);
    assert_eq!(assign_color("x".to_string(), &mut color_map, &mut color_scheme), 5);
    assert_eq!(color_scheme, [6]);
    assert_eq!(color_map.len(), 1);
}
