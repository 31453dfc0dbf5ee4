use vstd::prelude::*;
use vstd::string::StrSliceExecFns;

use crate::errors::ConfigError;
use crate::MAX_COLOR_ID;

verus! {

/// A decimal digit.
pub open spec fn is_digit(c: char) -> bool {
    48 <= c as u32 && c as u32 <= 57
}

/// The numeric value of a decimal digit.
pub open spec fn digit_val(c: char) -> int {
    c as u32 - 48
}

/// The number that a run of decimal digits denotes, most significant first.
pub open spec fn digits_value(s: Seq<char>) -> int
    decreases s.len(),
{
    if s.len() == 0 {
        0
    } else {
        digits_value(s.drop_last()) * 10 + digit_val(s.last())
    }
}

/// The digits of a filter entry: the entry with its optional leading plus
/// sign stripped.
pub open spec fn field_digits(s: Seq<char>) -> Seq<char> {
    if s.len() > 0 && s[0] == '+' {
        s.drop_first()
    } else {
        s
    }
}

/// The number that a filter entry denotes.
pub open spec fn field_value(s: Seq<char>) -> int {
    digits_value(field_digits(s))
}

/// A filter entry denotes a color id: an optional leading plus sign, then
/// at least one decimal digit, small enough for the color type.
pub open spec fn valid_color_field(s: Seq<char>) -> bool {
    &&& field_digits(s).len() > 0
    &&& forall|k: int| 0 <= k < field_digits(s).len() ==> is_digit(field_digits(s)[k])
    &&& field_value(s) <= 255
}

/// The comma-separated fields of the filter text. An empty text has one
/// empty field; every comma opens a further field.
pub open spec fn fields_of(s: Seq<char>) -> Seq<Seq<char>>
    decreases s.len(),
{
    if s.len() == 0 {
        seq![Seq::<char>::empty()]
    } else {
        let rest = fields_of(s.drop_last());
        if s.last() == ',' {
            rest.push(Seq::<char>::empty())
        } else {
            rest.update(rest.len() - 1, rest.last().push(s.last()))
        }
    }
}

/// Every field of the filter text is a valid color id.
pub open spec fn filter_ok(s: Seq<char>) -> bool {
    forall|j: int| 0 <= j < fields_of(s).len() ==> valid_color_field(fields_of(s)[j])
}

/// The color ids that the filter text lists, in order.
pub open spec fn filter_values(s: Seq<char>) -> Seq<u8> {
    fields_of(s).map_values(|f: Seq<char>| field_value(f) as u8)
}

proof fn lemma_fields_of_nonempty(s: Seq<char>)
    ensures
        fields_of(s).len() >= 1,
    decreases s.len(),
{
    if s.len() > 0 {
        lemma_fields_of_nonempty(s.drop_last());
    }
}

proof fn lemma_digits_value_nonneg(s: Seq<char>)
    requires
        forall|k: int| 0 <= k < s.len() ==> is_digit(s[k]),
    ensures
        digits_value(s) >= 0,
    decreases s.len(),
{
    if s.len() > 0 {
        let prefix = s.drop_last();
        assert(forall|k: int| 0 <= k < prefix.len() ==> is_digit(#[trigger] prefix[k]));
        lemma_digits_value_nonneg(prefix);
        assert(is_digit(s.last()));
    }
}

/// Parses the comma-separated color filter list. Returns the listed color
/// ids exactly when every entry is a well-formed color id, and nothing
/// otherwise.
pub fn parse_filter(s: &str) -> (r: Option<Vec<u8>>)
    ensures
        r is Some <==> filter_ok(s@),
        r matches Some(v) ==> v@ == filter_values(s@),
{
    let n: usize = s.unicode_len();
    let mut out: Vec<u8> = Vec::new();
    let mut done_ok: bool = true;
    let mut cur_len: usize = 0;
    let mut has_plus: bool = false;
    let mut cur_ok: bool = true;
    let mut cur_val: u32 = 0;
    let mut i: usize = 0;
    proof {
        assert(s@.subrange(0, 0) =~= Seq::<char>::empty());
        assert(fields_of(Seq::<char>::empty()) == seq![Seq::<char>::empty()]);
        assert(fields_of(s@.subrange(0, 0)).last() =~= Seq::<char>::empty());
        assert(fields_of(s@.subrange(0, 0)).drop_last() =~= Seq::<Seq<char>>::empty());
        assert(out@ =~= Seq::<Seq<char>>::empty().map_values(|f: Seq<char>| field_value(f) as u8));
    }
    while i < n
        invariant
            n == s@.len(),
            i <= n,
            cur_len <= i,
            fields_of(s@.subrange(0, i as int)).len() >= 1,
            cur_len == fields_of(s@.subrange(0, i as int)).last().len(),
            has_plus == ({
                let f = fields_of(s@.subrange(0, i as int)).last();
                f.len() > 0 && f[0] == '+'
            }),
            cur_ok <==> ({
                let dg = field_digits(fields_of(s@.subrange(0, i as int)).last());
                (forall|k: int| 0 <= k < dg.len() ==> is_digit(dg[k])) && digits_value(dg) <= 255
            }),
            cur_ok ==> cur_val == digits_value(
                field_digits(fields_of(s@.subrange(0, i as int)).last()),
            ) && cur_val <= 255,
            done_ok <==> (forall|j: int|
                0 <= j < fields_of(s@.subrange(0, i as int)).len() - 1
                    ==> valid_color_field(fields_of(s@.subrange(0, i as int))[j])),
            done_ok ==> out@ == fields_of(s@.subrange(0, i as int)).drop_last().map_values(
                |f: Seq<char>| field_value(f) as u8,
            ),
        decreases n - i,
    {
        let ghost p0 = s@.subrange(0, i as int);
        let ghost p1 = s@.subrange(0, i + 1);
        let ghost fs0 = fields_of(p0);
        let c = s.get_char(i);
        proof {
            assert(p1.drop_last() =~= p0);
            assert(p1.last() == c);
            lemma_fields_of_nonempty(p0);
        }
        let ghost fs1 = fields_of(p1);
        if c == ',' {
            let dg_nonempty: bool = if has_plus {
                cur_len > 1
            } else {
                cur_len > 0
            };
            let field_valid: bool = cur_ok && dg_nonempty;
            proof {
                assert(fs1 == fs0.push(Seq::<char>::empty()));
                if has_plus {
                    assert(field_digits(fs0.last()) =~= fs0.last().drop_first());
                } else {
                    assert(field_digits(fs0.last()) =~= fs0.last());
                }
                assert(field_valid == valid_color_field(fs0.last()));
                assert((done_ok && field_valid) <==> (forall|j: int|
                    0 <= j < fs1.len() - 1 ==> valid_color_field(fs1[j]))) by {
                    if done_ok && field_valid {
                        assert forall|j: int| 0 <= j < fs1.len() - 1 implies valid_color_field(
                            fs1[j],
                        ) by {
                            if j < fs0.len() - 1 {
                                assert(fs1[j] == fs0[j]);
                            } else {
                                assert(fs1[j] == fs0.last());
                            }
                        }
                    }
                    if forall|j: int| 0 <= j < fs1.len() - 1 ==> valid_color_field(fs1[j]) {
                        assert(valid_color_field(fs1[fs0.len() - 1]));
                        assert(fs1[fs0.len() - 1] == fs0.last());
                        assert forall|j: int| 0 <= j < fs0.len() - 1 implies valid_color_field(
                            fs0[j],
                        ) by {
                            assert(fs1[j] == fs0[j]);
                            assert(valid_color_field(fs1[j]));
                        }
                    }
                }
            }
            if field_valid {
                out.push(cur_val as u8);
            } else {
                out.push(0);
            }
            proof {
                if done_ok && field_valid {
                    assert(fs1.drop_last() =~= fs0);
                    assert(cur_val as u8 == field_value(fs0.last()) as u8);
                    assert(out@ =~= fs0.map_values(|f: Seq<char>| field_value(f) as u8));
                }
                assert(fs1.last() =~= Seq::<char>::empty());
            }
            done_ok = done_ok && field_valid;
            cur_len = 0;
            has_plus = false;
            cur_ok = true;
            cur_val = 0;
        } else {
            let ghost f0 = fs0.last();
            let ghost f1 = f0.push(c);
            let ghost dg0 = field_digits(f0);
            let ghost dg1 = field_digits(f1);
            proof {
                assert(fs1 == fs0.update(fs0.len() - 1, f1));
                assert(fs1.last() == f1);
                assert(fs1.drop_last() =~= fs0.drop_last());
                assert forall|j: int| 0 <= j < fs0.len() - 1 implies fs1[j] == fs0[j] by {}
                assert((forall|j: int| 0 <= j < fs1.len() - 1 ==> valid_color_field(fs1[j]))
                    <==> (forall|j: int| 0 <= j < fs0.len() - 1 ==> valid_color_field(fs0[j])));
            }
            if cur_len == 0 && c == '+' {
                proof {
                    assert(f0 =~= Seq::<char>::empty());
                    assert(f1.len() == 1 && f1[0] == '+');
                    assert(dg1 =~= Seq::<char>::empty());
                }
                has_plus = true;
            } else {
                proof {
                    if f0.len() == 0 {
                        assert(c != '+');
                        assert(dg0 =~= f0);
                        assert(f1.len() == 1 && f1[0] == c);
                        assert(dg1 =~= f1);
                    } else {
                        assert(f1[0] == f0[0]);
                        if f0[0] == '+' {
                            assert(dg0 == f0.drop_first());
                            assert(dg1 =~= f0.drop_first().push(c));
                        } else {
                            assert(dg0 == f0);
                            assert(dg1 =~= f1);
                        }
                    }
                    assert(dg1 =~= dg0.push(c));
                    assert(dg1.drop_last() =~= dg0);
                    assert(dg1.last() == c);
                    assert(digits_value(dg1) == digits_value(dg0) * 10 + digit_val(c));
                }
                let u: u32 = c as u32;
                let is_d: bool = 48 <= u && u <= 57;
                let mut new_ok: bool = false;
                if cur_ok && is_d {
                    let d: u32 = u - 48;
                    let v: u32 = cur_val * 10 + d;
                    if v <= 255 {
                        cur_val = v;
                        new_ok = true;
                    }
                }
                proof {
                    let digits1 = forall|k: int| 0 <= k < dg1.len() ==> is_digit(dg1[k]);
                    if new_ok {
                        assert forall|k: int| 0 <= k < dg1.len() implies is_digit(dg1[k]) by {
                            if k < dg0.len() {
                                assert(dg1[k] == dg0[k]);
                            } else {
                                assert(dg1[k] == c);
                            }
                        }
                        assert(digits_value(dg1) == cur_val);
                    } else {
                        if !is_d {
                            assert(!is_digit(dg1[dg1.len() - 1]));
                            assert(!(digits1 && digits_value(dg1) <= 255));
                        } else if cur_ok {
                            // all digits so far but the value has outgrown a
                            // color id
                            assert(digits_value(dg1) > 255);
                            assert(!(digits1 && digits_value(dg1) <= 255));
                        } else {
                            // the field was already bad: a stray character
                            // stays in it, and a too-large value only grows
                            if exists|k: int| 0 <= k < dg0.len() && !is_digit(dg0[k]) {
                                let k = choose|k: int| 0 <= k < dg0.len() && !is_digit(dg0[k]);
                                assert(dg1[k] == dg0[k]);
                                assert(!(digits1 && digits_value(dg1) <= 255));
                            } else {
                                assert(forall|k: int|
                                    0 <= k < dg0.len() ==> is_digit(#[trigger] dg0[k]));
                                assert(digits_value(dg0) > 255);
                                lemma_digits_value_nonneg(dg0);
                                assert(digits_value(dg1) > 255);
                                assert(!(digits1 && digits_value(dg1) <= 255));
                            }
                        }
                    }
                }
                cur_ok = new_ok;
            }
            cur_len = cur_len + 1;
        }
        i = i + 1;
    }
    proof {
        assert(s@.subrange(0, n as int) =~= s@);
        lemma_fields_of_nonempty(s@);
    }
    let ghost fsall = fields_of(s@);
    let dg_nonempty: bool = if has_plus {
        cur_len > 1
    } else {
        cur_len > 0
    };
    let field_valid: bool = cur_ok && dg_nonempty;
    proof {
        if has_plus {
            assert(field_digits(fsall.last()) =~= fsall.last().drop_first());
        } else {
            assert(field_digits(fsall.last()) =~= fsall.last());
        }
        assert(field_valid == valid_color_field(fsall.last()));
    }
    if done_ok && field_valid {
        out.push(cur_val as u8);
        proof {
            assert(filter_ok(s@)) by {
                assert forall|j: int| 0 <= j < fsall.len() implies valid_color_field(
                    fsall[j],
                ) by {
                    if j == fsall.len() - 1 {
                        assert(fsall[j] == fsall.last());
                    }
                }
            }
            assert(cur_val as u8 == field_value(fsall.last()) as u8);
            assert(out@ =~= filter_values(s@));
        }
        Some(out)
    } else {
        proof {
            assert(!filter_ok(s@)) by {
                if filter_ok(s@) {
                    assert forall|j: int| 0 <= j < fsall.len() - 1 implies valid_color_field(
                        fsall[j],
                    ) by {}
                    assert(valid_color_field(fsall[fsall.len() - 1]));
                    assert(fsall[fsall.len() - 1] == fsall.last());
                }
            }
        }
        None
    }
}

fn contains_color(filter: &Vec<u8>, c: u8) -> (r: bool)
    ensures
        r == filter@.contains(c),
{
    let n: usize = filter.len();
    let mut i: usize = 0;
    while i < n
        invariant
            n == filter@.len(),
            i <= n,
            forall|j: int| 0 <= j < i ==> filter@[j] != c,
        decreases n - i,
    {
        if filter[i] == c {
            return true;
        }
        i = i + 1;
    }
    proof {
        assert(!filter@.contains(c)) by {
            if filter@.contains(c) {
                let j = choose|j: int| 0 <= j < filter@.len() && filter@[j] == c;
            }
        }
    }
    false
}

/// Builds the initial palette: every color id from `1` through
/// `MAX_COLOR_ID` that the filter does not list, in ascending order.
pub fn build_palette(filter: &Vec<u8>) -> (r: Vec<u8>)
    ensures
        forall|c: u8| r@.contains(c) <==> (1 <= c && c <= MAX_COLOR_ID && !filter@.contains(c)),
        forall|i: int, j: int| 0 <= i < j < r@.len() ==> r@[i] < r@[j],
{
    let mut out: Vec<u8> = Vec::new();
    let mut c: u8 = 1;
    while c <= MAX_COLOR_ID
        invariant
            1 <= c,
            c <= MAX_COLOR_ID + 1,
            forall|x: u8| out@.contains(x) <==> (1 <= x && x < c && !filter@.contains(x)),
            forall|i: int, j: int| 0 <= i < j < out@.len() ==> out@[i] < out@[j],
            forall|i: int| 0 <= i < out@.len() ==> out@[i] < c,
        decreases MAX_COLOR_ID + 1 - c,
    {
        let ghost pre = out@;
        if !contains_color(filter, c) {
            out.push(c);
            proof {
                assert forall|x: u8| out@.contains(x) implies (1 <= x && x < c + 1
                    && !filter@.contains(x)) by {
                    let k = choose|k: int| 0 <= k < out@.len() && out@[k] == x;
                    if k < pre.len() {
                        assert(pre[k] == x);
                        assert(pre.contains(x));
                    } else {
                        assert(x == c);
                    }
                }
                assert forall|x: u8| (1 <= x && x < c + 1 && !filter@.contains(x)) implies out@
                    .contains(x) by {
                    if x < c {
                        assert(pre.contains(x));
                        let k = choose|k: int| 0 <= k < pre.len() && pre[k] == x;
                        assert(out@[k] == x);
                    } else {
                        assert(out@[pre.len() as int] == x);
                    }
                }
            }
        } else {
            proof {
                assert forall|x: u8| out@.contains(x) implies (1 <= x && x < c + 1
                    && !filter@.contains(x)) by {}
                assert forall|x: u8| (1 <= x && x < c + 1 && !filter@.contains(x)) implies out@
                    .contains(x) by {
                    assert(x != c);
                }
            }
        }
        c = c + 1;
    }
    proof {
        assert forall|x: u8| out@.contains(x) implies (1 <= x && x <= MAX_COLOR_ID
            && !filter@.contains(x)) by {}
    }
    out
}

/// Turns the filter text into the initial palette, or reports the
/// configuration error: a malformed filter entry, or a filter that excludes
/// the entire color range.
pub fn init_palette(filter_text: &str) -> (r: Result<Vec<u8>, ConfigError>)
    ensures
        r matches Ok(p) ==> {
            &&& filter_ok(filter_text@)
            &&& p@.len() >= 1
            &&& forall|c: u8|
                p@.contains(c) <==> (1 <= c && c <= MAX_COLOR_ID && !filter_values(
                    filter_text@,
                ).contains(c))
            &&& forall|i: int, j: int| 0 <= i < j < p@.len() ==> p@[i] < p@[j]
        },
        r == Err::<Vec<u8>, ConfigError>(ConfigError::BadFilterEntry) <==> !filter_ok(
            filter_text@,
        ),
        r == Err::<Vec<u8>, ConfigError>(ConfigError::EmptyPalette) <==> (filter_ok(filter_text@)
            && forall|c: u8|
            1 <= c && c <= MAX_COLOR_ID ==> filter_values(filter_text@).contains(c)),
        r is Err ==> (r == Err::<Vec<u8>, ConfigError>(ConfigError::BadFilterEntry) || r
            == Err::<Vec<u8>, ConfigError>(ConfigError::EmptyPalette)),
{
    match parse_filter(filter_text) {
        None => Err(ConfigError::BadFilterEntry),
        Some(filter) => {
            let palette = build_palette(&filter);
            if palette.len() == 0 {
                proof {
                    assert forall|c: u8| 1 <= c && c <= MAX_COLOR_ID implies filter_values(
                        filter_text@,
                    ).contains(c) by {
                        assert(!palette@.contains(c));
                    }
                }
                Err(ConfigError::EmptyPalette)
            } else {
                proof {
                    assert(palette@.contains(palette@[0]));
                    assert(!(forall|c: u8|
                        1 <= c && c <= MAX_COLOR_ID ==> filter_values(filter_text@).contains(c)));
                }
                Ok(palette)
            }
        },
    }
}

} // verus!
