use vstd::prelude::*;

use crate::delimiter::column_of;
use crate::delimiter::extract_column;
use crate::delimiter::split_of;
use crate::delimiter::Delimiter;
use crate::keymap::KeyColorMap;

verus! {

/// One step of the color assigner on the mathematical state: given a key and
/// the current key-to-color map and palette, the color handed out and the
/// state after the call.
///
/// A key already recorded keeps its color and changes nothing. A new key
/// takes the first palette color; while more than one color remains, the
/// color is spent (removed from the palette, recorded in the map). Once a
/// single color is left, that floor color is handed out without being spent
/// or recorded, so the palette never drains to empty.
pub open spec fn assign_spec(
    key: Seq<char>,
    map: Map<Seq<char>, u8>,
    palette: Seq<u8>,
) -> (u8, Map<Seq<char>, u8>, Seq<u8>)
    recommends
        palette.len() >= 1,
{
    if map.contains_key(key) {
        (map[key], map, palette)
    } else if palette.len() > 1 {
        (palette[0], map.insert(key, palette[0]), palette.drop_first())
    } else {
        (palette[0], map, palette)
    }
}

/// Returns the stable color for `key`, allocating the next palette color if
/// the key is unseen, exactly as `assign_spec` says.
pub fn assign_color(key: String, map: &mut KeyColorMap, color_scheme: &mut Vec<u8>) -> (r: u8)
    requires
        old(color_scheme)@.len() >= 1,
    ensures
        ({
            let step = assign_spec(key@, old(map)@, old(color_scheme)@);
            r == step.0 && final(map)@ == step.1 && final(color_scheme)@ == step.2
        }),
{
    match map.get(&key) {
        Some(c) => c,
        None => {
            let color = color_scheme[0];
            if color_scheme.len() > 1 {
                map.insert(key, color);
                let _spent = color_scheme.remove(0);
                proof {
                    assert(color_scheme@ =~= old(color_scheme)@.drop_first());
                }
            }
            color
        },
    }
}

/// Splits `line` by the delimiter, takes the token at the requested column
/// as the key, and returns that key's color; a line without such a column
/// gets no color and leaves the state untouched.
pub fn parse_line(
    line: &str,
    delimiter: &Delimiter,
    column: u32,
    map: &mut KeyColorMap,
    color_scheme: &mut Vec<u8>,
) -> (r: Option<u8>)
    requires
        old(color_scheme)@.len() >= 1,
    ensures
        ({
            let tokens = split_of(delimiter@, line@);
            match column_of(tokens, column as int) {
                Some(key) => {
                    let step = assign_spec(key, old(map)@, old(color_scheme)@);
                    r == Some(step.0) && final(map)@ == step.1 && final(color_scheme)@ == step.2
                },
                None => r is None && final(map)@ == old(map)@ && final(color_scheme)@ == old(
                    color_scheme,
                )@,
            }
        }),
{
    match extract_column(line, delimiter, column) {
        Some(key) => Some(assign_color(key, map, color_scheme)),
        None => None,
    }
}

} // verus!
