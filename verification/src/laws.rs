use vstd::prelude::*;

use crate::assign::assign_spec;
use crate::delimiter::column_of;

verus! {

/// Idempotent lookup: a key that already has a recorded color keeps it, and
/// an assignment for it changes neither the map nor the palette; so repeated
/// calls with the same key return the same color and never move the state.
pub proof fn lemma_idempotent_lookup(key: Seq<char>, map: Map<Seq<char>, u8>, palette: Seq<u8>)
    requires
        palette.len() >= 1,
        map.contains_key(key),
    ensures
        assign_spec(key, map, palette).0 == map[key],
        assign_spec(key, map, palette).1 == map,
        assign_spec(key, map, palette).2 == palette,
        assign_spec(key, assign_spec(key, map, palette).1, assign_spec(key, map, palette).2)
            == assign_spec(key, map, palette),
{
}

/// Monotonic palette shrink: assigning a genuinely new key while more than
/// one color remains removes exactly one color from the palette and records
/// exactly one more key in the map.
pub proof fn lemma_monotonic_shrink(key: Seq<char>, map: Map<Seq<char>, u8>, palette: Seq<u8>)
    requires
        map.dom().finite(),
        !map.contains_key(key),
        palette.len() > 1,
    ensures
        assign_spec(key, map, palette).2.len() == palette.len() - 1,
        assign_spec(key, map, palette).1.dom().finite(),
        assign_spec(key, map, palette).1.dom().len() == map.dom().len() + 1,
{
    vstd::set::axiom_set_insert_len(map.dom(), key);
    assert(map.insert(key, palette[0]).dom() =~= map.dom().insert(key));
}

/// Floor invariant: an assignment never drains the palette to empty; and
/// once a single color is left, even a new key receives that sole color
/// with neither the map nor the palette changed.
pub proof fn lemma_floor_invariant(key: Seq<char>, map: Map<Seq<char>, u8>, palette: Seq<u8>)
    requires
        palette.len() >= 1,
    ensures
        assign_spec(key, map, palette).2.len() >= 1,
        palette.len() == 1 && !map.contains_key(key) ==> assign_spec(key, map, palette) == (
            palette[0],
            map,
            palette,
        ),
{
}

/// Palette integrity: an assignment leaves the palette as it was or removes
/// exactly its first color, never reorders or adds; so a palette without
/// duplicate colors stays without duplicates for the whole run.
pub proof fn lemma_palette_shrink_only(key: Seq<char>, map: Map<Seq<char>, u8>, palette: Seq<u8>)
    requires
        palette.len() >= 1,
    ensures
        assign_spec(key, map, palette).2 == palette || assign_spec(key, map, palette).2
            == palette.drop_first(),
        palette.no_duplicates() ==> assign_spec(key, map, palette).2.no_duplicates(),
{
    if palette.no_duplicates() {
        let rest = palette.drop_first();
        assert forall|i: int, j: int|
            0 <= i < rest.len() && 0 <= j < rest.len() && i != j implies rest[i] != rest[j] by {
            assert(rest[i] == palette[i + 1]);
            assert(rest[j] == palette[j + 1]);
        }
    }
}

/// Column-order independence: the token extracted at column `i` depends on
/// that column of the token sequence alone; two splits that agree at column
/// `i` yield the same extraction there, whatever their other columns hold.
pub proof fn lemma_column_order_independence(
    tokens_a: Seq<Seq<char>>,
    tokens_b: Seq<Seq<char>>,
    i: int,
)
    requires
        0 <= i < tokens_a.len(),
        0 <= i < tokens_b.len(),
        tokens_a[i] == tokens_b[i],
    ensures
        column_of(tokens_a, i) == column_of(tokens_b, i),
{
}

} // verus!
