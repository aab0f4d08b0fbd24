//! The tile cache: every cell ever classified, with the terrain it was given.
//!
//! Entries are never removed. An entry changes only through `override_at`;
//! `get_or_generate` is the only path that creates one from the noise field.
use std::collections::HashMap;
use vstd::prelude::*;
use crate::grid::GridCoord;
use crate::terrain::{category_of, classify_sample, TileType};

verus! {

broadcast use vstd::std_specs::hash::group_hash_axioms;

/// Offset that makes an `i32` axis non-negative.
pub const HALF_RANGE: i64 = 0x8000_0000;

/// Weight of the `x` axis in a key.
pub const ROW: u64 = 0x1_0000_0000;

/// The hash key of a cell: both axes shifted to be non-negative, `x` in the
/// high half and `y` in the low half.
pub open spec fn key_of(c: GridCoord) -> u64 {
    ((c.x + HALF_RANGE) * ROW + (c.y + HALF_RANGE)) as u64
}

proof fn lemma_key_parts(c: GridCoord)
    ensures
        0 <= (c.x + HALF_RANGE) * ROW + (c.y + HALF_RANGE) <= u64::MAX,
        key_of(c) as int / ROW as int == c.x + HALF_RANGE,
        key_of(c) as int % ROW as int == c.y + HALF_RANGE,
{
    let a = c.x + HALF_RANGE;
    let b = c.y + HALF_RANGE;
    assert(0 <= a * ROW <= 0xffff_ffff * ROW) by (nonlinear_arith)
        requires
            0 <= a <= 0xffff_ffff,
    ;
    vstd::arithmetic::div_mod::lemma_fundamental_div_mod_converse(a * ROW + b, ROW as int, a, b);
}

/// Distinct cells have distinct keys.
pub proof fn lemma_key_injective(c: GridCoord, d: GridCoord)
    ensures
        key_of(c) == key_of(d) ==> c == d,
{
    lemma_key_parts(c);
    lemma_key_parts(d);
}

/// The hash key of cell `c`.
pub fn key(c: GridCoord) -> (r: u64)
    ensures
        r == key_of(c),
{
    proof {
        lemma_key_parts(c);
    }
    let a: u64 = (c.x as i64 + HALF_RANGE) as u64;
    let b: u64 = (c.y as i64 + HALF_RANGE) as u64;
    a * ROW + b
}

/// True when `t` is what classifying cell `c` with the noise field `sample`
/// may give.
pub open spec fn generated_by<F: Fn(GridCoord) -> i32>(sample: F, c: GridCoord, t: TileType) -> bool {
    exists|s: i32| #[trigger] sample.ensures((c,), s) && t == category_of(s as int)
}

/// Every cell ever classified, with its terrain.
pub struct TileCache {
    tiles: HashMap<u64, TileType>,
}

impl View for TileCache {
    type V = Map<GridCoord, TileType>;

    closed spec fn view(&self) -> Map<GridCoord, TileType> {
        Map::new(|c: GridCoord| self.tiles@.contains_key(key_of(c)), |c: GridCoord| self.tiles@[key_of(c)])
    }
}

impl TileCache {
    /// An empty cache.
    pub fn new() -> (r: TileCache)
        ensures
            r@ == Map::<GridCoord, TileType>::empty(),
    {
        let r = TileCache { tiles: HashMap::new() };
        assert(r@ =~= Map::<GridCoord, TileType>::empty());
        r
    }

    /// Whether cell `c` has an entry; changes nothing.
    pub fn contains(&self, c: GridCoord) -> (r: bool)
        ensures
            r == self@.contains_key(c),
    {
        let k = key(c);
        self.tiles.contains_key(&k)
    }

    /// The entry of cell `c`, if there is one.
    pub fn get(&self, c: GridCoord) -> (r: Option<TileType>)
        ensures
            r == (if self@.contains_key(c) { Some(self@[c]) } else { None::<TileType> }),
    {
        let k = key(c);
        match self.tiles.get(&k) {
            Some(t) => Some(*t),
            None => None,
        }
    }

    proof fn lemma_insert_view(old_cache: TileCache, new_cache: TileCache, c: GridCoord, t: TileType)
        requires
            new_cache.tiles@ == old_cache.tiles@.insert(key_of(c), t),
        ensures
            new_cache@ == old_cache@.insert(c, t),
    {
        assert forall|d: GridCoord| #[trigger] new_cache@.contains_key(d) == old_cache@.insert(c, t).contains_key(d)
            by {
            lemma_key_injective(c, d);
        }
        assert forall|d: GridCoord| new_cache@.contains_key(d) implies #[trigger] new_cache@[d] == old_cache@.insert(c, t)[d]
            by {
            lemma_key_injective(c, d);
        }
        assert(new_cache@ =~= old_cache@.insert(c, t));
    }

    /// Sets the entry of cell `c` to `t`, whether or not it had one; the noise
    /// field is not consulted.
    pub fn override_at(&mut self, c: GridCoord, t: TileType)
        ensures
            final(self)@ == old(self)@.insert(c, t),
    {
        let k = key(c);
        self.tiles.insert(k, t);
        proof {
            TileCache::lemma_insert_view(*old(self), *self, c, t);
        }
    }

    /// The entry of cell `c`; on a miss, `c` is classified from the noise field
    /// `sample` and the result stored first.
    pub fn get_or_generate<F: Fn(GridCoord) -> i32>(&mut self, c: GridCoord, sample: &F) -> (r: TileType)
        requires
            sample.requires((c,)),
        ensures
            old(self)@.contains_key(c) ==> r == old(self)@[c] && final(self)@ == old(self)@,
            !old(self)@.contains_key(c) ==> generated_by(*sample, c, r) && final(self)@ == old(self)@.insert(c, r),
            final(self)@.contains_key(c),
            final(self)@[c] == r,
    {
        match self.get(c) {
            Some(t) => t,
            None => {
                let s = sample(c);
                let t = classify_sample(s);
                self.override_at(c, t);
                t
            },
        }
    }
}

} // verus!
