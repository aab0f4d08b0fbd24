//! The streaming reconciler: once per tick it brings the set of live tiles to
//! the visibility window around the viewpoint, and tells the host which tiles
//! to destroy and which to create.
use std::collections::HashSet;
use vstd::prelude::*;
use crate::cache::{generated_by, key, key_of, lemma_key_injective, TileCache};
use crate::grid::{spec_to_grid, spec_to_world, to_grid, to_world, GridCoord, WorldPos};
use crate::terrain::TileType;
use crate::window::{
    clamp_center, contains, in_window, spec_clamp_center, window_fits, window_set, window_tiles,
    MAX_RADIUS,
};

verus! {

broadcast use vstd::std_specs::hash::group_hash_axioms;

/// A request to the host that draws the tiles.
#[derive(Clone, Copy, Debug, PartialEq, Eq, Structural)]
pub enum TileAction {
    /// Create the tile object of `coord`, anchored at `pos`, showing `tile`.
    Spawn { coord: GridCoord, pos: WorldPos, tile: TileType },
    /// Destroy the tile object of `coord`.
    Despawn { coord: GridCoord },
}

pub open spec fn action_coord(a: TileAction) -> GridCoord {
    match a {
        TileAction::Spawn { coord, .. } => coord,
        TileAction::Despawn { coord } => coord,
    }
}

/// The cells that a list of actions touches, in order.
pub open spec fn coords_of(actions: Seq<TileAction>) -> Seq<GridCoord> {
    actions.map_values(|a: TileAction| action_coord(a))
}

/// The cells whose keys are in `keys`.
pub open spec fn coords_in(keys: Set<u64>) -> Set<GridCoord> {
    Set::new(|c: GridCoord| keys.contains(key_of(c)))
}

/// The centre of the window for viewpoint `view`: the cell under it, held so
/// that the window fits in `i32`.
pub open spec fn view_center(view: WorldPos, edge: u32, radius: u32) -> GridCoord {
    spec_clamp_center(spec_to_grid(view, edge), radius)
}

/// Every entry of `a` stands unchanged in `b`.
pub open spec fn keeps_entries(a: Map<GridCoord, TileType>, b: Map<GridCoord, TileType>) -> bool {
    forall|c: GridCoord| #[trigger] a.contains_key(c) ==> b.contains_key(c) && b[c] == a[c]
}

/// What an action of a tick may be: a despawn of a tile that was live and has
/// left the window, or a spawn of a window cell that was not live, at its
/// anchor and with its cached terrain.
pub open spec fn action_fits(
    a: TileAction,
    live_before: Set<GridCoord>,
    center: GridCoord,
    radius: u32,
    edge: u32,
    terrain: Map<GridCoord, TileType>,
) -> bool {
    match a {
        TileAction::Despawn { coord } => live_before.contains(coord) && !in_window(
            center,
            radius,
            coord,
        ),
        TileAction::Spawn { coord, pos, tile } => {
            &&& in_window(center, radius, coord)
            &&& !live_before.contains(coord)
            &&& pos == spec_to_world(coord, edge)
            &&& terrain.contains_key(coord)
            &&& tile == terrain[coord]
        },
    }
}

proof fn lemma_coords_in_insert(keys: Set<u64>, c: GridCoord)
    ensures
        coords_in(keys.insert(key_of(c))) == coords_in(keys).insert(c),
{
    assert forall|d: GridCoord| #[trigger] coords_in(keys.insert(key_of(c))).contains(d)
        == coords_in(keys).insert(c).contains(d) by {
        lemma_key_injective(c, d);
    }
    assert(coords_in(keys.insert(key_of(c))) =~= coords_in(keys).insert(c));
}

proof fn lemma_coords_in_remove(keys: Set<u64>, c: GridCoord)
    ensures
        coords_in(keys.remove(key_of(c))) == coords_in(keys).remove(c),
{
    assert forall|d: GridCoord| #[trigger] coords_in(keys.remove(key_of(c))).contains(d)
        == coords_in(keys).remove(c).contains(d) by {
        lemma_key_injective(c, d);
    }
    assert(coords_in(keys.remove(key_of(c))) =~= coords_in(keys).remove(c));
}

proof fn lemma_push_contains<T>(s: Seq<T>, a: T, d: T)
    ensures
        s.push(a).contains(d) <==> (s.contains(d) || d == a),
{
    if d == a {
        assert(s.push(a)[s.len() as int] == a);
    }
    if s.contains(d) {
        let j = choose|j: int| 0 <= j < s.len() && s[j] == d;
        assert(s.push(a)[j] == d);
    }
    if s.push(a).contains(d) && d != a {
        let j = choose|j: int| 0 <= j < s.len() + 1 && s.push(a)[j] == d;
        assert(s[j] == d);
    }
}

proof fn lemma_take_next<T>(s: Seq<T>, i: int)
    requires
        0 <= i < s.len(),
        s.no_duplicates(),
    ensures
        forall|d: T| #[trigger] s.take(i + 1).contains(d) <==> (s.take(i).contains(d) || d == s[i]),
        !s.take(i).contains(s[i]),
{
    assert(s.take(i + 1) =~= s.take(i).push(s[i]));
    assert forall|d: T| #[trigger] s.take(i + 1).contains(d) <==> (s.take(i).contains(d) || d == s[i]) by {
        lemma_push_contains(s.take(i), s[i], d);
    }
    if s.take(i).contains(s[i]) {
        let j = choose|j: int| 0 <= j < i && s.take(i)[j] == s[i];
        assert(s[j] == s[i]);
    }
}

proof fn lemma_coords_push(s: Seq<TileAction>, a: TileAction)
    ensures
        coords_of(s.push(a)) == coords_of(s).push(action_coord(a)),
{
    assert(coords_of(s.push(a)) =~= coords_of(s).push(action_coord(a)));
}

/// Terrain once generated stays until painted over: along any run of states in
/// which each step keeps the entries of the one before (every tick does;
/// painting a cell does not), a cell that has an entry keeps it unchanged.
pub proof fn lemma_entries_kept_over_ticks(history: Seq<Map<GridCoord, TileType>>, c: GridCoord)
    requires
        history.len() > 0,
        forall|i: int| 0 <= i < history.len() - 1 ==> keeps_entries(#[trigger] history[i], history[i + 1]),
        history[0].contains_key(c),
    ensures
        forall|i: int|
            0 <= i < history.len() ==> (#[trigger] history[i]).contains_key(c) && history[i][c]
                == history[0][c],
    decreases history.len(),
{
    if history.len() > 1 {
        let prefix = history.drop_last();
        assert forall|i: int| 0 <= i < prefix.len() - 1 implies keeps_entries(#[trigger] prefix[i], prefix[i + 1]) by {
            assert(prefix[i] == history[i] && prefix[i + 1] == history[i + 1]);
            assert(keeps_entries(history[i], history[i + 1]));
        }
        lemma_entries_kept_over_ticks(prefix, c);
        let last = history.len() - 1;
        assert(prefix[last - 1] == history[last - 1]);
        assert(keeps_entries(history[last - 1], history[last]));
        assert forall|i: int| 0 <= i < history.len() implies (#[trigger] history[i]).contains_key(c)
            && history[i][c] == history[0][c] by {
            if i < last {
                assert(prefix[i] == history[i]);
            }
        }
    }
}

/// The tile cache, the live set and the window they were last brought to.
pub struct TileStreamer {
    cache: TileCache,
    live: HashSet<u64>,
    center: Option<GridCoord>,
    radius: u32,
    edge: u32,
}

impl TileStreamer {
    /// The terrain of every cell classified so far.
    pub closed spec fn terrain(&self) -> Map<GridCoord, TileType> {
        self.cache@
    }

    /// The cells whose tile objects exist.
    pub closed spec fn live_set(&self) -> Set<GridCoord> {
        coords_in(self.live@)
    }

    /// The centre of the window of the last tick, if there was one.
    pub closed spec fn spec_center(&self) -> Option<GridCoord> {
        self.center
    }

    pub closed spec fn spec_radius(&self) -> u32 {
        self.radius
    }

    pub closed spec fn spec_edge(&self) -> u32 {
        self.edge
    }

    /// Every live tile has a cache entry and lies in the last window.
    pub closed spec fn wf(&self) -> bool {
        &&& self.edge > 0
        &&& self.radius <= MAX_RADIUS
        &&& forall|c: GridCoord| #[trigger]
            self.live_set().contains(c) ==> self.cache@.contains_key(c)
        &&& match self.center {
            None => self.live_set() == Set::<GridCoord>::empty(),
            Some(p) => window_fits(p, self.radius) && self.live_set().subset_of(
                window_set(p, self.radius),
            ),
        }
    }

    /// A streamer with an empty cache and no live tiles, for a window of
    /// `radius` and tiles of edge length `edge`.
    pub fn new(radius: u32, edge: u32) -> (r: TileStreamer)
        requires
            edge > 0,
            radius <= MAX_RADIUS,
        ensures
            r.wf(),
            r.terrain() == Map::<GridCoord, TileType>::empty(),
            r.live_set() == Set::<GridCoord>::empty(),
            r.spec_center() == None::<GridCoord>,
            r.spec_radius() == radius,
            r.spec_edge() == edge,
    {
        let r = TileStreamer {
            cache: TileCache::new(),
            live: HashSet::new(),
            center: None,
            radius,
            edge,
        };
        assert(r.live_set() =~= Set::<GridCoord>::empty());
        r
    }

    /// Brings the live set to the window around viewpoint `view`, classifying
    /// each cell that enters it for the first time with the noise field
    /// `sample`.
    ///
    /// The returned actions are first the despawns of the tiles that left the
    /// window, then the spawns of the cells that entered it; each cell appears
    /// at most once. Cache entries that existed before keep their terrain.
    pub fn tick<F: Fn(GridCoord) -> i32>(&mut self, view: WorldPos, sample: &F) -> (actions: Vec<
        TileAction,
    >)
        requires
            old(self).wf(),
            forall|c: GridCoord| sample.requires((c,)),
        ensures
            final(self).wf(),
            final(self).spec_radius() == old(self).spec_radius(),
            final(self).spec_edge() == old(self).spec_edge(),
            final(self).spec_center() == Some(
                view_center(view, old(self).spec_edge(), old(self).spec_radius()),
            ),
            final(self).live_set() == window_set(
                view_center(view, old(self).spec_edge(), old(self).spec_radius()),
                old(self).spec_radius(),
            ),
            keeps_entries(old(self).terrain(), final(self).terrain()),
            forall|c: GridCoord| #[trigger]
                final(self).terrain().contains_key(c) <==> (old(self).terrain().contains_key(c)
                    || in_window(
                    view_center(view, old(self).spec_edge(), old(self).spec_radius()),
                    old(self).spec_radius(),
                    c,
                )),
            forall|c: GridCoord| #[trigger]
                final(self).terrain().contains_key(c) && !old(self).terrain().contains_key(c)
                    ==> generated_by(*sample, c, final(self).terrain()[c]),
            forall|k: int|
                0 <= k < actions@.len() ==> action_fits(
                    #[trigger] actions@[k],
                    old(self).live_set(),
                    view_center(view, old(self).spec_edge(), old(self).spec_radius()),
                    old(self).spec_radius(),
                    old(self).spec_edge(),
                    final(self).terrain(),
                ),
            forall|c: GridCoord| #[trigger]
                coords_of(actions@).contains(c) <==> (old(self).live_set().contains(c)
                    != in_window(
                    view_center(view, old(self).spec_edge(), old(self).spec_radius()),
                    old(self).spec_radius(),
                    c,
                )),
            coords_of(actions@).no_duplicates(),
            forall|i: int, j: int|
                0 <= i < j < actions@.len() && (#[trigger] actions@[j]) is Despawn
                    ==> (#[trigger] actions@[i]) is Despawn,
    {
        let edge = self.edge;
        let radius = self.radius;
        let grid = to_grid(view, edge);
        let center = clamp_center(grid, radius);
        let ghost live0 = self.live_set();
        let ghost cache0 = self.cache@;
        let mut actions = self.despawn_pass(center);
        let ghost n_desp = actions@.len();
        self.center = Some(center);
        let tiles = window_tiles(center, radius);
        let n = tiles.len();
        let mut j: usize = 0;
        while j < n
            invariant
                self.edge == edge,
                self.radius == radius,
                edge > 0,
                radius <= MAX_RADIUS,
                self.center == Some(center),
                window_fits(center, radius),
                n == tiles@.len(),
                j <= n,
                tiles@.no_duplicates(),
                forall|c: GridCoord| tiles@.contains(c) <==> in_window(center, radius, c),
                forall|c: GridCoord| sample.requires((c,)),
                forall|c: GridCoord| #[trigger]
                    self.live_set().contains(c) <==> ((live0.contains(c) && in_window(
                        center,
                        radius,
                        c,
                    )) || tiles@.take(j as int).contains(c)),
                forall|c: GridCoord| live0.contains(c) ==> #[trigger] cache0.contains_key(c),
                keeps_entries(cache0, self.cache@),
                forall|c: GridCoord| #[trigger]
                    self.cache@.contains_key(c) <==> (cache0.contains_key(c) || tiles@.take(
                        j as int,
                    ).contains(c)),
                forall|c: GridCoord| #[trigger]
                    self.cache@.contains_key(c) && !cache0.contains_key(c) ==> generated_by(
                        *sample,
                        c,
                        self.cache@[c],
                    ),
                n_desp <= actions@.len(),
                forall|k: int| 0 <= k < n_desp ==> (#[trigger] actions@[k]) is Despawn,
                forall|k: int| n_desp <= k < actions@.len() ==> (#[trigger] actions@[k]) is Spawn,
                forall|k: int|
                    0 <= k < actions@.len() ==> action_fits(
                        #[trigger] actions@[k],
                        live0,
                        center,
                        radius,
                        edge,
                        self.cache@,
                    ),
                forall|c: GridCoord| #[trigger]
                    coords_of(actions@).contains(c) <==> ((live0.contains(c) && !in_window(
                        center,
                        radius,
                        c,
                    )) || (tiles@.take(j as int).contains(c) && !live0.contains(c))),
                coords_of(actions@).no_duplicates(),
            decreases n - j,
        {
            let c = tiles[j];
            let ghost live_at_start = self.live_set();
            let ghost keys_at_start = self.live@;
            let ghost coords_at_start = coords_of(actions@);
            let ghost actions_at_start = actions@;
            let ghost cache_at_start = self.cache@;
            proof {
                lemma_take_next(tiles@, j as int);
                assert(live_at_start.contains(c) == keys_at_start.contains(key_of(c)));
            }
            let k = key(c);
            if !self.live.contains(&k) {
                let t = self.cache.get_or_generate(c, sample);
                let pos = to_world(c, edge);
                let a = TileAction::Spawn { coord: c, pos, tile: t };
                actions.push(a);
                self.live.insert(k);
                proof {
                    lemma_coords_in_insert(keys_at_start, c);
                    lemma_coords_push(actions_at_start, a);
                    assert(coords_of(actions@) == coords_at_start.push(c));
                    assert(!coords_at_start.contains(c));
                    assert(self.live_set() == live_at_start.insert(c));
                    assert forall|d: GridCoord| #[trigger] cache0.contains_key(d) implies self.cache@.contains_key(d)
                        && self.cache@[d] == cache0[d] by {
                        assert(cache_at_start.contains_key(d));
                    }
                    assert forall|i: int| 0 <= i < actions@.len() implies action_fits(
                        #[trigger] actions@[i],
                        live0,
                        center,
                        radius,
                        edge,
                        self.cache@,
                    ) by {
                        if i < actions_at_start.len() {
                            assert(actions@[i] == actions_at_start[i]);
                            assert(action_fits(actions_at_start[i], live0, center, radius, edge, cache_at_start));
                            if actions@[i] is Spawn {
                                assert(cache_at_start.contains_key(action_coord(actions@[i])));
                            }
                        } else {
                            assert(actions@[i] == a);
                        }
                    }
                    assert forall|d: GridCoord| #[trigger]
                        self.cache@.contains_key(d) && !cache0.contains_key(d) implies generated_by(
                            *sample,
                            d,
                            self.cache@[d],
                        ) by {
                        if d != c {
                            assert(cache_at_start.contains_key(d));
                        }
                    }
                }
            }
            proof {
                let t1 = tiles@.take(j + 1);
                assert forall|d: GridCoord| #[trigger] self.live_set().contains(d) <==> ((live0.contains(d)
                    && in_window(center, radius, d)) || t1.contains(d)) by {
                    if d != c {
                        assert(self.live_set().contains(d) == live_at_start.contains(d));
                    }
                }
                assert forall|d: GridCoord| #[trigger] coords_of(actions@).contains(d) <==> ((live0.contains(d)
                    && !in_window(center, radius, d)) || (t1.contains(d) && !live0.contains(d))) by {
                    if coords_of(actions@) != coords_at_start {
                        lemma_push_contains(coords_at_start, c, d);
                    }
                }
                assert forall|d: GridCoord| #[trigger] self.cache@.contains_key(d) <==> (cache0.contains_key(d)
                    || t1.contains(d)) by {
                    if d == c {
                        if live_at_start.contains(c) {
                            assert(live0.contains(c) || tiles@.take(j as int).contains(c));
                        }
                    }
                }
            }
            j = j + 1;
        }
        proof {
            assert(tiles@.take(n as int) =~= tiles@);
            assert(self.live_set() =~= window_set(center, radius));
        }
        actions
    }

    /// The radius of the visibility window.
    pub fn radius(&self) -> (r: u32)
        ensures
            r == self.spec_radius(),
    {
        self.radius
    }

    /// The tile edge length, in world units.
    pub fn edge(&self) -> (r: u32)
        ensures
            r == self.spec_edge(),
    {
        self.edge
    }

    /// Whether the tile of cell `c` is live.
    pub fn is_live(&self, c: GridCoord) -> (r: bool)
        ensures
            r == self.live_set().contains(c),
    {
        let k = key(c);
        proof {
            assert(self.live_set().contains(c) == self.live@.contains(key_of(c)));
        }
        self.live.contains(&k)
    }

    /// The cached terrain of cell `c`, if it was ever classified; changes
    /// nothing.
    pub fn cached(&self, c: GridCoord) -> (r: Option<TileType>)
        ensures
            r == (if self.terrain().contains_key(c) {
                Some(self.terrain()[c])
            } else {
                None::<TileType>
            }),
    {
        self.cache.get(c)
    }

    /// Paints the cell under world position `pos` with `tile`: its cache entry
    /// is set to `tile`, and if its tile was live it is dropped from the live
    /// set so that the next tick spawns it again. Returns the cell whose tile
    /// object must be destroyed, if any.
    pub fn paint_at(&mut self, pos: WorldPos, tile: TileType) -> (r: Option<GridCoord>)
        requires
            old(self).wf(),
        ensures
            final(self).wf(),
            final(self).spec_radius() == old(self).spec_radius(),
            final(self).spec_edge() == old(self).spec_edge(),
            final(self).spec_center() == old(self).spec_center(),
            final(self).terrain() == old(self).terrain().insert(
                spec_to_grid(pos, old(self).spec_edge()),
                tile,
            ),
            final(self).live_set() == old(self).live_set().remove(
                spec_to_grid(pos, old(self).spec_edge()),
            ),
            r == (if old(self).live_set().contains(spec_to_grid(pos, old(self).spec_edge())) {
                Some(spec_to_grid(pos, old(self).spec_edge()))
            } else {
                None::<GridCoord>
            }),
    {
        let c = to_grid(pos, self.edge);
        self.cache.override_at(c, tile);
        let k = key(c);
        let ghost keys0 = self.live@;
        proof {
            lemma_coords_in_remove(keys0, c);
            assert(self.live_set().contains(c) == keys0.contains(key_of(c)));
        }
        if self.live.remove(&k) {
            Some(c)
        } else {
            proof {
                assert(keys0.remove(key_of(c)) =~= keys0);
            }
            None
        }
    }

    /// Removes from the live set every tile outside the window around
    /// `center`, and lists a despawn for each.
    fn despawn_pass(&mut self, center: GridCoord) -> (actions: Vec<TileAction>)
        requires
            old(self).wf(),
            window_fits(center, old(self).radius),
        ensures
            final(self).wf(),
            final(self).cache@ == old(self).cache@,
            final(self).center == old(self).center,
            final(self).radius == old(self).radius,
            final(self).edge == old(self).edge,
            final(self).live_set() == old(self).live_set().intersect(
                window_set(center, old(self).radius),
            ),
            forall|k: int|
                0 <= k < actions@.len() ==> (#[trigger] actions@[k]) is Despawn && action_fits(
                    actions@[k],
                    old(self).live_set(),
                    center,
                    old(self).radius,
                    old(self).edge,
                    old(self).cache@,
                ),
            forall|c: GridCoord|
                #[trigger] coords_of(actions@).contains(c) <==> (old(self).live_set().contains(c)
                    && !in_window(center, old(self).radius, c)),
            coords_of(actions@).no_duplicates(),
    {
        let radius = self.radius;
        let mut actions: Vec<TileAction> = Vec::new();
        let ghost live0 = self.live_set();
        let ghost win = window_set(center, radius);
        match self.center {
            None => {
                assert(self.live_set() =~= live0.intersect(win));
                assert(coords_of(actions@) =~= Seq::<GridCoord>::empty());
            },
            Some(prev) => {
                let prev_tiles = window_tiles(prev, radius);
                let n = prev_tiles.len();
                let mut i: usize = 0;
                while i < n
                    invariant
                        self.wf(),
                        self.cache@ == old(self).cache@,
                        self.center == old(self).center,
                        self.center == Some(prev),
                        self.radius == radius,
                        self.edge == old(self).edge,
                        live0 == old(self).live_set(),
                        win == window_set(center, radius),
                        n == prev_tiles@.len(),
                        i <= n,
                        prev_tiles@.no_duplicates(),
                        forall|c: GridCoord| prev_tiles@.contains(c) <==> in_window(prev, radius, c),
                        forall|c: GridCoord|
                            #[trigger] self.live_set().contains(c) <==> (live0.contains(c) && !(
                            prev_tiles@.take(i as int).contains(c) && !in_window(center, radius, c))),
                        forall|k: int|
                            0 <= k < actions@.len() ==> (#[trigger] actions@[k]) is Despawn
                                && action_fits(actions@[k], live0, center, radius, self.edge, self.cache@),
                        forall|c: GridCoord|
                            #[trigger] coords_of(actions@).contains(c) <==> (
                            prev_tiles@.take(i as int).contains(c) && live0.contains(c)
                                && !in_window(center, radius, c)),
                        coords_of(actions@).no_duplicates(),
                    decreases n - i,
                {
                    let c = prev_tiles[i];
                    let ghost live_at_start = self.live_set();
                    let ghost coords_at_start = coords_of(actions@);
                    proof {
                        lemma_take_next(prev_tiles@, i as int);
                    }
                    if !contains(center, radius, c) {
                        let k = key(c);
                        let ghost keys_before = self.live@;
                        let ghost live_before = self.live_set();
                        assert(live_before.contains(c) == keys_before.contains(key_of(c)));
                        if self.live.contains(&k) {
                            let ghost before = actions@;
                            assert(live_before.contains(c));
                            self.live.remove(&k);
                            actions.push(TileAction::Despawn { coord: c });
                            proof {
                                lemma_coords_in_remove(keys_before, c);
                                lemma_coords_push(before, TileAction::Despawn { coord: c });
                                assert(coords_of(actions@) == coords_at_start.push(c));
                                assert(self.live_set() == live_before.remove(c));
                                assert(!coords_of(before).contains(c));
                                assert forall|k: int| 0 <= k < actions@.len() implies (#[trigger] actions@[k]) is Despawn
                                    && action_fits(actions@[k], live0, center, radius, self.edge, self.cache@) by {
                                    if k < before.len() {
                                        assert(actions@[k] == before[k]);
                                    } else {
                                        assert(actions@[k] == TileAction::Despawn { coord: c });
                                    }
                                }
                            }
                        } else {
                            assert(!live_before.contains(c));
                        }
                    }
                    proof {
                        let t0 = prev_tiles@.take(i as int);
                        let t1 = prev_tiles@.take(i + 1);
                        assert forall|d: GridCoord| #[trigger] self.live_set().contains(d) <==> (live0.contains(d) && !(
                            t1.contains(d) && !in_window(center, radius, d))) by {
                            if d != c {
                                assert(self.live_set().contains(d) == live_at_start.contains(d));
                            }
                        }
                        assert forall|d: GridCoord| #[trigger] coords_of(actions@).contains(d) <==> (
                            t1.contains(d) && live0.contains(d) && !in_window(center, radius, d)) by {
                            if coords_of(actions@) != coords_at_start {
                                lemma_push_contains(coords_at_start, c, d);
                            }
                            if d == c {
                                assert(!t0.contains(c));
                                assert(live_at_start.contains(c) == live0.contains(c));
                            }
                        }
                    }
                    i = i + 1;
                }
                proof {
                    assert(prev_tiles@.take(n as int) =~= prev_tiles@);
                    assert(self.live_set() =~= live0.intersect(win));
                }
            },
        }
        actions
    }
}

} // verus!
