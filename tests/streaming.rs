use std::collections::HashSet;
use tile_stream::cache::{key, TileCache};
use tile_stream::grid::{to_grid, to_world, viewpoint_or_origin, GridCoord, WorldPos};
use tile_stream::stream::{TileAction, TileStreamer};
use tile_stream::terrain::{classify_sample, mean_sample, TileType};
use tile_stream::window::{clamp_center, contains, window_tiles};

fn gc(x: i32, y: i32) -> GridCoord {
    GridCoord { x, y }
}

fn spawned(actions: &[TileAction]) -> HashSet<(i32, i32)> {
    actions
        .iter()
        .filter_map(|a| match a {
            TileAction::Spawn { coord, .. } => Some((coord.x, coord.y)),
            TileAction::Despawn { .. } => None,
        })
        .collect()
}

fn despawned(actions: &[TileAction]) -> HashSet<(i32, i32)> {
    actions
        .iter()
        .filter_map(|a| match a {
            TileAction::Despawn { coord } => Some((coord.x, coord.y)),
            TileAction::Spawn { .. } => None,
        })
        .collect()
}

fn square(cx: i32, cy: i32, r: i32) -> HashSet<(i32, i32)> {
    let mut s = HashSet::new();
    for y in cy - r..=cy + r {
        for x in cx - r..=cx + r {
            s.insert((x, y));
        }
    }
    s
}

/// A noise field that depends on the cell alone.
fn field(c: GridCoord) -> i32 {
    ((c.x * 7 + c.y * 13).rem_euclid(21) - 10) * 100_000
}

#[test]
fn round_trip_grid_world() {
    for edge in [1u32, 2, 32, 8192, u32::MAX] {
        for c in [gc(0, 0), gc(1, -1), gc(-7, 12), gc(i32::MAX, i32::MIN), gc(i32::MIN, 5)] {
            assert_eq!(to_grid(to_world(c, edge), edge), c);
        }
    }
}

#[test]
fn to_world_scales_by_edge() {
    assert_eq!(to_world(gc(3, -2), 32), WorldPos { x: 96, y: -64 });
}

#[test]
fn to_grid_rounds_halves_away_from_zero() {
    assert_eq!(to_grid(WorldPos { x: 16, y: -16 }, 32), gc(1, -1));
    assert_eq!(to_grid(WorldPos { x: 15, y: -15 }, 32), gc(0, 0));
    assert_eq!(to_grid(WorldPos { x: 47, y: -48 }, 32), gc(1, -2));
    assert_eq!(to_grid(WorldPos { x: 80, y: -81 }, 32), gc(3, -3));
}

#[test]
fn to_grid_holds_to_i32_range() {
    assert_eq!(to_grid(WorldPos { x: i64::MAX, y: i64::MIN }, 1), gc(i32::MAX, i32::MIN));
}

#[test]
fn missing_viewpoint_is_origin() {
    assert_eq!(viewpoint_or_origin(None), WorldPos { x: 0, y: 0 });
    assert_eq!(viewpoint_or_origin(Some(WorldPos { x: 5, y: -3 })), WorldPos { x: 5, y: -3 });
}

#[test]
fn thresholds_sort_samples() {
    assert_eq!(classify_sample(-500_000), TileType::Water);
    assert_eq!(classify_sample(100_000), TileType::Grass);
    assert_eq!(classify_sample(900_000), TileType::Mountain);
}

#[test]
fn thresholds_edges() {
    assert_eq!(classify_sample(-200_001), TileType::Water);
    assert_eq!(classify_sample(-200_000), TileType::Grass);
    assert_eq!(classify_sample(399_999), TileType::Grass);
    assert_eq!(classify_sample(400_000), TileType::Mountain);
}

#[test]
fn classify_is_deterministic() {
    for s in [-1_000_000, -200_000, 0, 399_999, 1_000_000] {
        assert_eq!(classify_sample(s), classify_sample(s));
    }
}

#[test]
fn mean_rounds_down() {
    assert_eq!(mean_sample(&vec![100, 300]), 200);
    assert_eq!(mean_sample(&vec![-1, 0]), -1);
    assert_eq!(mean_sample(&vec![1, 0]), 0);
    assert_eq!(mean_sample(&vec![-7]), -7);
    assert_eq!(mean_sample(&vec![i32::MIN, i32::MIN]), i32::MIN);
    assert_eq!(mean_sample(&vec![-300_000, -700_000, 100_000]), -300_000);
}

#[test]
fn keys_are_distinct() {
    let cells = [gc(0, 0), gc(0, 1), gc(1, 0), gc(-1, 0), gc(0, -1), gc(i32::MIN, i32::MAX)];
    let keys: HashSet<u64> = cells.iter().map(|c| key(*c)).collect();
    assert_eq!(keys.len(), cells.len());
    assert_eq!(key(gc(i32::MIN, i32::MIN)), 0);
    assert_eq!(key(gc(i32::MAX, i32::MAX)), u64::MAX);
}

#[test]
fn cache_generates_once() {
    let mut cache = TileCache::new();
    assert!(!cache.contains(gc(4, 4)));
    let first = cache.get_or_generate(gc(4, 4), &|_c: GridCoord| -900_000);
    assert_eq!(first, TileType::Water);
    assert!(cache.contains(gc(4, 4)));
    let again = cache.get_or_generate(gc(4, 4), &|_c: GridCoord| 900_000);
    assert_eq!(again, TileType::Water);
    assert_eq!(cache.get(gc(4, 4)), Some(TileType::Water));
    assert_eq!(cache.get(gc(4, 5)), None);
}

#[test]
fn cache_override_replaces() {
    let mut cache = TileCache::new();
    cache.get_or_generate(gc(1, 2), &|_c: GridCoord| 0);
    cache.override_at(gc(1, 2), TileType::Mountain);
    assert_eq!(cache.get(gc(1, 2)), Some(TileType::Mountain));
    assert_eq!(cache.get_or_generate(gc(1, 2), &|_c: GridCoord| -900_000), TileType::Mountain);
    cache.override_at(gc(9, 9), TileType::Water);
    assert_eq!(cache.get(gc(9, 9)), Some(TileType::Water));
}

#[test]
fn window_has_every_cell_once() {
    let tiles = window_tiles(gc(3, -4), 2);
    assert_eq!(tiles.len(), 25);
    let set: HashSet<(i32, i32)> = tiles.iter().map(|c| (c.x, c.y)).collect();
    assert_eq!(set, square(3, -4, 2));
    assert_eq!(window_tiles(gc(0, 0), 0), vec![gc(0, 0)]);
    assert_eq!(window_tiles(gc(0, 0), 60).len(), 121 * 121);
}

#[test]
fn window_bounds_are_closed() {
    assert!(contains(gc(0, 0), 2, gc(2, -2)));
    assert!(contains(gc(0, 0), 2, gc(-2, 2)));
    assert!(!contains(gc(0, 0), 2, gc(3, 0)));
    assert!(!contains(gc(0, 0), 2, gc(0, -3)));
}

#[test]
fn window_centre_is_held_inside_range() {
    assert_eq!(clamp_center(gc(i32::MAX, i32::MIN), 2), gc(i32::MAX - 2, i32::MIN + 2));
    assert_eq!(clamp_center(gc(5, -5), 2), gc(5, -5));
    let tiles = window_tiles(clamp_center(gc(i32::MAX, i32::MAX), 1), 1);
    assert_eq!(tiles.len(), 9);
    assert!(tiles.contains(&gc(i32::MAX, i32::MAX)));
}

#[test]
fn first_tick_spawns_window() {
    let mut s = TileStreamer::new(2, 32);
    let actions = s.tick(WorldPos { x: 0, y: 0 }, &field);
    assert_eq!(actions.len(), 25);
    assert_eq!(spawned(&actions), square(0, 0, 2));
    for a in &actions {
        match a {
            TileAction::Spawn { coord, pos, tile } => {
                assert_eq!(*pos, to_world(*coord, 32));
                assert_eq!(*tile, classify_sample(field(*coord)));
                assert_eq!(s.cached(*coord), Some(*tile));
                assert!(s.is_live(*coord));
            }
            TileAction::Despawn { .. } => panic!("nothing was live"),
        }
    }
    assert!(!s.is_live(gc(3, 0)));
    assert_eq!(s.cached(gc(3, 0)), None);
}

#[test]
fn same_viewpoint_changes_nothing() {
    let mut s = TileStreamer::new(2, 32);
    s.tick(WorldPos { x: 0, y: 0 }, &field);
    let actions = s.tick(WorldPos { x: 10, y: -10 }, &field);
    assert!(actions.is_empty());
}

#[test]
fn moving_viewpoint_swaps_columns() {
    let mut s = TileStreamer::new(2, 32);
    s.tick(WorldPos { x: 0, y: 0 }, &field);
    let actions = s.tick(WorldPos { x: 5 * 32, y: 0 }, &field);
    assert_eq!(despawned(&actions), square(0, 0, 2));
    assert_eq!(spawned(&actions), square(5, 0, 2));
    let first_spawn = actions.iter().position(|a| matches!(a, TileAction::Spawn { .. })).unwrap();
    assert!(actions[first_spawn..].iter().all(|a| matches!(a, TileAction::Spawn { .. })));
    for c in square(5, 0, 2) {
        assert!(s.is_live(gc(c.0, c.1)));
    }
    for c in square(0, 0, 2) {
        assert!(!s.is_live(gc(c.0, c.1)));
    }
}

#[test]
fn partial_move_keeps_overlap() {
    let mut s = TileStreamer::new(2, 32);
    s.tick(WorldPos { x: 0, y: 0 }, &field);
    let actions = s.tick(WorldPos { x: 32, y: 0 }, &field);
    let gone: HashSet<(i32, i32)> = (-2..=2).map(|y| (-2, y)).collect();
    let new: HashSet<(i32, i32)> = (-2..=2).map(|y| (3, y)).collect();
    assert_eq!(despawned(&actions), gone);
    assert_eq!(spawned(&actions), new);
    assert_eq!(actions.len(), 10);
}

#[test]
fn revisited_tiles_keep_terrain() {
    let mut s = TileStreamer::new(2, 32);
    let first = s.tick(WorldPos { x: 0, y: 0 }, &|_c: GridCoord| -900_000);
    s.tick(WorldPos { x: 5 * 32, y: 0 }, &|_c: GridCoord| 900_000);
    let back = s.tick(WorldPos { x: 0, y: 0 }, &|_c: GridCoord| 900_000);
    assert_eq!(spawned(&back), square(0, 0, 2));
    for a in first.iter().chain(back.iter()) {
        if let TileAction::Spawn { coord, tile, .. } = a {
            if coord.x <= 2 {
                assert_eq!(*tile, TileType::Water);
            }
        }
    }
    assert_eq!(s.cached(gc(5, 0)), Some(TileType::Mountain));
}

#[test]
fn live_set_matches_window_after_each_tick() {
    let mut s = TileStreamer::new(3, 32);
    for (x, y) in [(0i64, 0i64), (40, 70), (-500, 33), (-500, 33), (1000, -1000)] {
        let view = WorldPos { x, y };
        s.tick(view, &field);
        let centre = to_grid(view, 32);
        for dy in -5..=5 {
            for dx in -5..=5 {
                let c = gc(centre.x + dx, centre.y + dy);
                assert_eq!(s.is_live(c), dx.abs() <= 3 && dy.abs() <= 3);
            }
        }
    }
}

#[test]
fn streamer_reports_configuration() {
    let s = TileStreamer::new(60, 32);
    assert_eq!(s.radius(), 60);
    assert_eq!(s.edge(), 32);
}
