use bloatware::chunk::{
    hash_chunk, square_fits_grid, wall_rule, wall_rule_is_defined, ChunkCoord, EnemySpawner,
    WallRule, WorldGen, MAX_SPAWN_ATTEMPTS,
    WORLD_SEED,
};
use rand::SeedableRng;

fn coord(x: i32, y: i32) -> ChunkCoord {
    ChunkCoord { x, y }
}

#[test]
fn chunk_seed_values() {
    assert_eq!(hash_chunk(coord(1, 2), WORLD_SEED), 9383619854758504464);
    assert_eq!(hash_chunk(coord(0, 0), WORLD_SEED), 3019483630911711457);
    assert_eq!(hash_chunk(coord(-1, -3), WORLD_SEED), 15102091480774470065);
    assert_eq!(hash_chunk(coord(0, 0), 0), 0);
    assert_eq!(hash_chunk(coord(5, -7), 99), 1626304730155957493);
}

#[test]
fn chunk_seed_is_deterministic_and_position_dependent() {
    assert_eq!(hash_chunk(coord(3, 4), 7), hash_chunk(coord(3, 4), 7));
    assert_ne!(hash_chunk(coord(3, 4), 7), hash_chunk(coord(4, 3), 7));
}

#[test]
fn spawn_chunk_centre_is_clear() {
    for x in 13..=19usize {
        for y in 13..=19usize {
            assert_eq!(wall_rule(coord(0, 0), x, y), WallRule::KeepClear);
        }
    }
    assert_ne!(wall_rule(coord(0, 0), 12, 16), WallRule::KeepClear);
    assert_ne!(wall_rule(coord(1, 0), 16, 16), WallRule::KeepClear);
}

#[test]
fn border_rule_on_every_fourth_chunk() {
    assert_eq!(wall_rule(coord(4, 1), 0, 5), WallRule::Border);
    assert_eq!(wall_rule(coord(-8, 1), 0, 5), WallRule::Border);
    assert_eq!(wall_rule(coord(1, 4), 5, 0), WallRule::Border);
    assert_eq!(wall_rule(coord(0, 0), 0, 0), WallRule::Border);
    assert_eq!(wall_rule(coord(3, 1), 0, 5), WallRule::Interior { tile_x: 96, tile_y: 37 });
}

#[test]
fn interior_rule_gives_global_tiles() {
    assert_eq!(wall_rule(coord(1, 2), 3, 4), WallRule::Interior { tile_x: 35, tile_y: 68 });
    assert_eq!(wall_rule(coord(-1, -2), 31, 1), WallRule::Interior { tile_x: -1, tile_y: -63 });
    assert_eq!(wall_rule(coord(0, 0), 20, 16), WallRule::Interior { tile_x: 20, tile_y: 16 });
}

#[test]
fn spawner_stops_at_target() {
    let mut s = EnemySpawner::with_target(2);
    assert!(s.should_try());
    s.record_attempt(false);
    s.record_attempt(true);
    assert!(s.should_try());
    s.record_attempt(true);
    assert!(!s.should_try());
    assert_eq!((s.target(), s.spawned(), s.attempts()), (2, 2, 3));
}

#[test]
fn spawner_stops_after_attempts_run_out() {
    let mut s = EnemySpawner::with_target(2);
    let mut n = 0;
    while s.should_try() {
        s.record_attempt(false);
        n += 1;
    }
    assert_eq!(n, MAX_SPAWN_ATTEMPTS);
    assert_eq!(s.spawned(), 0);
    assert_eq!(s.attempts(), MAX_SPAWN_ATTEMPTS);
}

#[test]
fn spawner_target_drawn_in_range() {
    for seed in 0..200u64 {
        let mut rng = rand::rngs::StdRng::seed_from_u64(seed);
        let s = EnemySpawner::from_rng(&mut rng);
        assert!(s.target() == 1 || s.target() == 2);
        assert_eq!(s.spawned(), 0);
        assert_eq!(s.attempts(), 0);
    }
}

#[test]
fn spawner_target_varies_with_seed() {
    let mut seen = [false; 3];
    for seed in 0..200u64 {
        let mut rng = rand::rngs::StdRng::seed_from_u64(seed);
        seen[EnemySpawner::from_rng(&mut rng).target() as usize] = true;
    }
    assert!(seen[1] && seen[2]);
}

fn square(p: ChunkCoord) -> Vec<ChunkCoord> {
    let mut v = Vec::new();
    for dx in -2..=2 {
        for dy in -2..=2 {
            v.push(coord(p.x + dx, p.y + dy));
        }
    }
    v
}

#[test]
fn empty_world_loads_whole_square_in_order() {
    let w = WorldGen::new(WORLD_SEED);
    assert_eq!(w.seed(), WORLD_SEED);
    let p = coord(3, -1);
    let to_load = w.chunks_to_load(p);
    assert_eq!(to_load, square(p));
    assert_eq!(to_load[0], coord(1, -3));
    assert_eq!(to_load[1], coord(1, -2));
    assert_eq!(to_load[24], coord(5, 1));
}

#[test]
fn loaded_chunks_are_not_loaded_again() {
    let mut w = WorldGen::new(1);
    let p = coord(0, 0);
    w.insert_chunk(coord(0, 0), vec![1, 2]);
    w.insert_chunk(coord(2, 2), vec![3]);
    w.insert_chunk(coord(9, 9), vec![]);
    let to_load = w.chunks_to_load(p);
    assert_eq!(to_load.len(), 23);
    assert!(!to_load.contains(&coord(0, 0)));
    assert!(!to_load.contains(&coord(2, 2)));
    for c in to_load {
        w.insert_chunk(c, vec![]);
    }
    for c in square(p) {
        assert!(w.is_loaded(c));
    }
    assert!(w.chunks_to_load(p).is_empty());
}

#[test]
fn cleanup_drops_only_far_chunks() {
    let mut w = WorldGen::new(1);
    let p = coord(10, 10);
    for c in square(p) {
        w.insert_chunk(c, vec![c.x as u64]);
    }
    w.insert_chunk(coord(13, 13), vec![100]);
    w.insert_chunk(coord(14, 10), vec![200, 201]);
    w.insert_chunk(coord(10, 6), vec![300]);
    let removed = w.cleanup_far_chunks(p);
    let mut dropped: Vec<(i32, i32, Vec<u64>)> =
        removed.into_iter().map(|c| (c.coord.x, c.coord.y, c.entities)).collect();
    dropped.sort();
    assert_eq!(dropped, vec![(10, 6, vec![300]), (14, 10, vec![200, 201])]);
    assert!(w.is_loaded(coord(13, 13)));
    assert!(!w.is_loaded(coord(14, 10)));
    for c in square(p) {
        assert!(w.is_loaded(c));
    }
    assert!(w.cleanup_far_chunks(p).is_empty());
}

#[test]
fn moving_player_unloads_behind_and_loads_ahead() {
    let mut w = WorldGen::new(1);
    let start = coord(0, 0);
    for c in w.chunks_to_load(start) {
        w.insert_chunk(c, vec![]);
    }
    let moved = coord(4, 0);
    let removed = w.cleanup_far_chunks(moved);
    assert_eq!(removed.len(), 15);
    assert!(removed.iter().all(|c| c.coord.x <= 0));
    assert!(w.is_loaded(coord(1, 0)) && w.is_loaded(coord(2, 2)));
    let to_load = w.chunks_to_load(moved);
    assert_eq!(to_load.len(), 20);
    assert!(to_load.iter().all(|c| c.x >= 3));
}

#[test]
fn insert_replaces_entities_of_loaded_chunk() {
    let mut w = WorldGen::new(1);
    w.insert_chunk(coord(0, 0), vec![1]);
    w.insert_chunk(coord(0, 0), vec![7, 8]);
    let removed = w.cleanup_far_chunks(coord(100, 100));
    assert_eq!(removed.len(), 1);
    assert_eq!(removed[0].entities, vec![7, 8]);
}

#[test]
fn clear_forgets_everything() {
    let mut w = WorldGen::new(42);
    w.insert_chunk(coord(1, 1), vec![5]);
    w.clear();
    assert!(!w.is_loaded(coord(1, 1)));
    assert_eq!(w.chunks_to_load(coord(1, 1)).len(), 25);
    assert_eq!(w.seed(), 42);
}

#[test]
fn wall_rule_defined_inside_grid_not_at_edge() {
    assert!(wall_rule_is_defined(coord(0, 0), 16, 16));
    assert!(wall_rule_is_defined(coord(-3, 7), 31, 0));
    assert!(wall_rule_is_defined(coord(i32::MAX / 32, 1), 0, 3));
    assert!(wall_rule_is_defined(coord(i32::MAX / 32, 1), 31, 3));
    assert!(!wall_rule_is_defined(coord(i32::MAX / 32 + 1, 1), 1, 3));
    assert!(!wall_rule_is_defined(coord(1, i32::MIN), 3, 5));
    assert!(wall_rule_is_defined(coord(1, i32::MIN), 3, 0));
}

#[test]
fn square_fits_grid_near_limits() {
    assert!(square_fits_grid(coord(0, 0)));
    assert!(square_fits_grid(coord(i32::MAX - 2, i32::MIN + 2)));
    assert!(!square_fits_grid(coord(i32::MAX - 1, 0)));
    assert!(!square_fits_grid(coord(0, i32::MIN + 1)));
}

#[test]
fn offsets_in_range_checks_every_loaded_chunk() {
    let mut w = WorldGen::new(1);
    assert!(w.offsets_in_range(coord(i32::MIN, i32::MAX)));
    w.insert_chunk(coord(5, 5), vec![]);
    assert!(w.offsets_in_range(coord(0, 0)));
    assert!(!w.offsets_in_range(coord(i32::MIN, 0)));
    w.insert_chunk(coord(i32::MIN, 0), vec![]);
    assert!(!w.offsets_in_range(coord(1, 0)));
    assert!(w.offsets_in_range(coord(-1000, 0)));
}
