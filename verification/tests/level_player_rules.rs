use bloatware::level::{choose_spawn_index, LevelLayout, LEVEL_MAP};
use bloatware::player::{
    base_frame, dash_overlay_frame, idle_overlay_frame, input_direction, MoveKeys,
};

#[test]
fn level_map_size_and_tiles() {
    let level = LevelLayout::parse(LEVEL_MAP);
    assert_eq!(level.width, 23);
    assert_eq!(level.height, 15);
    assert_eq!(level.walls.len() + level.floors.len(), 23 * 15);
    assert_eq!(level.walls.len(), 23 * 2 + 13 * 2 + 3 + 1 + 1 + 3);
    assert_eq!(level.walls[0], (0, 0));
    assert_eq!(level.walls[22], (0, 22));
    assert_eq!(level.floors[0], (1, 1));
    assert!(level.walls.contains(&(5, 9)));
    assert!(level.walls.contains(&(6, 9)));
    assert!(!level.walls.contains(&(6, 10)));
    assert!(level.floors.contains(&(6, 10)));
}

#[test]
fn level_parse_small_maps() {
    let l = LevelLayout::parse("#.\n.#");
    assert_eq!((l.width, l.height), (2, 2));
    assert_eq!(l.walls, vec![(0, 0), (1, 1)]);
    assert_eq!(l.floors, vec![(0, 1), (1, 0)]);

    let e = LevelLayout::parse("");
    assert_eq!((e.width, e.height), (0, 0));
    assert!(e.walls.is_empty() && e.floors.is_empty());

    let t = LevelLayout::parse("##\n");
    assert_eq!((t.width, t.height), (2, 1));

    let crlf = LevelLayout::parse("#.#\r\n..\r\n#");
    assert_eq!((crlf.width, crlf.height), (3, 3));
    assert_eq!(crlf.walls, vec![(0, 0), (0, 2), (2, 0)]);
    assert_eq!(crlf.floors, vec![(0, 1), (1, 0), (1, 1)]);

    let bare_cr = LevelLayout::parse("##\r");
    assert_eq!((bare_cr.width, bare_cr.height), (3, 1));

    let blank_first = LevelLayout::parse("\n#");
    assert_eq!((blank_first.width, blank_first.height), (0, 2));
    assert_eq!(blank_first.walls, vec![(1, 0)]);
}

#[test]
fn level_width_counts_bytes_columns_count_chars() {
    let l = LevelLayout::parse("é#\n.");
    assert_eq!(l.width, 3);
    assert_eq!(l.walls, vec![(0, 1)]);
    assert_eq!(l.floors, vec![(1, 0)]);
}

#[test]
fn level_matches_line_reading() {
    let level = LevelLayout::parse(LEVEL_MAP);
    let lines: Vec<&str> = LEVEL_MAP.lines().collect();
    assert_eq!(level.height, lines.len());
    assert_eq!(level.width, lines[0].len());
    let mut walls = Vec::new();
    let mut floors = Vec::new();
    for (row, line) in lines.iter().enumerate() {
        for (col, ch) in line.chars().enumerate() {
            if ch == '#' {
                walls.push((row, col));
            } else if ch == '.' {
                floors.push((row, col));
            }
        }
    }
    assert_eq!(level.walls, walls);
    assert_eq!(level.floors, floors);
}

#[test]
fn spawn_index_in_range() {
    assert_eq!(choose_spawn_index(0), None);
    assert_eq!(choose_spawn_index(1), Some(0));
    for _ in 0..100 {
        let i = choose_spawn_index(7).unwrap();
        assert!(i < 7);
    }
}

#[test]
fn direction_from_keys() {
    let k = |up, down, left, right| MoveKeys { up, down, left, right };
    assert_eq!(input_direction(k(false, false, false, false)), (0, 0));
    assert_eq!(input_direction(k(true, false, false, false)), (0, 1));
    assert_eq!(input_direction(k(false, true, false, false)), (0, -1));
    assert_eq!(input_direction(k(false, false, true, false)), (-1, 0));
    assert_eq!(input_direction(k(false, false, false, true)), (1, 0));
    assert_eq!(input_direction(k(true, false, false, true)), (1, 1));
    assert_eq!(input_direction(k(true, true, true, true)), (0, 0));
    assert_eq!(input_direction(k(true, true, true, false)), (-1, 0));
}

#[test]
fn base_frames() {
    assert_eq!(base_frame(false, false, true, 7), 0);
    assert_eq!(base_frame(true, false, true, 6), 7);
    assert_eq!(base_frame(true, false, true, 7), 6);
    assert_eq!(base_frame(true, false, false, 7), 7);
    assert_eq!(base_frame(true, false, false, 0), 6);
    assert_eq!(base_frame(true, false, true, 0), 6);
    assert_eq!(base_frame(true, true, true, 7), 7);
    assert_eq!(base_frame(true, true, false, 0), 7);
}

#[test]
fn walk_alternates_every_tick() {
    let mut f = 6;
    let mut seen = Vec::new();
    for _ in 0..4 {
        f = base_frame(true, false, true, f);
        seen.push(f);
    }
    assert_eq!(seen, vec![7, 6, 7, 6]);
}

#[test]
fn dash_overlay_cycles() {
    assert_eq!(dash_overlay_frame(false, true, 15), 12);
    assert_eq!(dash_overlay_frame(true, false, 14), 14);
    let mut f = 12;
    let mut seen = Vec::new();
    for _ in 0..6 {
        f = dash_overlay_frame(true, true, f);
        seen.push(f);
    }
    assert_eq!(seen, vec![13, 14, 15, 16, 12, 13]);
}

#[test]
fn idle_overlay_cycles() {
    assert_eq!(idle_overlay_frame(false, true, 20), 20);
    assert_eq!(idle_overlay_frame(true, false, 20), 20);
    let mut f = 18;
    let mut seen = Vec::new();
    for _ in 0..7 {
        f = idle_overlay_frame(true, true, f);
        seen.push(f);
    }
    assert_eq!(seen, vec![19, 20, 21, 22, 23, 18, 19]);
}

use bloatware::enemy::{choose_detour, Detour, PathView};

fn view(ahead: bool, right: bool, left: bool, left_closer: bool) -> PathView {
    PathView {
        ahead_blocked: ahead,
        right_blocked: right,
        left_blocked: left,
        left_clearly_closer: left_closer,
    }
}

#[test]
fn detour_straight_when_clear() {
    assert_eq!(choose_detour(view(false, true, true, true)), Detour::Direct);
    assert_eq!(choose_detour(view(false, false, false, false)), Detour::Direct);
}

#[test]
fn detour_prefers_closer_free_side() {
    assert_eq!(choose_detour(view(true, false, false, false)), Detour::Right);
    assert_eq!(choose_detour(view(true, false, false, true)), Detour::Left);
    assert_eq!(choose_detour(view(true, false, true, true)), Detour::Right);
    assert_eq!(choose_detour(view(true, true, false, false)), Detour::Left);
}

#[test]
fn detour_backs_up_when_boxed_in() {
    assert_eq!(choose_detour(view(true, true, true, false)), Detour::BackUp);
    assert_eq!(choose_detour(view(true, true, true, true)), Detour::BackUp);
}

#[test]
fn level_tiles_are_distinct() {
    let level = LevelLayout::parse(LEVEL_MAP);
    let mut all: Vec<(usize, usize)> = level.walls.iter().chain(level.floors.iter()).copied().collect();
    let n = all.len();
    all.sort();
    all.dedup();
    assert_eq!(all.len(), n);
    let odd = LevelLayout::parse("#.#\n.#.\n\n#");
    let mut cells: Vec<(usize, usize)> = odd.walls.iter().chain(odd.floors.iter()).copied().collect();
    let m = cells.len();
    cells.sort();
    cells.dedup();
    assert_eq!(cells.len(), m);
    assert_eq!(odd.walls, vec![(0, 0), (0, 2), (1, 1), (3, 0)]);
}
