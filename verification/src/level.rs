//! The hand-drawn level: a text map in which `#` is a wall tile and `.` a
//! floor tile, one text line per row of tiles, the first line at the top.
use vstd::prelude::*;

verus! {

/// The level of the walled arena.
pub const LEVEL_MAP: &'static str = "\
#######################
#.....................#
#.....................#
#.....................#
#.....................#
#........###..........#
#........#............#
#........#............#
#........###..........#
#.....................#
#.....................#
#.....................#
#.....................#
#.....................#
#######################";

/// Number of line breaks among the first `k` characters of the map: the row
/// of the character at index `k`.
pub open spec fn newlines_before(s: Seq<char>, k: int) -> int
    decreases k,
{
    if k <= 0 {
        0
    } else {
        newlines_before(s, k - 1) + if s[k - 1] == '\n' { 1int } else { 0int }
    }
}

/// Index at which the line holding the character at index `k` starts.
pub open spec fn line_start(s: Seq<char>, k: int) -> int
    decreases k,
{
    if k <= 0 {
        0
    } else if s[k - 1] == '\n' {
        k
    } else {
        line_start(s, k - 1)
    }
}

/// Row and column of the character at index `k`.
pub open spec fn cell_of(s: Seq<char>, k: int) -> (usize, usize) {
    (newlines_before(s, k) as usize, (k - line_start(s, k)) as usize)
}

/// Cells, in reading order, of the characters equal to `tile` among the
/// first `n` characters of the map.
pub open spec fn tiles_upto(s: Seq<char>, tile: char, n: int) -> Seq<(usize, usize)>
    decreases n,
{
    if n <= 0 {
        Seq::empty()
    } else if s[n - 1] == tile {
        tiles_upto(s, tile, n - 1).push(cell_of(s, n - 1))
    } else {
        tiles_upto(s, tile, n - 1)
    }
}

/// Cells, in reading order, of every character of the map equal to `tile`.
pub open spec fn tiles_of(s: Seq<char>, tile: char) -> Seq<(usize, usize)> {
    tiles_upto(s, tile, s.len() as int)
}

/// Number of lines of the map: line breaks end lines, and a last line
/// without a break counts too.
pub open spec fn line_count(s: Seq<char>) -> int {
    newlines_before(s, s.len() as int) + if s.len() > 0 && s.last() != '\n' { 1int } else { 0int }
}

/// Index of the first line break at or after `i`, or the map's length.
pub open spec fn line_end(s: Seq<char>, i: int) -> int
    decreases s.len() - i,
{
    if i >= s.len() {
        s.len() as int
    } else if s[i] == '\n' {
        i
    } else {
        line_end(s, i + 1)
    }
}

/// The first line of the map without its line ending (a line break, or a
/// carriage return and a line break).
pub open spec fn first_line(s: Seq<char>) -> Seq<char> {
    let e = line_end(s, 0);
    if e < s.len() && e > 0 && s[e - 1] == '\r' {
        s.take(e - 1)
    } else {
        s.take(e)
    }
}

/// Width of the level: the length in bytes (UTF-8) of its first line, as
/// `str::len` gives it, or 0 for an empty map.
pub open spec fn level_width(s: Seq<char>) -> usize {
    if s.len() == 0 {
        0
    } else {
        vstd::utf8::encode_utf8(first_line(s)).len() as usize
    }
}

/// The tiles of a level map.
pub struct LevelLayout {
    /// Tiles across (the byte length of the first line).
    pub width: usize,
    /// Rows of tiles (the number of lines).
    pub height: usize,
    /// Row and column of every wall tile, in reading order.
    pub walls: Vec<(usize, usize)>,
    /// Row and column of every floor tile, in reading order.
    pub floors: Vec<(usize, usize)>,
}

proof fn lemma_newlines_bounded(s: Seq<char>, k: int)
    requires
        0 <= k <= s.len(),
    ensures
        0 <= newlines_before(s, k) <= k,
    decreases k,
{
    if k > 0 {
        lemma_newlines_bounded(s, k - 1);
    }
}

proof fn lemma_line_end_found(s: Seq<char>, i: int, j: int)
    requires
        0 <= i <= j < s.len(),
        s[j] == '\n',
        forall|k: int| i <= k < j ==> s[k] != '\n',
    ensures
        line_end(s, i) == j,
    decreases j - i,
{
    if i < j {
        lemma_line_end_found(s, i + 1, j);
    }
}

proof fn lemma_line_end_none(s: Seq<char>, i: int)
    requires
        0 <= i <= s.len(),
        forall|k: int| i <= k < s.len() ==> s[k] != '\n',
    ensures
        line_end(s, i) == s.len(),
    decreases s.len() - i,
{
    if i < s.len() {
        lemma_line_end_none(s, i + 1);
    }
}

impl LevelLayout {
    /// Reads a level map: its size and the cells of its walls and floors.
    pub fn parse(map: &str) -> (level: LevelLayout)
        ensures
            level.width == level_width(map@),
            level.height == line_count(map@),
            level.walls@ == tiles_of(map@, '#'),
            level.floors@ == tiles_of(map@, '.'),
    {
        let n = map.unicode_len();
        let mut walls: Vec<(usize, usize)> = Vec::new();
        let mut floors: Vec<(usize, usize)> = Vec::new();
        let mut row: usize = 0;
        let mut col: usize = 0;
        let mut first_break: Option<usize> = None;
        let mut i: usize = 0;
        while i < n
            invariant
                n == map@.len(),
                i <= n,
                row == newlines_before(map@, i as int),
                col == i - line_start(map@, i as int),
                row <= i,
                col <= i,
                walls@ == tiles_upto(map@, '#', i as int),
                floors@ == tiles_upto(map@, '.', i as int),
                match first_break {
                    Some(e) => e < i && map@[e as int] == '\n' && forall|k: int|
                        0 <= k < e ==> map@[k] != '\n',
                    None => forall|k: int| 0 <= k < i ==> map@[k] != '\n',
                },
            decreases n - i,
        {
            let c = map.get_char(i);
            if c == '#' {
                walls.push((row, col));
            } else if c == '.' {
                floors.push((row, col));
            }
            if c == '\n' {
                row = row + 1;
                col = 0;
                if first_break.is_none() {
                    first_break = Some(i);
                }
            } else {
                col = col + 1;
            }
            i = i + 1;
        }
        let mut height = row;
        if n > 0 && map.get_char(n - 1) != '\n' {
            proof {
                lemma_newlines_bounded(map@, n - 1);
            }
            height = row + 1;
        }
        let width = if n == 0 {
            0
        } else {
            let e = match first_break {
                Some(e) => e,
                None => n,
            };
            proof {
                match first_break {
                    Some(e) => lemma_line_end_found(map@, 0, e as int),
                    None => lemma_line_end_none(map@, 0),
                }
            }
            let end = if e < n && e > 0 && map.get_char(e - 1) == '\r' {
                e - 1
            } else {
                e
            };
            let line = map.substring_char(0, end);
            proof {
                assert(line@ =~= first_line(map@));
            }
            line.len()
        };
        LevelLayout { width, height, walls, floors }
    }
}

} // verus!

verus! {

/// Picks, with the thread-local generator, which of `count` candidate spawn
/// tiles to use; `None` when there is no candidate (the caller then uses its
/// fallback position).
pub fn choose_spawn_index(count: usize) -> (pick: Option<usize>)
    ensures
        pick is None <==> count == 0,
        pick matches Some(i) ==> i < count,
{
    if count == 0 {
        return None;
    }
    let mut rng = crate::random::thread_rng();
    Some(crate::random::thread_rng_below(&mut rng, count))
}

} // verus!

verus! {

proof fn lemma_newlines_monotone(s: Seq<char>, a: int, b: int)
    requires
        0 <= a <= b,
    ensures
        newlines_before(s, a) <= newlines_before(s, b),
    decreases b - a,
{
    if a < b {
        lemma_newlines_monotone(s, a, b - 1);
    }
}

proof fn lemma_line_start_bounded(s: Seq<char>, k: int)
    requires
        0 <= k,
    ensures
        0 <= line_start(s, k) <= k,
    decreases k,
{
    if k > 0 {
        lemma_line_start_bounded(s, k - 1);
    }
}

proof fn lemma_same_line(s: Seq<char>, a: int, b: int)
    requires
        0 <= a <= b <= s.len(),
        forall|j: int| a <= j < b ==> s[j] != '\n',
    ensures
        newlines_before(s, b) == newlines_before(s, a),
        line_start(s, b) == line_start(s, a),
    decreases b - a,
{
    if a < b {
        lemma_same_line(s, a, b - 1);
    }
}

proof fn lemma_cells_differ(s: Seq<char>, k1: int, k2: int)
    requires
        0 <= k1 < k2 < s.len(),
        s.len() <= usize::MAX,
    ensures
        cell_of(s, k1) != cell_of(s, k2),
{
    lemma_newlines_bounded(s, k1);
    lemma_newlines_bounded(s, k2);
    lemma_line_start_bounded(s, k1);
    lemma_line_start_bounded(s, k2);
    if exists|j: int| k1 <= j < k2 && s[j] == '\n' {
        let j = choose|j: int| k1 <= j < k2 && s[j] == '\n';
        lemma_newlines_monotone(s, k1, j);
        lemma_newlines_monotone(s, j + 1, k2);
    } else {
        lemma_same_line(s, k1, k2);
    }
}

proof fn lemma_tile_origin(s: Seq<char>, tile: char, n: int, i: int)
    requires
        0 <= n <= s.len(),
        0 <= i < tiles_upto(s, tile, n).len(),
    ensures
        exists|k: int| 0 <= k < n && s[k] == tile && tiles_upto(s, tile, n)[i] == cell_of(s, k),
    decreases n,
{
    if n > 0 {
        let prev = tiles_upto(s, tile, n - 1);
        if i < prev.len() {
            lemma_tile_origin(s, tile, n - 1, i);
            let k = choose|k: int| 0 <= k < n - 1 && s[k] == tile && prev[i] == cell_of(s, k);
            assert(tiles_upto(s, tile, n)[i] == cell_of(s, k));
        } else {
            assert(s[n - 1] == tile && tiles_upto(s, tile, n)[i] == cell_of(s, n - 1));
        }
    }
}

proof fn lemma_tiles_distinct_upto(s: Seq<char>, tile: char, n: int)
    requires
        0 <= n <= s.len(),
        s.len() <= usize::MAX,
    ensures
        tiles_upto(s, tile, n).no_duplicates(),
    decreases n,
{
    if n > 0 {
        lemma_tiles_distinct_upto(s, tile, n - 1);
        let prev = tiles_upto(s, tile, n - 1);
        if s[n - 1] == tile {
            let cur = tiles_upto(s, tile, n);
            assert forall|i: int, j: int| 0 <= i < cur.len() && 0 <= j < cur.len() && i != j implies cur[i]
                != cur[j] by {
                if i == cur.len() - 1 || j == cur.len() - 1 {
                    let o = if i == cur.len() - 1 { j } else { i };
                    lemma_tile_origin(s, tile, n - 1, o);
                    let k = choose|k: int| 0 <= k < n - 1 && s[k] == tile && prev[o] == cell_of(s, k);
                    lemma_cells_differ(s, k, n - 1);
                } else {
                    assert(cur[i] == prev[i] && cur[j] == prev[j]);
                }
            }
        }
    }
}

/// No tile of the level is both a wall and a floor, and no tile is listed
/// twice: every listed cell comes from one character of the map.
pub proof fn lemma_tiles_are_distinct(map: Seq<char>)
    requires
        map.len() <= usize::MAX,
    ensures
        tiles_of(map, '#').no_duplicates(),
        tiles_of(map, '.').no_duplicates(),
        forall|i: int, j: int|
            0 <= i < tiles_of(map, '#').len() && 0 <= j < tiles_of(map, '.').len() ==> #[trigger] tiles_of(
                map,
                '#',
            )[i] != #[trigger] tiles_of(map, '.')[j],
{
    let n = map.len() as int;
    lemma_tiles_distinct_upto(map, '#', n);
    lemma_tiles_distinct_upto(map, '.', n);
    assert forall|i: int, j: int|
        0 <= i < tiles_of(map, '#').len() && 0 <= j < tiles_of(map, '.').len() implies #[trigger] tiles_of(
            map,
            '#',
        )[i] != #[trigger] tiles_of(map, '.')[j] by {
        lemma_tile_origin(map, '#', n, i);
        lemma_tile_origin(map, '.', n, j);
        let k1 = choose|k: int| 0 <= k < n && map[k] == '#' && tiles_upto(map, '#', n)[i] == cell_of(map, k);
        let k2 = choose|k: int| 0 <= k < n && map[k] == '.' && tiles_upto(map, '.', n)[j] == cell_of(map, k);
        if k1 < k2 {
            lemma_cells_differ(map, k1, k2);
        } else {
            lemma_cells_differ(map, k2, k1);
        }
    }
}

} // verus!

verus! {

/// How reading advances through the map: the first character is in row 0,
/// column 0; the character after a line break starts the next row at column
/// 0; the character after any other character is one column further on the
/// same row.
pub proof fn lemma_cell_steps(s: Seq<char>, k: int)
    requires
        s.len() <= usize::MAX,
        0 < k < s.len(),
    ensures
        cell_of(s, 0) == (0usize, 0usize),
        s[k - 1] == '\n' ==> cell_of(s, k) == ((cell_of(s, k - 1).0 + 1) as usize, 0usize),
        s[k - 1] != '\n' ==> cell_of(s, k) == (cell_of(s, k - 1).0, (cell_of(s, k - 1).1 + 1) as usize),
{
    lemma_newlines_bounded(s, k);
    lemma_newlines_bounded(s, k - 1);
    lemma_line_start_bounded(s, k);
    lemma_line_start_bounded(s, k - 1);
}

/// A cell is listed for a tile character exactly when some character of the
/// map equal to it is read at that cell.
pub proof fn lemma_tiles_membership(s: Seq<char>, tile: char, cell: (usize, usize))
    ensures
        tiles_of(s, tile).contains(cell) <==> exists|k: int|
            0 <= k < s.len() && s[k] == tile && cell_of(s, k) == cell,
{
    let n = s.len() as int;
    if tiles_of(s, tile).contains(cell) {
        let i = choose|i: int| 0 <= i < tiles_of(s, tile).len() && tiles_of(s, tile)[i] == cell;
        lemma_tile_origin(s, tile, n, i);
    }
    if exists|k: int| 0 <= k < s.len() && s[k] == tile && cell_of(s, k) == cell {
        let k = choose|k: int| 0 <= k < s.len() && s[k] == tile && cell_of(s, k) == cell;
        lemma_tile_listed(s, tile, n, k);
    }
}

proof fn lemma_tile_listed(s: Seq<char>, tile: char, n: int, k: int)
    requires
        0 <= k < n <= s.len(),
        s[k] == tile,
    ensures
        tiles_upto(s, tile, n).contains(cell_of(s, k)),
    decreases n,
{
    if k == n - 1 {
        let t = tiles_upto(s, tile, n);
        assert(t[t.len() - 1] == cell_of(s, k));
    } else {
        lemma_tile_listed(s, tile, n - 1, k);
        let prev = tiles_upto(s, tile, n - 1);
        let j = choose|j: int| 0 <= j < prev.len() && prev[j] == cell_of(s, k);
        assert(tiles_upto(s, tile, n)[j] == cell_of(s, k));
    }
}

/// The height counts lines: the empty map has none, and appending a
/// character adds a line exactly when it begins a new one (the map was empty
/// or ended with a line break).
pub proof fn lemma_line_count_steps(s: Seq<char>, c: char)
    ensures
        line_count(Seq::<char>::empty()) == 0,
        line_count(s.push(c)) == line_count(s) + if s.len() == 0 || s.last() == '\n' {
            1int
        } else {
            0int
        },
{
    let t = s.push(c);
    assert(t.len() == s.len() + 1);
    assert(newlines_before(t, s.len() as int) == newlines_before(s, s.len() as int)) by {
        lemma_newlines_prefix(s, c, s.len() as int);
    }
}

proof fn lemma_newlines_prefix(s: Seq<char>, c: char, k: int)
    requires
        0 <= k <= s.len(),
    ensures
        newlines_before(s.push(c), k) == newlines_before(s, k),
    decreases k,
{
    if k > 0 {
        lemma_newlines_prefix(s, c, k - 1);
        assert(s.push(c)[k - 1] == s[k - 1]);
    }
}

/// The first line holds no line break, is a prefix of the map, and is
/// followed by the end of the map, a line break, or a carriage return and a
/// line break.
pub proof fn lemma_first_line_shape(s: Seq<char>)
    ensures
        !first_line(s).contains('\n'),
        first_line(s) =~= s.take(first_line(s).len() as int),
        ({
            let n = first_line(s).len() as int;
            ||| n == s.len()
            ||| s[n] == '\n'
            ||| (n + 1 < s.len() && s[n] == '\r' && s[n + 1] == '\n')
        }),
{
    lemma_line_end_shape(s, 0);
    let e = line_end(s, 0);
    if e < s.len() && e > 0 && s[e - 1] == '\r' {
        assert(first_line(s) =~= s.take(e - 1));
    }
    if first_line(s).contains('\n') {
        let i = choose|i: int| 0 <= i < first_line(s).len() && first_line(s)[i] == '\n';
        assert(s[i] == '\n');
    }
}

proof fn lemma_line_end_shape(s: Seq<char>, i: int)
    requires
        0 <= i,
    ensures
        i <= s.len() ==> i <= line_end(s, i) <= s.len(),
        line_end(s, i) < s.len() ==> s[line_end(s, i)] == '\n',
        forall|j: int| i <= j < line_end(s, i) ==> s[j] != '\n',
    decreases s.len() - i,
{
    if i < s.len() && s[i] != '\n' {
        lemma_line_end_shape(s, i + 1);
    }
}

} // verus!
