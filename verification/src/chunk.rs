//! The procedurally generated world is cut into square chunks of tiles that
//! are generated when the player comes near and dropped when the player
//! leaves. This module holds the chunk grid, the per-chunk seed, the wall
//! layout rule, the enemy spawning budget and the set of loaded chunks.
use vstd::prelude::*;

verus! {

/// Tiles along each side of a chunk.
pub const CHUNK_SIZE: usize = 32;
/// Chunks loaded in every direction around the player's chunk.
pub const CHUNK_LOAD_RADIUS: i32 = 2;
/// Extra chunks kept beyond the load radius before a chunk is dropped.
pub const CHUNK_UNLOAD_BUFFER: i32 = 1;
/// Fewest enemies a chunk tries to spawn.
pub const MIN_ENEMIES_PER_CHUNK: u32 = 1;
/// Most enemies a chunk tries to spawn.
pub const MAX_ENEMIES_PER_CHUNK: u32 = 2;
/// Placement attempts a chunk makes for its enemies before giving up.
pub const MAX_SPAWN_ATTEMPTS: u32 = 50;
/// Seed of the world that the chunk plugin starts with.
pub const WORLD_SEED: u64 = 12345;
/// Multiplier of the chunk seed mix.
pub const SEED_MULTIPLIER: u64 = 6364136223846793005;

/// Position of a chunk in the chunk grid.
#[derive(Clone, Copy, Debug, PartialEq, Eq, Hash, Structural)]
pub struct ChunkCoord {
    pub x: i32,
    pub y: i32,
}

pub open spec fn two_pow_64() -> int {
    0x1_0000_0000_0000_0000
}

/// The seed of a chunk: the world seed and the chunk's coordinates combined
/// as `seed·M² + x·M + y` modulo 2⁶⁴, with `M` the seed multiplier.
pub open spec fn chunk_seed(coord: ChunkCoord, world_seed: u64) -> int {
    (world_seed * SEED_MULTIPLIER * SEED_MULTIPLIER + coord.x * SEED_MULTIPLIER + coord.y) % two_pow_64()
}

proof fn lemma_i32_as_u64(v: i32)
    ensures
        (v as u64) as int == (v as int) % two_pow_64(),
{
    if v >= 0 {
        assert((v as u64) == v) by (bit_vector)
            requires
                v >= 0,
        ;
    } else {
        assert((v as u64) as int == v as int + 0x1_0000_0000_0000_0000) by (bit_vector)
            requires
                v < 0,
        ;
    }
}

proof fn lemma_mix_step(a: int, b: int, k: int, m: int)
    requires
        m > 0,
    ensures
        ((a % m) * k % m + b % m) % m == (a * k + b) % m,
{
    vstd::arithmetic::div_mod::lemma_mul_mod_noop_left(a, k, m);
    vstd::arithmetic::div_mod::lemma_add_mod_noop(a * k, b, m);
}

proof fn lemma_seed_mix(s0: u64, x: i32, y: i32)
    ensures
        vstd::wrapping::u64_specs::wrapping_add(
            vstd::wrapping::u64_specs::wrapping_mul(
                vstd::wrapping::u64_specs::wrapping_add(
                    vstd::wrapping::u64_specs::wrapping_mul(s0, SEED_MULTIPLIER),
                    x as u64,
                ),
                SEED_MULTIPLIER,
            ),
            y as u64,
        ) as int == chunk_seed(ChunkCoord { x, y }, s0),
{
    let m = two_pow_64();
    let k = SEED_MULTIPLIER as int;
    lemma_i32_as_u64(x);
    lemma_i32_as_u64(y);
    let a = vstd::wrapping::u64_specs::wrapping_mul(s0, SEED_MULTIPLIER);
    let b = vstd::wrapping::u64_specs::wrapping_add(a, x as u64);
    let c = vstd::wrapping::u64_specs::wrapping_mul(b, SEED_MULTIPLIER);
    let d = vstd::wrapping::u64_specs::wrapping_add(c, y as u64);
    assert(a as int == (s0 * k) % m);
    assert(b as int == (a as int + (x as u64) as int) % m);
    assert(c as int == (b as int * k) % m);
    assert(d as int == (c as int + (y as u64) as int) % m);
    vstd::arithmetic::div_mod::lemma_small_mod(s0 as nat, m as nat);
    lemma_mix_step(s0 as int, x as int, k, m);
    assert(b as int == (s0 * k + x) % m);
    lemma_mix_step(s0 * k + x, y as int, k, m);
    assert(d as int == ((s0 * k + x) * k + y) % m);
    assert((s0 * k + x) * k + y == s0 * k * k + x * k + y) by (nonlinear_arith);
}

/// The seed from which a chunk's layout is generated; the same world seed and
/// coordinates always give the same chunk.
pub fn hash_chunk(coord: ChunkCoord, world_seed: u64) -> (seed: u64)
    ensures
        seed as int == chunk_seed(coord, world_seed),
{
    let mut seed = world_seed;
    seed = seed.wrapping_mul(SEED_MULTIPLIER).wrapping_add(coord.x as u64);
    seed = seed.wrapping_mul(SEED_MULTIPLIER).wrapping_add(coord.y as u64);
    proof {
        lemma_seed_mix(world_seed, coord.x, coord.y);
    }
    seed
}

} // verus!

verus! {

/// Half-width, in tiles, of the square kept free of walls around the centre of
/// the spawn chunk.
pub const CLEAR_RADIUS: i32 = 3;
/// Every this many chunks along an axis, a chunk carries a wall on its edge.
pub const BORDER_PERIOD: i32 = 4;

/// Which rule decides whether a tile of a chunk holds a wall. The random draws
/// and the noise of the last two rules are made by the caller.
#[derive(Clone, Copy, Debug, PartialEq, Eq, Structural)]
pub enum WallRule {
    /// Inside the cleared square at the centre of the spawn chunk: no wall.
    KeepClear,
    /// On a bordered chunk edge: a wall unless a random draw leaves an opening.
    Border,
    /// Anywhere else: a wall where the noise at these global tile coordinates
    /// is high, or on a rare random draw.
    Interior { tile_x: i32, tile_y: i32 },
}

pub open spec fn abs_int(v: int) -> int {
    if v < 0 { -v } else { v }
}

/// Tile index as the wall rule reads it (a wrapping conversion to `i32`).
pub open spec fn tile_index(v: usize) -> int {
    (v as i32) as int
}

pub open spec fn chunk_centre() -> int {
    (CHUNK_SIZE / 2) as int
}

/// Whether the tile lies in the cleared square of the spawn chunk.
pub open spec fn in_clear_zone(chunk: ChunkCoord, x: usize, y: usize) -> bool {
    &&& chunk.x == 0 && chunk.y == 0
    &&& abs_int(tile_index(x) - chunk_centre()) <= CLEAR_RADIUS
    &&& abs_int(tile_index(y) - chunk_centre()) <= CLEAR_RADIUS
}

/// Whether the tile lies on a bordered edge: the first column of a chunk whose
/// x is a multiple of the border period, or the first row of a chunk whose y is.
pub open spec fn on_border(chunk: ChunkCoord, x: usize, y: usize) -> bool {
    (chunk.x % BORDER_PERIOD == 0 && x == 0) || (chunk.y % BORDER_PERIOD == 0 && y == 0)
}

/// Global tile coordinate along one axis.
pub open spec fn global_tile(chunk_axis: i32, v: usize) -> int {
    chunk_axis * CHUNK_SIZE + tile_index(v)
}

pub open spec fn fits_i32(v: int) -> bool {
    i32::MIN <= v <= i32::MAX
}

/// The inputs on which the rule is computed without arithmetic overflow: the
/// tile offsets from the centre of the spawn chunk, and the global tile
/// coordinates of interior tiles, fit in `i32`.
pub open spec fn wall_rule_defined(chunk: ChunkCoord, x: usize, y: usize) -> bool {
    &&& (chunk.x == 0 && chunk.y == 0) ==> tile_index(x) - chunk_centre() > i32::MIN
    &&& (chunk.x == 0 && chunk.y == 0 && abs_int(tile_index(x) - chunk_centre()) <= CLEAR_RADIUS)
        ==> tile_index(y) - chunk_centre() > i32::MIN
    &&& (!in_clear_zone(chunk, x, y) && !on_border(chunk, x, y)) ==> {
        &&& fits_i32(chunk.x * CHUNK_SIZE)
        &&& fits_i32(chunk.y * CHUNK_SIZE)
        &&& fits_i32(global_tile(chunk.x, x))
        &&& fits_i32(global_tile(chunk.y, y))
    }
}

/// The rule that applies to tile `(x, y)` of a chunk.
pub open spec fn spec_wall_rule(chunk: ChunkCoord, x: usize, y: usize) -> WallRule {
    if in_clear_zone(chunk, x, y) {
        WallRule::KeepClear
    } else if on_border(chunk, x, y) {
        WallRule::Border
    } else {
        WallRule::Interior {
            tile_x: global_tile(chunk.x, x) as i32,
            tile_y: global_tile(chunk.y, y) as i32,
        }
    }
}

fn abs_i32(v: i32) -> (r: i32)
    requires
        v > i32::MIN,
    ensures
        r == abs_int(v as int),
{
    if v < 0 { -v } else { v }
}

/// Classifies tile `(x, y)` of a chunk for wall generation: the cleared
/// centre of the spawn chunk, a bordered edge, or the interior (with its
/// global tile coordinates, from which the caller computes the noise).
pub fn wall_rule(chunk: ChunkCoord, x: usize, y: usize) -> (rule: WallRule)
    requires
        wall_rule_defined(chunk, x, y),
    ensures
        rule == spec_wall_rule(chunk, x, y),
{
    let xi = x as i32;
    let yi = y as i32;
    let centre = (CHUNK_SIZE / 2) as i32;
    if chunk.x == 0 && chunk.y == 0 {
        if abs_i32(xi - centre) <= CLEAR_RADIUS && abs_i32(yi - centre) <= CLEAR_RADIUS {
            return WallRule::KeepClear;
        }
    }
    if (chunk.x % BORDER_PERIOD == 0 && x == 0) || (chunk.y % BORDER_PERIOD == 0 && y == 0) {
        return WallRule::Border;
    }
    let size = CHUNK_SIZE as i32;
    WallRule::Interior { tile_x: chunk.x * size + xi, tile_y: chunk.y * size + yi }
}

} // verus!

verus! {

proof fn lemma_small_tile_index(v: usize)
    requires
        v < 0x8000_0000,
    ensures
        tile_index(v) == v as int,
{
    assert((v as i32) as int == v as int) by (bit_vector)
        requires
            v < 0x8000_0000usize,
    ;
}

/// The square of tiles at the centre of the spawn chunk is never given a
/// wall, so that the player has room to start.
pub proof fn lemma_spawn_centre_clear(x: usize, y: usize)
    requires
        chunk_centre() - CLEAR_RADIUS <= x <= chunk_centre() + CLEAR_RADIUS,
        chunk_centre() - CLEAR_RADIUS <= y <= chunk_centre() + CLEAR_RADIUS,
    ensures
        spec_wall_rule(ChunkCoord { x: 0, y: 0 }, x, y) == WallRule::KeepClear,
{
    lemma_small_tile_index(x);
    lemma_small_tile_index(y);
}

/// Every tile of a chunk within reach of the `i32` tile grid can be
/// classified: for tile indices inside the chunk and chunk coordinates whose
/// tiles have `i32` global coordinates, the rule is defined.
pub proof fn lemma_wall_rule_defined_in_grid(chunk: ChunkCoord, x: usize, y: usize)
    requires
        x < CHUNK_SIZE,
        y < CHUNK_SIZE,
        fits_i32(chunk.x * CHUNK_SIZE),
        fits_i32(chunk.y * CHUNK_SIZE + CHUNK_SIZE),
        fits_i32(chunk.x * CHUNK_SIZE + CHUNK_SIZE),
        fits_i32(chunk.y * CHUNK_SIZE),
    ensures
        wall_rule_defined(chunk, x, y),
{
    lemma_small_tile_index(x);
    lemma_small_tile_index(y);
}

} // verus!

verus! {

/// The enemy budget of a chunk being generated: how many enemies it wants,
/// how many it has placed and how many placements it has tried. Placement
/// stops when the target is met or the attempts run out.
pub struct EnemySpawner {
    target: u32,
    spawned: u32,
    attempts: u32,
}

impl EnemySpawner {
    pub closed spec fn spec_target(&self) -> u32 {
        self.target
    }

    pub closed spec fn spec_spawned(&self) -> u32 {
        self.spawned
    }

    pub closed spec fn spec_attempts(&self) -> u32 {
        self.attempts
    }

    /// Counts stay consistent: never more placements than attempts or than
    /// the target, never more attempts than allowed.
    pub open spec fn wf(&self) -> bool {
        &&& self.spec_spawned() <= self.spec_attempts()
        &&& self.spec_attempts() <= MAX_SPAWN_ATTEMPTS
        &&& self.spec_spawned() <= self.spec_target()
    }

    /// Whether another placement is tried.
    pub open spec fn spec_should_try(&self) -> bool {
        self.spec_spawned() < self.spec_target() && self.spec_attempts() < MAX_SPAWN_ATTEMPTS
    }

    /// A budget for `target` enemies with nothing tried yet.
    pub fn with_target(target: u32) -> (s: EnemySpawner)
        ensures
            s.wf(),
            s.spec_target() == target,
            s.spec_spawned() == 0,
            s.spec_attempts() == 0,
    {
        EnemySpawner { target, spawned: 0, attempts: 0 }
    }

    /// A budget whose target is drawn from the chunk's generator, between the
    /// fewest and the most enemies per chunk.
    pub fn from_rng(rng: &mut rand::rngs::StdRng) -> (s: EnemySpawner)
        ensures
            s.wf(),
            MIN_ENEMIES_PER_CHUNK <= s.spec_target() <= MAX_ENEMIES_PER_CHUNK,
            s.spec_spawned() == 0,
            s.spec_attempts() == 0,
    {
        let target = crate::random::std_rng_range_inclusive(
            rng,
            MIN_ENEMIES_PER_CHUNK,
            MAX_ENEMIES_PER_CHUNK,
        );
        EnemySpawner::with_target(target)
    }

    pub fn target(&self) -> (n: u32)
        ensures
            n == self.spec_target(),
    {
        self.target
    }

    pub fn spawned(&self) -> (n: u32)
        ensures
            n == self.spec_spawned(),
    {
        self.spawned
    }

    pub fn attempts(&self) -> (n: u32)
        ensures
            n == self.spec_attempts(),
    {
        self.attempts
    }

    /// Whether another placement is tried: enemies are still missing and
    /// attempts remain.
    pub fn should_try(&self) -> (b: bool)
        ensures
            b == self.spec_should_try(),
    {
        self.spawned < self.target && self.attempts < MAX_SPAWN_ATTEMPTS
    }

    /// Records one placement attempt, which placed an enemy when the drawn
    /// position was valid.
    pub fn record_attempt(&mut self, placed: bool)
        requires
            old(self).wf(),
            old(self).spec_should_try(),
        ensures
            final(self).wf(),
            final(self).spec_target() == old(self).spec_target(),
            final(self).spec_attempts() == old(self).spec_attempts() + 1,
            final(self).spec_spawned() == old(self).spec_spawned() + if placed { 1int } else { 0int },
    {
        self.attempts = self.attempts + 1;
        if placed {
            self.spawned = self.spawned + 1;
        }
    }
}

/// However the placements turn out, a chunk stops trying after the allowed
/// number of attempts: a budget whose attempts are used up tries no more.
pub proof fn lemma_spawning_stops(s: EnemySpawner)
    requires
        s.wf(),
        s.spec_attempts() == MAX_SPAWN_ATTEMPTS,
    ensures
        !s.spec_should_try(),
{
}

/// A budget that tries no more has either met its target or used up its
/// attempts.
pub proof fn lemma_spawning_done(s: EnemySpawner)
    requires
        s.wf(),
        !s.spec_should_try(),
    ensures
        s.spec_spawned() == s.spec_target() || s.spec_attempts() == MAX_SPAWN_ATTEMPTS,
{
}

} // verus!

verus! {

/// A chunk of the world that has been generated, with the ids of the
/// entities (walls and enemies) generated for it.
pub struct LoadedChunk {
    pub coord: ChunkCoord,
    pub entities: Vec<u64>,
}

/// The generated world: its seed and the chunks currently loaded, each with
/// its entities. A chunk is loaded at most once.
pub struct WorldGen {
    seed: u64,
    chunks: Vec<LoadedChunk>,
}

/// The loaded chunks as a map from chunk to entity ids (a later entry for the
/// same chunk wins; a well-formed world has none).
pub open spec fn chunk_map(s: Seq<LoadedChunk>) -> Map<ChunkCoord, Seq<u64>>
    decreases s.len(),
{
    if s.len() == 0 {
        Map::empty()
    } else {
        chunk_map(s.drop_last()).insert(s.last().coord, s.last().entities@)
    }
}

/// No chunk occurs twice.
pub open spec fn coords_distinct(s: Seq<LoadedChunk>) -> bool {
    forall|i: int, j: int| 0 <= i < j < s.len() ==> s[i].coord != s[j].coord
}

/// Distance between two chunks along the axis where they are furthest apart.
pub open spec fn chunk_distance(a: ChunkCoord, b: ChunkCoord) -> int {
    let dx = abs_int(a.x - b.x);
    let dy = abs_int(a.y - b.y);
    if dx < dy { dy } else { dx }
}

/// Whether a loaded chunk is dropped when the player stands in `player`:
/// further than the load radius plus the buffer along some axis.
pub open spec fn is_far(c: ChunkCoord, player: ChunkCoord) -> bool {
    chunk_distance(c, player) > CHUNK_LOAD_RADIUS + CHUNK_UNLOAD_BUFFER
}

/// Whether a chunk is kept when the player stands in `player`.
pub open spec fn is_kept(c: ChunkCoord, player: ChunkCoord) -> bool {
    !is_far(c, player)
}

/// The loaded chunks that remain after dropping far chunks.
pub open spec fn kept_chunks(loaded: Map<ChunkCoord, Seq<u64>>, player: ChunkCoord) -> Map<ChunkCoord, Seq<u64>> {
    loaded.filter_keys(|c: ChunkCoord| is_kept(c, player))
}

/// The loaded chunks that are dropped as far.
pub open spec fn dropped_chunks(loaded: Map<ChunkCoord, Seq<u64>>, player: ChunkCoord) -> Map<ChunkCoord, Seq<u64>> {
    loaded.filter_keys(|c: ChunkCoord| is_far(c, player))
}

pub open spec fn keeps_entry(player: ChunkCoord) -> spec_fn(LoadedChunk) -> bool {
    |e: LoadedChunk| is_kept(e.coord, player)
}

pub open spec fn drops_entry(player: ChunkCoord) -> spec_fn(LoadedChunk) -> bool {
    |e: LoadedChunk| is_far(e.coord, player)
}

/// Number of chunks along a side of the loaded square.
pub open spec fn load_side() -> int {
    2 * CHUNK_LOAD_RADIUS + 1
}

/// The chunks that must be loaded around the player's chunk, column by column
/// (x outer, y inner), from the lower left corner.
pub open spec fn load_square(player: ChunkCoord) -> Seq<ChunkCoord> {
    Seq::new(
        (load_side() * load_side()) as nat,
        |k: int|
            ChunkCoord {
                x: (player.x + k / load_side() - CHUNK_LOAD_RADIUS) as i32,
                y: (player.y + k % load_side() - CHUNK_LOAD_RADIUS) as i32,
            },
    )
}

/// The player's chunk is far enough from the edge of the `i32` grid for every
/// chunk of its square to have `i32` coordinates.
pub open spec fn square_in_grid(player: ChunkCoord) -> bool {
    &&& i32::MIN + CHUNK_LOAD_RADIUS <= player.x <= i32::MAX - CHUNK_LOAD_RADIUS
    &&& i32::MIN + CHUNK_LOAD_RADIUS <= player.y <= i32::MAX - CHUNK_LOAD_RADIUS
}

/// The offsets between a chunk and the player's chunk can be computed (and
/// their absolute values taken) in `i32`.
pub open spec fn offset_in_range(c: ChunkCoord, player: ChunkCoord) -> bool {
    &&& i32::MIN < c.x - player.x <= i32::MAX
    &&& i32::MIN < c.y - player.y <= i32::MAX
}

proof fn lemma_chunk_map_dom(s: Seq<LoadedChunk>, c: ChunkCoord)
    ensures
        chunk_map(s).dom().contains(c) <==> exists|i: int| 0 <= i < s.len() && s[i].coord == c,
    decreases s.len(),
{
    if s.len() > 0 {
        lemma_chunk_map_dom(s.drop_last(), c);
        if chunk_map(s.drop_last()).dom().contains(c) {
            let i = choose|i: int| 0 <= i < s.drop_last().len() && s.drop_last()[i].coord == c;
            assert(s[i].coord == c);
        }
        if exists|i: int| 0 <= i < s.len() && s[i].coord == c {
            let i = choose|i: int| 0 <= i < s.len() && s[i].coord == c;
            if i < s.len() - 1 {
                assert(s.drop_last()[i].coord == c);
            }
        }
    }
}

proof fn lemma_chunk_map_value(s: Seq<LoadedChunk>, i: int)
    requires
        coords_distinct(s),
        0 <= i < s.len(),
    ensures
        chunk_map(s).dom().contains(s[i].coord),
        chunk_map(s)[s[i].coord] == s[i].entities@,
    decreases s.len(),
{
    lemma_chunk_map_dom(s, s[i].coord);
    if i < s.len() - 1 {
        lemma_chunk_map_value(s.drop_last(), i);
        assert(s.drop_last()[i] == s[i]);
        assert(s.last().coord != s[i].coord);
    }
}

proof fn lemma_chunk_map_filter(s: Seq<LoadedChunk>, player: ChunkCoord, keep: bool)
    ensures
        keep ==> chunk_map(s.filter(keeps_entry(player))) == chunk_map(s).filter_keys(
            |c: ChunkCoord| is_kept(c, player),
        ),
        !keep ==> chunk_map(s.filter(drops_entry(player))) == chunk_map(s).filter_keys(
            |c: ChunkCoord| is_far(c, player),
        ),
    decreases s.len(),
{
    reveal(Seq::filter);
    if s.len() > 0 {
        lemma_chunk_map_filter(s.drop_last(), player, keep);
        let f = if keep { keeps_entry(player) } else { drops_entry(player) };
        let p = if keep { |c: ChunkCoord| is_kept(c, player) } else { |c: ChunkCoord| is_far(c, player) };
        let m = chunk_map(s.drop_last());
        let last = s.last();
        if f(last) {
            assert(s.filter(f).drop_last() =~= s.drop_last().filter(f));
        }
        assert(chunk_map(s.filter(f)) =~= m.insert(last.coord, last.entities@).filter_keys(p));
    }
}

proof fn lemma_filter_coords_from(s: Seq<LoadedChunk>, f: spec_fn(LoadedChunk) -> bool, j: int)
    requires
        0 <= j < s.filter(f).len(),
    ensures
        exists|i: int| 0 <= i < s.len() && s[i] == s.filter(f)[j],
    decreases s.len(),
{
    reveal(Seq::filter);
    if s.len() > 0 {
        let rest = s.drop_last().filter(f);
        if j < rest.len() {
            lemma_filter_coords_from(s.drop_last(), f, j);
            let i = choose|i: int| 0 <= i < s.drop_last().len() && s.drop_last()[i] == rest[j];
            assert(s[i] == s.filter(f)[j]);
        } else {
            assert(s[s.len() - 1] == s.filter(f)[j]);
        }
    }
}

proof fn lemma_filter_distinct(s: Seq<LoadedChunk>, f: spec_fn(LoadedChunk) -> bool)
    requires
        coords_distinct(s),
    ensures
        coords_distinct(s.filter(f)),
    decreases s.len(),
{
    reveal(Seq::filter);
    if s.len() > 0 {
        let dl = s.drop_last();
        lemma_filter_distinct(dl, f);
        let rest = dl.filter(f);
        if f(s.last()) {
            let out = s.filter(f);
            assert forall|i: int, j: int| 0 <= i < j < out.len() implies out[i].coord != out[j].coord by {
                if j == out.len() - 1 {
                    lemma_filter_coords_from(dl, f, i);
                    let k = choose|k: int| 0 <= k < dl.len() && dl[k] == rest[i];
                    assert(s[k].coord != s[s.len() - 1].coord);
                } else {
                    assert(out[i] == rest[i] && out[j] == rest[j]);
                }
            }
        }
    }
}

proof fn lemma_chunk_map_update(s: Seq<LoadedChunk>, i: int, e: LoadedChunk)
    requires
        coords_distinct(s),
        0 <= i < s.len(),
        s[i].coord == e.coord,
    ensures
        chunk_map(s.update(i, e)) == chunk_map(s).insert(e.coord, e.entities@),
        coords_distinct(s.update(i, e)),
    decreases s.len(),
{
    let u = s.update(i, e);
    if i == s.len() - 1 {
        assert(u.drop_last() =~= s.drop_last());
        assert(chunk_map(u) =~= chunk_map(s).insert(e.coord, e.entities@));
    } else {
        assert(u.drop_last() =~= s.drop_last().update(i, e));
        lemma_chunk_map_update(s.drop_last(), i, e);
        assert(s.last().coord != e.coord);
        assert(chunk_map(u) =~= chunk_map(s).insert(e.coord, e.entities@));
    }
}

impl View for WorldGen {
    type V = Map<ChunkCoord, Seq<u64>>;

    /// The loaded chunks and their entity ids.
    closed spec fn view(&self) -> Map<ChunkCoord, Seq<u64>> {
        chunk_map(self.chunks@)
    }
}

impl WorldGen {
    /// The seed the world's chunks are derived from.
    pub closed spec fn spec_seed(&self) -> u64 {
        self.seed
    }

    /// The seed the world's chunks are derived from.
    pub fn seed(&self) -> (s: u64)
        ensures
            s == self.spec_seed(),
    {
        self.seed
    }

    /// No chunk is loaded twice.
    pub closed spec fn wf(&self) -> bool {
        coords_distinct(self.chunks@)
    }

    /// A world with the given seed and nothing loaded.
    pub fn new(seed: u64) -> (w: WorldGen)
        ensures
            w.wf(),
            w.spec_seed() == seed,
            w@ == Map::<ChunkCoord, Seq<u64>>::empty(),
    {
        WorldGen { seed, chunks: Vec::new() }
    }

    /// Position of a chunk among the loaded ones.
    fn find(&self, c: ChunkCoord) -> (r: Option<usize>)
        ensures
            match r {
                Some(i) => i < self.chunks@.len() && self.chunks@[i as int].coord == c,
                None => !self@.dom().contains(c),
            },
    {
        let n = self.chunks.len();
        let mut i: usize = 0;
        while i < n
            invariant
                n == self.chunks@.len(),
                i <= n,
                forall|j: int| 0 <= j < i ==> self.chunks@[j].coord != c,
            decreases n - i,
        {
            if self.chunks[i].coord == c {
                return Some(i);
            }
            i = i + 1;
        }
        proof {
            lemma_chunk_map_dom(self.chunks@, c);
        }
        None
    }

    /// Whether the chunk is loaded.
    pub fn is_loaded(&self, c: ChunkCoord) -> (b: bool)
        ensures
            b == self@.dom().contains(c),
    {
        let r = self.find(c);
        proof {
            lemma_chunk_map_dom(self.chunks@, c);
        }
        r.is_some()
    }

    /// Records a freshly generated chunk with its entities. A chunk that was
    /// already loaded keeps its place and gets the new entity list.
    pub fn insert_chunk(&mut self, c: ChunkCoord, entities: Vec<u64>)
        requires
            old(self).wf(),
        ensures
            final(self).wf(),
            final(self).spec_seed() == old(self).spec_seed(),
            final(self)@ == old(self)@.insert(c, entities@),
    {
        let ghost ents = entities@;
        let e = LoadedChunk { coord: c, entities };
        match self.find(c) {
            Some(i) => {
                proof {
                    lemma_chunk_map_update(self.chunks@, i as int, e);
                }
                self.chunks.set(i, e);
            },
            None => {
                proof {
                    lemma_chunk_map_dom(self.chunks@, c);
                }
                let ghost before = self.chunks@;
                self.chunks.push(e);
                proof {
                    assert(self.chunks@.drop_last() =~= before);
                    assert forall|i: int, j: int| 0 <= i < j < self.chunks@.len() implies
                        self.chunks@[i].coord != self.chunks@[j].coord by {
                        if j == before.len() {
                            assert(before[i].coord != c);
                        } else {
                            assert(self.chunks@[i] == before[i] && self.chunks@[j] == before[j]);
                        }
                    }
                }
            },
        }
    }

    /// Forgets every loaded chunk (the caller despawns their entities).
    pub fn clear(&mut self)
        ensures
            final(self).wf(),
            final(self).spec_seed() == old(self).spec_seed(),
            final(self)@ == Map::<ChunkCoord, Seq<u64>>::empty(),
    {
        self.chunks = Vec::new();
    }
}

} // verus!

verus! {

fn abs_diff_i32(a: i32, b: i32) -> (r: i32)
    requires
        i32::MIN < a - b <= i32::MAX,
    ensures
        r == abs_int(a - b),
{
    let d = a - b;
    if d < 0 { -d } else { d }
}

/// The chunks of the player's square that are not in `loaded`, in the order
/// of `load_square`.
pub open spec fn unloaded_in_square(loaded: Map<ChunkCoord, Seq<u64>>, player: ChunkCoord) -> Seq<ChunkCoord> {
    load_square(player).filter(|c: ChunkCoord| !loaded.dom().contains(c))
}

impl WorldGen {
    /// The chunks of the player's square that are not loaded yet, in the order
    /// in which they are generated (x outer, y inner).
    pub fn chunks_to_load(&self, player: ChunkCoord) -> (r: Vec<ChunkCoord>)
        requires
            square_in_grid(player),
        ensures
            r@ == unloaded_in_square(self@, player),
    {
        let ghost sq = load_square(player);
        let ghost pred = |c: ChunkCoord| !self@.dom().contains(c);
        let mut out: Vec<ChunkCoord> = Vec::new();
        let mut dx: i32 = -CHUNK_LOAD_RADIUS;
        while dx <= CHUNK_LOAD_RADIUS
            invariant
                -CHUNK_LOAD_RADIUS <= dx <= CHUNK_LOAD_RADIUS + 1,
                square_in_grid(player),
                sq == load_square(player),
                pred == (|c: ChunkCoord| !self@.dom().contains(c)),
                out@ == sq.take((dx + CHUNK_LOAD_RADIUS) * load_side()).filter(pred),
            decreases CHUNK_LOAD_RADIUS + 1 - dx,
        {
            let mut dy: i32 = -CHUNK_LOAD_RADIUS;
            while dy <= CHUNK_LOAD_RADIUS
                invariant
                    -CHUNK_LOAD_RADIUS <= dx <= CHUNK_LOAD_RADIUS,
                    -CHUNK_LOAD_RADIUS <= dy <= CHUNK_LOAD_RADIUS + 1,
                    square_in_grid(player),
                    sq == load_square(player),
                    pred == (|c: ChunkCoord| !self@.dom().contains(c)),
                    out@ == sq.take((dx + CHUNK_LOAD_RADIUS) * load_side() + dy + CHUNK_LOAD_RADIUS).filter(pred),
                decreases CHUNK_LOAD_RADIUS + 1 - dy,
            {
                let c = ChunkCoord { x: player.x + dx, y: player.y + dy };
                let ghost k = (dx + CHUNK_LOAD_RADIUS) * load_side() + dy + CHUNK_LOAD_RADIUS;
                proof {
                    let a = dx + CHUNK_LOAD_RADIUS;
                    let b = dy + CHUNK_LOAD_RADIUS;
                    assert(k / 5 == a && k % 5 == b && 0 <= k < 25) by (nonlinear_arith)
                        requires
                            k == a * 5 + b,
                            0 <= a < 5,
                            0 <= b < 5,
                    ;
                    assert(sq[k] == c);
                    assert(sq.take(k + 1).drop_last() =~= sq.take(k));
                    reveal(Seq::filter);
                }
                if !self.is_loaded(c) {
                    out.push(c);
                }
                dy = dy + 1;
            }
            proof {
                assert((dx + CHUNK_LOAD_RADIUS) * load_side() + load_side() == (dx + 1 + CHUNK_LOAD_RADIUS) * load_side()) by (nonlinear_arith);
            }
            dx = dx + 1;
        }
        proof {
            lemma_load_side();
            assert(sq.len() == 25);
            assert(sq.take(25) =~= sq);
        }
        out
    }

    /// Drops every loaded chunk that lies further than the load radius plus
    /// the buffer from the player's chunk, and returns the dropped chunks with
    /// their entities (for the caller to despawn).
    pub fn cleanup_far_chunks(&mut self, player: ChunkCoord) -> (removed: Vec<LoadedChunk>)
        requires
            old(self).wf(),
            forall|c: ChunkCoord| old(self)@.dom().contains(c) ==> offset_in_range(c, player),
        ensures
            final(self).wf(),
            final(self).spec_seed() == old(self).spec_seed(),
            final(self)@ == kept_chunks(old(self)@, player),
            coords_distinct(removed@),
            chunk_map(removed@) == dropped_chunks(old(self)@, player),
    {
        let ghost orig = self.chunks@;
        let mut rest: Vec<LoadedChunk> = Vec::new();
        std::mem::swap(&mut rest, &mut self.chunks);
        let mut kept: Vec<LoadedChunk> = Vec::new();
        let mut removed: Vec<LoadedChunk> = Vec::new();
        let ghost mut i: int = 0;
        proof {
            assert(rest@ =~= orig.skip(0));
            reveal(Seq::filter);
            assert(orig.take(0) =~= Seq::<LoadedChunk>::empty());
        }
        while rest.len() > 0
            invariant
                0 <= i <= orig.len(),
                rest@ == orig.skip(i),
                kept@ == orig.take(i).filter(keeps_entry(player)),
                removed@ == orig.take(i).filter(drops_entry(player)),
                forall|c: ChunkCoord| chunk_map(orig).dom().contains(c) ==> offset_in_range(c, player),
                self.seed == old(self).seed,
            decreases rest@.len(),
        {
            let e = rest.remove(0);
            proof {
                assert(e == orig[i]);
                assert(orig[i].coord == e.coord);
                lemma_chunk_map_dom(orig, e.coord);
                assert(chunk_map(orig).dom().contains(e.coord));
                assert(offset_in_range(e.coord, player));
                assert(orig.take(i + 1).drop_last() =~= orig.take(i));
                assert(rest@ =~= orig.skip(i + 1));
                reveal(Seq::filter);
            }
            let dx = abs_diff_i32(e.coord.x, player.x);
            let dy = abs_diff_i32(e.coord.y, player.y);
            if dx > CHUNK_LOAD_RADIUS + CHUNK_UNLOAD_BUFFER || dy > CHUNK_LOAD_RADIUS
                + CHUNK_UNLOAD_BUFFER {
                removed.push(e);
            } else {
                kept.push(e);
            }
            proof {
                i = i + 1;
            }
        }
        proof {
            assert(orig.take(i) =~= orig);
            lemma_chunk_map_filter(orig, player, true);
            lemma_chunk_map_filter(orig, player, false);
            lemma_filter_distinct(orig, keeps_entry(player));
            lemma_filter_distinct(orig, drops_entry(player));
        }
        self.chunks = kept;
        removed
    }
}

} // verus!

verus! {

proof fn lemma_load_side()
    ensures
        load_side() == 5,
        load_side() * load_side() == 25,
{
    assert(load_side() == 5);
    assert(load_side() * load_side() == 25) by (nonlinear_arith)
        requires
            load_side() == 5,
    ;
}

proof fn lemma_square_at(player: ChunkCoord, k: int)
    requires
        square_in_grid(player),
        0 <= k < load_side() * load_side(),
    ensures
        load_square(player)[k].x == player.x + k / load_side() - CHUNK_LOAD_RADIUS,
        load_square(player)[k].y == player.y + k % load_side() - CHUNK_LOAD_RADIUS,
        abs_int(load_square(player)[k].x - player.x) <= CHUNK_LOAD_RADIUS,
        abs_int(load_square(player)[k].y - player.y) <= CHUNK_LOAD_RADIUS,
        load_square(player).len() == load_side() * load_side(),
{
    lemma_load_side();
    assert(0 <= k / 5 < 5 && 0 <= k % 5 < 5) by (nonlinear_arith)
        requires
            0 <= k < 25,
    ;
}

proof fn lemma_square_distinct(player: ChunkCoord)
    requires
        square_in_grid(player),
    ensures
        load_square(player).no_duplicates(),
{
    let sq = load_square(player);
    assert forall|i: int, j: int| 0 <= i < sq.len() && 0 <= j < sq.len() && i != j implies sq[i]
        != sq[j] by {
        lemma_square_at(player, i);
        lemma_square_at(player, j);
        assert(i == 5 * (i / 5) + i % 5 && j == 5 * (j / 5) + j % 5) by (nonlinear_arith);
    }
}

proof fn lemma_filter_no_duplicates<A>(s: Seq<A>, f: spec_fn(A) -> bool)
    requires
        s.no_duplicates(),
    ensures
        s.filter(f).no_duplicates(),
    decreases s.len(),
{
    reveal(Seq::filter);
    if s.len() > 0 {
        let dl = s.drop_last();
        assert(dl.no_duplicates());
        lemma_filter_no_duplicates(dl, f);
        let rest = dl.filter(f);
        if f(s.last()) {
            let out = s.filter(f);
            assert forall|i: int, j: int| 0 <= i < out.len() && 0 <= j < out.len() && i != j
                implies out[i] != out[j] by {
                if i == out.len() - 1 || j == out.len() - 1 {
                    let o = if i == out.len() - 1 { j } else { i };
                    assert(rest.contains(rest[o]));
                    lemma_filter_member::<A>(dl, f, o);
                } else {
                    assert(out[i] == rest[i] && out[j] == rest[j]);
                }
            }
        }
    }
}

proof fn lemma_filter_member<A>(s: Seq<A>, f: spec_fn(A) -> bool, j: int)
    requires
        0 <= j < s.filter(f).len(),
    ensures
        s.contains(s.filter(f)[j]),
    decreases s.len(),
{
    reveal(Seq::filter);
    if s.len() > 0 {
        let rest = s.drop_last().filter(f);
        if j < rest.len() {
            lemma_filter_member(s.drop_last(), f, j);
            let i = choose|i: int| 0 <= i < s.drop_last().len() && s.drop_last()[i] == rest[j];
            assert(s[i] == s.filter(f)[j]);
        } else {
            assert(s[s.len() - 1] == s.filter(f)[j]);
        }
    }
}

/// The chunks still to be generated are all unloaded, and none comes twice:
/// each missing chunk of the square is generated exactly once.
pub proof fn lemma_chunks_to_load_fresh(loaded: Map<ChunkCoord, Seq<u64>>, player: ChunkCoord)
    requires
        square_in_grid(player),
    ensures
        ({
            let to_load = load_square(player).filter(|c: ChunkCoord| !loaded.dom().contains(c));
            &&& to_load.no_duplicates()
            &&& forall|i: int| 0 <= i < to_load.len() ==> !loaded.dom().contains(#[trigger] to_load[i])
        }),
{
    let f = |c: ChunkCoord| !loaded.dom().contains(c);
    lemma_square_distinct(player);
    lemma_filter_no_duplicates(load_square(player), f);
    broadcast use vstd::seq_lib::group_filter_ensures;

}

/// Every chunk of the player's square is either loaded already or among the
/// chunks to be generated.
pub proof fn lemma_chunks_to_load_cover_square(loaded: Map<ChunkCoord, Seq<u64>>, player: ChunkCoord)
    requires
        square_in_grid(player),
    ensures
        forall|k: int|
            0 <= k < load_square(player).len() ==> loaded.dom().contains(#[trigger] load_square(player)[k])
                || load_square(player).filter(|c: ChunkCoord| !loaded.dom().contains(c)).contains(
                load_square(player)[k],
            ),
{
    let f = |c: ChunkCoord| !loaded.dom().contains(c);
    broadcast use vstd::seq_lib::group_filter_ensures;

}

/// Dropping far chunks never drops a chunk of the player's square: a chunk is
/// loaded afterwards exactly when it was loaded before.
pub proof fn lemma_cleanup_keeps_square(loaded: Map<ChunkCoord, Seq<u64>>, player: ChunkCoord)
    requires
        square_in_grid(player),
    ensures
        forall|k: int|
            0 <= k < load_square(player).len() ==> (loaded.filter_keys(
                |c: ChunkCoord| is_kept(c, player),
            ).dom().contains(#[trigger] load_square(player)[k]) <==> loaded.dom().contains(
                load_square(player)[k],
            )),
{
    assert forall|k: int| 0 <= k < load_square(player).len() implies is_kept(
        #[trigger] load_square(player)[k],
        player,
    ) by {
        lemma_square_at(player, k);
    }
}

/// Once the missing chunks of the square have been generated (added to what
/// was loaded) and the far chunks dropped, the whole square is loaded.
pub proof fn lemma_square_loaded_after_update(
    loaded: Map<ChunkCoord, Seq<u64>>,
    generated: Map<ChunkCoord, Seq<u64>>,
    player: ChunkCoord,
)
    requires
        square_in_grid(player),
        forall|c: ChunkCoord|
            loaded.dom().contains(c) || load_square(player).filter(
                |c: ChunkCoord| !loaded.dom().contains(c),
            ).contains(c) ==> generated.dom().contains(c),
    ensures
        forall|k: int|
            0 <= k < load_square(player).len() ==> generated.filter_keys(
                |c: ChunkCoord| is_kept(c, player),
            ).dom().contains(#[trigger] load_square(player)[k]),
{
    lemma_chunks_to_load_cover_square(loaded, player);
    lemma_cleanup_keeps_square(generated, player);
}

/// After dropping far chunks, every loaded chunk is within the load radius
/// plus the buffer of the player's chunk, and dropping again drops nothing.
pub proof fn lemma_cleanup_bounds_world(loaded: Map<ChunkCoord, Seq<u64>>, player: ChunkCoord)
    ensures
        ({
            let after = loaded.filter_keys(|c: ChunkCoord| is_kept(c, player));
            &&& forall|c: ChunkCoord| #[trigger] after.dom().contains(c) ==> chunk_distance(c, player)
                <= CHUNK_LOAD_RADIUS + CHUNK_UNLOAD_BUFFER
            &&& after.filter_keys(|c: ChunkCoord| is_kept(c, player)) == after
        }),
{
    let after = loaded.filter_keys(|c: ChunkCoord| is_kept(c, player));
    assert(after.filter_keys(|c: ChunkCoord| is_kept(c, player)) =~= after);
}

} // verus!

verus! {

fn fits_i32_i64(v: i64) -> (b: bool)
    ensures
        b == fits_i32(v as int),
{
    let lo = i32::MIN as i64;
    let hi = i32::MAX as i64;
    lo <= v && v <= hi
}

fn abs_i64(v: i64) -> (r: i64)
    requires
        v > i64::MIN,
    ensures
        r == abs_int(v as int),
{
    if v < 0 { -v } else { v }
}

/// Whether `wall_rule` can be computed for this tile without overflow.
pub fn wall_rule_is_defined(chunk: ChunkCoord, x: usize, y: usize) -> (b: bool)
    ensures
        b == wall_rule_defined(chunk, x, y),
{
    let xi = (x as i32) as i64;
    let yi = (y as i32) as i64;
    let centre = (CHUNK_SIZE / 2) as i64;
    let size = CHUNK_SIZE as i64;
    let min = i32::MIN as i64;
    let centre_chunk = chunk.x == 0 && chunk.y == 0;
    let x_near = abs_i64(xi - centre) <= CLEAR_RADIUS as i64;
    let clear = centre_chunk && x_near && abs_i64(yi - centre) <= CLEAR_RADIUS as i64;
    let border = (chunk.x % BORDER_PERIOD == 0 && x == 0) || (chunk.y % BORDER_PERIOD == 0 && y == 0);
    if centre_chunk && !(xi - centre > min) {
        return false;
    }
    if centre_chunk && x_near && !(yi - centre > min) {
        return false;
    }
    if !clear && !border {
        let cx = chunk.x as i64 * size;
        let cy = chunk.y as i64 * size;
        return fits_i32_i64(cx) && fits_i32_i64(cy) && fits_i32_i64(cx + xi) && fits_i32_i64(cy + yi);
    }
    true
}

/// Whether every chunk of the player's square has `i32` coordinates.
pub fn square_fits_grid(player: ChunkCoord) -> (b: bool)
    ensures
        b == square_in_grid(player),
{
    i32::MIN + CHUNK_LOAD_RADIUS <= player.x && player.x <= i32::MAX - CHUNK_LOAD_RADIUS
        && i32::MIN + CHUNK_LOAD_RADIUS <= player.y && player.y <= i32::MAX - CHUNK_LOAD_RADIUS
}

impl WorldGen {
    /// Whether the offset of every loaded chunk from the player's chunk can
    /// be computed in `i32` (as dropping far chunks requires).
    pub fn offsets_in_range(&self, player: ChunkCoord) -> (b: bool)
        ensures
            b == forall|c: ChunkCoord| self@.dom().contains(c) ==> offset_in_range(c, player),
    {
        let n = self.chunks.len();
        let mut i: usize = 0;
        while i < n
            invariant
                n == self.chunks@.len(),
                i <= n,
                forall|j: int| 0 <= j < i ==> offset_in_range(#[trigger] self.chunks@[j].coord, player),
            decreases n - i,
        {
            let c = self.chunks[i].coord;
            let dx = c.x as i64 - player.x as i64;
            let dy = c.y as i64 - player.y as i64;
            let lo = i32::MIN as i64;
            let hi = i32::MAX as i64;
            if !(lo < dx && dx <= hi && lo < dy && dy <= hi) {
                proof {
                    assert(self.chunks@[i as int].coord == c);
                    lemma_chunk_map_dom(self.chunks@, c);
                    assert(self@.dom().contains(c));
                    assert(!offset_in_range(c, player));
                }
                return false;
            }
            i = i + 1;
        }
        proof {
            assert forall|c: ChunkCoord| self@.dom().contains(c) implies offset_in_range(c, player) by {
                lemma_chunk_map_dom(self.chunks@, c);
            }
        }
        true
    }
}

} // verus!

verus! {

/// Dropping far chunks keeps exactly the loaded chunks that are at most three
/// chunks (load radius 2 plus buffer 1) from the player's chunk along both
/// axes, with their entities unchanged, and drops exactly the loaded chunks
/// more than three chunks away along some axis.
pub proof fn lemma_cleanup_exact(loaded: Map<ChunkCoord, Seq<u64>>, player: ChunkCoord)
    ensures
        forall|c: ChunkCoord|
            #[trigger] kept_chunks(loaded, player).dom().contains(c) <==> (
            loaded.dom().contains(c) && -3 <= c.x - player.x <= 3 && -3 <= c.y - player.y <= 3),
        forall|c: ChunkCoord|
            #[trigger] dropped_chunks(loaded, player).dom().contains(c) <==> (
            loaded.dom().contains(c) && (c.x - player.x > 3 || c.x - player.x < -3 || c.y - player.y
                > 3 || c.y - player.y < -3)),
        forall|c: ChunkCoord|
            #[trigger] kept_chunks(loaded, player).dom().contains(c)
                ==> kept_chunks(loaded, player)[c] == loaded[c],
        forall|c: ChunkCoord|
            #[trigger] dropped_chunks(loaded, player).dom().contains(c)
                ==> dropped_chunks(loaded, player)[c] == loaded[c],
{
}

/// The wall rule, case by case: a tile is kept clear exactly when it lies in
/// chunk (0, 0) within three tiles of the chunk centre (16, 16) on both axes;
/// otherwise it is a border tile exactly when it is column 0 of a chunk whose
/// x is a multiple of 4 or row 0 of a chunk whose y is a multiple of 4;
/// every other tile is interior, with global tile coordinates
/// `chunk·32 + tile` (where these fit in `i32`).
pub proof fn lemma_wall_rule_cases(chunk: ChunkCoord, x: usize, y: usize)
    ensures
        (spec_wall_rule(chunk, x, y) == WallRule::KeepClear) <==> (chunk.x == 0 && chunk.y == 0 && 13
            <= (x as i32) <= 19 && 13 <= (y as i32) <= 19),
        (spec_wall_rule(chunk, x, y) == WallRule::Border) <==> (!(chunk.x == 0 && chunk.y == 0 && 13
            <= (x as i32) <= 19 && 13 <= (y as i32) <= 19) && ((chunk.x % 4 == 0 && x == 0) || (
        chunk.y % 4 == 0 && y == 0))),
        (chunk.x != 0 || chunk.y != 0) ==> spec_wall_rule(chunk, x, y) != WallRule::KeepClear,
        spec_wall_rule(chunk, x, y) matches WallRule::Interior { tile_x, tile_y } ==> {
            &&& (i32::MIN <= chunk.x * 32 + (x as i32) <= i32::MAX ==> tile_x == chunk.x * 32 + (x as i32))
            &&& (i32::MIN <= chunk.y * 32 + (y as i32) <= i32::MAX ==> tile_y == chunk.y * 32 + (y as i32))
        },
{
}

/// The chunks to load are exactly the unloaded chunks at most two chunks
/// (the load radius) from the player's chunk along both axes.
pub proof fn lemma_chunks_to_load_exact(loaded: Map<ChunkCoord, Seq<u64>>, player: ChunkCoord)
    requires
        square_in_grid(player),
    ensures
        forall|c: ChunkCoord|
            #[trigger] unloaded_in_square(loaded, player).contains(c) <==> (!loaded.dom().contains(c) && -2 <= c.x - player.x <= 2 && -2 <= c.y - player.y
                <= 2),
{
    broadcast use vstd::seq_lib::group_filter_ensures;

    let f = |k: ChunkCoord| !loaded.dom().contains(k);
    let sq = load_square(player);
    lemma_load_side();
    assert forall|c: ChunkCoord| #[trigger] sq.filter(f).contains(c) <==> (!loaded.dom().contains(c)
        && -2 <= c.x - player.x <= 2 && -2 <= c.y - player.y <= 2) by {
        if sq.filter(f).contains(c) {
            let j = choose|j: int| 0 <= j < sq.filter(f).len() && sq.filter(f)[j] == c;
            lemma_filter_member(sq, f, j);
            let k = choose|k: int| 0 <= k < sq.len() && sq[k] == c;
            lemma_square_at(player, k);
            assert(f(sq.filter(f)[j]));
        }
        if !loaded.dom().contains(c) && -2 <= c.x - player.x <= 2 && -2 <= c.y - player.y <= 2 {
            let a = c.x - player.x + 2;
            let b = c.y - player.y + 2;
            let k = a * 5 + b;
            assert(k / 5 == a && k % 5 == b && 0 <= k < 25) by (nonlinear_arith)
                requires
                    k == a * 5 + b,
                    0 <= a < 5,
                    0 <= b < 5,
            ;
            lemma_square_at(player, k);
            assert(sq[k] == c);
            assert(f(sq[k]));
        }
    }
}

} // verus!

verus! {

/// The chunk seed is linear in the coordinates: one chunk up adds 1, one
/// chunk right adds the multiplier (modulo 2⁶⁴), and chunk (0, 0) of world
/// seed 0 has seed 0.
pub proof fn lemma_chunk_seed_steps(x: i32, y: i32, world_seed: u64)
    ensures
        y < i32::MAX ==> chunk_seed(ChunkCoord { x, y: (y + 1) as i32 }, world_seed) == (chunk_seed(
            ChunkCoord { x, y },
            world_seed,
        ) + 1) % 0x1_0000_0000_0000_0000,
        x < i32::MAX ==> chunk_seed(ChunkCoord { x: (x + 1) as i32, y }, world_seed) == (chunk_seed(
            ChunkCoord { x, y },
            world_seed,
        ) + 6364136223846793005) % 0x1_0000_0000_0000_0000,
        chunk_seed(ChunkCoord { x: 0, y: 0 }, 0) == 0,
{
    let m = two_pow_64();
    let base = world_seed * SEED_MULTIPLIER * SEED_MULTIPLIER + x * SEED_MULTIPLIER + y;
    if y < i32::MAX {
        vstd::arithmetic::div_mod::lemma_add_mod_noop(base, 1, m);
        vstd::arithmetic::div_mod::lemma_small_mod(1, m as nat);
        vstd::arithmetic::div_mod::lemma_mod_twice(base + 1, m);
        vstd::arithmetic::div_mod::lemma_add_mod_noop(base % m, 1, m);
        vstd::arithmetic::div_mod::lemma_mod_twice(base, m);
    }
    if x < i32::MAX {
        let k = SEED_MULTIPLIER as int;
        assert(world_seed * k * k + (x + 1) * k + y == base + k) by (nonlinear_arith)
            requires
                base == world_seed * k * k + x * k + y,
        ;
        vstd::arithmetic::div_mod::lemma_add_mod_noop(base, k, m);
        vstd::arithmetic::div_mod::lemma_small_mod(k as nat, m as nat);
        vstd::arithmetic::div_mod::lemma_add_mod_noop(base % m, k, m);
        vstd::arithmetic::div_mod::lemma_mod_twice(base, m);
    }
}

/// The square is walked column by column from its lower left corner: it
/// starts two chunks left of and below the player, each step moves one chunk
/// up within a column, and after the fifth chunk of a column the walk moves
/// one column right and back to the bottom row.
pub proof fn lemma_load_square_order(player: ChunkCoord, k: int)
    requires
        square_in_grid(player),
        0 <= k < 24,
    ensures
        load_square(player).len() == 25,
        load_square(player)[0] == (ChunkCoord { x: (player.x - 2) as i32, y: (player.y - 2) as i32 }),
        k % 5 != 4 ==> load_square(player)[k + 1] == (ChunkCoord {
            x: load_square(player)[k].x,
            y: (load_square(player)[k].y + 1) as i32,
        }),
        k % 5 == 4 ==> load_square(player)[k + 1] == (ChunkCoord {
            x: (load_square(player)[k].x + 1) as i32,
            y: (load_square(player)[k].y - 4) as i32,
        }),
{
    lemma_load_side();
    lemma_square_at(player, 0);
    lemma_square_at(player, k);
    lemma_square_at(player, k + 1);
    assert(k % 5 != 4 ==> ((k + 1) / 5 == k / 5 && (k + 1) % 5 == k % 5 + 1)) by (nonlinear_arith)
        requires
            0 <= k,
    ;
    assert(k % 5 == 4 ==> ((k + 1) / 5 == k / 5 + 1 && (k + 1) % 5 == 0)) by (nonlinear_arith)
        requires
            0 <= k,
    ;
}

/// Player chunks within ±2²⁹ have a square inside the grid, and loaded chunks
/// within ±2²⁹ have offsets that can be computed.
pub proof fn lemma_moderate_coordinates(c: ChunkCoord, player: ChunkCoord)
    requires
        -0x2000_0000 <= c.x <= 0x2000_0000,
        -0x2000_0000 <= c.y <= 0x2000_0000,
        -0x2000_0000 <= player.x <= 0x2000_0000,
        -0x2000_0000 <= player.y <= 0x2000_0000,
    ensures
        square_in_grid(player),
        offset_in_range(c, player),
{
}

impl EnemySpawner {
    /// Another placement is tried exactly while fewer enemies than the target
    /// are placed and fewer than fifty attempts are made.
    pub proof fn lemma_should_try_exact(&self)
        ensures
            self.spec_should_try() <==> (self.spec_spawned() < self.spec_target()
                && self.spec_attempts() < 50),
    {
    }

    /// A consistent budget never has more placements than attempts or than
    /// its target, and never more than fifty attempts.
    pub proof fn lemma_budget_bounds(&self)
        requires
            self.wf(),
        ensures
            self.spec_spawned() <= self.spec_attempts() <= 50,
            self.spec_spawned() <= self.spec_target(),
    {
    }
}

} // verus!
