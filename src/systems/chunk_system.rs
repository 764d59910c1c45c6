//! Chunk streaming: once per tick, keep resident exactly the chunks that
//! some loader has within range.
use vstd::prelude::*;
use crate::world::level::Level;
use crate::world::position::{CHUNK_MAX, CHUNK_MIN, Position, TilePosition, tile_to_chunk_spec};

verus! {

/// Keeps the chunks within Chebyshev distance `range` of its own chunk
/// resident.
#[derive(Debug, Clone, Copy, PartialEq, Eq, Structural)]
pub struct ChunkLoader {
    pub range: i32,
}

impl Default for ChunkLoader {
    fn default() -> (r: ChunkLoader)
        ensures
            r.range == 1,
    {
        ChunkLoader { range: 1 }
    }
}

/// Chunk `k` lies within Chebyshev distance `r` of chunk `c`.
pub open spec fn in_square(k: (i32, i32), c: Position, r: int) -> bool {
    c.x - r <= k.0 <= c.x + r && c.y - r <= k.1 <= c.y + r
}

/// Some loader (a tile position and its loader) wants chunk `k` resident.
pub open spec fn demanded(loaders: Seq<(Position, ChunkLoader)>, k: (i32, i32)) -> bool {
    exists|i: int|
        0 <= i < loaders.len() && #[trigger] in_square(
            k,
            tile_to_chunk_spec(loaders[i].0),
            loaders[i].1.range as int,
        )
}

/// The chunks that the loaders want resident.
pub open spec fn demand_set(loaders: Seq<(Position, ChunkLoader)>) -> Set<(i32, i32)> {
    Set::new(|k: (i32, i32)| demanded(loaders, k))
}

/// The loader's square of chunks has only chunks with `i32` tile coordinates.
pub open spec fn loader_fits(l: (Position, ChunkLoader)) -> bool {
    let c = tile_to_chunk_spec(l.0);
    let r = l.1.range as int;
    r < 0 || (CHUNK_MIN <= c.x - r && c.x + r <= CHUNK_MAX && CHUNK_MIN <= c.y - r && c.y + r
        <= CHUNK_MAX)
}

/// `new` differs from `old` only by chunks that were made resident.
pub open spec fn extends<F: Fn(i32, i32, i32) -> bool>(old: Level, new: Level, rock_at: F) -> bool {
    &&& new.seed == old.seed
    &&& forall|k: (i32, i32)| #[trigger]
        old.loaded_map().contains_key(k) ==> new.loaded_map().contains_key(k)
            && new.loaded_map()[k] == old.loaded_map()[k]
    &&& forall|k: (i32, i32)| #[trigger]
        new.loaded_map().contains_key(k) ==> old.loaded_map().contains_key(k)
            || Level::materialized(old, new.loaded_map()[k], k, rock_at)
    &&& forall|k: (i32, i32)| #[trigger]
        new.archived_map().contains_key(k) == (old.archived_map().contains_key(k)
            && !new.loaded_map().contains_key(k))
    &&& forall|k: (i32, i32)| #[trigger]
        new.archived_map().contains_key(k) ==> new.archived_map()[k] == old.archived_map()[k]
}

/// `list` names, each once, exactly the chunks resident in `cur` and not in `base`.
pub open spec fn lists_new(base: Level, cur: Level, list: Seq<Position>) -> bool {
    &&& list.no_duplicates()
    &&& forall|i: int|
        0 <= i < list.len() ==> cur.loaded_map().contains_key(#[trigger] list[i].key())
            && !base.loaded_map().contains_key(list[i].key())
    &&& forall|k: (i32, i32)| #[trigger]
        cur.loaded_map().contains_key(k) && !base.loaded_map().contains_key(k) ==> exists|i: int|
            0 <= i < list.len() && list[i].key() == k
}

proof fn lemma_extends_step<F: Fn(i32, i32, i32) -> bool>(
    base: Level,
    mid: Level,
    new: Level,
    pos: Position,
    rock_at: F,
    loads: Seq<Position>,
)
    requires
        base.wf(),
        mid.wf(),
        extends(base, mid, rock_at),
        lists_new(base, mid, loads),
        !mid.loaded_map().contains_key(pos.key()),
        Level::loaded_after(mid, new, pos, rock_at),
    ensures
        extends(base, new, rock_at),
        lists_new(base, new, loads.push(pos)),
{
    let k = pos.key();
    assert(!base.loaded_map().contains_key(k));
    assert(mid.archived_map().contains_key(k) == base.archived_map().contains_key(k));
    assert(Level::materialized(base, new.loaded_map()[k], k, rock_at));
    assert forall|j: (i32, i32)| #[trigger] new.loaded_map().contains_key(j) implies base.loaded_map().contains_key(j)
        || Level::materialized(base, new.loaded_map()[j], j, rock_at) by {
        if j != k {
            assert(mid.loaded_map().contains_key(j));
        }
    }
    let l2 = loads.push(pos);
    assert forall|a: int, b: int| 0 <= a < l2.len() && 0 <= b < l2.len() && a != b implies l2[a] != l2[b] by {
        if a < loads.len() && b < loads.len() {
        } else if a == loads.len() {
            assert(mid.loaded_map().contains_key(loads[b].key()));
        } else {
            assert(mid.loaded_map().contains_key(loads[a].key()));
        }
    }
    assert forall|i: int| 0 <= i < l2.len() implies new.loaded_map().contains_key(#[trigger] l2[i].key())
        && !base.loaded_map().contains_key(l2[i].key()) by {
        if i < loads.len() {
            assert(l2[i] == loads[i]);
        }
    }
    assert forall|j: (i32, i32)| #[trigger]
        new.loaded_map().contains_key(j) && !base.loaded_map().contains_key(j) implies exists|i: int|
            0 <= i < l2.len() && l2[i].key() == j by {
        if j == k {
            assert(l2[loads.len() as int].key() == j);
        } else {
            assert(mid.loaded_map().contains_key(j));
            let i = choose|i: int| 0 <= i < loads.len() && loads[i].key() == j;
            assert(l2[i].key() == j);
        }
    }
}

/// Makes every chunk within `range` of `center` resident, appending those
/// that were not to `loads`.
fn load_square<F: Fn(i32, i32, i32) -> bool>(
    level: &mut Level,
    center: Position,
    range: i32,
    rock_at: &F,
    loads: &mut Vec<Position>,
    Ghost(base): Ghost<Level>,
)
    requires
        old(level).wf(),
        base.wf(),
        extends(base, *old(level), *rock_at),
        lists_new(base, *old(level), old(loads)@),
        range >= 0,
        CHUNK_MIN <= center.x - range,
        center.x + range <= CHUNK_MAX,
        CHUNK_MIN <= center.y - range,
        center.y + range <= CHUNK_MAX,
        forall|args: (i32, i32, i32)| call_requires(*rock_at, args),
    ensures
        final(level).wf(),
        extends(base, *final(level), *rock_at),
        lists_new(base, *final(level), final(loads)@),
        forall|k: (i32, i32)| #[trigger]
            final(level).loaded_map().contains_key(k) == (old(level).loaded_map().contains_key(k)
                || in_square(k, center, range as int)),
{
    let ghost pre = *level;
    let mut x: i32 = -range;
    while x <= range
        invariant
            level.wf(),
            base.wf(),
            extends(base, *level, *rock_at),
            lists_new(base, *level, loads@),
            range >= 0,
            -range <= x <= range + 1,
            CHUNK_MIN <= center.x - range,
            center.x + range <= CHUNK_MAX,
            CHUNK_MIN <= center.y - range,
            center.y + range <= CHUNK_MAX,
            forall|args: (i32, i32, i32)| call_requires(*rock_at, args),
            forall|k: (i32, i32)| #[trigger]
                level.loaded_map().contains_key(k) == (pre.loaded_map().contains_key(k) || (center.x
                    - range <= k.0 < center.x + x && center.y - range <= k.1 <= center.y + range)),
        decreases range + 1 - x,
    {
        let mut y: i32 = -range;
        while y <= range
            invariant
                level.wf(),
                base.wf(),
                extends(base, *level, *rock_at),
                lists_new(base, *level, loads@),
                range >= 0,
                -range <= x <= range,
                -range <= y <= range + 1,
                CHUNK_MIN <= center.x - range,
                center.x + range <= CHUNK_MAX,
                CHUNK_MIN <= center.y - range,
                center.y + range <= CHUNK_MAX,
                forall|args: (i32, i32, i32)| call_requires(*rock_at, args),
                forall|k: (i32, i32)| #[trigger]
                    level.loaded_map().contains_key(k) == (pre.loaded_map().contains_key(k) || (
                    center.x - range <= k.0 < center.x + x && center.y - range <= k.1 <= center.y
                        + range) || (k.0 == center.x + x && center.y - range <= k.1 < center.y + y)),
            decreases range + 1 - y,
        {
            let c = Position { x: center.x + x, y: center.y + y };
            if !level.is_loaded(&c) {
                let ghost mid = *level;
                let ghost before = loads@;
                let _ = level.load_chunk(c, rock_at);
                loads.push(c);
                proof {
                    lemma_extends_step(base, mid, *level, c, *rock_at, before);
                }
            }
            y = y + 1;
        }
        x = x + 1;
    }
}

/// What one streaming pass makes of `old` for `loaders`, with `loads` and
/// `unloads` the chunks it made resident and archived.
pub open spec fn streamed<F: Fn(i32, i32, i32) -> bool>(
    old: Level,
    new: Level,
    loaders: Seq<(Position, ChunkLoader)>,
    rock_at: F,
    loads: Seq<Position>,
    unloads: Seq<Position>,
) -> bool {
    &&& new.wf()
    &&& new.seed == old.seed
    &&& new.loaded_map().dom() == demand_set(loaders)
    &&& forall|k: (i32, i32)| #[trigger]
        new.loaded_map().contains_key(k) ==> if old.loaded_map().contains_key(k) {
            new.loaded_map()[k] == old.loaded_map()[k]
        } else {
            Level::materialized(old, new.loaded_map()[k], k, rock_at)
        }
    &&& forall|k: (i32, i32)| #[trigger]
        old.loaded_map().contains_key(k) && !demanded(loaders, k) ==> new.archived_map().contains_key(k)
            && new.archived_map()[k].tiles@ == old.loaded_map()[k].tiles@
            && new.archived_map()[k].pos == old.loaded_map()[k].pos
    &&& forall|k: (i32, i32)| #[trigger]
        old.archived_map().contains_key(k) && !demanded(loaders, k) ==> new.archived_map().contains_key(k)
            && new.archived_map()[k] == old.archived_map()[k]
    &&& forall|k: (i32, i32)| #[trigger]
        new.archived_map().contains_key(k) ==> old.archived_map().contains_key(k)
            || old.loaded_map().contains_key(k)
    &&& loads.no_duplicates()
    &&& forall|i: int|
        0 <= i < loads.len() ==> demanded(loaders, #[trigger] loads[i].key())
            && !old.loaded_map().contains_key(loads[i].key())
    &&& forall|k: (i32, i32)|
        demanded(loaders, k) && !#[trigger] old.loaded_map().contains_key(k) ==> exists|i: int|
            0 <= i < loads.len() && loads[i].key() == k
    &&& unloads.no_duplicates()
    &&& forall|i: int|
        0 <= i < unloads.len() ==> !demanded(loaders, #[trigger] unloads[i].key())
            && old.loaded_map().contains_key(unloads[i].key())
    &&& forall|k: (i32, i32)|
        !demanded(loaders, k) && #[trigger] old.loaded_map().contains_key(k) ==> exists|i: int|
            0 <= i < unloads.len() && unloads[i].key() == k
}

/// The chunks within Chebyshev distance `r` of chunk `c`.
pub open spec fn square_set(c: Position, r: int) -> Set<(i32, i32)> {
    Set::new(|k: (i32, i32)| in_square(k, c, r))
}

/// The chunks of `square_set(c, r)`, row by row.
pub open spec fn square_seq(c: Position, r: int) -> Seq<(i32, i32)> {
    let n = 2 * r + 1;
    Seq::new((n * n) as nat, |i: int| ((c.x - r + i / n) as i32, (c.y - r + i % n) as i32))
}

/// A square of radius `r >= 0` whose chunks all have `i32` coordinates holds
/// `(2r + 1)^2` chunks.
pub proof fn lemma_square_len(c: Position, r: int)
    requires
        r >= 0,
        i32::MIN <= c.x - r,
        c.x + r <= i32::MAX,
        i32::MIN <= c.y - r,
        c.y + r <= i32::MAX,
    ensures
        square_set(c, r).finite(),
        square_set(c, r).len() == (2 * r + 1) * (2 * r + 1),
{
    let n = 2 * r + 1;
    let s = square_seq(c, r);
    assert(n * n >= 0) by (nonlinear_arith)
        requires
            n >= 1,
    ;
    assert forall|i: int| 0 <= i < s.len() implies in_square(#[trigger] s[i], c, r)
        && s[i].0 == c.x - r + i / n && s[i].1 == c.y - r + i % n by {
        vstd::arithmetic::div_mod::lemma_fundamental_div_mod(i, n);
        assert(i / n < n) by {
            vstd::arithmetic::div_mod::lemma_div_is_ordered(i, n * n - 1, n);
            assert(n * n - 1 == (n - 1) * n + (n - 1)) by (nonlinear_arith);
            vstd::arithmetic::div_mod::lemma_fundamental_div_mod_converse(n * n - 1, n, n - 1, n - 1);
        }
        assert(i / n >= 0) by {
            vstd::arithmetic::div_mod::lemma_div_pos_is_pos(i, n);
        }
    }
    assert(s.no_duplicates()) by {
        assert forall|i: int, j: int| 0 <= i < s.len() && 0 <= j < s.len() && i != j implies s[i]
            != s[j] by {
            if s[i] == s[j] {
                vstd::arithmetic::div_mod::lemma_fundamental_div_mod(i, n);
                vstd::arithmetic::div_mod::lemma_fundamental_div_mod(j, n);
                assert(i / n == j / n && i % n == j % n);
                assert(i == j);
            }
        }
    }
    assert(s.to_set() =~= square_set(c, r)) by {
        assert forall|k: (i32, i32)| square_set(c, r).contains(k) implies s.to_set().contains(k) by {
            let q = k.0 - (c.x - r);
            let m = k.1 - (c.y - r);
            let i = q * n + m;
            assert(0 <= i < n * n) by (nonlinear_arith)
                requires
                    0 <= q < n,
                    0 <= m < n,
                    i == q * n + m,
            ;
            vstd::arithmetic::div_mod::lemma_fundamental_div_mod_converse(i, n, q, m);
            assert(s[i] == k);
            assert(s.contains(k));
        }
    }
    s.unique_seq_to_set();
}

/// With one loader of range `R >= 0`, a streaming pass leaves resident
/// exactly the `(2R + 1)^2` chunks within distance `R` of the loader's
/// chunk, and no others.
pub proof fn lemma_single_loader_window<F: Fn(i32, i32, i32) -> bool>(
    old: Level,
    new: Level,
    pos: Position,
    loader: ChunkLoader,
    rock_at: F,
    loads: Seq<Position>,
    unloads: Seq<Position>,
)
    requires
        loader.range >= 0,
        loader_fits((pos, loader)),
        streamed(old, new, seq![(pos, loader)], rock_at, loads, unloads),
    ensures
        new.loaded_map().dom() == square_set(tile_to_chunk_spec(pos), loader.range as int),
        new.loaded_map().dom().len() == (2 * loader.range + 1) * (2 * loader.range + 1),
{
    let loaders = seq![(pos, loader)];
    let c = tile_to_chunk_spec(pos);
    assert(new.loaded_map().dom() =~= square_set(c, loader.range as int)) by {
        assert forall|k: (i32, i32)| demanded(loaders, k) == in_square(k, c, loader.range as int) by {
            if in_square(k, c, loader.range as int) {
                assert(in_square(k, tile_to_chunk_spec(loaders[0].0), loaders[0].1.range as int));
            }
        }
        assert(demand_set(loaders) =~= square_set(c, loader.range as int));
    }
    lemma_square_len(c, loader.range as int);
}

/// A second streaming pass with the same loaders loads nothing, archives
/// nothing and leaves both maps as they were.
pub proof fn lemma_streaming_idempotent<F: Fn(i32, i32, i32) -> bool>(
    l0: Level,
    l1: Level,
    l2: Level,
    loaders: Seq<(Position, ChunkLoader)>,
    rock_at: F,
    loads1: Seq<Position>,
    unloads1: Seq<Position>,
    loads2: Seq<Position>,
    unloads2: Seq<Position>,
)
    requires
        streamed(l0, l1, loaders, rock_at, loads1, unloads1),
        streamed(l1, l2, loaders, rock_at, loads2, unloads2),
    ensures
        loads2.len() == 0,
        unloads2.len() == 0,
        l2.loaded_map() == l1.loaded_map(),
        l2.archived_map() == l1.archived_map(),
{
    if loads2.len() > 0 {
        let k = loads2[0].key();
        assert(demand_set(loaders).contains(k));
    }
    if unloads2.len() > 0 {
        let k = unloads2[0].key();
        assert(l1.loaded_map().contains_key(k));
    }
    assert(l2.loaded_map() =~= l1.loaded_map()) by {
        assert(l2.loaded_map().dom() =~= l1.loaded_map().dom());
    }
    assert(l2.archived_map() =~= l1.archived_map()) by {
        assert forall|k: (i32, i32)| #[trigger] l2.archived_map().contains_key(k) == l1.archived_map().contains_key(k) by {
            if demanded(loaders, k) {
                assert(demand_set(loaders).contains(k));
                assert(l1.loaded_map().contains_key(k));
                assert(l2.loaded_map().contains_key(k));
            } else {
                assert(!demand_set(loaders).contains(k));
                if l2.archived_map().contains_key(k) {
                    assert(l1.archived_map().contains_key(k) || l1.loaded_map().contains_key(k));
                }
            }
        }
        assert forall|k: (i32, i32)| #[trigger] l2.archived_map().contains_key(k) implies l2.archived_map()[k]
            == l1.archived_map()[k] by {
            if demanded(loaders, k) {
                assert(demand_set(loaders).contains(k));
                assert(l2.loaded_map().contains_key(k));
            } else {
                assert(!demand_set(loaders).contains(k));
                assert(l1.archived_map().contains_key(k) || l1.loaded_map().contains_key(k));
            }
        }
    }
}

/// The streaming pass.
pub struct ChunkSystem;

impl ChunkSystem {
    /// Whether some loader wants the chunk at `chunk_pos` resident.
    pub fn is_demanded(loaders: &Vec<(Position, ChunkLoader)>, chunk_pos: Position) -> (r: bool)
        ensures
            r == demanded(loaders@, chunk_pos.key()),
    {
        let mut i: usize = 0;
        while i < loaders.len()
            invariant
                0 <= i <= loaders@.len(),
                forall|t: int|
                    0 <= t < i ==> !#[trigger] in_square(
                        chunk_pos.key(),
                        tile_to_chunk_spec(loaders@[t].0),
                        loaders@[t].1.range as int,
                    ),
            decreases loaders@.len() - i,
        {
            let (pos, loader) = loaders[i];
            let c = TilePosition::to_chunk(pos);
            let r = loader.range as i64;
            let dx = (chunk_pos.x as i64) - (c.x as i64);
            let dy = (chunk_pos.y as i64) - (c.y as i64);
            if -r <= dx && dx <= r && -r <= dy && dy <= r {
                proof {
                    assert(in_square(chunk_pos.key(), tile_to_chunk_spec(loaders@[i as int].0), loaders@[i as int].1.range as int));
                }
                return true;
            }
            i = i + 1;
        }
        false
    }

    /// One streaming pass: makes resident every chunk that some loader
    /// (a tile position and its loader) has within range, then archives
    /// every resident chunk that no loader has within range. Returns the
    /// chunks made resident and the chunks archived.
    pub fn run<F: Fn(i32, i32, i32) -> bool>(
        level: &mut Level,
        loaders: &Vec<(Position, ChunkLoader)>,
        rock_at: &F,
    ) -> (r: (Vec<Position>, Vec<Position>))
        requires
            old(level).wf(),
            forall|i: int| 0 <= i < loaders@.len() ==> loader_fits(#[trigger] loaders@[i]),
            forall|args: (i32, i32, i32)| call_requires(*rock_at, args),
        ensures
            streamed(*old(level), *final(level), loaders@, *rock_at, r.0@, r.1@),
    {
        let ghost base = *level;
        let mut loads: Vec<Position> = Vec::new();
        let mut i: usize = 0;
        while i < loaders.len()
            invariant
                0 <= i <= loaders@.len(),
                level.wf(),
                base.wf(),
                extends(base, *level, *rock_at),
                lists_new(base, *level, loads@),
                forall|t: int| 0 <= t < loaders@.len() ==> loader_fits(#[trigger] loaders@[t]),
                forall|args: (i32, i32, i32)| call_requires(*rock_at, args),
                forall|k: (i32, i32)| #[trigger]
                    level.loaded_map().contains_key(k) == (base.loaded_map().contains_key(k)
                        || exists|t: int|
                        0 <= t < i && #[trigger] in_square(
                            k,
                            tile_to_chunk_spec(loaders@[t].0),
                            loaders@[t].1.range as int,
                        )),
            decreases loaders@.len() - i,
        {
            let (pos, loader) = loaders[i];
            let ghost before = *level;
            if loader.range >= 0 {
                let c = TilePosition::to_chunk(pos);
                proof {
                    assert(loader_fits(loaders@[i as int]));
                }
                load_square(level, c, loader.range, rock_at, &mut loads, Ghost(base));
            }
            proof {
                let c = tile_to_chunk_spec(pos);
                assert forall|k: (i32, i32)| #[trigger]
                    level.loaded_map().contains_key(k) == (base.loaded_map().contains_key(k)
                        || exists|t: int|
                        0 <= t < i + 1 && #[trigger] in_square(
                            k,
                            tile_to_chunk_spec(loaders@[t].0),
                            loaders@[t].1.range as int,
                        )) by {
                    if in_square(k, c, loader.range as int) {
                        assert(in_square(
                            k,
                            tile_to_chunk_spec(loaders@[i as int].0),
                            loaders@[i as int].1.range as int,
                        ));
                    }
                    if exists|t: int|
                        0 <= t < i + 1 && #[trigger] in_square(
                            k,
                            tile_to_chunk_spec(loaders@[t].0),
                            loaders@[t].1.range as int,
                        ) {
                        let t = choose|t: int|
                            0 <= t < i + 1 && #[trigger] in_square(
                                k,
                                tile_to_chunk_spec(loaders@[t].0),
                                loaders@[t].1.range as int,
                            );
                        if t < i {
                            assert(before.loaded_map().contains_key(k));
                        }
                    }
                }
            }
            i = i + 1;
        }
        let ghost mid = *level;
        proof {
            assert forall|k: (i32, i32)| #[trigger]
                mid.loaded_map().contains_key(k) == (base.loaded_map().contains_key(k) || demanded(
                    loaders@,
                    k,
                )) by {
            }
        }
        let positions = level.loaded_positions();
        let mut unloads: Vec<Position> = Vec::new();
        let ghost mut removed: Set<(i32, i32)> = Set::empty();
        let mut j: usize = 0;
        while j < positions.len()
            invariant
                0 <= j <= positions@.len(),
                level.wf(),
                mid.wf(),
                level.seed == mid.seed,
                positions@.no_duplicates(),
                forall|t: int|
                    0 <= t < positions@.len() ==> mid.loaded_map().contains_key(
                        #[trigger] positions@[t].key(),
                    ),
                forall|k: (i32, i32)| #[trigger]
                    removed.contains(k) ==> mid.loaded_map().contains_key(k) && !demanded(loaders@, k),
                forall|k: (i32, i32)| #[trigger]
                    level.loaded_map().contains_key(k) == (mid.loaded_map().contains_key(k)
                        && !removed.contains(k)),
                forall|k: (i32, i32)| #[trigger]
                    level.loaded_map().contains_key(k) ==> level.loaded_map()[k] == mid.loaded_map()[k],
                forall|k: (i32, i32)| #[trigger]
                    removed.contains(k) ==> level.archived_map().contains_key(k)
                        && level.archived_map()[k].tiles@ == mid.loaded_map()[k].tiles@
                        && level.archived_map()[k].pos == mid.loaded_map()[k].pos,
                forall|k: (i32, i32)| #[trigger]
                    level.archived_map().contains_key(k) ==> removed.contains(k)
                        || mid.archived_map().contains_key(k),
                forall|k: (i32, i32)| #[trigger]
                    mid.archived_map().contains_key(k) ==> level.archived_map().contains_key(k)
                        && level.archived_map()[k] == mid.archived_map()[k],
                forall|t: int|
                    0 <= t < j ==> demanded(loaders@, #[trigger] positions@[t].key()) || removed.contains(
                        positions@[t].key(),
                    ),
                forall|k: (i32, i32)| #[trigger]
                    removed.contains(k) ==> exists|t: int| 0 <= t < j && positions@[t].key() == k,
                unloads@.no_duplicates(),
                forall|a: int| 0 <= a < unloads@.len() ==> removed.contains(#[trigger] unloads@[a].key()),
                forall|k: (i32, i32)| #[trigger]
                    removed.contains(k) ==> exists|a: int| 0 <= a < unloads@.len() && unloads@[a].key() == k,
            decreases positions@.len() - j,
        {
            let p = positions[j];
            if !Self::is_demanded(loaders, p) {
                let ghost prev = *level;
                let ghost prev_unloads = unloads@;
                proof {
                    assert(mid.loaded_map().contains_key(p.key()));
                    assert(!removed.contains(p.key())) by {
                        if removed.contains(p.key()) {
                            let t = choose|t: int| 0 <= t < j && positions@[t].key() == p.key();
                            assert(positions@[t] == positions@[j as int]);
                        }
                    }
                    assert(prev.loaded_map().contains_key(p.key()));
                    assert(!mid.archived_map().contains_key(p.key()));
                }
                let _ = level.unload_chunk(p);
                unloads.push(p);
                proof {
                    let k = p.key();
                    let old_removed = removed;
                    removed = removed.insert(k);
                    assert forall|a: int, b: int|
                        0 <= a < unloads@.len() && 0 <= b < unloads@.len() && a != b implies unloads@[a]
                        != unloads@[b] by {
                        if a < prev_unloads.len() && b < prev_unloads.len() {
                            assert(unloads@[a] == prev_unloads[a]);
                            assert(unloads@[b] == prev_unloads[b]);
                        } else if a == prev_unloads.len() {
                            assert(old_removed.contains(prev_unloads[b].key()));
                        } else {
                            assert(old_removed.contains(prev_unloads[a].key()));
                        }
                    }
                    assert forall|a: int| 0 <= a < unloads@.len() implies removed.contains(
                        #[trigger] unloads@[a].key(),
                    ) by {
                        if a < prev_unloads.len() {
                            assert(unloads@[a] == prev_unloads[a]);
                        }
                    }
                    assert forall|q: (i32, i32)| #[trigger]
                        removed.contains(q) implies exists|a: int|
                            0 <= a < unloads@.len() && unloads@[a].key() == q by {
                        if q == k {
                            assert(unloads@[prev_unloads.len() as int].key() == q);
                        } else {
                            let a = choose|a: int| 0 <= a < prev_unloads.len() && prev_unloads[a].key() == q;
                            assert(unloads@[a].key() == q);
                        }
                    }
                    assert forall|q: (i32, i32)| #[trigger]
                        removed.contains(q) implies exists|t: int| 0 <= t < j + 1 && positions@[t].key() == q by {
                        if q == k {
                            assert(positions@[j as int].key() == q);
                        } else {
                            let t = choose|t: int| 0 <= t < j && positions@[t].key() == q;
                            assert(positions@[t].key() == q);
                        }
                    }
                    assert forall|q: (i32, i32)| #[trigger]
                        removed.contains(q) implies level.archived_map().contains_key(q)
                        && level.archived_map()[q].tiles@ == mid.loaded_map()[q].tiles@
                        && level.archived_map()[q].pos == mid.loaded_map()[q].pos by {
                        if q != k {
                            assert(old_removed.contains(q));
                            assert(prev.archived_map().contains_key(q));
                        }
                    }
                    assert forall|q: (i32, i32)| #[trigger]
                        mid.archived_map().contains_key(q) implies level.archived_map().contains_key(q)
                        && level.archived_map()[q] == mid.archived_map()[q] by {
                        assert(prev.archived_map().contains_key(q));
                    }
                }
            }
            j = j + 1;
        }
        proof {
            assert(level.loaded_map().dom() =~= demand_set(loaders@)) by {
                assert forall|k: (i32, i32)|
                    level.loaded_map().contains_key(k) == demand_set(loaders@).contains(k) by {
                    if mid.loaded_map().contains_key(k) && !demanded(loaders@, k) {
                        let t = choose|t: int| 0 <= t < positions@.len() && positions@[t].key() == k;
                        assert(demanded(loaders@, positions@[t].key()) || removed.contains(positions@[t].key()));
                    }
                }
            }
            assert forall|k: (i32, i32)| #[trigger]
                base.loaded_map().contains_key(k) && !demanded(loaders@, k) implies level.archived_map().contains_key(k)
                    && level.archived_map()[k].tiles@ == base.loaded_map()[k].tiles@
                    && level.archived_map()[k].pos == base.loaded_map()[k].pos by {
                assert(mid.loaded_map().contains_key(k));
                assert(!level.loaded_map().contains_key(k));
            }
            assert forall|k: (i32, i32)| #[trigger]
                base.archived_map().contains_key(k) && !demanded(loaders@, k) implies level.archived_map().contains_key(k)
                    && level.archived_map()[k] == base.archived_map()[k] by {
                assert(!base.loaded_map().contains_key(k));
                assert(!mid.loaded_map().contains_key(k));
                assert(mid.archived_map().contains_key(k));
            }
            assert forall|k: (i32, i32)| #[trigger]
                level.archived_map().contains_key(k) implies base.archived_map().contains_key(k)
                    || base.loaded_map().contains_key(k) by {
                if removed.contains(k) {
                    assert(mid.loaded_map().contains_key(k));
                    assert(!demanded(loaders@, k));
                }
            }
            assert forall|i: int| 0 <= i < loads@.len() implies demanded(loaders@, #[trigger] loads@[i].key())
                && !base.loaded_map().contains_key(loads@[i].key()) by {
                assert(mid.loaded_map().contains_key(loads@[i].key()));
            }
            assert forall|k: (i32, i32)|
                demanded(loaders@, k) && !#[trigger] base.loaded_map().contains_key(k) implies exists|i: int|
                    0 <= i < loads@.len() && loads@[i].key() == k by {
                assert(mid.loaded_map().contains_key(k));
            }
            assert forall|i: int| 0 <= i < unloads@.len() implies !demanded(loaders@, #[trigger] unloads@[i].key())
                && base.loaded_map().contains_key(unloads@[i].key()) by {
                assert(removed.contains(unloads@[i].key()));
            }
            assert forall|k: (i32, i32)|
                !demanded(loaders@, k) && #[trigger] base.loaded_map().contains_key(k) implies exists|i: int|
                    0 <= i < unloads@.len() && unloads@[i].key() == k by {
                assert(mid.loaded_map().contains_key(k));
                let t = choose|t: int| 0 <= t < positions@.len() && positions@[t].key() == k;
                assert(demanded(loaders@, positions@[t].key()) || removed.contains(positions@[t].key()));
            }
        }
        (loads, unloads)
    }
}

} // verus!
