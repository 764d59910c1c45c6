//! Agents that follow a goal: a per-search window of cached chunk lookups,
//! A* over the tiles it covers, and the per-tick decision of where to step.
use vstd::prelude::*;
use crate::world::chunk::{LoadedChunk, tile_index};
use crate::world::direction::{Direction, dir_offset};
use crate::world::level::Level;
use crate::world::position::{
    Position, TilePosition, chebyshev, fits_i32, sgn_int, tile_in_chunk_spec, tile_to_chunk_spec,
    valid_chunk,
};
use crate::world::tile::Tile;

verus! {

/// Chunks on each side of the agent's chunk that one search may read.
pub const NAV_RANGE: i32 = 3;

/// Chunks along each side of the search window: `2 * NAV_RANGE + 1`.
pub const WINDOW_SIDE: i32 = 7;

/// Chunks in the search window.
pub const WINDOW_SLOTS: usize = 49;

/// Goals within this Chebyshev distance need no movement.
pub const CLOSE_ENOUGH: i64 = 3;

/// First chunk (lowest coordinates) of the window of a search that starts at
/// tile `start`.
pub open spec fn search_origin(start: Position) -> Position {
    let c = tile_to_chunk_spec(start);
    Position { x: (c.x - NAV_RANGE) as i32, y: (c.y - NAV_RANGE) as i32 }
}

/// Chunk `c` lies in the window whose first chunk is `origin`.
pub open spec fn in_window(origin: Position, c: Position) -> bool {
    origin.x <= c.x < origin.x + WINDOW_SIDE && origin.y <= c.y < origin.y + WINDOW_SIDE
}

/// The tile at `q` as a search with window `origin` sees it: resident and
/// inside the window, or no data.
pub open spec fn nav_tile(level: Level, origin: Position, q: Position) -> Option<Tile> {
    if in_window(origin, tile_to_chunk_spec(q)) {
        level.loaded_tile(q)
    } else {
        None
    }
}

/// The search may step from `p` to its neighbour `q`.
pub open spec fn nav_step(level: Level, origin: Position, p: Position, q: Position) -> bool {
    chebyshev(p, q) == 1 && nav_tile(level, origin, q).is_some()
}

/// `p` is the goal or one of its neighbours: the search stops there.
pub open spec fn reached(p: Position, goal: Position) -> bool {
    chebyshev(p, goal) <= 1
}

/// `route` (the start excluded) leads from `start` through the window of a
/// search from `start` to a tile at or next to `goal`.
pub open spec fn is_route(level: Level, start: Position, goal: Position, route: Seq<Position>) -> bool {
    let o = search_origin(start);
    &&& route.len() == 0 ==> reached(start, goal)
    &&& route.len() > 0 ==> nav_step(level, o, start, route[0]) && reached(route.last(), goal)
    &&& forall|i: int| 0 <= i < route.len() - 1 ==> nav_step(level, o, #[trigger] route[i], route[i + 1])
}

/// Total traversal cost of stepping onto each of `tiles` in turn, as a
/// search with window `origin` prices them.
pub open spec fn path_cost(level: Level, origin: Position, tiles: Seq<Position>) -> int
    decreases tiles.len(),
{
    if tiles.len() == 0 {
        0
    } else {
        path_cost(level, origin, tiles.drop_last()) + nav_tile(level, origin, tiles.last()).unwrap().traversal_cost
    }
}

/// What a route costs: the traversal costs of its tiles, the start excluded.
pub open spec fn route_cost(level: Level, start: Position, route: Seq<Position>) -> int {
    path_cost(level, search_origin(start), route)
}

/// `w` is a walk of the search graph from `start`: it begins at `start` and
/// each tile after the first is a step the search may take from the one
/// before.
pub open spec fn is_walk(level: Level, origin: Position, start: Position, w: Seq<Position>) -> bool {
    &&& w.len() >= 1
    &&& w[0] == start
    &&& forall|i: int| 0 <= i < w.len() - 1 ==> nav_step(level, origin, #[trigger] w[i], w[i + 1])
}

/// Which resident chunk, if any, a slot of the window stands for.
pub open spec fn slot_agrees(level: Level, k: (i32, i32), chunk: Option<&LoadedChunk>) -> bool {
    match chunk {
        Some(c) => level.loaded_map().contains_key(k) && *c == level.loaded_map()[k],
        None => !level.loaded_map().contains_key(k),
    }
}

/// Chunk coordinates of slot `i` of the window whose first chunk is `origin`.
pub open spec fn slot_key(origin: Position, i: int) -> (i32, i32) {
    ((origin.x + i / WINDOW_SIDE as int) as i32, (origin.y + i % WINDOW_SIDE as int) as i32)
}

/// One slot of the window: whether the level was asked yet, and its answer.
#[derive(Clone, Copy)]
pub struct CacheSlot<'a> {
    pub resolved: bool,
    pub chunk: Option<&'a LoadedChunk>,
}

/// The chunks around a searching agent, each looked up in the level once,
/// on first use, for the length of one search.
pub struct ChunkCache<'a> {
    pub offset_chunk_pos: Position,
    pub cache: Vec<CacheSlot<'a>>,
    pub level: &'a Level,
}

impl<'a> ChunkCache<'a> {
    /// Every slot that was resolved holds what the level holds.
    pub open spec fn wf(&self) -> bool {
        &&& self.cache@.len() == WINDOW_SLOTS
        &&& self.level.wf()
        &&& valid_chunk(
            Position { x: (self.offset_chunk_pos.x + NAV_RANGE) as i32, y: (self.offset_chunk_pos.y + NAV_RANGE) as i32 },
        )
        &&& self.offset_chunk_pos.x + NAV_RANGE <= i32::MAX
        &&& self.offset_chunk_pos.y + NAV_RANGE <= i32::MAX
        &&& forall|i: int|
            0 <= i < WINDOW_SLOTS && (#[trigger] self.cache@[i]).resolved ==> slot_agrees(
                *self.level,
                slot_key(self.offset_chunk_pos, i),
                self.cache@[i].chunk,
            )
    }

    /// An empty window centred on `center_chunk_pos`.
    pub fn new(center_chunk_pos: Position, level: &'a Level) -> (r: ChunkCache<'a>)
        requires
            level.wf(),
            valid_chunk(center_chunk_pos),
        ensures
            r.wf(),
            r.level == level,
            r.offset_chunk_pos.x == center_chunk_pos.x - NAV_RANGE,
            r.offset_chunk_pos.y == center_chunk_pos.y - NAV_RANGE,
    {
        let offset_chunk_pos = Position {
            x: center_chunk_pos.x - NAV_RANGE,
            y: center_chunk_pos.y - NAV_RANGE,
        };
        let mut cache: Vec<CacheSlot<'a>> = Vec::new();
        let mut i: usize = 0;
        while i < WINDOW_SLOTS
            invariant
                0 <= i <= WINDOW_SLOTS,
                cache@.len() == i,
                forall|j: int| 0 <= j < i ==> !(#[trigger] cache@[j]).resolved,
            decreases WINDOW_SLOTS - i,
        {
            cache.push(CacheSlot { resolved: false, chunk: None });
            i = i + 1;
        }
        ChunkCache { offset_chunk_pos, cache, level }
    }

    /// Whether a position relative to the window's first chunk lies in the window.
    pub fn in_range(&self, offset_chunk_pos: Position) -> (r: bool)
        ensures
            r == (0 <= offset_chunk_pos.x < WINDOW_SIDE && 0 <= offset_chunk_pos.y < WINDOW_SIDE),
    {
        0 <= offset_chunk_pos.x && offset_chunk_pos.x < WINDOW_SIDE && 0 <= offset_chunk_pos.y
            && offset_chunk_pos.y < WINDOW_SIDE
    }

    /// The resident chunk at a position relative to the window's first
    /// chunk, or `None` when it is outside the window or not resident. The
    /// level is asked at most once per slot.
    pub fn get_chunk(&mut self, offset_chunk_pos: Position) -> (r: Option<&'a LoadedChunk>)
        requires
            old(self).wf(),
        ensures
            final(self).wf(),
            final(self).level == old(self).level,
            final(self).offset_chunk_pos == old(self).offset_chunk_pos,
            ({
                let o = old(self).offset_chunk_pos;
                let inside = 0 <= offset_chunk_pos.x < WINDOW_SIDE && 0 <= offset_chunk_pos.y
                    < WINDOW_SIDE;
                let k = ((o.x + offset_chunk_pos.x) as i32, (o.y + offset_chunk_pos.y) as i32);
                match r {
                    Some(c) => inside && old(self).level.loaded_map().contains_key(k) && *c
                        == old(self).level.loaded_map()[k],
                    None => !(inside && old(self).level.loaded_map().contains_key(k)),
                }
            }),
    {
        if !self.in_range(offset_chunk_pos) {
            return None;
        }
        let i = (offset_chunk_pos.x as usize) * 7 + (offset_chunk_pos.y as usize);
        let ghost o = self.offset_chunk_pos;
        proof {
            let ii = i as int;
            vstd::arithmetic::div_mod::lemma_fundamental_div_mod_converse(
                ii,
                7,
                offset_chunk_pos.x as int,
                offset_chunk_pos.y as int,
            );
            assert(slot_key(o, ii) == ((o.x + offset_chunk_pos.x) as i32, (o.y
                + offset_chunk_pos.y) as i32));
        }
        let slot = self.cache[i];
        if slot.resolved {
            return slot.chunk;
        }
        let abs = Position { x: self.offset_chunk_pos.x + offset_chunk_pos.x, y: self.offset_chunk_pos.y + offset_chunk_pos.y };
        let level: &'a Level = self.level;
        let found = level.get_loaded_chunk(abs);
        self.cache.set(i, CacheSlot { resolved: true, chunk: found });
        proof {
            assert forall|j: int|
                0 <= j < WINDOW_SLOTS && (#[trigger] self.cache@[j]).resolved implies slot_agrees(
                *self.level,
                slot_key(self.offset_chunk_pos, j),
                self.cache@[j].chunk,
            ) by {
                if j != i as int {
                    assert(old(self).cache@[j] == self.cache@[j]);
                }
            }
        }
        found
    }

    /// The resident tiles around `tile_pos` that the window covers, each
    /// with its position, in compass order (north first, clockwise).
    pub fn get_tile_neighbours(&mut self, tile_pos: Position) -> (r: Vec<(Tile, Position)>)
        requires
            old(self).wf(),
        ensures
            final(self).wf(),
            final(self).level == old(self).level,
            final(self).offset_chunk_pos == old(self).offset_chunk_pos,
            forall|i: int|
                0 <= i < r@.len() ==> chebyshev(tile_pos, (#[trigger] r@[i]).1) == 1 && nav_tile(
                    *old(self).level,
                    old(self).offset_chunk_pos,
                    r@[i].1,
                ) == Some(r@[i].0),
            forall|d: int|
                0 <= d < 8 && fits_i32(tile_pos.x + dir_offset(d).x) && fits_i32(
                    tile_pos.y + dir_offset(d).y,
                ) && nav_tile(
                    *old(self).level,
                    old(self).offset_chunk_pos,
                    Position {
                        x: (tile_pos.x + dir_offset(d).x) as i32,
                        y: (tile_pos.y + dir_offset(d).y) as i32,
                    },
                ).is_some() ==> exists|i: int|
                    0 <= i < r@.len() && (#[trigger] r@[i]).1 == (Position {
                        x: (tile_pos.x + dir_offset(d).x) as i32,
                        y: (tile_pos.y + dir_offset(d).y) as i32,
                    }),
    {
        let mut vec: Vec<(Tile, Position)> = Vec::new();
        let off = self.offset_chunk_pos;
        let ghost level = *self.level;
        let mut d: usize = 0;
        while d < 8
            invariant
                0 <= d <= 8,
                self.wf(),
                *self.level == level,
                self.offset_chunk_pos == off,
                off == old(self).offset_chunk_pos,
                level == *old(self).level,
                forall|i: int|
                    0 <= i < vec@.len() ==> chebyshev(tile_pos, (#[trigger] vec@[i]).1) == 1 && nav_tile(
                        level,
                        off,
                        vec@[i].1,
                    ) == Some(vec@[i].0),
                forall|e: int|
                    0 <= e < d && fits_i32(tile_pos.x + dir_offset(e).x) && fits_i32(
                        tile_pos.y + dir_offset(e).y,
                    ) && nav_tile(
                        level,
                        off,
                        Position {
                            x: (tile_pos.x + dir_offset(e).x) as i32,
                            y: (tile_pos.y + dir_offset(e).y) as i32,
                        },
                    ).is_some() ==> exists|i: int|
                        0 <= i < vec@.len() && (#[trigger] vec@[i]).1 == (Position {
                            x: (tile_pos.x + dir_offset(e).x) as i32,
                            y: (tile_pos.y + dir_offset(e).y) as i32,
                        }),
            decreases 8 - d,
        {
            let step = Direction::from_index(d).to_position();
            let nx = (tile_pos.x as i64) + (step.x as i64);
            let ny = (tile_pos.y as i64) + (step.y as i64);
            if -2147483648 <= nx && nx <= 2147483647 && -2147483648 <= ny && ny <= 2147483647 {
                let n = Position { x: nx as i32, y: ny as i32 };
                let chunk_pos = TilePosition::to_chunk(n);
                let rel = Position { x: chunk_pos.x - off.x, y: chunk_pos.y - off.y };
                let ghost before = vec@;
                match self.get_chunk(rel) {
                    Some(chunk) => {
                        let local = TilePosition::to_tile_in_chunk(n);
                        proof {
                            assert(chunk.wf());
                        }
                        let tile = *chunk.get_tile_at(local);
                        vec.push((tile, n));
                        proof {
                            assert(vec@[before.len() as int].1 == n);
                            assert forall|e: int|
                                0 <= e < d + 1 && fits_i32(tile_pos.x + dir_offset(e).x) && fits_i32(
                                    tile_pos.y + dir_offset(e).y,
                                ) && nav_tile(
                                    level,
                                    off,
                                    Position {
                                        x: (tile_pos.x + dir_offset(e).x) as i32,
                                        y: (tile_pos.y + dir_offset(e).y) as i32,
                                    },
                                ).is_some() implies exists|i: int|
                                    0 <= i < vec@.len() && (#[trigger] vec@[i]).1 == (Position {
                                        x: (tile_pos.x + dir_offset(e).x) as i32,
                                        y: (tile_pos.y + dir_offset(e).y) as i32,
                                    }) by {
                                if e < d {
                                    let i = choose|i: int|
                                        0 <= i < before.len() && (#[trigger] before[i]).1 == (Position {
                                            x: (tile_pos.x + dir_offset(e).x) as i32,
                                            y: (tile_pos.y + dir_offset(e).y) as i32,
                                        });
                                    assert(vec@[i] == before[i]);
                                } else {
                                    assert(vec@[before.len() as int].1 == n);
                                }
                            }
                        }
                    },
                    None => {},
                }
            }
            d = d + 1;
        }
        vec
    }

    /// The steps the search may take from `pos`, each with its cost: the
    /// traversal cost of the tile stepped onto, impassable tiles included.
    pub fn successors(&mut self, pos: Position) -> (r: Vec<(Position, i64)>)
        requires
            old(self).wf(),
        ensures
            final(self).wf(),
            final(self).level == old(self).level,
            final(self).offset_chunk_pos == old(self).offset_chunk_pos,
            forall|i: int|
                0 <= i < r@.len() ==> nav_step(
                    *old(self).level,
                    old(self).offset_chunk_pos,
                    pos,
                    (#[trigger] r@[i]).0,
                ) && r@[i].1 == nav_tile(*old(self).level, old(self).offset_chunk_pos, r@[i].0).unwrap().traversal_cost,
            forall|q: Position| #[trigger]
                nav_step(*old(self).level, old(self).offset_chunk_pos, pos, q) ==> exists|i: int|
                    0 <= i < r@.len() && r@[i].0 == q,
    {
        let neighbours = self.get_tile_neighbours(pos);
        let mut out: Vec<(Position, i64)> = Vec::new();
        let mut i: usize = 0;
        while i < neighbours.len()
            invariant
                0 <= i <= neighbours@.len(),
                out@.len() == i,
                forall|j: int|
                    0 <= j < neighbours@.len() ==> chebyshev(pos, (#[trigger] neighbours@[j]).1) == 1
                        && nav_tile(*old(self).level, old(self).offset_chunk_pos, neighbours@[j].1)
                        == Some(neighbours@[j].0),
                forall|j: int|
                    0 <= j < i ==> (#[trigger] out@[j]).0 == neighbours@[j].1 && out@[j].1
                        == neighbours@[j].0.traversal_cost,
            decreases neighbours@.len() - i,
        {
            let (tile, p) = neighbours[i];
            out.push((p, tile.traversal_cost as i64));
            i = i + 1;
        }
        proof {
            assert forall|j: int| 0 <= j < out@.len() implies nav_step(
                *old(self).level,
                old(self).offset_chunk_pos,
                pos,
                (#[trigger] out@[j]).0,
            ) && out@[j].1 == nav_tile(*old(self).level, old(self).offset_chunk_pos, out@[j].0).unwrap().traversal_cost by {
                assert(out@[j].0 == neighbours@[j].1);
            }
            assert forall|q: Position| #[trigger]
                nav_step(*old(self).level, old(self).offset_chunk_pos, pos, q) implies exists|i: int|
                    0 <= i < out@.len() && out@[i].0 == q by {
                let d = lemma_neighbour_direction(pos, q);
                assert(q == (Position {
                    x: (pos.x + dir_offset(d).x) as i32,
                    y: (pos.y + dir_offset(d).y) as i32,
                }));
                let i = choose|i: int|
                    0 <= i < neighbours@.len() && (#[trigger] neighbours@[i]).1 == (Position {
                        x: (pos.x + dir_offset(d).x) as i32,
                        y: (pos.y + dir_offset(d).y) as i32,
                    });
                assert(out@[i].0 == q);
            }
        }
        out
    }
}

/// A neighbour at Chebyshev distance 1 lies in one of the eight compass
/// directions.
proof fn lemma_neighbour_direction(p: Position, q: Position) -> (d: int)
    requires
        chebyshev(p, q) == 1,
    ensures
        0 <= d < 8,
        q.x == p.x + dir_offset(d).x,
        q.y == p.y + dir_offset(d).y,
{
    let dx = q.x - p.x;
    let dy = q.y - p.y;
    if dx == 0 && dy == -1 {
        0
    } else if dx == 1 && dy == -1 {
        1
    } else if dx == 1 && dy == 0 {
        2
    } else if dx == 1 && dy == 1 {
        3
    } else if dx == 0 && dy == 1 {
        4
    } else if dx == -1 && dy == 1 {
        5
    } else if dx == -1 && dy == 0 {
        6
    } else {
        7
    }
}

/// Relies on pathfinding's `astar`, which returns the cheapest path from
/// `start` to a node that passes the success test, with its total cost, or
/// `None` when no such path can be found. The path holds both ends, each
/// node after the first is one that `successors` offered for the node
/// before it, and its cost is the sum of the offered step costs. Here
/// `successors` offers exactly the steps of the search graph, at the cost of
/// the tile stepped onto; every such cost is at least 1 and every step moves
/// one tile, so the heuristic (distance to the tiles next to the goal) never
/// overestimates, which is what makes the path the cheapest. The window is
/// finite, so the search ends.
#[verifier::external_body]
fn astar_search<'a>(cache: &mut ChunkCache<'a>, start: Position, goal: Position) -> (r: Option<
    (Vec<Position>, i64),
>)
    requires
        old(cache).wf(),
    ensures
        final(cache).wf(),
        final(cache).level == old(cache).level,
        final(cache).offset_chunk_pos == old(cache).offset_chunk_pos,
        match r {
            Some(found) => {
                let level = *old(cache).level;
                let o = old(cache).offset_chunk_pos;
                &&& is_walk(level, o, start, found.0@)
                &&& reached(found.0@.last(), goal)
                &&& found.1 == path_cost(level, o, found.0@.subrange(1, found.0@.len() as int))
                &&& forall|w: Seq<Position>| #[trigger]
                    is_walk(level, o, start, w) && reached(w.last(), goal) ==> path_cost(
                        level,
                        o,
                        w.subrange(1, w.len() as int),
                    ) >= found.1
            },
            None => forall|w: Seq<Position>| #[trigger]
                is_walk(*old(cache).level, old(cache).offset_chunk_pos, start, w) ==> !reached(
                    w.last(),
                    goal,
                ),
        },
{
    pathfinding::prelude::astar(
        &start,
        |p: &Position| cache.successors(*p),
        |p: &Position| AiSystem::heuristic(*p, goal),
        |p: &Position| AiSystem::is_reached(*p, goal),
    )
}

/// A route from `start` is a walk that starts there, with the start dropped.
proof fn lemma_route_walk(level: Level, start: Position, goal: Position, route: Seq<Position>)
    requires
        is_route(level, start, goal, route),
    ensures
        is_walk(level, search_origin(start), start, seq![start] + route),
        reached((seq![start] + route).last(), goal),
        (seq![start] + route).subrange(1, route.len() as int + 1) == route,
{
    let o = search_origin(start);
    let w = seq![start] + route;
    assert forall|i: int| 0 <= i < w.len() - 1 implies nav_step(level, o, #[trigger] w[i], w[i + 1]) by {
        if i == 0 {
            assert(w[1] == route[0]);
        } else {
            assert(w[i] == route[i - 1]);
            assert(w[i + 1] == route[i]);
        }
    }
    if route.len() > 0 {
        assert(w.last() == route.last());
    }
    assert(w.subrange(1, route.len() as int + 1) =~= route);
}

/// A route found by a search: the tiles to visit in order (the start
/// excluded), the goal position it was computed for, its cost as the search
/// reported it, and how many tiles have been handed out.
pub struct Pathing {
    pub path: Vec<Position>,
    pub goal_tile_pos: Position,
    pub cost: i64,
    pub cur: usize,
}

impl Pathing {
    pub fn new(path: Vec<Position>, goal_tile_pos: Position, cost: i64) -> (r: Pathing)
        ensures
            r.path@ == path@,
            r.goal_tile_pos == goal_tile_pos,
            r.cost == cost,
            r.cur == 0,
    {
        Pathing { path, goal_tile_pos, cost, cur: 0 }
    }

    /// All tiles have been handed out.
    pub open spec fn exhausted(&self) -> bool {
        self.cur >= self.path@.len()
    }

    /// Hands out the next tile of the route and advances past it, or
    /// returns `None` when the route is exhausted.
    pub fn next(&mut self) -> (r: Option<Position>)
        ensures
            final(self).path@ == old(self).path@,
            final(self).goal_tile_pos == old(self).goal_tile_pos,
            final(self).cost == old(self).cost,
            old(self).exhausted() ==> r.is_none() && final(self).cur == old(self).cur,
            !old(self).exhausted() ==> r == Some(old(self).path@[old(self).cur as int])
                && final(self).cur == old(self).cur + 1,
    {
        if self.cur >= self.path.len() {
            return None;
        }
        let pos = self.path[self.cur];
        self.cur = self.cur + 1;
        Some(pos)
    }
}

/// An agent's search state.
pub struct Ai {
    pub t: i32,
    pub pathing: Option<Pathing>,
}

impl Default for Ai {
    fn default() -> (r: Ai)
        ensures
            r.t == 0,
            r.pathing.is_none(),
    {
        Ai { t: 0, pathing: None }
    }
}

impl Ai {
    pub fn has_path(&self) -> (r: bool)
        ensures
            r == self.pathing.is_some(),
    {
        self.pathing.is_some()
    }

    /// Searches from `current_tile_pos` toward `goal_tile_pos` over the
    /// window around the agent's chunk. The search succeeds exactly when some
    /// route reaches the goal or a tile next to it; then a cheapest such
    /// route (the start excluded) replaces the old one, with its cost, and
    /// `true` is returned. Otherwise the agent is left with no route and
    /// `false` is returned.
    pub fn find_path(&mut self, current_tile_pos: Position, goal_tile_pos: Position, level: &Level) -> (r:
        bool)
        requires
            level.wf(),
        ensures
            final(self).t == old(self).t,
            r == final(self).pathing.is_some(),
            r == exists|route: Seq<Position>| is_route(*level, current_tile_pos, goal_tile_pos, route),
            r ==> ({
                let p = final(self).pathing.unwrap();
                &&& p.goal_tile_pos == goal_tile_pos
                &&& p.cur == 0
                &&& is_route(*level, current_tile_pos, goal_tile_pos, p.path@)
                &&& p.cost == route_cost(*level, current_tile_pos, p.path@)
                &&& forall|route: Seq<Position>| #[trigger]
                    is_route(*level, current_tile_pos, goal_tile_pos, route) ==> route_cost(
                        *level,
                        current_tile_pos,
                        route,
                    ) >= p.cost
            }),
    {
        let center = TilePosition::to_chunk(current_tile_pos);
        let mut chunk_cache = ChunkCache::new(center, level);
        let found = astar_search(&mut chunk_cache, current_tile_pos, goal_tile_pos);
        let ghost full = if found.is_some() {
            found.unwrap().0@
        } else {
            Seq::empty()
        };
        let r = self.adopt_path(found, goal_tile_pos);
        proof {
            if r {
                let o = search_origin(current_tile_pos);
                let route = self.pathing.unwrap().path@;
                assert(chunk_cache.offset_chunk_pos == o);
                assert(route == full.subrange(1, full.len() as int));
                assert forall|j: int| 0 <= j < route.len() - 1 implies nav_step(
                    *level,
                    o,
                    #[trigger] route[j],
                    route[j + 1],
                ) by {
                    assert(route[j] == full[j + 1]);
                    assert(route[j + 1] == full[j + 2]);
                }
                if route.len() > 0 {
                    assert(route[0] == full[1]);
                    assert(route.last() == full.last());
                }
                assert(is_route(*level, current_tile_pos, goal_tile_pos, route));
                assert forall|other: Seq<Position>| #[trigger]
                    is_route(*level, current_tile_pos, goal_tile_pos, other) implies route_cost(
                        *level,
                        current_tile_pos,
                        other,
                    ) >= self.pathing.unwrap().cost by {
                    lemma_route_walk(*level, current_tile_pos, goal_tile_pos, other);
                    let w = seq![current_tile_pos] + other;
                    assert(is_walk(*level, o, current_tile_pos, w));
                    assert(w.subrange(1, w.len() as int) == other);
                }
            } else {
                assert forall|other: Seq<Position>|
                    !is_route(*level, current_tile_pos, goal_tile_pos, other) by {
                    if is_route(*level, current_tile_pos, goal_tile_pos, other) {
                        lemma_route_walk(*level, current_tile_pos, goal_tile_pos, other);
                        let w = seq![current_tile_pos] + other;
                        assert(is_walk(*level, search_origin(current_tile_pos), current_tile_pos, w));
                    }
                }
            }
        }
        r
    }

    /// Takes the outcome of a search toward `goal_tile_pos`: a found path
    /// (start first) becomes the agent's route without its first tile, with
    /// the reported cost, and `true` is returned; no path leaves the agent
    /// with no route and `false` is returned.
    pub fn adopt_path(&mut self, found: Option<(Vec<Position>, i64)>, goal_tile_pos: Position) -> (r:
        bool)
        ensures
            final(self).t == old(self).t,
            r == found.is_some(),
            r == final(self).pathing.is_some(),
            r ==> ({
                let f = found.unwrap();
                let p = final(self).pathing.unwrap();
                &&& f.0@.len() > 0 ==> p.path@ == f.0@.subrange(1, f.0@.len() as int)
                &&& f.0@.len() == 0 ==> p.path@.len() == 0
                &&& p.goal_tile_pos == goal_tile_pos
                &&& p.cost == f.1
                &&& p.cur == 0
            }),
    {
        match found {
            Some(f) => {
                let (full, cost) = f;
                let mut route: Vec<Position> = Vec::new();
                let mut i: usize = 1;
                while i < full.len()
                    invariant
                        1 <= i,
                        full@.len() > 0 ==> i <= full@.len(),
                        full@.len() > 0 ==> route@ == full@.subrange(1, i as int),
                        full@.len() == 0 ==> route@.len() == 0,
                    decreases full@.len() - i,
                {
                    route.push(full[i]);
                    i = i + 1;
                }
                self.pathing = Some(Pathing::new(route, goal_tile_pos, cost));
                true
            },
            None => {
                self.pathing = None;
                false
            },
        }
    }

    /// Hands out the next tile of the route; once the route is exhausted the
    /// agent is left with no route and `None` is returned.
    pub fn next_pos(&mut self) -> (r: Option<Position>)
        ensures
            final(self).t == old(self).t,
            old(self).pathing.is_none() ==> r.is_none() && final(self).pathing.is_none(),
            old(self).pathing.is_some() && old(self).pathing.unwrap().exhausted() ==> r.is_none()
                && final(self).pathing.is_none(),
            old(self).pathing.is_some() && !old(self).pathing.unwrap().exhausted() ==> {
                let p = old(self).pathing.unwrap();
                let q = final(self).pathing.unwrap();
                &&& r == Some(p.path@[p.cur as int])
                &&& final(self).pathing.is_some()
                &&& q.path@ == p.path@
                &&& q.goal_tile_pos == p.goal_tile_pos
                &&& q.cost == p.cost
                &&& q.cur == p.cur + 1
            },
    {
        match self.pathing.take() {
            None => None,
            Some(p) => {
                let mut p = p;
                let next = p.next();
                if next.is_some() {
                    self.pathing = Some(p);
                }
                next
            },
        }
    }
}

/// The per-tick decision for agents that follow a goal.
pub struct AiSystem;

impl AiSystem {
    /// Chunks on each side of the agent's chunk that one search may read.
    pub const NAV_RANGE: usize = 3;

    /// Whether the search may stop at `pos`: it is the goal or next to it.
    pub fn is_reached(pos: Position, goal: Position) -> (r: bool)
        ensures
            r == reached(pos, goal),
    {
        pos == goal || pos.is_adjacent(goal)
    }

    /// Estimated cost from `pos` to the tiles where the search stops: the
    /// Chebyshev distance to the goal less one, and never below zero. Each
    /// step moves one tile and costs at least 1, so this never overestimates.
    pub fn heuristic(pos: Position, goal: Position) -> (r: i64)
        ensures
            r == if chebyshev(pos, goal) > 0 {
                chebyshev(pos, goal) - 1
            } else {
                0
            },
    {
        let d = pos.dist(goal);
        if d > 0 {
            d - 1
        } else {
            0
        }
    }

    /// Whether the agent's route must be recomputed: there is none, it is
    /// used up, or it was computed for another goal position.
    pub fn needs_search(ai: &Ai, goal: Position) -> (r: bool)
        ensures
            r == (ai.pathing.is_none() || ai.pathing.unwrap().exhausted()
                || ai.pathing.unwrap().goal_tile_pos != goal),
    {
        match &ai.pathing {
            None => true,
            Some(p) => p.cur >= p.path.len() || p.goal_tile_pos != goal,
        }
    }

    /// One tick of one agent at `pos` that follows a goal at `goal`: the
    /// route is recomputed first when it is missing, used up or stale; then
    /// the next tile of the route is taken and the agent is sent one unit
    /// step toward it, unless it is already within `CLOSE_ENOUGH` of the
    /// goal, where it stays put. Returns the movement delta.
    pub fn step(ai: &mut Ai, pos: Position, goal: Position, level: &Level) -> (delta: Position)
        requires
            level.wf(),
        ensures
            -1 <= delta.x <= 1 && -1 <= delta.y <= 1,
            chebyshev(pos, goal) <= CLOSE_ENOUGH ==> delta == (Position { x: 0, y: 0 }),
            // a missing, used-up or stale route is replaced by a fresh search
            // before the delta is chosen
            (old(ai).pathing.is_none() || old(ai).pathing.unwrap().exhausted()
                || old(ai).pathing.unwrap().goal_tile_pos != goal) ==> (final(ai).pathing.is_some()
                ==> ({
                let p = final(ai).pathing.unwrap();
                &&& p.goal_tile_pos == goal
                &&& p.cur == 1
                &&& is_route(*level, pos, goal, p.path@)
                &&& p.cost == route_cost(*level, pos, p.path@)
                &&& forall|route: Seq<Position>| #[trigger]
                    is_route(*level, pos, goal, route) ==> route_cost(*level, pos, route) >= p.cost
            })),
            // a stale route is replaced whenever a route to the goal exists in
            // the window (unless the agent already stands next to the goal)
            (old(ai).pathing.is_none() || old(ai).pathing.unwrap().exhausted()
                || old(ai).pathing.unwrap().goal_tile_pos != goal) && (exists|route: Seq<Position>|
                is_route(*level, pos, goal, route)) && !reached(pos, goal) ==> final(
                ai).pathing.is_some(),
            // otherwise the route is kept and advanced by one tile
            !(old(ai).pathing.is_none() || old(ai).pathing.unwrap().exhausted()
                || old(ai).pathing.unwrap().goal_tile_pos != goal) ==> ({
                let p = old(ai).pathing.unwrap();
                let q = final(ai).pathing.unwrap();
                &&& final(ai).pathing.is_some()
                &&& q.path@ == p.path@
                &&& q.goal_tile_pos == p.goal_tile_pos
                &&& q.cur == p.cur + 1
                &&& (chebyshev(pos, goal) > CLOSE_ENOUGH ==> delta.x == sgn_int(
                    p.path@[p.cur as int].x - pos.x,
                ) && delta.y == sgn_int(p.path@[p.cur as int].y - pos.y))
            }),
            // after a successful search the first tile of the new route is the target
            final(ai).pathing.is_some() && final(ai).pathing.unwrap().cur == 1
                && chebyshev(pos, goal) > CLOSE_ENOUGH ==> ({
                let q = final(ai).pathing.unwrap();
                delta.x == sgn_int(q.path@[0].x - pos.x) && delta.y == sgn_int(q.path@[0].y - pos.y)
            }),
            final(ai).pathing.is_none() ==> delta == (Position { x: 0, y: 0 }),
    {
        if Self::needs_search(ai, goal) {
            ai.find_path(pos, goal, level);
        }
        Self::advance(ai, pos, goal)
    }

    /// Takes the next tile of the agent's route (dropping a used-up route)
    /// and returns the unit step from `pos` toward it; returns no movement
    /// when there is no tile or the agent is within `CLOSE_ENOUGH` of the goal.
    pub fn advance(ai: &mut Ai, pos: Position, goal: Position) -> (delta: Position)
        ensures
            final(ai).t == old(ai).t,
            old(ai).pathing.is_none() ==> final(ai).pathing.is_none(),
            old(ai).pathing.is_some() && old(ai).pathing.unwrap().exhausted() ==> final(ai).pathing.is_none(),
            old(ai).pathing.is_some() && !old(ai).pathing.unwrap().exhausted() ==> {
                let p = old(ai).pathing.unwrap();
                let q = final(ai).pathing.unwrap();
                &&& final(ai).pathing.is_some()
                &&& q.path@ == p.path@
                &&& q.goal_tile_pos == p.goal_tile_pos
                &&& q.cost == p.cost
                &&& q.cur == p.cur + 1
            },
            delta == if old(ai).pathing.is_some() && !old(ai).pathing.unwrap().exhausted()
                && chebyshev(pos, goal) > CLOSE_ENOUGH {
                let p = old(ai).pathing.unwrap();
                let n = p.path@[p.cur as int];
                Position { x: sgn_int(n.x - pos.x) as i32, y: sgn_int(n.y - pos.y) as i32 }
            } else {
                Position { x: 0, y: 0 }
            },
    {
        let next = ai.next_pos();
        match next {
            Some(n) => {
                if pos.dist(goal) > CLOSE_ENOUGH {
                    Self::unit_step(pos, n)
                } else {
                    Position { x: 0, y: 0 }
                }
            },
            None => Position { x: 0, y: 0 },
        }
    }

    /// The unit step (each component the sign of the difference) from
    /// `from` toward `to`.
    pub fn unit_step(from: Position, to: Position) -> (r: Position)
        ensures
            r.x == sgn_int(to.x - from.x),
            r.y == sgn_int(to.y - from.y),
    {
        let dx = (to.x as i64) - (from.x as i64);
        let dy = (to.y as i64) - (from.y as i64);
        Position {
            x: if dx < 0 { -1 } else if dx > 0 { 1 } else { 0 },
            y: if dy < 0 { -1 } else if dy > 0 { 1 } else { 0 },
        }
    }
}

/// Each step of a route moves one tile in Chebyshev distance, so a route
/// to a goal at Chebyshev distance `d` has at least `d - 1` tiles, and every
/// tile of it lies within that many steps of the start.
pub proof fn lemma_route_length(level: Level, start: Position, goal: Position, route: Seq<Position>)
    requires
        is_route(level, start, goal, route),
    ensures
        route.len() >= chebyshev(start, goal) - 1,
        forall|i: int| 0 <= i < route.len() ==> chebyshev(start, #[trigger] route[i]) <= i + 1,
{
    let o = search_origin(start);
    assert forall|i: int| 0 <= i < route.len() implies chebyshev(start, #[trigger] route[i]) <= i + 1 by {
        lemma_route_prefix(level, start, goal, route, i);
    }
    if route.len() > 0 {
        let last = route.len() - 1;
        assert(chebyshev(start, route[last]) <= last + 1);
        assert(route[last] == route.last());
    }
}

proof fn lemma_route_prefix(level: Level, start: Position, goal: Position, route: Seq<Position>, i: int)
    requires
        is_route(level, start, goal, route),
        0 <= i < route.len(),
    ensures
        chebyshev(start, route[i]) <= i + 1,
    decreases i,
{
    let o = search_origin(start);
    if i > 0 {
        lemma_route_prefix(level, start, goal, route, i - 1);
        assert(nav_step(level, o, route[i - 1], route[i]));
    }
}

/// A tile that a search can see costs at least 1 to step onto.
proof fn lemma_nav_tile_cost(level: Level, origin: Position, q: Position)
    requires
        level.wf(),
        nav_tile(level, origin, q).is_some(),
    ensures
        nav_tile(level, origin, q).unwrap().traversal_cost > 0,
{
    let c = tile_to_chunk_spec(q);
    let l = tile_in_chunk_spec(q);
    let chunk = level.loaded_map()[c.key()];
    assert(chunk.wf());
    assert(0 <= tile_index(l.x as int, l.y as int) < 1024);
}

proof fn lemma_path_cost_at_least_len(level: Level, origin: Position, tiles: Seq<Position>)
    requires
        level.wf(),
        forall|i: int| 0 <= i < tiles.len() ==> nav_tile(level, origin, #[trigger] tiles[i]).is_some(),
    ensures
        path_cost(level, origin, tiles) >= tiles.len(),
    decreases tiles.len(),
{
    if tiles.len() > 0 {
        let init = tiles.drop_last();
        assert forall|i: int| 0 <= i < init.len() implies nav_tile(level, origin, #[trigger] init[i]).is_some() by {
            assert(init[i] == tiles[i]);
        }
        lemma_path_cost_at_least_len(level, origin, init);
        lemma_nav_tile_cost(level, origin, tiles.last());
    }
}

/// Every tile costs at least 1 and every step moves one tile, so a route
/// costs at least as much as it has tiles, and at least the Chebyshev
/// distance to the goal less one.
pub proof fn lemma_route_cost_bound(level: Level, start: Position, goal: Position, route: Seq<Position>)
    requires
        level.wf(),
        is_route(level, start, goal, route),
    ensures
        route_cost(level, start, route) >= route.len(),
        route.len() >= chebyshev(start, goal) - 1,
{
    let o = search_origin(start);
    assert forall|i: int| 0 <= i < route.len() implies nav_tile(level, o, #[trigger] route[i]).is_some() by {
        if i == 0 {
            assert(nav_step(level, o, start, route[0]));
        } else {
            assert(nav_step(level, o, route[i - 1], route[i]));
        }
    }
    lemma_path_cost_at_least_len(level, o, route);
    lemma_route_length(level, start, goal, route);
}

proof fn lemma_open_tile(level: Level, x: i32)
    requires
        1 <= x <= 4,
        level.loaded_map().contains_key((0i32, 0i32)),
        forall|k: int|
            0 <= k < 1024 ==> (#[trigger] level.loaded_map()[(0i32, 0i32)].tiles@[k]).traversal_cost == 1,
    ensures
        nav_tile(level, Position { x: -3i32, y: -3i32 }, Position { x, y: 0 }).is_some(),
        nav_tile(level, Position { x: -3i32, y: -3i32 }, Position { x, y: 0 }).unwrap().traversal_cost
            == 1,
{
    let q = Position { x, y: 0 };
    assert(tile_to_chunk_spec(q) == Position { x: 0, y: 0 });
    assert(tile_in_chunk_spec(q) == Position { x, y: 0 });
    assert(tile_index(x as int, 0) == 32 * x);
    assert(level.loaded_map()[(0i32, 0i32)].tiles@[32 * x].traversal_cost == 1);
}

proof fn lemma_straight_route(level: Level) -> (straight: Seq<Position>)
    requires
        level.loaded_map().contains_key((0i32, 0i32)),
        forall|k: int|
            0 <= k < 1024 ==> (#[trigger] level.loaded_map()[(0i32, 0i32)].tiles@[k]).traversal_cost == 1,
    ensures
        is_route(level, Position { x: 0, y: 0 }, Position { x: 5, y: 0 }, straight),
        route_cost(level, Position { x: 0, y: 0 }, straight) == 4,
{
    let s = Position { x: 0, y: 0 };
    let g = Position { x: 5, y: 0 };
    let o = Position { x: -3i32, y: -3i32 };
    assert(search_origin(s) == o);
    let p1 = Position { x: 1, y: 0 };
    let p2 = Position { x: 2, y: 0 };
    let p3 = Position { x: 3, y: 0 };
    let p4 = Position { x: 4, y: 0 };
    lemma_open_tile(level, 1);
    lemma_open_tile(level, 2);
    lemma_open_tile(level, 3);
    lemma_open_tile(level, 4);
    let straight = seq![p1, p2, p3, p4];
    assert(nav_step(level, o, s, p1));
    assert(nav_step(level, o, p1, p2));
    assert(nav_step(level, o, p2, p3));
    assert(nav_step(level, o, p3, p4));
    assert forall|i: int| 0 <= i < straight.len() - 1 implies nav_step(
        level,
        o,
        #[trigger] straight[i],
        straight[i + 1],
    ) by {
        if i == 0 {
        } else if i == 1 {
        } else {
        }
    }
    assert(reached(p4, g));
    assert(straight.drop_last() =~= seq![p1, p2, p3]);
    assert(seq![p1, p2, p3].drop_last() =~= seq![p1, p2]);
    assert(seq![p1, p2].drop_last() =~= seq![p1]);
    assert(seq![p1].drop_last() =~= Seq::<Position>::empty());
    assert(path_cost(level, o, Seq::<Position>::empty()) == 0);
    assert(seq![p1].last() == p1);
    assert(seq![p1, p2].last() == p2);
    assert(seq![p1, p2, p3].last() == p3);
    assert(straight.last() == p4);
    assert(path_cost(level, o, seq![p1]) == 1);
    assert(path_cost(level, o, seq![p1, p2]) == 2);
    assert(path_cost(level, o, seq![p1, p2, p3]) == 3);
    assert(path_cost(level, o, straight) == 4);
    straight
}

/// On a resident chunk at the origin whose tiles all cost 1, the cheapest
/// route from tile (0, 0) to tile (5, 0) has 4 tiles and costs 4.
pub proof fn lemma_open_chunk_route(level: Level, route: Seq<Position>, cost: int)
    requires
        level.wf(),
        level.loaded_map().contains_key((0i32, 0i32)),
        forall|k: int|
            0 <= k < 1024 ==> (#[trigger] level.loaded_map()[(0i32, 0i32)].tiles@[k]).traversal_cost == 1,
        is_route(level, Position { x: 0, y: 0 }, Position { x: 5, y: 0 }, route),
        cost == route_cost(level, Position { x: 0, y: 0 }, route),
        forall|other: Seq<Position>| #[trigger]
            is_route(level, Position { x: 0, y: 0 }, Position { x: 5, y: 0 }, other) ==> route_cost(
                level,
                Position { x: 0, y: 0 },
                other,
            ) >= cost,
    ensures
        route.len() == 4,
        cost == 4,
{
    let straight = lemma_straight_route(level);
    lemma_route_cost_bound(level, Position { x: 0, y: 0 }, Position { x: 5, y: 0 }, route);
    assert(chebyshev(Position { x: 0, y: 0 }, Position { x: 5, y: 0 }) == 5);
}

} // verus!
