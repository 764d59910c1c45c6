//! The world container: resident chunks, archived chunks and the seed that
//! regenerates anything that is in neither.
use vstd::prelude::*;
use crate::world::chunk::{LoadedChunk, UnloadedChunk, generated_from};
use crate::world::position::{
    Position, TilePosition, tile_in_chunk_spec, tile_to_chunk_spec, valid_chunk,
};
use crate::world::tile::Tile;

verus! {

/// Resident chunks keyed by chunk coordinates, in a hashbrown map.
#[verifier::external_body]
pub struct LoadedChunks {
    map: hashbrown::HashMap<(i32, i32), LoadedChunk>,
}

/// Archived chunks keyed by chunk coordinates, in a hashbrown map.
#[verifier::external_body]
pub struct ArchivedChunks {
    map: hashbrown::HashMap<(i32, i32), UnloadedChunk>,
}

/// What a `LoadedChunks` holds.
pub uninterp spec fn loaded_entries(t: LoadedChunks) -> Map<(i32, i32), LoadedChunk>;

/// What an `ArchivedChunks` holds.
pub uninterp spec fn archived_entries(t: ArchivedChunks) -> Map<(i32, i32), UnloadedChunk>;

impl LoadedChunks {
    /// Relies on hashbrown's `HashMap::new`: an empty map.
    #[verifier::external_body]
    pub(crate) fn new() -> (r: LoadedChunks)
        ensures
            loaded_entries(r).is_empty(),
            loaded_entries(r).dom().finite(),
    {
        LoadedChunks { map: hashbrown::HashMap::new() }
    }

    /// Relies on hashbrown's `HashMap::contains_key`: whether the key is present.
    #[verifier::external_body]
    pub(crate) fn contains_key(&self, p: Position) -> (r: bool)
        ensures
            r == loaded_entries(*self).contains_key(p.key()),
    {
        self.map.contains_key(&(p.x, p.y))
    }

    /// Relies on hashbrown's `HashMap::get`: the value under the key, if any.
    #[verifier::external_body]
    pub(crate) fn get(&self, p: Position) -> (r: Option<&LoadedChunk>)
        ensures
            match r {
                Some(c) => loaded_entries(*self).contains_key(p.key()) && *c == loaded_entries(
                    *self,
                )[p.key()],
                None => !loaded_entries(*self).contains_key(p.key()),
            },
    {
        self.map.get(&(p.x, p.y))
    }

    /// Relies on hashbrown's `HashMap::insert`: the key now maps to the value.
    #[verifier::external_body]
    pub(crate) fn insert(&mut self, p: Position, c: LoadedChunk)
        ensures
            loaded_entries(*final(self)) == loaded_entries(*old(self)).insert(p.key(), c),
    {
        self.map.insert((p.x, p.y), c);
    }

    /// Relies on hashbrown's `HashMap::remove`: takes out the value under the
    /// key, if any.
    #[verifier::external_body]
    pub(crate) fn remove(&mut self, p: Position) -> (r: Option<LoadedChunk>)
        ensures
            loaded_entries(*final(self)) == loaded_entries(*old(self)).remove(p.key()),
            match r {
                Some(c) => loaded_entries(*old(self)).contains_key(p.key()) && c == loaded_entries(
                    *old(self),
                )[p.key()],
                None => !loaded_entries(*old(self)).contains_key(p.key()),
            },
    {
        self.map.remove(&(p.x, p.y))
    }

    /// Relies on hashbrown's `HashMap::len`: the number of keys.
    #[verifier::external_body]
    pub(crate) fn len(&self) -> (r: usize)
        ensures
            r == loaded_entries(*self).dom().len(),
    {
        self.map.len()
    }

    /// Relies on hashbrown's `HashMap::keys`: every key once, in an order
    /// that the map's hasher decides.
    #[verifier::external_body]
    pub(crate) fn positions(&self) -> (r: Vec<Position>)
        ensures
            r@.no_duplicates(),
            forall|i: int| 0 <= i < r@.len() ==> loaded_entries(*self).contains_key(#[trigger] r@[i].key()),
            forall|k: (i32, i32)|
                #[trigger] loaded_entries(*self).contains_key(k) ==> exists|i: int|
                    0 <= i < r@.len() && r@[i].key() == k,
    {
        self.map.keys().map(|&(x, y)| Position { x, y }).collect()
    }
}

impl ArchivedChunks {
    /// Relies on hashbrown's `HashMap::new`: an empty map.
    #[verifier::external_body]
    pub(crate) fn new() -> (r: ArchivedChunks)
        ensures
            archived_entries(r).is_empty(),
            archived_entries(r).dom().finite(),
    {
        ArchivedChunks { map: hashbrown::HashMap::new() }
    }

    /// Relies on hashbrown's `HashMap::get`: the value under the key, if any.
    #[verifier::external_body]
    pub(crate) fn get(&self, p: Position) -> (r: Option<&UnloadedChunk>)
        ensures
            match r {
                Some(c) => archived_entries(*self).contains_key(p.key()) && *c == archived_entries(
                    *self,
                )[p.key()],
                None => !archived_entries(*self).contains_key(p.key()),
            },
    {
        self.map.get(&(p.x, p.y))
    }

    /// Relies on hashbrown's `HashMap::insert`: the key now maps to the value.
    #[verifier::external_body]
    pub(crate) fn insert(&mut self, p: Position, c: UnloadedChunk)
        ensures
            archived_entries(*final(self)) == archived_entries(*old(self)).insert(p.key(), c),
    {
        self.map.insert((p.x, p.y), c);
    }

    /// Relies on hashbrown's `HashMap::remove`: takes out the value under the
    /// key, if any.
    #[verifier::external_body]
    pub(crate) fn remove(&mut self, p: Position) -> (r: Option<UnloadedChunk>)
        ensures
            archived_entries(*final(self)) == archived_entries(*old(self)).remove(p.key()),
            match r {
                Some(c) => archived_entries(*old(self)).contains_key(p.key()) && c
                    == archived_entries(*old(self))[p.key()],
                None => !archived_entries(*old(self)).contains_key(p.key()),
            },
    {
        self.map.remove(&(p.x, p.y))
    }
}

/// The chunk store of the world: resident chunks, archived chunks and the
/// generation seed.
pub struct Level {
    pub unloaded_chunks: ArchivedChunks,
    pub loaded_chunks: LoadedChunks,
    pub seed: i32,
}

impl Level {
    /// Resident chunks by chunk coordinates.
    pub open spec fn loaded_map(&self) -> Map<(i32, i32), LoadedChunk> {
        loaded_entries(self.loaded_chunks)
    }

    /// Archived chunks by chunk coordinates.
    pub open spec fn archived_map(&self) -> Map<(i32, i32), UnloadedChunk> {
        archived_entries(self.unloaded_chunks)
    }

    /// Both maps are finite and disjoint, and every chunk is well formed and
    /// stored under its own position.
    pub open spec fn wf(&self) -> bool {
        &&& self.loaded_map().dom().finite()
        &&& self.archived_map().dom().finite()
        &&& forall|k: (i32, i32)|
            #[trigger] self.loaded_map().contains_key(k) ==> !self.archived_map().contains_key(k)
        &&& forall|k: (i32, i32)| #[trigger]
            self.loaded_map().contains_key(k) ==> self.loaded_map()[k].wf()
                && self.loaded_map()[k].pos.key() == k
        &&& forall|k: (i32, i32)| #[trigger]
            self.archived_map().contains_key(k) ==> self.archived_map()[k].wf()
                && self.archived_map()[k].pos.key() == k
    }

    /// The resident tile at a tile position, if its chunk is resident.
    pub open spec fn loaded_tile(&self, tile_pos: Position) -> Option<Tile> {
        let c = tile_to_chunk_spec(tile_pos);
        let l = tile_in_chunk_spec(tile_pos);
        if self.loaded_map().contains_key(c.key()) {
            Some(self.loaded_map()[c.key()].tile_spec(l.x as int, l.y as int))
        } else {
            None
        }
    }

    /// `c`, found resident under `k` after a load from `old`, is the chunk
    /// that `old` archived under `k`, made resident with the same tiles, or
    /// else the chunk generated for `k` from the seed.
    pub open spec fn materialized<F: Fn(i32, i32, i32) -> bool>(
        old: Level,
        c: LoadedChunk,
        k: (i32, i32),
        rock_at: F,
    ) -> bool {
        &&& c.pos.key() == k
        &&& old.archived_map().contains_key(k) ==> c.tiles@ == old.archived_map()[k].tiles@
        &&& !old.archived_map().contains_key(k) ==> generated_from(c.tiles@, c.pos, old.seed, rock_at)
    }

    /// What `load_chunk` makes of `old` at `pos`.
    pub open spec fn loaded_after<F: Fn(i32, i32, i32) -> bool>(
        old: Level,
        new: Level,
        pos: Position,
        rock_at: F,
    ) -> bool {
        let k = pos.key();
        &&& new.seed == old.seed
        &&& new.loaded_map().dom() == old.loaded_map().dom().insert(k)
        &&& forall|j: (i32, i32)|
            j != k && #[trigger] old.loaded_map().contains_key(j) ==> new.loaded_map()[j]
                == old.loaded_map()[j]
        &&& new.archived_map() == old.archived_map().remove(k)
        &&& new.loaded_map()[k].pos == pos
        &&& Self::materialized(old, new.loaded_map()[k], k, rock_at)
    }

    /// What `unload_chunk` makes of `old` at `pos` when that chunk is
    /// resident: it moves to the archive with its tiles and no entities.
    pub open spec fn unloaded_after(old: Level, new: Level, pos: Position) -> bool {
        let k = pos.key();
        let c = new.archived_map()[k];
        &&& new.seed == old.seed
        &&& new.loaded_map() == old.loaded_map().remove(k)
        &&& new.archived_map().dom() == old.archived_map().dom().insert(k)
        &&& forall|j: (i32, i32)|
            j != k && #[trigger] old.archived_map().contains_key(j) ==> new.archived_map()[j]
                == old.archived_map()[j]
        &&& c.tiles@ == old.loaded_map()[k].tiles@
        &&& c.pos == old.loaded_map()[k].pos
        &&& c.entities@.len() == 0
    }

    /// An empty world with the given seed.
    pub fn new(seed: i32) -> (r: Level)
        ensures
            r.wf(),
            r.seed == seed,
            r.loaded_map() == Map::<(i32, i32), LoadedChunk>::empty(),
            r.archived_map() == Map::<(i32, i32), UnloadedChunk>::empty(),
    {
        Level { unloaded_chunks: ArchivedChunks::new(), loaded_chunks: LoadedChunks::new(), seed }
    }

    /// Whether the chunk at `pos` is resident.
    pub fn is_loaded(&self, pos: &Position) -> (r: bool)
        ensures
            r == self.loaded_map().contains_key(pos.key()),
    {
        self.loaded_chunks.contains_key(*pos)
    }

    /// Number of resident chunks.
    pub fn loaded_count(&self) -> (r: usize)
        ensures
            r == self.loaded_map().dom().len(),
    {
        self.loaded_chunks.len()
    }

    /// Positions of the resident chunks, each once, in no particular order.
    pub fn loaded_positions(&self) -> (r: Vec<Position>)
        ensures
            r@.no_duplicates(),
            forall|i: int| 0 <= i < r@.len() ==> self.loaded_map().contains_key(#[trigger] r@[i].key()),
            forall|k: (i32, i32)|
                #[trigger] self.loaded_map().contains_key(k) ==> exists|i: int|
                    0 <= i < r@.len() && r@[i].key() == k,
    {
        self.loaded_chunks.positions()
    }

    /// The resident chunk at `pos`, if there is one.
    pub fn get_loaded_chunk(&self, pos: Position) -> (r: Option<&LoadedChunk>)
        ensures
            match r {
                Some(c) => self.loaded_map().contains_key(pos.key()) && *c == self.loaded_map()[pos.key()],
                None => !self.loaded_map().contains_key(pos.key()),
            },
    {
        self.loaded_chunks.get(pos)
    }

    /// Makes the chunk at `chunk_pos` resident: taken from the archive when
    /// it is there, else generated from the seed. The chunk must not be
    /// resident already.
    pub fn load_chunk<F: Fn(i32, i32, i32) -> bool>(&mut self, chunk_pos: Position, rock_at: &F) -> (r:
        &LoadedChunk)
        requires
            old(self).wf(),
            valid_chunk(chunk_pos),
            !old(self).loaded_map().contains_key(chunk_pos.key()),
            forall|args: (i32, i32, i32)| call_requires(*rock_at, args),
        ensures
            final(self).wf(),
            Self::loaded_after(*old(self), *final(self), chunk_pos, *rock_at),
            *r == final(self).loaded_map()[chunk_pos.key()],
    {
        let archived = self.unloaded_chunks.remove(chunk_pos);
        let unloaded = match archived {
            Some(c) => c,
            None => UnloadedChunk::generate(chunk_pos, self.seed, rock_at),
        };
        let loaded = unloaded.load();
        self.loaded_chunks.insert(chunk_pos, loaded);
        let r = self.loaded_chunks.get(chunk_pos);
        proof {
            let k = chunk_pos.key();
            assert(self.loaded_map().dom() =~= old(self).loaded_map().dom().insert(k));
            assert forall|j: (i32, i32)| #[trigger]
                self.loaded_map().contains_key(j) implies !self.archived_map().contains_key(j)
                && self.loaded_map()[j].wf() && self.loaded_map()[j].pos.key() == j by {
                if j != k {
                    assert(old(self).loaded_map().contains_key(j));
                }
            }
        }
        r.unwrap()
    }

    /// Makes the chunk at `chunk_pos` resident if it is not already, and
    /// returns it.
    pub fn ensure_loaded<F: Fn(i32, i32, i32) -> bool>(&mut self, chunk_pos: Position, rock_at: &F) -> (r:
        &LoadedChunk)
        requires
            old(self).wf(),
            valid_chunk(chunk_pos),
            forall|args: (i32, i32, i32)| call_requires(*rock_at, args),
        ensures
            final(self).wf(),
            old(self).loaded_map().contains_key(chunk_pos.key()) ==> final(self).loaded_map()
                == old(self).loaded_map() && final(self).archived_map() == old(self).archived_map() && final(self).seed == old(self).seed,
            !old(self).loaded_map().contains_key(chunk_pos.key()) ==> Self::loaded_after(
                *old(self),
                *final(self),
                chunk_pos,
                *rock_at,
            ),
            final(self).loaded_map().contains_key(chunk_pos.key()),
            *r == final(self).loaded_map()[chunk_pos.key()],
    {
        if !self.is_loaded(&chunk_pos) {
            return self.load_chunk(chunk_pos, rock_at);
        }
        self.loaded_chunks.get(chunk_pos).unwrap()
    }

    /// Archives the resident chunk at `chunk_pos` with no entities and
    /// returns the archived chunk; does nothing and returns `None` when the
    /// chunk is not resident.
    pub fn unload_chunk(&mut self, chunk_pos: Position) -> (r: Option<&UnloadedChunk>)
        requires
            old(self).wf(),
        ensures
            final(self).wf(),
            final(self).seed == old(self).seed,
            !old(self).loaded_map().contains_key(chunk_pos.key()) ==> r.is_none() && final(self).loaded_map() == old(self).loaded_map() && final(self).archived_map() == old(self).archived_map(),
            old(self).loaded_map().contains_key(chunk_pos.key()) ==> Self::unloaded_after(
                *old(self),
                *final(self),
                chunk_pos,
            ) && r == Some(&final(self).archived_map()[chunk_pos.key()]),
    {
        let removed = self.loaded_chunks.remove(chunk_pos);
        match removed {
            None => None,
            Some(chunk) => {
                let archived = chunk.unload(Vec::new());
                self.unloaded_chunks.insert(chunk_pos, archived);
                proof {
                    let k = chunk_pos.key();
                    assert(self.archived_map().dom() =~= old(self).archived_map().dom().insert(k));
                    assert forall|j: (i32, i32)| #[trigger]
                        self.archived_map().contains_key(j) implies self.archived_map()[j].wf()
                        && self.archived_map()[j].pos.key() == j by {
                        if j != k {
                            assert(old(self).archived_map().contains_key(j));
                        }
                    }
                }
                self.unloaded_chunks.get(chunk_pos)
            },
        }
    }

    /// The resident tile at a tile position, or `None` when its chunk is not
    /// resident. Never loads anything.
    pub fn get_loaded_tile(&self, tile_pos: Position) -> (r: Option<&Tile>)
        requires
            self.wf(),
        ensures
            match r {
                Some(t) => self.loaded_tile(tile_pos) == Some(*t),
                None => self.loaded_tile(tile_pos).is_none(),
            },
    {
        let chunk_pos = TilePosition::to_chunk(tile_pos);
        match self.loaded_chunks.get(chunk_pos) {
            None => None,
            Some(chunk) => {
                let local = TilePosition::to_tile_in_chunk(tile_pos);
                Some(chunk.get_tile(local.x, local.y))
            },
        }
    }
}

/// Archiving a resident chunk and loading it back, with no regeneration in
/// between, gives back exactly the tiles it had.
pub proof fn lemma_archive_round_trip<F: Fn(i32, i32, i32) -> bool>(
    l0: Level,
    l1: Level,
    l2: Level,
    pos: Position,
    rock_at: F,
)
    requires
        l0.wf(),
        l0.loaded_map().contains_key(pos.key()),
        Level::unloaded_after(l0, l1, pos),
        Level::loaded_after(l1, l2, pos, rock_at),
    ensures
        l2.loaded_map()[pos.key()].tiles@ == l0.loaded_map()[pos.key()].tiles@,
        l2.loaded_map()[pos.key()].pos == l0.loaded_map()[pos.key()].pos,
{
    assert(l1.archived_map().contains_key(pos.key()));
}

impl Default for Level {
    fn default() -> (r: Level)
        ensures
            r.wf(),
            r.seed == 0,
            r.loaded_map() == Map::<(i32, i32), LoadedChunk>::empty(),
            r.archived_map() == Map::<(i32, i32), UnloadedChunk>::empty(),
    {
        Level::new(0)
    }
}

} // verus!
