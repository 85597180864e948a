//! The registry of resident chunks, and how it follows the viewer.

use crate::viewer::WorldPosition;
use crate::window::{in_window, required_chunks, required_set};
use bevy::ecs::entity::Entity;
use std::collections::HashMap;
use vstd::prelude::*;
use vstd::std_specs::iter::IteratorSpec;

verus! {

broadcast use vstd::std_specs::hash::group_hash_axioms;

/// `bevy::ecs::entity::Entity`, the engine's handle of an entity. Nothing is
/// claimed of it: the registry stores and returns such handles and never
/// looks inside one.
#[verifier::external_type_specification]
#[verifier::external_body]
pub struct ExEntity(bevy::ecs::entity::Entity);

/// What the engine holds for one resident chunk.
#[derive(Clone, Copy, Debug, PartialEq, Eq)]
pub struct ChunkRecord {
    /// The entity that renders the terrain.
    pub terrain: Entity,
    /// The entity that renders the water plane, where the chunk has one.
    pub water: Option<Entity>,
}

/// What the caller has to do after the registry was reconciled with the
/// viewer's chunk.
pub struct ChunkPlan {
    /// The chunks that left the registry, with the records to release.
    pub released: Vec<((i32, i32), ChunkRecord)>,
    /// The chunks to make and then load, in row-major order.
    pub missing: Vec<(i32, i32)>,
}

/// The resident chunks, each with its record, and the distance up to which
/// chunks are kept around the viewer.
pub struct ChunkManager {
    loaded_chunks: HashMap<u64, ChunkRecord>,
    render_distance: i32,
}

/// The number under which chunk `c` is filed: both coordinates moved into
/// `0 .. 2^32`, `x` in the upper half of the key and `z` in the lower.
spec fn chunk_key(c: (i32, i32)) -> u64 {
    ((c.0 - i32::MIN) * 0x1_0000_0000 + (c.1 - i32::MIN)) as u64
}

/// The chunk that is filed under `key`.
spec fn key_chunk(key: u64) -> (i32, i32) {
    ((key / 0x1_0000_0000 + i32::MIN) as i32, (key % 0x1_0000_0000 + i32::MIN) as i32)
}

/// Filing is one to one: every chunk has a key and every key a chunk.
proof fn lemma_keys_match_chunks()
    ensures
        forall|c: (i32, i32)| key_chunk(#[trigger] chunk_key(c)) == c,
        forall|k: u64| chunk_key(#[trigger] key_chunk(k)) == k,
{
    assert forall|c: (i32, i32)| key_chunk(#[trigger] chunk_key(c)) == c by {
        let hi: int = c.0 - i32::MIN;
        let lo: int = c.1 - i32::MIN;
        vstd::arithmetic::div_mod::lemma_fundamental_div_mod_converse(
            hi * 0x1_0000_0000 + lo,
            0x1_0000_0000,
            hi,
            lo,
        );
    }
}

fn key_of(c: (i32, i32)) -> (key: u64)
    ensures
        key == chunk_key(c),
{
    let hi: u64 = (c.0 as i64 - i32::MIN as i64) as u64;
    let lo: u64 = (c.1 as i64 - i32::MIN as i64) as u64;
    hi * 0x1_0000_0000 + lo
}

/// Whether chunk `c` lies in the window of `distance` chunks around `viewer`.
fn within(viewer: &WorldPosition, distance: i32, c: (i32, i32)) -> (inside: bool)
    ensures
        inside == in_window(viewer.coord(), distance, c),
{
    let reach: i64 = distance as i64;
    let dx: i64 = c.0 as i64 - viewer.chunk_x as i64;
    let dz: i64 = c.1 as i64 - viewer.chunk_z as i64;
    -reach <= dx && dx <= reach && -reach <= dz && dz <= reach
}

fn chunk_of(key: u64) -> (c: (i32, i32))
    ensures
        c == key_chunk(key),
{
    let x: i64 = (key / 0x1_0000_0000) as i64 + i32::MIN as i64;
    let z: i64 = (key % 0x1_0000_0000) as i64 + i32::MIN as i64;
    (x as i32, z as i32)
}

/// The resident chunks that stay when the viewer stands in `center`: those
/// inside the required window.
pub open spec fn kept(
    resident: Map<(i32, i32), ChunkRecord>,
    center: (i32, i32),
    distance: i32,
) -> Map<(i32, i32), ChunkRecord> {
    resident.restrict(required_set(center, distance))
}

/// The resident chunks that have to go when the viewer stands in `center`:
/// those outside the required window.
pub open spec fn stale(
    resident: Map<(i32, i32), ChunkRecord>,
    center: (i32, i32),
    distance: i32,
) -> Map<(i32, i32), ChunkRecord> {
    resident.remove_keys(required_set(center, distance))
}

/// The chunks of the required window that are not resident.
pub open spec fn missing(
    resident: Map<(i32, i32), ChunkRecord>,
    center: (i32, i32),
    distance: i32,
) -> Set<(i32, i32)> {
    required_set(center, distance).difference(resident.dom())
}

/// The registry after `record` was loaded for chunk `coord`: a chunk that is
/// resident keeps the record it has.
pub open spec fn loaded(
    resident: Map<(i32, i32), ChunkRecord>,
    coord: (i32, i32),
    record: ChunkRecord,
) -> Map<(i32, i32), ChunkRecord> {
    if resident.contains_key(coord) {
        resident
    } else {
        resident.insert(coord, record)
    }
}

/// Residency agrees with the required window: nothing to release, nothing to create.
pub open spec fn settled(
    resident: Map<(i32, i32), ChunkRecord>,
    center: (i32, i32),
    distance: i32,
) -> bool {
    resident.dom() == required_set(center, distance)
}

impl View for ChunkManager {
    type V = Map<(i32, i32), ChunkRecord>;

    /// The registry as a map from chunk coordinate to record.
    closed spec fn view(&self) -> Map<(i32, i32), ChunkRecord> {
        Map::new(
            |c: (i32, i32)| self.loaded_chunks@.contains_key(chunk_key(c)),
            |c: (i32, i32)| self.loaded_chunks@[chunk_key(c)],
        )
    }
}

impl Default for ChunkManager {
    /// An empty registry that keeps only the viewer's own chunk.
    fn default() -> (manager: ChunkManager)
        ensures
            manager@ == Map::<(i32, i32), ChunkRecord>::empty(),
            manager.distance() == 0,
    {
        ChunkManager::new(0)
    }
}

impl ChunkManager {
    /// The distance, in chunks, up to which chunks are kept around the viewer.
    pub closed spec fn distance(&self) -> i32 {
        self.render_distance
    }

    /// The distance, in chunks, up to which chunks are kept around the viewer.
    pub fn render_distance(&self) -> (distance: i32)
        ensures
            distance == self.distance(),
    {
        self.render_distance
    }

    /// An empty registry that keeps chunks up to `render_distance` around the viewer.
    pub fn new(render_distance: i32) -> (manager: ChunkManager)
        ensures
            manager@ == Map::<(i32, i32), ChunkRecord>::empty(),
            manager.distance() == render_distance,
    {
        let manager = ChunkManager { loaded_chunks: HashMap::new(), render_distance };
        assert(manager@ =~= Map::<(i32, i32), ChunkRecord>::empty());
        manager
    }

    /// The keys of the resident chunks, each once, in the order in which the
    /// map hands them out.
    fn resident_keys(&self) -> (keys: Vec<u64>)
        ensures
            keys@.no_duplicates(),
            keys@.to_set() == self.loaded_chunks@.dom(),
    {
        let mut keys: Vec<u64> = Vec::new();
        let ghost handed_out = vstd::std_specs::hash::spec_keys_iter(&self.loaded_chunks).remaining();
        for key in it: self.loaded_chunks.keys()
            invariant
                it.seq() == handed_out,
                keys.len() == it.index(),
                forall|j: int| 0 <= j < it.index() ==> keys[j] == *handed_out[j],
        {
            keys.push(*key);
        }
        proof {
            assert(keys@ =~= handed_out.unref());
            assert forall|i: int, j: int| 0 <= i < keys.len() && 0 <= j < keys.len() && i != j implies keys[i] != keys[j] by {
                assert(handed_out[i] != handed_out[j]);
            }
        }
        keys
    }

    /// The registry holds as many chunks as its map holds keys.
    proof fn lemma_view_len(&self)
        ensures
            self@.dom().finite(),
            self@.dom().len() == self.loaded_chunks@.dom().len(),
    {
        lemma_keys_match_chunks();
        let keys = self.loaded_chunks@.dom();
        let unfile = |k: u64| key_chunk(k);
        assert forall|k1: u64, k2: u64|
            keys.contains(k1) && keys.contains(k2) && #[trigger] unfile(k1) == #[trigger] unfile(
                k2,
            ) implies k1 == k2 by {
            assert(chunk_key(key_chunk(k1)) == k1);
            assert(chunk_key(key_chunk(k2)) == k2);
        }
        assert forall|c: (i32, i32)| keys.map(unfile).contains(c) <==> self@.dom().contains(c) by {
            if self@.dom().contains(c) {
                assert(keys.contains(chunk_key(c)) && unfile(chunk_key(c)) == c);
            }
        }
        assert(keys.map(unfile) =~= self@.dom());
        vstd::set_lib::lemma_map_size(keys, self@.dom(), unfile);
    }

    /// The number of resident chunks.
    pub fn len(&self) -> (count: usize)
        ensures
            self@.dom().finite(),
            count == self@.dom().len(),
    {
        proof {
            self.lemma_view_len();
        }
        self.loaded_chunks.len()
    }

    /// The resident chunks, each once, in no particular order.
    pub fn resident_chunks(&self) -> (chunks: Vec<(i32, i32)>)
        ensures
            chunks@.no_duplicates(),
            chunks@.to_set() == self@.dom(),
    {
        let keys = self.resident_keys();
        let mut chunks: Vec<(i32, i32)> = Vec::new();
        proof {
            lemma_keys_match_chunks();
        }
        let mut i: usize = 0;
        while i < keys.len()
            invariant
                0 <= i <= keys.len(),
                chunks.len() == i,
                forall|j: int| 0 <= j < i ==> #[trigger] chunks[j] == key_chunk(keys[j]),
            decreases keys.len() - i,
        {
            chunks.push(chunk_of(keys[i]));
            i = i + 1;
        }
        proof {
            assert forall|a: int, b: int| 0 <= a < chunks.len() && 0 <= b < chunks.len() && a != b implies chunks[a] != chunks[b] by {
                assert(chunk_key(key_chunk(keys[a])) == keys[a]);
                assert(chunk_key(key_chunk(keys[b])) == keys[b]);
            }
            assert forall|c: (i32, i32)| chunks@.to_set().contains(c) <==> self@.dom().contains(c) by {
                if chunks@.contains(c) {
                    let j = choose|j: int| 0 <= j < chunks.len() && chunks[j] == c;
                    assert(keys@.contains(keys[j]));
                    assert(keys@.to_set().contains(keys[j]));
                    assert(chunk_key(key_chunk(keys[j])) == keys[j]);
                }
                if self@.dom().contains(c) {
                    assert(keys@.to_set().contains(chunk_key(c)));
                    let j = choose|j: int| 0 <= j < keys.len() && keys[j] == chunk_key(c);
                    assert(chunks[j] == c);
                }
            }
            assert(chunks@.to_set() =~= self@.dom());
        }
        chunks
    }

    /// Whether chunk `coord` is resident.
    pub fn contains(&self, coord: (i32, i32)) -> (resident: bool)
        ensures
            resident == self@.contains_key(coord),
    {
        self.loaded_chunks.contains_key(&key_of(coord))
    }

    /// The record of chunk `coord`, where it is resident.
    pub fn get(&self, coord: (i32, i32)) -> (record: Option<ChunkRecord>)
        ensures
            record == if self@.contains_key(coord) {
                Some(self@[coord])
            } else {
                None
            },
    {
        match self.loaded_chunks.get(&key_of(coord)) {
            Some(record) => Some(*record),
            None => None,
        }
    }

    /// Drops every resident chunk outside the window around `viewer` from the
    /// registry and returns the dropped chunks, each once with its record, for
    /// the caller to release. Chunks inside the window stay as they are.
    pub fn unload_stale(&mut self, viewer: &WorldPosition) -> (released: Vec<
        ((i32, i32), ChunkRecord),
    >)
        ensures
            final(self)@ == kept(old(self)@, viewer.coord(), old(self).distance()),
            final(self).distance() == old(self).distance(),
            forall|c: (i32, i32), r: ChunkRecord|
                #![trigger released@.contains((c, r))]
                #![trigger stale(old(self)@, viewer.coord(), old(self).distance()).contains_pair(c, r)]
                released@.contains((c, r)) <==> stale(
                    old(self)@,
                    viewer.coord(),
                    old(self).distance(),
                ).contains_pair(c, r),
            forall|i: int, j: int|
                0 <= i < j < released.len() ==> (#[trigger] released[i]).0 != (
                #[trigger] released[j]).0,
            settled(old(self)@, viewer.coord(), old(self).distance()) ==> released.len() == 0
                && final(self)@ == old(self)@,
    {
        let keys = self.resident_keys();
        let mut released: Vec<((i32, i32), ChunkRecord)> = Vec::new();
        let ghost before = self.loaded_chunks@;
        let ghost center = viewer.coord();
        let ghost distance = self.render_distance;
        proof {
            lemma_keys_match_chunks();
        }
        let mut i: usize = 0;
        while i < keys.len()
            invariant
                0 <= i <= keys.len(),
                keys@.no_duplicates(),
                keys@.to_set() == before.dom(),
                self.render_distance == distance,
                center == viewer.coord(),
                forall|c: (i32, i32)| key_chunk(#[trigger] chunk_key(c)) == c,
                forall|k: u64| chunk_key(#[trigger] key_chunk(k)) == k,
                forall|k: u64| #[trigger]
                    self.loaded_chunks@.contains_key(k) ==> before.contains_key(k)
                        && self.loaded_chunks@[k] == before[k],
                forall|k: u64|
                    before.contains_key(k) && !#[trigger] self.loaded_chunks@.contains_key(k)
                        ==> !in_window(center, distance, key_chunk(k)) && exists|j: int|
                        0 <= j < i && keys[j] == k,
                forall|j: int|
                    0 <= j < i && !in_window(center, distance, key_chunk(#[trigger] keys[j]))
                        ==> !self.loaded_chunks@.contains_key(keys[j]),
                forall|t: int|
                    0 <= t < released.len() ==> {
                        let k = chunk_key((#[trigger] released[t]).0);
                        &&& before.contains_key(k)
                        &&& !self.loaded_chunks@.contains_key(k)
                        &&& released[t].1 == before[k]
                    },
                forall|k: u64|
                    before.contains_key(k) && !#[trigger] self.loaded_chunks@.contains_key(k)
                        ==> exists|t: int| 0 <= t < released.len() && released[t].0 == key_chunk(k),
                forall|s: int, t: int|
                    0 <= s < t < released.len() ==> (#[trigger] released[s]).0 != (
                    #[trigger] released[t]).0,
            decreases keys.len() - i,
        {
            let key = keys[i];
            let coord = chunk_of(key);
            let inside = within(viewer, self.render_distance, coord);
            if !inside {
                proof {
                    assert(keys@.contains(key));
                    assert(keys@.to_set().contains(key));
                }
                let ghost map_before = self.loaded_chunks@;
                let ghost released_before = released@;
                match self.loaded_chunks.remove(&key) {
                    Some(record) => {
                        released.push((coord, record));
                        proof {
                            assert forall|k: u64|
                                before.contains_key(k) && !#[trigger] self.loaded_chunks@.contains_key(k)
                                implies exists|t: int| 0 <= t < released.len() && released[t].0 == key_chunk(k) by {
                                if k == key {
                                    assert(released[released.len() - 1].0 == key_chunk(k));
                                } else {
                                    assert(!map_before.contains_key(k));
                                    let t = choose|t: int| 0 <= t < released_before.len() && released_before[t].0 == key_chunk(k);
                                    assert(released[t].0 == key_chunk(k));
                                }
                            }
                            assert forall|k: u64|
                                before.contains_key(k) && !#[trigger] self.loaded_chunks@.contains_key(k)
                                implies !in_window(center, distance, key_chunk(k)) && exists|j: int|
                                    0 <= j < i + 1 && keys[j] == k by {
                                if k == key {
                                    assert(keys[i as int] == k);
                                } else {
                                    assert(!map_before.contains_key(k));
                                    let j = choose|j: int| 0 <= j < i && keys[j] == k;
                                    assert(0 <= j < i + 1 && keys[j] == k);
                                }
                            }
                        }
                    },
                    None => {
                        proof {
                            assert(!map_before.contains_key(key));
                            let j = choose|j: int| 0 <= j < i && keys[j] == key;
                            assert(keys[j] == keys[i as int]);
                            assert(false);
                        }
                    },
                }
            }
            i = i + 1;
        }
        proof {
            assert forall|c: (i32, i32)| #[trigger] final(self)@.contains_key(c) implies in_window(center, distance, c) by {
                let k = chunk_key(c);
                assert(before.contains_key(k));
                assert(keys@.to_set().contains(k));
                let j = choose|j: int| 0 <= j < keys.len() && keys[j] == k;
                assert(key_chunk(keys[j]) == c);
            }
            assert(final(self)@ =~= kept(old(self)@, center, distance));
            assert forall|c: (i32, i32), r: ChunkRecord|
                released@.contains((c, r)) <==> stale(old(self)@, center, distance).contains_pair(c, r) by {
                if released@.contains((c, r)) {
                    let t = choose|t: int| 0 <= t < released.len() && released[t] == (c, r);
                    assert(released[t].0 == c);
                }
                if stale(old(self)@, center, distance).contains_pair(c, r) {
                    let k = chunk_key(c);
                    assert(!final(self)@.contains_key(c));
                    assert(!self.loaded_chunks@.contains_key(k));
                    let t = choose|t: int| 0 <= t < released.len() && released[t].0 == key_chunk(k);
                    assert(released[t] == (c, r));
                }
            }
            if settled(old(self)@, center, distance) {
                if released.len() > 0 {
                    assert(old(self)@.contains_key(released[0].0));
                }
                assert(final(self)@ =~= old(self)@);
            }
        }
        released
    }

    /// The chunks of the window around `viewer` that are not resident, in
    /// row-major order: those for which terrain has to be made.
    pub fn missing_chunks(&self, viewer: &WorldPosition) -> (absent: Vec<(i32, i32)>)
        ensures
            forall|c: (i32, i32)|
                #![trigger absent@.contains(c)]
                #![trigger missing(self@, viewer.coord(), self.distance()).contains(c)]
                absent@.contains(c) <==> missing(self@, viewer.coord(), self.distance()).contains(c),
            forall|i: int, j: int|
                0 <= i < j < absent.len() ==> crate::window::row_major_less(
                    #[trigger] absent[i],
                    #[trigger] absent[j],
                ),
            absent@.no_duplicates(),
            settled(self@, viewer.coord(), self.distance()) ==> absent.len() == 0,
    {
        let required = required_chunks(viewer, self.render_distance);
        let mut absent: Vec<(i32, i32)> = Vec::new();
        let ghost center = viewer.coord();
        let ghost distance = self.render_distance;
        let mut i: usize = 0;
        while i < required.len()
            invariant
                0 <= i <= required.len(),
                forall|a: int, b: int|
                    0 <= a < b < required.len() ==> crate::window::row_major_less(
                        #[trigger] required[a],
                        #[trigger] required[b],
                    ),
                forall|t: int|
                    0 <= t < absent.len() ==> required@.contains(#[trigger] absent[t])
                        && !self@.contains_key(absent[t]),
                forall|t: int, j: int|
                    0 <= t < absent.len() && i <= j < required.len()
                        ==> crate::window::row_major_less(#[trigger] absent[t], #[trigger] required[j]),
                forall|j: int|
                    0 <= j < i && !self@.contains_key(#[trigger] required[j]) ==> absent@.contains(
                        required[j],
                    ),
                forall|s: int, t: int|
                    0 <= s < t < absent.len() ==> crate::window::row_major_less(
                        #[trigger] absent[s],
                        #[trigger] absent[t],
                    ),
            decreases required.len() - i,
        {
            let coord = required[i];
            if !self.contains(coord) {
                let ghost absent_before = absent@;
                absent.push(coord);
                proof {
                    assert(required@.contains(coord));
                    assert forall|j: int|
                        0 <= j < i + 1 && !self@.contains_key(#[trigger] required[j])
                        implies absent@.contains(required[j]) by {
                        vstd::seq_lib::lemma_seq_contains_after_push(absent_before, coord, required[j]);
                    }
                }
            }
            i = i + 1;
        }
        proof {
            assert forall|c: (i32, i32)|
                absent@.contains(c) <==> missing(self@, center, distance).contains(c) by {
                if absent@.contains(c) {
                    let t = choose|t: int| 0 <= t < absent.len() && absent[t] == c;
                    assert(required@.contains(absent[t]));
                }
                if missing(self@, center, distance).contains(c) {
                    assert(required@.contains(c));
                    let j = choose|j: int| 0 <= j < required.len() && required[j] == c;
                    assert(absent@.contains(required[j]));
                }
            }
            assert forall|s: int, t: int| 0 <= s < absent.len() && 0 <= t < absent.len() && s != t implies absent[s] != absent[t] by {
                if s < t {
                    assert(crate::window::row_major_less(absent[s], absent[t]));
                } else {
                    assert(crate::window::row_major_less(absent[t], absent[s]));
                }
            }
            if settled(self@, center, distance) && absent.len() > 0 {
                assert(absent@.contains(absent[0]));
            }
        }
        absent
    }

    /// Reconciles the registry with the viewer's chunk, if `changed` says that
    /// the viewer entered it since the last call: drops the chunks outside the
    /// window around the viewer, and lists them and the chunks that the window
    /// lacks. While the viewer stays in its chunk nothing is touched and
    /// nothing is listed. The reconciliation is complete once the caller has
    /// loaded a record for each missing chunk.
    pub fn reconcile(&mut self, viewer: &WorldPosition, changed: bool) -> (plan: ChunkPlan)
        ensures
            final(self).distance() == old(self).distance(),
            !changed ==> final(self)@ == old(self)@ && plan.released.len() == 0
                && plan.missing.len() == 0,
            changed ==> final(self)@ == kept(old(self)@, viewer.coord(), old(self).distance()),
            changed ==> forall|c: (i32, i32), r: ChunkRecord|
                #![trigger plan.released@.contains((c, r))]
                #![trigger stale(old(self)@, viewer.coord(), old(self).distance()).contains_pair(c, r)]
                plan.released@.contains((c, r)) <==> stale(
                    old(self)@,
                    viewer.coord(),
                    old(self).distance(),
                ).contains_pair(c, r),
            changed ==> forall|c: (i32, i32)|
                #![trigger plan.missing@.contains(c)]
                #![trigger missing(old(self)@, viewer.coord(), old(self).distance()).contains(c)]
                plan.missing@.contains(c) <==> missing(
                    old(self)@,
                    viewer.coord(),
                    old(self).distance(),
                ).contains(c),
            forall|i: int, j: int|
                0 <= i < j < plan.released.len() ==> (#[trigger] plan.released[i]).0 != (
                #[trigger] plan.released[j]).0,
            forall|i: int, j: int|
                0 <= i < j < plan.missing.len() ==> crate::window::row_major_less(
                    #[trigger] plan.missing[i],
                    #[trigger] plan.missing[j],
                ),
            settled(old(self)@, viewer.coord(), old(self).distance()) ==> final(self)@ == old(
                self,
            )@ && plan.released.len() == 0 && plan.missing.len() == 0,
    {
        if !changed {
            return ChunkPlan { released: Vec::new(), missing: Vec::new() };
        }
        let released = self.unload_stale(viewer);
        let absent = self.missing_chunks(viewer);
        proof {
            // what left the registry lay outside the window, so the window lacks what it lacked
            assert(missing(self@, viewer.coord(), self.distance()) =~= missing(
                old(self)@,
                viewer.coord(),
                old(self).distance(),
            ));
        }
        ChunkPlan { released, missing: absent }
    }

    /// Makes chunk `coord` resident with `record`, unless it is resident
    /// already: a resident chunk keeps the record it has. Returns whether the
    /// chunk was added.
    pub fn load_chunk(&mut self, coord: (i32, i32), record: ChunkRecord) -> (added: bool)
        ensures
            added == !old(self)@.contains_key(coord),
            final(self)@ == loaded(old(self)@, coord, record),
            final(self).distance() == old(self).distance(),
    {
        let key = key_of(coord);
        if self.loaded_chunks.contains_key(&key) {
            return false;
        }
        self.loaded_chunks.insert(key, record);
        proof {
            lemma_keys_match_chunks();
            assert(final(self)@ =~= old(self)@.insert(coord, record));
        }
        true
    }

    /// Loads the chunks of `created`, each with its record, from the first to
    /// the last, as `load_chunk` loads one.
    pub fn load_chunks(&mut self, created: Vec<((i32, i32), ChunkRecord)>)
        ensures
            final(self)@ == loaded_all(old(self)@, created@),
            final(self).distance() == old(self).distance(),
    {
        let mut i: usize = 0;
        while i < created.len()
            invariant
                0 <= i <= created.len(),
                self@ == loaded_all(old(self)@, created@.take(i as int)),
                self.distance() == old(self).distance(),
            decreases created.len() - i,
        {
            let (coord, record) = created[i];
            self.load_chunk(coord, record);
            proof {
                let upto = created@.take(i + 1);
                assert(upto.drop_last() =~= created@.take(i as int));
                assert(upto.last() == created@[i as int]);
            }
            i = i + 1;
        }
        proof {
            assert(created@.take(created.len() as int) =~= created@);
        }
    }
}

/// `coord` is one of the chunks that `created` brings a record for.
pub open spec fn brings(created: Seq<((i32, i32), ChunkRecord)>, coord: (i32, i32)) -> bool {
    exists|i: int| 0 <= i < created.len() && (#[trigger] created[i]).0 == coord
}

/// The registry after a record was loaded for each chunk of `created`, from
/// the first to the last.
pub open spec fn loaded_all(
    resident: Map<(i32, i32), ChunkRecord>,
    created: Seq<((i32, i32), ChunkRecord)>,
) -> Map<(i32, i32), ChunkRecord>
    decreases created.len(),
{
    if created.len() == 0 {
        resident
    } else {
        loaded(loaded_all(resident, created.drop_last()), created.last().0, created.last().1)
    }
}

/// Loading adds the chunks it brings and leaves the records of resident chunks alone.
pub proof fn lemma_loaded_all(
    resident: Map<(i32, i32), ChunkRecord>,
    created: Seq<((i32, i32), ChunkRecord)>,
)
    ensures
        forall|c: (i32, i32)|
            #![trigger loaded_all(resident, created).contains_key(c)]
            #![trigger brings(created, c)]
            loaded_all(resident, created).contains_key(c) <==> resident.contains_key(c) || brings(
                created,
                c,
            ),
        forall|c: (i32, i32)|
            resident.contains_key(c) ==> #[trigger] loaded_all(resident, created)[c] == resident[c],
    decreases created.len(),
{
    if created.len() > 0 {
        let front = created.drop_last();
        lemma_loaded_all(resident, front);
        let after = loaded_all(resident, created);
        assert(after == loaded(loaded_all(resident, front), created.last().0, created.last().1));
        let before = loaded_all(resident, front);
        assert forall|c: (i32, i32)| resident.contains_key(c) implies #[trigger] after[c]
            == resident[c] by {
            assert(before.contains_key(c) <==> resident.contains_key(c) || brings(front, c));
            assert(before[c] == resident[c]);
        }
        assert forall|c: (i32, i32)|
            loaded_all(resident, created).contains_key(c) <==> resident.contains_key(c) || brings(
                created,
                c,
            ) by {
            assert(before.contains_key(c) <==> resident.contains_key(c) || brings(front, c));
            if brings(created, c) {
                let i = choose|i: int| 0 <= i < created.len() && (#[trigger] created[i]).0 == c;
                if i < front.len() {
                    assert(front[i].0 == c);
                    assert(brings(front, c));
                }
            }
            if brings(front, c) {
                let i = choose|i: int| 0 <= i < front.len() && (#[trigger] front[i]).0 == c;
                assert(created[i].0 == c);
            }
            if c == created.last().0 {
                assert(created[created.len() - 1].0 == c);
            }
        }
    } else {
        assert(loaded_all(resident, created) == resident);
        assert forall|c: (i32, i32)| !brings(created, c) by {}
    }
}

/// Residency follows the required window: once the registry was reconciled
/// and a record loaded for each missing chunk, a chunk is resident if and
/// only if the window holds it, whatever was resident before, and the chunks
/// that stayed have the records they had.
pub proof fn lemma_reconciled_is_settled(
    resident: Map<(i32, i32), ChunkRecord>,
    center: (i32, i32),
    distance: i32,
    created: Seq<((i32, i32), ChunkRecord)>,
)
    requires
        forall|c: (i32, i32)|
            #![trigger missing(resident, center, distance).contains(c)]
            #![trigger brings(created, c)]
            missing(resident, center, distance).contains(c) <==> brings(created, c),
    ensures
        settled(loaded_all(kept(resident, center, distance), created), center, distance),
        forall|c: (i32, i32)|
            #![trigger loaded_all(kept(resident, center, distance), created).contains_key(c)]
            #![trigger in_window(center, distance, c)]
            loaded_all(kept(resident, center, distance), created).contains_key(c) <==> in_window(
                center,
                distance,
                c,
            ),
        forall|c: (i32, i32)|
            resident.contains_key(c) && in_window(center, distance, c) ==> #[trigger] loaded_all(
                kept(resident, center, distance),
                created,
            )[c] == resident[c],
{
    let after = loaded_all(kept(resident, center, distance), created);
    lemma_loaded_all(kept(resident, center, distance), created);
    assert forall|c: (i32, i32)| after.contains_key(c) <==> in_window(center, distance, c) by {
        if in_window(center, distance, c) && !resident.contains_key(c) {
            assert(missing(resident, center, distance).contains(c));
        }
        if brings(created, c) {
            assert(missing(resident, center, distance).contains(c));
        }
    }
    assert(after.dom() =~= required_set(center, distance));
    assert forall|c: (i32, i32)|
        resident.contains_key(c) && in_window(center, distance, c) implies #[trigger] after[c]
        == resident[c] by {
        assert(kept(resident, center, distance).contains_key(c));
    }
}

/// Reconciling again for the same viewer chunk changes nothing: a settled
/// registry keeps every chunk, releases none and misses none.
pub proof fn lemma_settled_is_fixpoint(
    resident: Map<(i32, i32), ChunkRecord>,
    center: (i32, i32),
    distance: i32,
)
    requires
        settled(resident, center, distance),
    ensures
        kept(resident, center, distance) == resident,
        stale(resident, center, distance) == Map::<(i32, i32), ChunkRecord>::empty(),
        missing(resident, center, distance) == Set::<(i32, i32)>::empty(),
{
    assert(kept(resident, center, distance) =~= resident);
    assert(stale(resident, center, distance) =~= Map::<(i32, i32), ChunkRecord>::empty());
    assert(missing(resident, center, distance) =~= Set::<(i32, i32)>::empty());
}

/// What stays and what goes are the two parts of what was resident, and what
/// stays keeps its record: a resident chunk is never made anew.
pub proof fn lemma_kept_and_stale_split(
    resident: Map<(i32, i32), ChunkRecord>,
    center: (i32, i32),
    distance: i32,
)
    ensures
        kept(resident, center, distance).dom().disjoint(stale(resident, center, distance).dom()),
        kept(resident, center, distance).union_prefer_right(stale(resident, center, distance))
            == resident,
        forall|c: (i32, i32)| #[trigger]
            kept(resident, center, distance).contains_key(c) ==> kept(
                resident,
                center,
                distance,
            )[c] == resident[c],
{
    assert(kept(resident, center, distance).union_prefer_right(stale(resident, center, distance))
        =~= resident);
}

} // verus!
