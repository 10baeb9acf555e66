use vstd::prelude::*;
use crate::chunk::{spec_generated, Chunk};
use crate::field::NoiseField;

verus! {

/// One stored chunk, keyed by its chunk coordinate.
pub struct ChunkEntry {
    pub cx: i32,
    pub cy: i32,
    pub chunk: Chunk,
}

/// Whether some entry of `s` is keyed `(cx, cy)`.
pub open spec fn has_coord(s: Seq<ChunkEntry>, cx: int, cy: int) -> bool {
    exists|i: int| 0 <= i < s.len() && (#[trigger] s[i]).cx == cx && s[i].cy == cy
}

/// The index of the entry keyed `(cx, cy)`; meaningful only under
/// `has_coord` in a store with unique keys.
pub open spec fn idx_of(s: Seq<ChunkEntry>, cx: int, cy: int) -> int {
    choose|i: int| 0 <= i < s.len() && (#[trigger] s[i]).cx == cx && s[i].cy == cy
}

/// The chunk stored under `(cx, cy)`; meaningful only under `has_coord`
/// in a store with unique keys.
pub open spec fn chunk_at(s: Seq<ChunkEntry>, cx: int, cy: int) -> Chunk {
    s[idx_of(s, cx, cy)].chunk
}

/// No two entries share a key, so each coordinate denotes at most one
/// chunk.
pub open spec fn coords_unique(s: Seq<ChunkEntry>) -> bool {
    forall|i: int, j: int|
        0 <= i < s.len() && 0 <= j < s.len() && i != j ==> !((#[trigger] s[i]).cx == (
        #[trigger] s[j]).cx && s[i].cy == s[j].cy)
}

/// With unique keys, the entry at `i` is exactly the one `idx_of` picks
/// for its key.
pub proof fn lemma_idx_of(s: Seq<ChunkEntry>, i: int)
    requires
        coords_unique(s),
        0 <= i < s.len(),
    ensures
        has_coord(s, s[i].cx as int, s[i].cy as int),
        idx_of(s, s[i].cx as int, s[i].cy as int) == i,
{
    assert(has_coord(s, s[i].cx as int, s[i].cy as int));
    let j = idx_of(s, s[i].cx as int, s[i].cy as int);
    assert(0 <= j < s.len() && s[j].cx == s[i].cx && s[j].cy == s[i].cy);
}

/// The exclusive owner of all generated chunks, keyed by chunk
/// coordinate, together with the noise field that terrain is classified
/// from. The store only grows: a chunk that leaves the loaded set keeps
/// its tile data, so re-entering its region never regenerates terrain.
pub struct WorldData {
    pub chunks: Vec<ChunkEntry>,
    pub field: NoiseField,
}

impl WorldData {
    pub open spec fn wf(&self) -> bool {
        &&& self.field.wf()
        &&& coords_unique(self.chunks@)
        &&& forall|i: int| 0 <= i < self.chunks@.len() ==> (#[trigger] self.chunks@[i]).chunk.wf()
    }

    pub fn new(field: NoiseField) -> (w: WorldData)
        requires
            field.wf(),
        ensures
            w.wf(),
            w.chunks@.len() == 0,
            w.field == field,
    {
        WorldData { chunks: Vec::new(), field }
    }

    /// Linear scan for the entry keyed `(cx, cy)`.
    pub fn find(&self, cx: i32, cy: i32) -> (r: Option<usize>)
        ensures
            match r {
                Some(i) => i < self.chunks@.len() && self.chunks@[i as int].cx == cx
                    && self.chunks@[i as int].cy == cy,
                None => !has_coord(self.chunks@, cx as int, cy as int),
            },
    {
        let n = self.chunks.len();
        let mut i: usize = 0;
        while i < n
            invariant
                n == self.chunks@.len(),
                0 <= i <= n,
                forall|k: int|
                    0 <= k < i ==> !((#[trigger] self.chunks@[k]).cx == cx && self.chunks@[k].cy
                        == cy),
            decreases n - i,
        {
            let e = &self.chunks[i];
            if e.cx == cx && e.cy == cy {
                return Some(i);
            }
            i = i + 1;
        }
        None
    }

    /// The chunk at `(cx, cy)`, or `None` when that region was never
    /// generated; callers treat `None` as "no terrain effect", never as a
    /// failure.
    pub fn get(&self, cx: i32, cy: i32) -> (r: Option<&Chunk>)
        requires
            self.wf(),
        ensures
            match r {
                Some(c) => has_coord(self.chunks@, cx as int, cy as int) && *c == chunk_at(
                    self.chunks@,
                    cx as int,
                    cy as int,
                ),
                None => !has_coord(self.chunks@, cx as int, cy as int),
            },
    {
        match self.find(cx, cy) {
            Some(i) => {
                proof {
                    lemma_idx_of(self.chunks@, i as int);
                }
                Some(&self.chunks[i].chunk)
            },
            None => None,
        }
    }

    /// Return the index of the chunk at `(cx, cy)`, generating and
    /// inserting it first (not loaded) when the coordinate is absent.
    /// Generation is idempotent: an existing chunk is returned untouched.
    pub fn get_or_generate(&mut self, cx: i32, cy: i32) -> (i: usize)
        requires
            old(self).wf(),
        ensures
            final(self).wf(),
            final(self).field == old(self).field,
            i < final(self).chunks@.len(),
            final(self).chunks@[i as int].cx == cx,
            final(self).chunks@[i as int].cy == cy,
            has_coord(old(self).chunks@, cx as int, cy as int) ==> final(self).chunks@ == old(
                self,
            ).chunks@ && i as int == idx_of(old(self).chunks@, cx as int, cy as int),
            !has_coord(old(self).chunks@, cx as int, cy as int) ==> {
                &&& i as int == old(self).chunks@.len()
                &&& final(self).chunks@.len() == old(self).chunks@.len() + 1
                &&& forall|k: int|
                    0 <= k < old(self).chunks@.len() ==> final(self).chunks@[k] == old(
                        self,
                    ).chunks@[k]
                &&& spec_generated(
                    old(self).field,
                    cx as int,
                    cy as int,
                    final(self).chunks@[i as int].chunk,
                )
            },
    {
        match self.find(cx, cy) {
            Some(i) => {
                proof {
                    lemma_idx_of(self.chunks@, i as int);
                }
                i
            },
            None => {
                let c = Chunk::generate(&self.field, cx, cy);
                let i = self.chunks.len();
                self.chunks.push(ChunkEntry { cx, cy, chunk: c });
                i
            },
        }
    }
}

} // verus!
