//! The registry of chunks: those waiting to load and those resident.

use crate::chunk::Chunk;
use crate::coord::ChunkCoord;
use vstd::prelude::*;

verus! {

/// Handle of the world entity that shows a resident chunk.
pub type EntityHandle = usize;

/// A resident chunk: where it is, the entity that shows it, and its tiles.
pub struct LoadedChunk {
    pub coord: ChunkCoord,
    pub handle: EntityHandle,
    pub chunk: Chunk,
}

/// No two entries share a coordinate.
pub open spec fn keys_unique(s: Seq<LoadedChunk>) -> bool {
    forall|i: int, j: int| 0 <= i < s.len() && 0 <= j < s.len() && i != j ==> s[i].coord != s[j].coord
}

/// The entries as a map from coordinate to entry.
pub open spec fn entry_map(s: Seq<LoadedChunk>) -> Map<ChunkCoord, LoadedChunk> {
    Map::new(
        |c: ChunkCoord| exists|i: int| 0 <= i < s.len() && s[i].coord == c,
        |c: ChunkCoord| s[choose|i: int| 0 <= i < s.len() && s[i].coord == c],
    )
}

proof fn lemma_entry_at(s: Seq<LoadedChunk>, i: int)
    requires
        keys_unique(s),
        0 <= i < s.len(),
    ensures
        entry_map(s).contains_key(s[i].coord),
        entry_map(s)[s[i].coord] == s[i],
{
    let c = s[i].coord;
    assert(exists|k: int| 0 <= k < s.len() && s[k].coord == c);
    let j = choose|k: int| 0 <= k < s.len() && s[k].coord == c;
    assert(j == i);
}

proof fn lemma_entry_map_push(s: Seq<LoadedChunk>, e: LoadedChunk)
    requires
        keys_unique(s),
        !entry_map(s).contains_key(e.coord),
    ensures
        keys_unique(s.push(e)),
        entry_map(s.push(e)) == entry_map(s).insert(e.coord, e),
{
    let t = s.push(e);
    assert forall|i: int, j: int| 0 <= i < t.len() && 0 <= j < t.len() && i != j implies t[i].coord != t[j].coord by {
        if i == s.len() {
            assert(!(0 <= j < s.len() && s[j].coord == e.coord));
        } else if j == s.len() {
            assert(!(0 <= i < s.len() && s[i].coord == e.coord));
        }
    }
    let m = entry_map(s).insert(e.coord, e);
    assert forall|c: ChunkCoord| entry_map(t).contains_key(c) <==> m.contains_key(c) by {
        if entry_map(t).contains_key(c) {
            let k = choose|k: int| 0 <= k < t.len() && t[k].coord == c;
            if k < s.len() {
                assert(s[k].coord == c);
            }
        }
        if entry_map(s).contains_key(c) {
            let k = choose|k: int| 0 <= k < s.len() && s[k].coord == c;
            assert(t[k].coord == c);
        }
        if c == e.coord {
            assert(t[s.len() as int].coord == c);
        }
    }
    assert forall|c: ChunkCoord| #[trigger] entry_map(t).contains_key(c) implies entry_map(t)[c] == m[c] by {
        let k = choose|k: int| 0 <= k < t.len() && t[k].coord == c;
        lemma_entry_at(t, k);
        if k < s.len() {
            assert(s[k] == t[k]);
            lemma_entry_at(s, k);
        }
    }
    assert(entry_map(t) =~= m);
}

proof fn lemma_entry_map_remove(s: Seq<LoadedChunk>, i: int)
    requires
        keys_unique(s),
        0 <= i < s.len(),
    ensures
        keys_unique(s.remove(i)),
        entry_map(s.remove(i)) == entry_map(s).remove(s[i].coord),
{
    let t = s.remove(i);
    let gone = s[i].coord;
    assert forall|a: int, b: int| 0 <= a < t.len() && 0 <= b < t.len() && a != b implies t[a].coord != t[b].coord by {
        let a2 = if a < i { a } else { a + 1 };
        let b2 = if b < i { b } else { b + 1 };
        assert(t[a] == s[a2]);
        assert(t[b] == s[b2]);
    }
    let m = entry_map(s).remove(gone);
    assert forall|c: ChunkCoord| entry_map(t).contains_key(c) <==> m.contains_key(c) by {
        if entry_map(t).contains_key(c) {
            let k = choose|k: int| 0 <= k < t.len() && t[k].coord == c;
            let k2 = if k < i { k } else { k + 1 };
            assert(s[k2].coord == c);
            assert(k2 != i);
        }
        if m.contains_key(c) {
            let k = choose|k: int| 0 <= k < s.len() && s[k].coord == c;
            assert(k != i);
            let k2 = if k < i { k } else { k - 1 };
            assert(t[k2].coord == c);
        }
    }
    assert forall|c: ChunkCoord| #[trigger] entry_map(t).contains_key(c) implies entry_map(t)[c] == m[c] by {
        let k = choose|k: int| 0 <= k < t.len() && t[k].coord == c;
        lemma_entry_at(t, k);
        let k2 = if k < i { k } else { k + 1 };
        assert(s[k2] == t[k]);
        lemma_entry_at(s, k2);
    }
    assert(entry_map(t) =~= m);
}

/// The queue after asking for `c`: unchanged when `c` already waits or is
/// resident, else `c` appended.
pub open spec fn enqueued(q: Seq<ChunkCoord>, resident: Map<ChunkCoord, LoadedChunk>, c: ChunkCoord) -> Seq<ChunkCoord> {
    if q.contains(c) || resident.contains_key(c) {
        q
    } else {
        q.push(c)
    }
}

/// Asking twice for a chunk that is not resident leaves it in the queue
/// exactly once: the first request appends it, the second changes nothing.
pub proof fn lemma_enqueue_idempotent(q: Seq<ChunkCoord>, resident: Map<ChunkCoord, LoadedChunk>, c: ChunkCoord)
    requires
        q.no_duplicates(),
        !resident.contains_key(c),
    ensures
        enqueued(enqueued(q, resident, c), resident, c) == enqueued(q, resident, c),
        enqueued(q, resident, c).contains(c),
        enqueued(q, resident, c).no_duplicates(),
{
    let q1 = enqueued(q, resident, c);
    if !q.contains(c) {
        assert(q1[q.len() as int] == c);
        assert forall|a: int, b: int| 0 <= a < b < q1.len() implies q1[a] != q1[b] by {
            if b == q.len() {
                assert(q.contains(q[a]));
            }
        }
    }
}

/// Asking for `c` keeps every waiting coordinate, and adds none but `c`.
pub proof fn lemma_enqueued_contains(q: Seq<ChunkCoord>, resident: Map<ChunkCoord, LoadedChunk>, c: ChunkCoord)
    ensures
        enqueued(q, resident, c).contains(c) || resident.contains_key(c),
        q.is_prefix_of(enqueued(q, resident, c)),
        forall|d: ChunkCoord| q.contains(d) ==> #[trigger] enqueued(q, resident, c).contains(d),
        forall|d: ChunkCoord| #[trigger] enqueued(q, resident, c).contains(d) ==> q.contains(d) || d == c,
{
    let e = enqueued(q, resident, c);
    assert(q =~= e.subrange(0, q.len() as int));
    if !(q.contains(c) || resident.contains_key(c)) {
        assert(e[q.len() as int] == c);
        assert forall|d: ChunkCoord| q.contains(d) implies #[trigger] e.contains(d) by {
            let i = choose|i: int| 0 <= i < q.len() && q[i] == d;
            assert(e[i] == d);
        }
        assert forall|d: ChunkCoord| #[trigger] e.contains(d) implies q.contains(d) || d == c by {
            let i = choose|i: int| 0 <= i < e.len() && e[i] == d;
            if i < q.len() {
                assert(q[i] == d);
            }
        }
    }
}

/// Which chunks wait to load, in order, and which are resident.
pub struct WorldMap {
    load_queue: Vec<ChunkCoord>,
    loaded: Vec<LoadedChunk>,
}

impl WorldMap {
    /// The coordinates waiting to load, oldest first.
    pub closed spec fn queue(&self) -> Seq<ChunkCoord> {
        self.load_queue@
    }

    /// The resident chunks, by coordinate.
    pub closed spec fn resident(&self) -> Map<ChunkCoord, LoadedChunk> {
        entry_map(self.loaded@)
    }

    /// No two resident entries share a coordinate.
    pub closed spec fn entries_unique(&self) -> bool {
        keys_unique(self.loaded@)
    }

    /// No coordinate waits twice, and none both waits and is resident.
    pub open spec fn wf(&self) -> bool {
        &&& self.queue().no_duplicates()
        &&& self.entries_unique()
        &&& forall|c: ChunkCoord| self.queue().contains(c) ==> !self.resident().contains_key(c)
    }

    pub fn new() -> (r: WorldMap)
        ensures
            r.wf(),
            r.queue().len() == 0,
            r.resident() == Map::<ChunkCoord, LoadedChunk>::empty(),
    {
        let r = WorldMap { load_queue: Vec::new(), loaded: Vec::new() };
        assert(entry_map(r.loaded@) =~= Map::empty());
        r
    }

    /// No coordinate is ever both waiting and resident.
    pub proof fn lemma_never_queued_and_resident(m: &WorldMap, c: ChunkCoord)
        requires
            m.wf(),
        ensures
            !(m.queue().contains(c) && m.resident().contains_key(c)),
    {
    }

    /// The coordinates waiting to load, oldest first.
    pub fn load_queue(&self) -> (r: &Vec<ChunkCoord>)
        ensures
            r@ == self.queue(),
    {
        &self.load_queue
    }

    pub fn is_queued(&self, c: ChunkCoord) -> (r: bool)
        ensures
            r == self.queue().contains(c),
    {
        let mut i: usize = 0;
        while i < self.load_queue.len()
            invariant
                i <= self.load_queue@.len(),
                forall|k: int| 0 <= k < i ==> self.load_queue@[k] != c,
            decreases self.load_queue@.len() - i,
        {
            if self.load_queue[i] == c {
                return true;
            }
            i = i + 1;
        }
        false
    }

    fn find_loaded(&self, c: ChunkCoord) -> (r: Option<usize>)
        ensures
            r matches Some(i) ==> i < self.loaded@.len() && self.loaded@[i as int].coord == c,
            r is None ==> !self.resident().contains_key(c),
    {
        let mut i: usize = 0;
        while i < self.loaded.len()
            invariant
                i <= self.loaded@.len(),
                forall|k: int| 0 <= k < i ==> self.loaded@[k].coord != c,
            decreases self.loaded@.len() - i,
        {
            if self.loaded[i].coord == c {
                return Some(i);
            }
            i = i + 1;
        }
        None
    }

    pub fn is_loaded(&self, c: ChunkCoord) -> (r: bool)
        ensures
            r == self.resident().contains_key(c),
    {
        self.find_loaded(c).is_some()
    }

    /// The handle of the entity showing the chunk at `c`, if it is resident.
    pub fn handle(&self, c: ChunkCoord) -> (r: Option<EntityHandle>)
        requires
            self.wf(),
        ensures
            r is Some <==> self.resident().contains_key(c),
            r matches Some(h) ==> h == self.resident()[c].handle,
    {
        match self.find_loaded(c) {
            Some(i) => {
                proof {
                    lemma_entry_at(self.loaded@, i as int);
                }
                Some(self.loaded[i].handle)
            },
            None => None,
        }
    }

    /// Read access to the tiles of the chunk at `c`, if it is resident.
    pub fn chunk(&self, c: ChunkCoord) -> (r: Option<&Chunk>)
        requires
            self.wf(),
        ensures
            r is Some <==> self.resident().contains_key(c),
            r matches Some(k) ==> *k == self.resident()[c].chunk,
    {
        match self.find_loaded(c) {
            Some(i) => {
                proof {
                    lemma_entry_at(self.loaded@, i as int);
                }
                Some(&self.loaded[i].chunk)
            },
            None => None,
        }
    }

    /// The coordinates of the resident chunks, each once.
    pub fn loaded_coords(&self) -> (r: Vec<ChunkCoord>)
        requires
            self.wf(),
        ensures
            r@.no_duplicates(),
            forall|c: ChunkCoord| r@.contains(c) <==> self.resident().contains_key(c),
    {
        let mut r: Vec<ChunkCoord> = Vec::new();
        let mut i: usize = 0;
        while i < self.loaded.len()
            invariant
                keys_unique(self.loaded@),
                i <= self.loaded@.len(),
                r@.len() == i,
                forall|k: int| 0 <= k < i ==> r@[k] == self.loaded@[k].coord,
            decreases self.loaded@.len() - i,
        {
            r.push(self.loaded[i].coord);
            i = i + 1;
        }
        proof {
            assert forall|c: ChunkCoord| r@.contains(c) <==> self.resident().contains_key(c) by {
                if self.resident().contains_key(c) {
                    let k = choose|k: int| 0 <= k < self.loaded@.len() && self.loaded@[k].coord == c;
                    assert(r@[k] == c);
                }
            }
        }
        r
    }

    /// Appends `c` to the queue, unless it already waits or is resident.
    pub fn queue_load(&mut self, c: ChunkCoord)
        requires
            old(self).wf(),
        ensures
            final(self).wf(),
            final(self).resident() == old(self).resident(),
            final(self).queue() == enqueued(old(self).queue(), old(self).resident(), c),
    {
        if !self.is_queued(c) && !self.is_loaded(c) {
            proof {
                assert forall|a: int, b: int|
                    0 <= a < b < self.load_queue@.push(c).len() implies self.load_queue@.push(c)[a]
                    != self.load_queue@.push(c)[b] by {
                    if b == self.load_queue@.len() {
                        assert(self.load_queue@.contains(self.load_queue@[a]));
                    }
                }
                assert forall|d: ChunkCoord| self.load_queue@.push(c).contains(d) implies !entry_map(
                    self.loaded@,
                ).contains_key(d) by {
                    let k = choose|k: int| 0 <= k < self.load_queue@.push(c).len() && self.load_queue@.push(c)[k] == d;
                    if k < self.load_queue@.len() {
                        assert(self.load_queue@.contains(d));
                    }
                }
            }
            self.load_queue.push(c);
        }
    }

    /// Removes the first `n` coordinates of the queue (all of them when
    /// fewer wait) and returns them in order.
    pub fn drain(&mut self, n: usize) -> (r: Vec<ChunkCoord>)
        requires
            old(self).wf(),
        ensures
            final(self).wf(),
            final(self).resident() == old(self).resident(),
            r@.len() == if n < old(self).queue().len() { n as int } else { old(self).queue().len() as int },
            r@ == old(self).queue().take(r@.len() as int),
            final(self).queue() == old(self).queue().skip(r@.len() as int),
    {
        let k = if n < self.load_queue.len() { n } else { self.load_queue.len() };
        let ghost q = self.load_queue@;
        let mut rest = self.load_queue.split_off(k);
        std::mem::swap(&mut self.load_queue, &mut rest);
        proof {
            assert(self.load_queue@ == q.skip(k as int));
            assert(rest@ == q.take(k as int));
            assert forall|a: int, b: int| 0 <= a < b < self.load_queue@.len() implies self.load_queue@[a]
                != self.load_queue@[b] by {
                assert(self.load_queue@[a] == q[a + k]);
                assert(self.load_queue@[b] == q[b + k]);
            }
            assert forall|d: ChunkCoord| self.load_queue@.contains(d) implies !entry_map(self.loaded@).contains_key(d) by {
                let j = choose|j: int| 0 <= j < self.load_queue@.len() && self.load_queue@[j] == d;
                assert(q[j + k] == d);
                assert(q.contains(d));
            }
        }
        rest
    }

    /// Puts `coords` back at the head of the queue, in order.
    pub fn requeue_front(&mut self, coords: Vec<ChunkCoord>)
        requires
            old(self).wf(),
            coords@.no_duplicates(),
            forall|c: ChunkCoord| #[trigger] coords@.contains(c) ==> !old(self).queue().contains(c),
            forall|c: ChunkCoord| #[trigger] coords@.contains(c) ==> !old(self).resident().contains_key(c),
        ensures
            final(self).wf(),
            final(self).resident() == old(self).resident(),
            final(self).queue() == coords@ + old(self).queue(),
    {
        let mut front = coords;
        let ghost f = front@;
        let ghost q = self.load_queue@;
        front.append(&mut self.load_queue);
        proof {
            let t = front@;
            assert(t == f + q);
            assert forall|a: int, b: int| 0 <= a < b < t.len() implies t[a] != t[b] by {
                if a < f.len() && b >= f.len() {
                    assert(t[b] == q[b - f.len()]);
                    assert(q.contains(t[b]));
                    assert(f.contains(t[a]));
                } else if a >= f.len() {
                    assert(t[a] == q[a - f.len()]);
                    assert(t[b] == q[b - f.len()]);
                }
            }
            assert forall|d: ChunkCoord| t.contains(d) implies !entry_map(self.loaded@).contains_key(d) by {
                let j = choose|j: int| 0 <= j < t.len() && t[j] == d;
                if j < f.len() {
                    assert(f.contains(d));
                } else {
                    assert(q[j - f.len()] == d);
                    assert(q.contains(d));
                }
            }
        }
        self.load_queue = front;
    }

    /// Records that the chunk at `c` is now resident, shown by `handle`.
    pub fn mark_loaded(&mut self, c: ChunkCoord, handle: EntityHandle, chunk: Chunk)
        requires
            old(self).wf(),
            !old(self).resident().contains_key(c),
            !old(self).queue().contains(c),
        ensures
            final(self).wf(),
            final(self).queue() == old(self).queue(),
            final(self).resident() == old(self).resident().insert(c, LoadedChunk { coord: c, handle, chunk }),
    {
        let e = LoadedChunk { coord: c, handle, chunk };
        proof {
            lemma_entry_map_push(self.loaded@, e);
        }
        self.loaded.push(e);
        proof {
            assert forall|d: ChunkCoord| self.load_queue@.contains(d) implies !entry_map(self.loaded@).contains_key(d) by {
                if d == c {
                    assert(self.load_queue@.contains(c));
                }
            }
        }
    }

    /// Forgets the resident chunk at `c` and returns its entity's handle for
    /// the caller to destroy; `None`, and nothing changes, when it is not
    /// resident.
    pub fn mark_unloaded(&mut self, c: ChunkCoord) -> (r: Option<EntityHandle>)
        requires
            old(self).wf(),
        ensures
            final(self).wf(),
            final(self).queue() == old(self).queue(),
            final(self).resident() == old(self).resident().remove(c),
            r is Some <==> old(self).resident().contains_key(c),
            r matches Some(h) ==> h == old(self).resident()[c].handle,
    {
        match self.find_loaded(c) {
            Some(i) => {
                proof {
                    lemma_entry_at(self.loaded@, i as int);
                    lemma_entry_map_remove(self.loaded@, i as int);
                }
                let e = self.loaded.remove(i);
                Some(e.handle)
            },
            None => {
                proof {
                    assert(entry_map(self.loaded@).remove(c) =~= entry_map(self.loaded@));
                }
                None
            },
        }
    }
}

} // verus!
