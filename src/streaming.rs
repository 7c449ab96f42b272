//! The per-tick driver: loads a bounded number of chunks each tick and, at a
//! fixed interval, refreshes the window around the viewpoint.

use crate::chunk::Chunk;
use crate::coord::{
    active_window, active_window_of, beyond_margin, in_window, should_evict, ChunkCoord, Window,
};
use crate::map::{enqueued, lemma_enqueued_contains, EntityHandle, LoadedChunk, WorldMap};
use vstd::prelude::*;

verus! {

/// Nanoseconds in one second.
pub const NANOS_PER_SEC: u64 = 1_000_000_000;

/// How many chunks a tick of `delta_nanos` may load:
/// `base_rate * ceil(delta_seconds)`.
pub open spec fn drain_budget_of(base_rate: u32, delta_nanos: u64) -> nat {
    base_rate as nat * (((delta_nanos + NANOS_PER_SEC - 1) as nat) / (NANOS_PER_SEC as nat))
}

/// The tick's budget, but no more than `available`.
pub fn drain_budget(base_rate: u32, delta_nanos: u64, available: usize) -> (r: usize)
    ensures
        r == if drain_budget_of(base_rate, delta_nanos) < available {
            drain_budget_of(base_rate, delta_nanos)
        } else {
            available as nat
        },
{
    let secs: u128 = (delta_nanos as u128 + (NANOS_PER_SEC - 1) as u128) / NANOS_PER_SEC as u128;
    assert(secs <= 18_446_744_074) by (nonlinear_arith)
        requires
            secs == (delta_nanos + 999_999_999) / 1_000_000_000,
            delta_nanos <= u64::MAX,
    ;
    assert(base_rate as u128 * secs <= 0xffff_ffff * 18_446_744_074u128) by (nonlinear_arith)
        requires
            secs <= 18_446_744_074,
            base_rate <= u32::MAX,
    ;
    let budget: u128 = base_rate as u128 * secs;
    if budget < available as u128 {
        budget as usize
    } else {
        available
    }
}

/// The settings of the streaming pass.
#[derive(Clone, Copy, Debug, PartialEq, Eq, Structural)]
pub struct StreamConfig {
    /// Chunks loaded per started second of frame time.
    pub base_rate: u32,
    /// Time between two refreshes of the window.
    pub check_interval_nanos: u64,
    /// The smallest chunk coordinate the window reaches.
    pub min_chunk: u32,
    /// The largest (exclusive) chunk coordinate the window reaches.
    pub max_chunk: u32,
    /// How many chunks beyond the window a resident chunk may lie before it is evicted.
    pub hysteresis: u32,
}

impl StreamConfig {
    /// The game's settings: one chunk per second of frame time, a refresh
    /// every 250 ms, chunks 2 to 1250, eviction 8 chunks beyond the window.
    pub fn standard() -> (r: StreamConfig)
        ensures
            r.base_rate == 1,
            r.check_interval_nanos == 250_000_000,
            r.min_chunk == 2,
            r.max_chunk == 1250,
            r.hysteresis == 8,
    {
        StreamConfig {
            base_rate: 1,
            check_interval_nanos: 250_000_000,
            min_chunk: 2,
            max_chunk: 1250,
            hysteresis: 8,
        }
    }
}

/// The resident chunks after evicting those beyond the margin of `w`.
pub open spec fn kept_after_eviction(
    resident: Map<ChunkCoord, LoadedChunk>,
    w: Window,
    margin: u32,
) -> Map<ChunkCoord, LoadedChunk> {
    resident.restrict(Set::new(|c: ChunkCoord| !beyond_margin(w, c, margin)))
}

/// Drives a [`WorldMap`]: the loads of each tick, and the refresh of the
/// window at a fixed interval.
pub struct StreamingController {
    config: StreamConfig,
    map: WorldMap,
    pending: Vec<ChunkCoord>,
    since_check: u64,
}

impl StreamingController {
    pub closed spec fn config_of(&self) -> StreamConfig {
        self.config
    }

    pub closed spec fn map_of(&self) -> WorldMap {
        self.map
    }

    /// The coordinates taken from the queue this tick and not yet loaded, in order.
    pub closed spec fn pending_of(&self) -> Seq<ChunkCoord> {
        self.pending@
    }

    /// Time since the window was last refreshed.
    pub closed spec fn since_check_of(&self) -> u64 {
        self.since_check
    }

    /// The map is well formed, and a pending coordinate is neither queued nor
    /// resident, nor pending twice.
    pub open spec fn wf(&self) -> bool {
        &&& self.map_of().wf()
        &&& self.pending_of().no_duplicates()
        &&& forall|c: ChunkCoord| #[trigger] self.pending_of().contains(c) ==> !self.map_of().queue().contains(c)
        &&& forall|c: ChunkCoord| #[trigger] self.pending_of().contains(c) ==> !self.map_of().resident().contains_key(c)
    }

    pub fn new(config: StreamConfig) -> (r: StreamingController)
        ensures
            r.wf(),
            r.config_of() == config,
            r.map_of().queue().len() == 0,
            r.map_of().resident() == Map::<ChunkCoord, LoadedChunk>::empty(),
            r.pending_of().len() == 0,
            r.since_check_of() == 0,
    {
        StreamingController { config, map: WorldMap::new(), pending: Vec::new(), since_check: 0 }
    }

    pub fn config(&self) -> (r: StreamConfig)
        ensures
            r == self.config_of(),
    {
        self.config
    }

    /// Read access to the map; it cannot be changed through it.
    pub fn map(&self) -> (r: &WorldMap)
        ensures
            *r == self.map_of(),
    {
        &self.map
    }

    /// Puts the pending coordinates back at the head of the queue.
    pub fn abort_pending(&mut self)
        requires
            old(self).wf(),
        ensures
            final(self).wf(),
            final(self).pending_of().len() == 0,
            final(self).map_of().queue() == old(self).pending_of() + old(self).map_of().queue(),
            final(self).map_of().resident() == old(self).map_of().resident(),
            final(self).config_of() == old(self).config_of(),
            final(self).since_check_of() == old(self).since_check_of(),
    {
        let mut taken: Vec<ChunkCoord> = Vec::new();
        std::mem::swap(&mut taken, &mut self.pending);
        self.map.requeue_front(taken);
        assert(self.pending@.len() == 0);
    }

    /// The next coordinate to load this tick, if any.
    pub fn next_pending(&self) -> (r: Option<ChunkCoord>)
        ensures
            r is None <==> self.pending_of().len() == 0,
            r matches Some(c) ==> c == self.pending_of()[0],
    {
        if self.pending.len() == 0 {
            None
        } else {
            Some(self.pending[0])
        }
    }

    /// Starts a tick of `delta_nanos`: takes up to the tick's budget of
    /// coordinates from the head of the queue (after putting back any left
    /// pending) and tells whether the window is due for a refresh.
    pub fn begin_tick(&mut self, delta_nanos: u64) -> (refresh: bool)
        requires
            old(self).wf(),
        ensures
            final(self).wf(),
            ({
                let all = old(self).pending_of() + old(self).map_of().queue();
                let k = if drain_budget_of(old(self).config_of().base_rate, delta_nanos) < all.len() {
                    drain_budget_of(old(self).config_of().base_rate, delta_nanos) as int
                } else {
                    all.len() as int
                };
                &&& final(self).pending_of() == all.take(k)
                &&& final(self).map_of().queue() == all.skip(k)
            }),
            final(self).map_of().resident() == old(self).map_of().resident(),
            final(self).config_of() == old(self).config_of(),
            refresh == (old(self).since_check_of() + delta_nanos >= old(self).config_of().check_interval_nanos),
            refresh ==> final(self).since_check_of() == 0,
            !refresh ==> final(self).since_check_of() == old(self).since_check_of() + delta_nanos,
    {
        self.abort_pending();
        let k = drain_budget(self.config.base_rate, delta_nanos, self.map.load_queue().len());
        let batch = self.map.drain(k);
        self.pending = batch;
        proof {
            let q = old(self).pending_of() + old(self).map_of().queue();
            assert forall|c: ChunkCoord| #[trigger] self.pending@.contains(c) implies !self.map.queue().contains(
                c,
            ) && !self.map.resident().contains_key(c) by {
                let i = choose|i: int| 0 <= i < self.pending@.len() && self.pending@[i] == c;
                assert(q[i] == c);
                assert(q.contains(c));
                if self.map.queue().contains(c) {
                    let j = choose|j: int| 0 <= j < self.map.queue().len() && self.map.queue()[j] == c;
                    assert(q[j + k] == c);
                }
            }
            assert forall|a: int, b: int| 0 <= a < b < self.pending@.len() implies self.pending@[a]
                != self.pending@[b] by {
                assert(self.pending@[a] == q[a]);
                assert(self.pending@[b] == q[b]);
            }
        }
        let total: u128 = self.since_check as u128 + delta_nanos as u128;
        if total >= self.config.check_interval_nanos as u128 {
            self.since_check = 0;
            true
        } else {
            self.since_check = total as u64;
            false
        }
    }

    /// Records that the first pending coordinate was loaded into `chunk`,
    /// shown by the entity `handle`.
    pub fn complete_pending(&mut self, handle: EntityHandle, chunk: Chunk)
        requires
            old(self).wf(),
            old(self).pending_of().len() > 0,
        ensures
            final(self).wf(),
            final(self).pending_of() == old(self).pending_of().drop_first(),
            final(self).map_of().queue() == old(self).map_of().queue(),
            final(self).map_of().resident() == old(self).map_of().resident().insert(
                old(self).pending_of()[0],
                LoadedChunk { coord: old(self).pending_of()[0], handle, chunk },
            ),
            final(self).config_of() == old(self).config_of(),
            final(self).since_check_of() == old(self).since_check_of(),
    {
        let c = self.pending.remove(0);
        proof {
            assert(old(self).pending_of().contains(c));
        }
        self.map.mark_loaded(c, handle, chunk);
        proof {
            assert forall|d: ChunkCoord| #[trigger] self.pending@.contains(d) implies !self.map.queue().contains(
                d,
            ) && !self.map.resident().contains_key(d) by {
                let i = choose|i: int| 0 <= i < self.pending@.len() && self.pending@[i] == d;
                assert(old(self).pending_of()[i + 1] == d);
                assert(old(self).pending_of().contains(d));
                assert(d != c);
            }
        }
    }

    /// Refreshes the window around `viewpoint`: puts any pending coordinates
    /// back in the queue, asks for every anchor and then for every coordinate
    /// of the window, and evicts every resident chunk more than the
    /// hysteresis margin beyond the window. Returns the evicted coordinates
    /// with the handles of their entities, for the caller to destroy.
    pub fn slow_pass(
        &mut self,
        viewpoint: ChunkCoord,
        half_x: u32,
        half_y: u32,
        anchors: &Vec<ChunkCoord>,
    ) -> (r: Vec<(ChunkCoord, EntityHandle)>)
        requires
            old(self).wf(),
        ensures
            final(self).wf(),
            final(self).pending_of().len() == 0,
            final(self).config_of() == old(self).config_of(),
            final(self).since_check_of() == old(self).since_check_of(),
            ({
                let cfg = old(self).config_of();
                let w = active_window_of(viewpoint, half_x, half_y, cfg.min_chunk, cfg.max_chunk);
                let before = old(self).map_of();
                let after = final(self).map_of();
                &&& after.resident() == kept_after_eviction(before.resident(), w, cfg.hysteresis)
                &&& evictions_of(before.resident(), w, cfg.hysteresis, r@)
                &&& forall|c: ChunkCoord| in_window(w, c) ==> #[trigger] after.queue().contains(c)
                    || after.resident().contains_key(c)
                &&& forall|c: ChunkCoord| before.queue().contains(c) || old(self).pending_of().contains(c)
                    ==> #[trigger] after.queue().contains(c)
                &&& forall|c: ChunkCoord| anchors@.contains(c) ==> #[trigger] after.queue().contains(c)
                    || before.resident().contains_key(c)
                &&& forall|c: ChunkCoord| #[trigger] after.queue().contains(c) ==> before.queue().contains(c)
                    || old(self).pending_of().contains(c) || anchors@.contains(c) || in_window(w, c)
                &&& (old(self).pending_of() + before.queue()).is_prefix_of(after.queue())
            }),
    {
        let ghost q0 = self.map.queue();
        let ghost pend = self.pending@;
        self.abort_pending();
        proof {
            assert forall|c: ChunkCoord| self.map.queue().contains(c) <==> q0.contains(c) || pend.contains(c) by {
                let q = self.map.queue();
                assert(q == pend + q0);
                if q.contains(c) {
                    let k = choose|k: int| 0 <= k < q.len() && q[k] == c;
                    if k < pend.len() {
                        assert(pend[k] == c);
                    } else {
                        assert(q0[k - pend.len()] == c);
                    }
                }
                if pend.contains(c) {
                    let k = choose|k: int| 0 <= k < pend.len() && pend[k] == c;
                    assert(q[k] == c);
                }
                if q0.contains(c) {
                    let k = choose|k: int| 0 <= k < q0.len() && q0[k] == c;
                    assert(q[k + pend.len()] == c);
                }
            }
        }
        let ghost q1 = self.map.queue();
        enqueue_all(&mut self.map, anchors);
        let ghost q2 = self.map.queue();
        let w = active_window(viewpoint, half_x, half_y, self.config.min_chunk, self.config.max_chunk);
        enqueue_window(&mut self.map, w);
        proof {
            lemma_prefix_trans(q1, q2, self.map.queue());
        }
        let r = evict_beyond(&mut self.map, w, self.config.hysteresis);
        proof {
            assert forall|c: ChunkCoord| in_window(w, c) implies #[trigger] self.map.queue().contains(c)
                || self.map.resident().contains_key(c) by {
                assert(!beyond_margin(w, c, self.config.hysteresis));
            }
        }
        r
    }
}

proof fn lemma_prefix_trans(a: Seq<ChunkCoord>, b: Seq<ChunkCoord>, c: Seq<ChunkCoord>)
    requires
        a.is_prefix_of(b),
        b.is_prefix_of(c),
    ensures
        a.is_prefix_of(c),
{
    assert(a =~= c.subrange(0, a.len() as int)) by {
        assert forall|i: int| 0 <= i < a.len() implies a[i] == c[i] by {
            assert(a[i] == b[i]);
            assert(b[i] == c[i]);
        }
    }
}

/// Asks for every coordinate of `coords`.
fn enqueue_all(map: &mut WorldMap, coords: &Vec<ChunkCoord>)
    requires
        old(map).wf(),
    ensures
        final(map).wf(),
        final(map).resident() == old(map).resident(),
        forall|c: ChunkCoord| #[trigger] coords@.contains(c) ==> final(map).queue().contains(c) || old(map).resident().contains_key(c),
        forall|c: ChunkCoord| old(map).queue().contains(c) ==> #[trigger] final(map).queue().contains(c),
        forall|c: ChunkCoord| #[trigger] final(map).queue().contains(c) ==> old(map).queue().contains(c) || coords@.contains(c),
        old(map).queue().is_prefix_of(final(map).queue()),
{
    let mut i: usize = 0;
    while i < coords.len()
        invariant
            map.wf(),
            i <= coords@.len(),
            map.resident() == old(map).resident(),
            forall|k: int| 0 <= k < i ==> map.queue().contains(#[trigger] coords@[k]) || old(map).resident().contains_key(coords@[k]),
            forall|c: ChunkCoord| old(map).queue().contains(c) ==> #[trigger] map.queue().contains(c),
            forall|c: ChunkCoord| #[trigger] map.queue().contains(c) ==> old(map).queue().contains(c) || coords@.contains(c),
            old(map).queue().is_prefix_of(map.queue()),
        decreases coords@.len() - i,
    {
        let c = coords[i];
        proof {
            lemma_enqueued_contains(map.queue(), map.resident(), c);
            lemma_prefix_trans(old(map).queue(), map.queue(), enqueued(map.queue(), map.resident(), c));
        }
        map.queue_load(c);
        i = i + 1;
    }
    proof {
        assert forall|c: ChunkCoord| #[trigger] coords@.contains(c) implies map.queue().contains(c) || old(map).resident().contains_key(c) by {
            let k = choose|k: int| 0 <= k < coords@.len() && coords@[k] == c;
        }
    }
}

/// Asks for every coordinate of the window `w`, column by column.
fn enqueue_window(map: &mut WorldMap, w: Window)
    requires
        old(map).wf(),
    ensures
        final(map).wf(),
        final(map).resident() == old(map).resident(),
        forall|c: ChunkCoord| in_window(w, c) ==> #[trigger] final(map).queue().contains(c) || final(map).resident().contains_key(c),
        forall|c: ChunkCoord| old(map).queue().contains(c) ==> #[trigger] final(map).queue().contains(c),
        forall|c: ChunkCoord| #[trigger] final(map).queue().contains(c) ==> old(map).queue().contains(c) || in_window(w, c),
        old(map).queue().is_prefix_of(final(map).queue()),
{
    let mut x: u32 = w.min.x;
    while x < w.max.x
        invariant
            map.wf(),
            w.min.x <= x,
            map.resident() == old(map).resident(),
            forall|c: ChunkCoord| in_window(w, c) && c.x < x ==> #[trigger] map.queue().contains(c) || map.resident().contains_key(c),
            forall|c: ChunkCoord| old(map).queue().contains(c) ==> #[trigger] map.queue().contains(c),
            forall|c: ChunkCoord| #[trigger] map.queue().contains(c) ==> old(map).queue().contains(c) || in_window(w, c),
            old(map).queue().is_prefix_of(map.queue()),
        decreases w.max.x - x,
    {
        let mut y: u32 = w.min.y;
        while y < w.max.y
            invariant
                map.wf(),
                w.min.x <= x < w.max.x,
                w.min.y <= y,
                map.resident() == old(map).resident(),
                forall|c: ChunkCoord| in_window(w, c) && c.x < x ==> #[trigger] map.queue().contains(c) || map.resident().contains_key(c),
                forall|c: ChunkCoord| in_window(w, c) && c.x == x && c.y < y ==> #[trigger] map.queue().contains(c) || map.resident().contains_key(c),
                forall|c: ChunkCoord| old(map).queue().contains(c) ==> #[trigger] map.queue().contains(c),
                forall|c: ChunkCoord| #[trigger] map.queue().contains(c) ==> old(map).queue().contains(c) || in_window(w, c),
                old(map).queue().is_prefix_of(map.queue()),
            decreases w.max.y - y,
        {
            let c = ChunkCoord { x, y };
            proof {
                lemma_enqueued_contains(map.queue(), map.resident(), c);
                lemma_prefix_trans(old(map).queue(), map.queue(), enqueued(map.queue(), map.resident(), c));
            }
            map.queue_load(c);
            y = y + 1;
        }
        x = x + 1;
    }
}

/// Evicts every resident chunk beyond `margin` of `w`, and returns each
/// evicted coordinate with its entity's handle.
fn evict_beyond(map: &mut WorldMap, w: Window, margin: u32) -> (r: Vec<(ChunkCoord, EntityHandle)>)
    requires
        old(map).wf(),
    ensures
        final(map).wf(),
        final(map).queue() == old(map).queue(),
        final(map).resident() == kept_after_eviction(old(map).resident(), w, margin),
        evictions_of(old(map).resident(), w, margin, r@),
{
    let coords = map.loaded_coords();
    let ghost r0 = map.resident();
    let mut r: Vec<(ChunkCoord, EntityHandle)> = Vec::new();
    let mut i: usize = 0;
    while i < coords.len()
        invariant
            map.wf(),
            map.queue() == old(map).queue(),
            r0 == old(map).resident(),
            i <= coords@.len(),
            coords@.no_duplicates(),
            forall|c: ChunkCoord| coords@.contains(c) <==> r0.contains_key(c),
            forall|d: ChunkCoord| #[trigger] map.resident().contains_key(d) <==> (r0.contains_key(d) && !(beyond_margin(w, d, margin)
                && coords@.take(i as int).contains(d))),
            forall|d: ChunkCoord| #[trigger] map.resident().contains_key(d) ==> map.resident()[d] == r0[d],
            forall|t: int| 0 <= t < r@.len() ==> r0.contains_key((#[trigger] r@[t]).0) && beyond_margin(w, r@[t].0, margin)
                && r@[t].1 == r0[r@[t].0].handle,
            forall|d: ChunkCoord| #[trigger] coords@.take(i as int).contains(d) && beyond_margin(w, d, margin) ==> exists|t: int|
                0 <= t < r@.len() && (#[trigger] r@[t]).0 == d,
        decreases coords@.len() - i,
    {
        let c = coords[i];
        proof {
            let t1 = coords@.take(i + 1);
            let t0 = coords@.take(i as int);
            assert(t1 == t0.push(c));
            assert forall|d: ChunkCoord| t1.contains(d) <==> (t0.contains(d) || d == c) by {
                if t1.contains(d) {
                    let k = choose|k: int| 0 <= k < t1.len() && t1[k] == d;
                    if k < i {
                        assert(t0[k] == d);
                    }
                }
                if t0.contains(d) {
                    let k = choose|k: int| 0 <= k < t0.len() && t0[k] == d;
                    assert(t1[k] == d);
                }
                if d == c {
                    assert(t1[i as int] == d);
                }
            }
            assert(!t0.contains(c)) by {
                if t0.contains(c) {
                    let k = choose|k: int| 0 <= k < t0.len() && t0[k] == c;
                    assert(coords@[k] == coords@[i as int]);
                }
            }
            assert(coords@.contains(c));
        }
        let ghost r_before = r@;
        let ghost t0 = coords@.take(i as int);
        let ghost t1 = coords@.take(i + 1);
        if should_evict(&w, c, margin) {
            let h = map.mark_unloaded(c);
            match h {
                Some(h) => {
                    r.push((c, h));
                    proof {
                        assert(r@[r@.len() - 1].0 == c);
                    }
                },
                None => {},
            }
        }
        proof {
            assert forall|d: ChunkCoord| #[trigger] t1.contains(d) && beyond_margin(w, d, margin) implies exists|t: int|
                0 <= t < r@.len() && (#[trigger] r@[t]).0 == d by {
                if d == c {
                    assert(r@[r@.len() - 1].0 == c);
                } else {
                    assert(t0.contains(d));
                    let t = choose|t: int| 0 <= t < r_before.len() && (#[trigger] r_before[t]).0 == d;
                    assert(r@[t] == r_before[t]);
                }
            }
        }
        i = i + 1;
    }
    proof {
        assert(coords@.take(coords@.len() as int) == coords@);
        assert(map.resident() =~= kept_after_eviction(r0, w, margin));
    }
    r
}

/// `r` lists exactly the resident chunks beyond the margin of `w`, each with
/// the handle of its entity.
pub open spec fn evictions_of(
    resident: Map<ChunkCoord, LoadedChunk>,
    w: Window,
    margin: u32,
    r: Seq<(ChunkCoord, EntityHandle)>,
) -> bool {
    &&& forall|t: int| 0 <= t < r.len() ==> resident.contains_key((#[trigger] r[t]).0)
        && beyond_margin(w, r[t].0, margin) && r[t].1 == resident[r[t].0].handle
    &&& forall|c: ChunkCoord| resident.contains_key(c) && beyond_margin(w, c, margin) ==> exists|t: int|
        0 <= t < r.len() && (#[trigger] r[t]).0 == c
}

} // verus!
