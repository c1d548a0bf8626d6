//! The decisions of the background task that forwards worker metrics: which
//! ranks changed since they were last seen, when the debounce timer is armed,
//! and which loads a flush publishes. The task itself (waiting on the channel
//! and on the timer, sending the loads) runs outside the library and feeds
//! its events to [`PublishingLoop::step`].

use crate::metrics::{has_load_metric, DpRank, MetricsMap, WorkerMetrics};
use std::collections::HashMap;
use vstd::prelude::*;
use vstd::std_specs::hash::spec_hash_map_iter;
use vstd::std_specs::iter::IteratorSpec;

verus! {

broadcast use vstd::std_specs::hash::group_hash_axioms;

/// The load of one rank of one worker, as sent on the event plane.
#[derive(Debug, Clone, Copy, PartialEq, Eq, Structural)]
pub struct ActiveLoad {
    pub worker_id: u64,
    pub dp_rank: DpRank,
    pub active_decode_blocks: Option<u64>,
    pub active_prefill_tokens: Option<usize>,
    pub kv_used_blocks: Option<u64>,
}

/// The load a flush sends for `rank` of worker `worker_id`.
pub open spec fn active_load_of(worker_id: u64, rank: DpRank, metrics: WorkerMetrics) -> ActiveLoad {
    ActiveLoad {
        worker_id,
        dp_rank: rank,
        active_decode_blocks: metrics.active_decode_blocks,
        active_prefill_tokens: None,
        kv_used_blocks: metrics.kv_used_blocks,
    }
}

/// The ranks of `current` whose metrics differ from the last ones seen (or
/// were never seen).
pub open spec fn changed_ranks(
    last: Map<DpRank, WorkerMetrics>,
    current: Map<DpRank, WorkerMetrics>,
) -> Set<DpRank> {
    Set::new(
        |rank: DpRank|
            current.contains_key(rank) && !(last.contains_key(rank) && last[rank] == current[rank]),
    )
}

/// `loads` publishes every entry of `pending` exactly once, for worker
/// `worker_id`, in some order.
pub open spec fn publishes_each_once(
    worker_id: u64,
    pending: Map<DpRank, WorkerMetrics>,
    loads: Seq<ActiveLoad>,
) -> bool {
    &&& loads.len() == pending.len()
    &&& forall|i: int|
        0 <= i < loads.len() ==> {
            &&& pending.contains_key(#[trigger] loads[i].dp_rank)
            &&& loads[i] == active_load_of(worker_id, loads[i].dp_rank, pending[loads[i].dp_rank])
        }
    &&& forall|rank: DpRank|
        #[trigger] pending.contains_key(rank) ==> exists|i: int|
            0 <= i < loads.len() && #[trigger] loads[i].dp_rank == rank
    &&& forall|i: int, j: int|
        0 <= i < j < loads.len() ==> #[trigger] loads[i].dp_rank != #[trigger] loads[j].dp_rank
}

/// How long, in milliseconds, changes are gathered before they are flushed:
/// each change sets the debounce timer this far past the moment it is seen.
pub const DEBOUNCE_WINDOW_MS: u64 = 1;

/// What the forwarding task observes.
pub enum LoopEvent {
    /// The channel holds a new snapshot of the per-rank metrics.
    MetricsChanged(MetricsMap),
    /// Every sender of the channel is gone.
    SenderDropped,
    /// The debounce timer went off.
    TimerFired,
}

/// What the forwarding task does next.
pub enum LoopAction {
    /// Arm the debounce timer anew, to go off `delay_ms` milliseconds from now.
    ResetTimer { delay_ms: u64 },
    /// Nothing to do; keep waiting.
    Wait,
    /// Send these loads, one event each.
    Publish(Vec<ActiveLoad>),
    /// Stop the task.
    Stop,
}

/// The state of the forwarding task: the metrics last seen for each rank,
/// and the ranks whose changes wait for the next flush.
pub struct PublishingLoop {
    pub worker_id: u64,
    pub last_metrics: MetricsMap,
    pub pending: MetricsMap,
}

impl PublishingLoop {
    /// Every pending entry is the latest metrics seen for its rank.
    pub open spec fn wf(&self) -> bool {
        forall|rank: DpRank|
            #[trigger] self.pending@.contains_key(rank) ==> self.last_metrics@.contains_key(rank)
                && self.last_metrics@[rank] == self.pending@[rank]
    }

    /// A task for worker `worker_id` that has seen nothing yet.
    pub fn new(worker_id: u64) -> (state: Self)
        ensures
            state.worker_id == worker_id,
            state.last_metrics@ == Map::<DpRank, WorkerMetrics>::empty(),
            state.pending@ == Map::<DpRank, WorkerMetrics>::empty(),
            state.wf(),
    {
        PublishingLoop { worker_id, last_metrics: HashMap::new(), pending: HashMap::new() }
    }

    /// Whether a flush has anything to send; the timer only counts while it has.
    pub fn has_pending(&self) -> (pending: bool)
        ensures
            pending == !self.pending@.is_empty(),
    {
        !self.pending.is_empty()
    }

    /// Decides what the forwarding task does on `event`: a new snapshot arms
    /// the timer [`DEBOUNCE_WINDOW_MS`] ahead when some rank changed; a dropped sender stops the task; the
    /// timer flushes the pending ranks, if any.
    pub fn step(&mut self, event: LoopEvent) -> (action: LoopAction)
        ensures
            final(self).worker_id == old(self).worker_id,
            old(self).wf() ==> final(self).wf(),
            match event {
                LoopEvent::MetricsChanged(current) => {
                    let changed = changed_ranks(old(self).last_metrics@, current@);
                    &&& final(self).last_metrics@ == old(self).last_metrics@.union_prefer_right(
                        current@,
                    )
                    &&& final(self).pending@ == old(self).pending@.union_prefer_right(
                        current@.restrict(changed),
                    )
                    &&& if changed.is_empty() {
                        action is Wait
                    } else {
                        action == (LoopAction::ResetTimer { delay_ms: DEBOUNCE_WINDOW_MS })
                    }
                    &&& forall|rank: DpRank|
                        #[trigger] current@.contains_key(rank) && !(
                        old(self).last_metrics@.contains_key(rank) && old(self).last_metrics@[rank]
                            == current@[rank]) ==> {
                            &&& final(self).pending@.contains_key(rank)
                            &&& final(self).pending@[rank] == current@[rank]
                            &&& action == (LoopAction::ResetTimer { delay_ms: DEBOUNCE_WINDOW_MS })
                        }
                    &&& action is Wait ==> forall|rank: DpRank|
                        #[trigger] current@.contains_key(rank) ==> old(
                            self,
                        ).last_metrics@.contains_key(rank) && old(self).last_metrics@[rank]
                            == current@[rank]
                },
                LoopEvent::SenderDropped => {
                    &&& final(self).last_metrics@ == old(self).last_metrics@
                    &&& final(self).pending@ == old(self).pending@
                    &&& action is Stop
                },
                LoopEvent::TimerFired => {
                    &&& final(self).last_metrics@ == old(self).last_metrics@
                    &&& final(self).pending@ == Map::<DpRank, WorkerMetrics>::empty()
                    &&& if old(self).pending@.is_empty() {
                        action is Wait
                    } else {
                        action matches LoopAction::Publish(loads) && publishes_each_once(
                            old(self).worker_id,
                            old(self).pending@,
                            loads@,
                        )
                    }
                },
            },
    {
        match event {
            LoopEvent::MetricsChanged(current) => {
                if self.on_metrics_changed(&current) {
                    LoopAction::ResetTimer { delay_ms: DEBOUNCE_WINDOW_MS }
                } else {
                    LoopAction::Wait
                }
            },
            LoopEvent::SenderDropped => LoopAction::Stop,
            LoopEvent::TimerFired => {
                if self.has_pending() {
                    LoopAction::Publish(self.on_timer())
                } else {
                    LoopAction::Wait
                }
            },
        }
    }

    /// Flushes the pending ranks: one load per pending rank, carrying its
    /// pending metrics, in the map's iteration order; nothing stays pending.
    pub fn on_timer(&mut self) -> (loads: Vec<ActiveLoad>)
        ensures
            final(self).worker_id == old(self).worker_id,
            final(self).last_metrics@ == old(self).last_metrics@,
            final(self).pending@ == Map::<DpRank, WorkerMetrics>::empty(),
            publishes_each_once(old(self).worker_id, old(self).pending@, loads@),
            final(self).wf(),
    {
        let ghost entries = spec_hash_map_iter(&self.pending).remaining();
        let ghost pending = self.pending@;
        let mut loads: Vec<ActiveLoad> = Vec::new();
        // Publish all pending ranks
        for (rank, metrics) in it: self.pending.iter()
            invariant
                entries == spec_hash_map_iter(&self.pending).remaining(),
                pending == self.pending@,
                it.seq() == entries,
                entries.no_duplicates(),
                loads@.len() == it.index(),
                forall|i: int|
                    0 <= i < it.index() ==> #[trigger] loads@[i] == active_load_of(
                        self.worker_id,
                        *entries[i].0,
                        *entries[i].1,
                    ),
        {
            let active_load = ActiveLoad {
                worker_id: self.worker_id,
                dp_rank: *rank,
                active_decode_blocks: metrics.active_decode_blocks,
                active_prefill_tokens: None,
                kv_used_blocks: metrics.kv_used_blocks,
            };
            loads.push(active_load);
        }
        proof {
            assert(loads@.len() == entries.len());
            assert forall|i: int| 0 <= i < loads@.len() implies {
                &&& pending.contains_key(#[trigger] loads@[i].dp_rank)
                &&& loads@[i] == active_load_of(self.worker_id, loads@[i].dp_rank, pending[loads@[i].dp_rank])
            } by {
                assert(loads@[i] == active_load_of(self.worker_id, *entries[i].0, *entries[i].1));
            }
            assert forall|r: DpRank| #[trigger] pending.contains_key(r) implies exists|i: int|
                0 <= i < loads@.len() && #[trigger] loads@[i].dp_rank == r by {
                assert(entries.contains((&r, &pending[r])));
                let j = choose|j: int| 0 <= j < entries.len() && entries[j] == (&r, &pending[r]);
                assert(loads@[j] == active_load_of(self.worker_id, *entries[j].0, *entries[j].1));
                assert(loads@[j].dp_rank == r);
            }
            assert forall|i: int, j: int| 0 <= i < j < loads@.len() implies
                #[trigger] loads@[i].dp_rank != #[trigger] loads@[j].dp_rank by {
                assert(loads@[i] == active_load_of(self.worker_id, *entries[i].0, *entries[i].1));
                assert(loads@[j] == active_load_of(self.worker_id, *entries[j].0, *entries[j].1));
                if *entries[i].0 == *entries[j].0 {
                    assert(pending.contains_key(*entries[i].0) && pending[*entries[i].0] == *entries[i].1);
                    assert(pending.contains_key(*entries[j].0) && pending[*entries[j].0] == *entries[j].1);
                    assert(entries[i] == entries[j]);
                }
            }
        }
        self.pending.clear();
        loads
    }

    /// Takes in a new snapshot of the channel: each rank whose metrics differ
    /// from the last seen ones becomes pending with its new metrics, and the
    /// snapshot becomes the last seen metrics of its ranks. Returns whether
    /// any rank changed, i.e. whether the debounce timer is to be armed anew.
    pub fn on_metrics_changed(&mut self, current: &MetricsMap) -> (rearm: bool)
        ensures
            final(self).worker_id == old(self).worker_id,
            final(self).last_metrics@ == old(self).last_metrics@.union_prefer_right(current@),
            final(self).pending@ == old(self).pending@.union_prefer_right(
                current@.restrict(changed_ranks(old(self).last_metrics@, current@)),
            ),
            rearm == !changed_ranks(old(self).last_metrics@, current@).is_empty(),
            old(self).wf() ==> final(self).wf(),
            (final(self).last_metrics@, final(self).pending@) == take_in(
                old(self).last_metrics@,
                old(self).pending@,
                current@,
            ),
            forall|rank: DpRank|
                #[trigger] current@.contains_key(rank) && !(old(self).last_metrics@.contains_key(rank)
                    && old(self).last_metrics@[rank] == current@[rank]) ==> {
                    &&& final(self).pending@.contains_key(rank)
                    &&& final(self).pending@[rank] == current@[rank]
                    &&& rearm
                },
            forall|rank: DpRank|
                #[trigger] final(self).pending@.contains_key(rank) && !(current@.contains_key(rank)
                    && !(old(self).last_metrics@.contains_key(rank)
                    && old(self).last_metrics@[rank] == current@[rank])) ==> {
                    &&& old(self).pending@.contains_key(rank)
                    &&& final(self).pending@[rank] == old(self).pending@[rank]
                },
            rearm ==> exists|rank: DpRank|
                #[trigger] current@.contains_key(rank) && !(old(self).last_metrics@.contains_key(rank)
                    && old(self).last_metrics@[rank] == current@[rank]),
            forall|rank: DpRank|
                #[trigger] current@.contains_key(rank) ==> final(self).last_metrics@.contains_key(rank)
                    && final(self).last_metrics@[rank] == current@[rank],
    {
        let ghost old_last = self.last_metrics@;
        let ghost old_pending = self.pending@;
        let ghost changed = changed_ranks(old_last, current@);
        let ghost worker_id = self.worker_id;
        let ghost entries = spec_hash_map_iter(current).remaining();
        let mut any_changed = false;
        // Diff against the last seen metrics to find changed ranks
        for (rank, metrics) in it: current.iter()
            invariant
                self.worker_id == worker_id,
                changed == changed_ranks(old_last, current@),
                entries == spec_hash_map_iter(current).remaining(),
                it.seq() == entries,
                entries.no_duplicates(),
                forall|i: int|
                    #![trigger entries[i]]
                    0 <= i < entries.len() ==> current@.contains_key(*entries[i].0)
                        && current@[*entries[i].0] == *entries[i].1,
                forall|r: DpRank|
                    #![trigger self.last_metrics@.contains_key(r)]
                    #![trigger seen(entries, it.index(), r)]
                    seen(entries, it.index(), r) ==> self.last_metrics@.contains_key(r)
                        && self.last_metrics@[r] == current@[r],
                forall|r: DpRank|
                    #![trigger self.last_metrics@.contains_key(r)]
                    !seen(entries, it.index(), r) ==> (self.last_metrics@.contains_key(r)
                        == old_last.contains_key(r)) && (old_last.contains_key(r)
                        ==> self.last_metrics@[r] == old_last[r]),
                forall|r: DpRank|
                    #![trigger self.pending@.contains_key(r)]
                    seen(entries, it.index(), r) && changed.contains(r)
                        ==> self.pending@.contains_key(r) && self.pending@[r] == current@[r],
                forall|r: DpRank|
                    #![trigger self.pending@.contains_key(r)]
                    !(seen(entries, it.index(), r) && changed.contains(r)) ==> (
                    self.pending@.contains_key(r) == old_pending.contains_key(r)) && (
                    old_pending.contains_key(r) ==> self.pending@[r] == old_pending[r]),
                any_changed == exists|r: DpRank|
                    seen(entries, it.index(), r) && #[trigger] changed.contains(r),
        {
            let ghost idx = it.index();
            let ghost pre_last = self.last_metrics@;
            let ghost pre_pending = self.pending@;
            assert(entries[idx] == (rank, metrics));
            assert(!seen(entries, idx, *rank)) by {
                if seen(entries, idx, *rank) {
                    let j = choose|j: int| 0 <= j < idx && *(#[trigger] entries[j]).0 == *rank;
                    assert(entries[j] == entries[idx]);
                }
            }
            assert(current@.contains_key(*rank) && current@[*rank] == *metrics);
            assert(self.last_metrics@.contains_key(*rank) == old_last.contains_key(*rank));
            assert(self.pending@.contains_key(*rank) == old_pending.contains_key(*rank));
            assert(old_pending.contains_key(*rank) ==> self.pending@[*rank] == old_pending[*rank]);
            let differs = match self.last_metrics.get(rank) {
                Some(previous) => *previous != *metrics,
                None => true,
            };
            assert(differs == changed.contains(*rank));
            if differs {
                self.pending.insert(*rank, *metrics);
                self.last_metrics.insert(*rank, *metrics);
                any_changed = true;
            }
            assert forall|r: DpRank| seen(entries, idx + 1, r) == (seen(entries, idx, r) || r == *rank) by {
                if seen(entries, idx + 1, r) && r != *rank {
                    let j = choose|j: int| 0 <= j < idx + 1 && *(#[trigger] entries[j]).0 == r;
                    assert(seen(entries, idx, r));
                }
                if r == *rank {
                    assert(*entries[idx].0 == r);
                }
            }
            assert forall|r: DpRank| seen(entries, idx + 1, r) implies self.last_metrics@.contains_key(r)
                && self.last_metrics@[r] == current@[r] by {
                if r != *rank {
                    assert(seen(entries, idx, r));
                }
            }
            assert forall|r: DpRank| !(seen(entries, idx + 1, r) && changed.contains(r)) implies (
                self.pending@.contains_key(r) == old_pending.contains_key(r)) && (
                old_pending.contains_key(r) ==> self.pending@[r] == old_pending[r]) by {
                if r != *rank {
                    assert(!(seen(entries, idx, r) && changed.contains(r)));
                    assert(pre_pending.contains_key(r) == old_pending.contains_key(r));
                }
            }
            assert forall|r: DpRank| seen(entries, idx + 1, r) && changed.contains(r) implies
                self.pending@.contains_key(r) && self.pending@[r] == current@[r] by {
                if r != *rank {
                    assert(seen(entries, idx, r));
                    assert(pre_pending.contains_key(r));
                }
            }
            assert forall|r: DpRank| !seen(entries, idx + 1, r) implies (
                self.last_metrics@.contains_key(r) == old_last.contains_key(r)) && (
                old_last.contains_key(r) ==> self.last_metrics@[r] == old_last[r]) by {
                assert(!seen(entries, idx, r));
                assert(pre_last.contains_key(r) == old_last.contains_key(r));
            }
        }
        proof {
            assert forall|r: DpRank| current@.contains_key(r) implies seen(entries, entries.len() as int, r) by {
                assert(entries.contains((&r, &current@[r])));
                let j = choose|j: int| 0 <= j < entries.len() && entries[j] == (&r, &current@[r]);
                assert(*entries[j].0 == r);
            }
            assert(self.last_metrics@ =~= old_last.union_prefer_right(current@));
            assert(self.pending@ =~= old_pending.union_prefer_right(current@.restrict(changed)));
            if !changed.is_empty() {
                let r = changed.choose();
                assert(changed.contains(r));
                assert(seen(entries, entries.len() as int, r));
            }
            if any_changed {
                let r = choose|r: DpRank| changed.contains(r);
                assert(current@.contains_key(r));
            }
            assert forall|rank: DpRank|
                #[trigger] current@.contains_key(rank) && !(old_last.contains_key(rank)
                    && old_last[rank] == current@[rank]) implies any_changed by {
                assert(changed.contains(rank));
                assert(seen(entries, entries.len() as int, rank));
            }
        }
        any_changed
    }
}

/// `rank` is the key of one of the first `n` entries.
pub open spec fn seen(entries: Seq<(&DpRank, &WorkerMetrics)>, n: int, rank: DpRank) -> bool {
    exists|j: int| 0 <= j < n && *(#[trigger] entries[j]).0 == rank
}


/// A snapshot that has been taken in changes nothing when it is seen again:
/// no rank counts as changed, so the timer is not armed, nothing becomes
/// pending and the last seen metrics stay as they are.
pub proof fn lemma_snapshot_seen_twice_is_quiet(
    last: Map<DpRank, WorkerMetrics>,
    current: Map<DpRank, WorkerMetrics>,
)
    ensures
        changed_ranks(last.union_prefer_right(current), current).is_empty(),
        last.union_prefer_right(current).union_prefer_right(current) == last.union_prefer_right(current),
{
    let seen = last.union_prefer_right(current);
    assert(changed_ranks(seen, current) =~= Set::<DpRank>::empty());
    assert(seen.union_prefer_right(current) =~= seen);
}

/// When nothing is pending, the next flush after a snapshot publishes exactly
/// the ranks whose metrics changed, each with its new metrics: a rank whose
/// metrics stayed the same is not published again.
pub proof fn lemma_only_changed_ranks_are_flushed(
    pending: Map<DpRank, WorkerMetrics>,
    last: Map<DpRank, WorkerMetrics>,
    current: Map<DpRank, WorkerMetrics>,
)
    requires
        pending.is_empty(),
    ensures
        pending.union_prefer_right(current.restrict(changed_ranks(last, current))).dom()
            == changed_ranks(last, current),
        forall|rank: DpRank|
            #[trigger] changed_ranks(last, current).contains(rank) ==> pending.union_prefer_right(
                current.restrict(changed_ranks(last, current)),
            )[rank] == current[rank],
{
    assert(pending.dom() =~= Set::<DpRank>::empty());
    assert(pending.union_prefer_right(current.restrict(changed_ranks(last, current))).dom()
        =~= changed_ranks(last, current));
}


/// The last seen metrics and the pending ranks after taking in `current`, as
/// [`PublishingLoop::on_metrics_changed`] does.
pub open spec fn take_in(
    last: Map<DpRank, WorkerMetrics>,
    pending: Map<DpRank, WorkerMetrics>,
    current: Map<DpRank, WorkerMetrics>,
) -> (Map<DpRank, WorkerMetrics>, Map<DpRank, WorkerMetrics>) {
    (
        last.union_prefer_right(current),
        pending.union_prefer_right(current.restrict(changed_ranks(last, current))),
    )
}

/// The last seen metrics and the pending ranks after taking in each of
/// `snapshots` in turn.
pub open spec fn take_in_all(
    last: Map<DpRank, WorkerMetrics>,
    pending: Map<DpRank, WorkerMetrics>,
    snapshots: Seq<Map<DpRank, WorkerMetrics>>,
) -> (Map<DpRank, WorkerMetrics>, Map<DpRank, WorkerMetrics>)
    decreases snapshots.len(),
{
    if snapshots.len() == 0 {
        (last, pending)
    } else {
        let (l, p) = take_in_all(last, pending, snapshots.drop_last());
        take_in(l, p, snapshots.last())
    }
}

/// The ranks that changed in some snapshot of `snapshots`, each compared
/// with the metrics last seen before that snapshot.
pub open spec fn ranks_changed_during(
    last: Map<DpRank, WorkerMetrics>,
    snapshots: Seq<Map<DpRank, WorkerMetrics>>,
) -> Set<DpRank>
    decreases snapshots.len(),
{
    if snapshots.len() == 0 {
        Set::empty()
    } else {
        let seen = take_in_all(last, Map::empty(), snapshots.drop_last()).0;
        ranks_changed_during(last, snapshots.drop_last()).union(
            changed_ranks(seen, snapshots.last()),
        )
    }
}

/// Between two flushes, whatever snapshots come in, what waits for the next
/// flush is exactly the ranks that changed in one of them, each with its
/// latest seen metrics: a value superseded within the window is not kept,
/// and a rank that never changed is not published.
pub proof fn lemma_flush_sends_latest_of_changed_ranks(
    last: Map<DpRank, WorkerMetrics>,
    snapshots: Seq<Map<DpRank, WorkerMetrics>>,
)
    ensures
        take_in_all(last, Map::empty(), snapshots).1.dom() == ranks_changed_during(last, snapshots),
        forall|rank: DpRank|
            #[trigger] take_in_all(last, Map::empty(), snapshots).1.contains_key(rank) ==> take_in_all(
                last,
                Map::empty(),
                snapshots,
            ).0.contains_key(rank) && take_in_all(last, Map::empty(), snapshots).1[rank]
                == take_in_all(last, Map::empty(), snapshots).0[rank],
    decreases snapshots.len(),
{
    if snapshots.len() == 0 {
        assert(Map::<DpRank, WorkerMetrics>::empty().dom() =~= Set::<DpRank>::empty());
    } else {
        let prefix = snapshots.drop_last();
        lemma_flush_sends_latest_of_changed_ranks(last, prefix);
        let (l, p) = take_in_all(last, Map::empty(), prefix);
        let c = snapshots.last();
        let (l2, p2) = take_in(l, p, c);
        assert(p2.dom() =~= p.dom().union(changed_ranks(l, c)));
        assert forall|rank: DpRank| #[trigger] p2.contains_key(rank) implies l2.contains_key(rank)
            && p2[rank] == l2[rank] by {
            if !changed_ranks(l, c).contains(rank) {
                assert(p.contains_key(rank));
            }
        }
    }
}

/// On a task in a well-formed state, the loads of a flush carry the worker's
/// id, no prefill tokens, and each rank's latest seen metrics; when every
/// pending entry has a load metric, so does every load.
pub proof fn lemma_flush_loads_carry_latest(
    state: PublishingLoop,
    loads: Seq<ActiveLoad>,
)
    requires
        state.wf(),
        publishes_each_once(state.worker_id, state.pending@, loads),
    ensures
        forall|i: int|
            0 <= i < loads.len() ==> {
                &&& (#[trigger] loads[i]).worker_id == state.worker_id
                &&& loads[i].active_prefill_tokens is None
                &&& state.last_metrics@.contains_key(loads[i].dp_rank)
                &&& loads[i].active_decode_blocks
                    == state.last_metrics@[loads[i].dp_rank].active_decode_blocks
                &&& loads[i].kv_used_blocks == state.last_metrics@[loads[i].dp_rank].kv_used_blocks
            },
        (forall|rank: DpRank|
            #[trigger] state.pending@.contains_key(rank) ==> has_load_metric(state.pending@[rank]))
            ==> forall|i: int|
            0 <= i < loads.len() ==> (#[trigger] loads[i]).active_decode_blocks is Some
                || loads[i].kv_used_blocks is Some,
{
    assert forall|i: int| 0 <= i < loads.len() implies {
        &&& (#[trigger] loads[i]).worker_id == state.worker_id
        &&& loads[i].active_prefill_tokens is None
        &&& state.last_metrics@.contains_key(loads[i].dp_rank)
        &&& loads[i].active_decode_blocks
            == state.last_metrics@[loads[i].dp_rank].active_decode_blocks
        &&& loads[i].kv_used_blocks == state.last_metrics@[loads[i].dp_rank].kv_used_blocks
    } by {
        assert(state.pending@.contains_key(loads[i].dp_rank));
    }
    if forall|rank: DpRank|
        #[trigger] state.pending@.contains_key(rank) ==> has_load_metric(state.pending@[rank]) {
        assert forall|i: int| 0 <= i < loads.len() implies (#[trigger] loads[i]).active_decode_blocks
            is Some || loads[i].kv_used_blocks is Some by {
            assert(state.pending@.contains_key(loads[i].dp_rank));
        }
    }
}


/// A rank that was never seen before counts as changed, whatever metrics it
/// reports, and one whose metrics differ from the last seen ones does too;
/// a rank reporting exactly its last seen metrics does not.
pub proof fn lemma_changed_rank_is_new_or_different(
    last: Map<DpRank, WorkerMetrics>,
    current: Map<DpRank, WorkerMetrics>,
    rank: DpRank,
)
    requires
        current.contains_key(rank),
    ensures
        !last.contains_key(rank) ==> changed_ranks(last, current).contains(rank),
        last.contains_key(rank) && last[rank] != current[rank] ==> changed_ranks(
            last,
            current,
        ).contains(rank),
        last.contains_key(rank) && last[rank] == current[rank] ==> !changed_ranks(
            last,
            current,
        ).contains(rank),
{
}

/// The first snapshot a fresh task takes in makes every one of its ranks
/// pending with the metrics it reports, and arms the timer unless the
/// snapshot is empty.
pub proof fn lemma_first_snapshot_is_all_pending(current: Map<DpRank, WorkerMetrics>)
    requires
        current.dom().finite(),
    ensures
        take_in(Map::empty(), Map::empty(), current).1 == current,
        take_in(Map::empty(), Map::empty(), current).0 == current,
        changed_ranks(Map::empty(), current).is_empty() <==> current.is_empty(),
{
    assert(changed_ranks(Map::empty(), current) =~= current.dom());
    assert(take_in(Map::empty(), Map::empty(), current).1 =~= current);
    assert(take_in(Map::empty(), Map::empty(), current).0 =~= current);
}

} // verus!
