//! The per-rank worker load metrics a worker publishes, and the publisher that
//! keeps the latest metrics of every rank in a watch channel.

use std::collections::HashMap;
use tokio::sync::watch::{Receiver, Sender};
use vstd::prelude::*;

verus! {

broadcast use vstd::std_specs::hash::group_hash_axioms;

/// Data-parallel rank of a worker process.
pub type DpRank = u32;

/// The load metrics last reported for one rank.
#[derive(Debug, Clone, Copy, PartialEq, Eq, Structural)]
pub struct WorkerMetrics {
    pub active_decode_blocks: Option<u64>,
    pub kv_used_blocks: Option<u64>,
}

/// Per-rank metrics stored in the watch channel.
///
/// Under attention-DP configurations (e.g., TensorRT-LLM reporting multiple
/// ranks from one process), this map ensures metrics from all ranks are
/// preserved when published within the debounce window.
pub type MetricsMap = HashMap<DpRank, WorkerMetrics>;

/// Why a publish was refused.
#[derive(Debug, Clone, Copy, PartialEq, Eq, Structural)]
pub enum PublishError {
    /// Neither load metric was given.
    MissingLoadMetric,
}

impl PublishError {
    /// The human-readable description of the error.
    pub fn message(&self) -> (text: String)
        ensures
            text@ == "worker metrics publish requires at least one load metric"@,
    {
        match self {
            PublishError::MissingLoadMetric => {
                "worker metrics publish requires at least one load metric".to_string()
            },
        }
    }
}

/// The rank a publish is recorded under: the given one, or rank 0.
pub open spec fn rank_or_default(dp_rank: Option<DpRank>) -> DpRank {
    match dp_rank {
        Some(rank) => rank,
        None => 0,
    }
}

/// What a publish of the given arguments records, or why it is refused.
pub open spec fn spec_metrics_entry(
    dp_rank: Option<DpRank>,
    active_decode_blocks: Option<u64>,
    kv_used_blocks: Option<u64>,
) -> Result<(DpRank, WorkerMetrics), PublishError> {
    if active_decode_blocks is None && kv_used_blocks is None {
        Err(PublishError::MissingLoadMetric)
    } else {
        Ok((rank_or_default(dp_rank), WorkerMetrics { active_decode_blocks, kv_used_blocks }))
    }
}

/// The rank and metrics that a publish of these arguments records; refused
/// when no load metric is given.
pub fn metrics_entry(
    dp_rank: Option<DpRank>,
    active_decode_blocks: Option<u64>,
    kv_used_blocks: Option<u64>,
) -> (entry: Result<(DpRank, WorkerMetrics), PublishError>)
    ensures
        entry == spec_metrics_entry(dp_rank, active_decode_blocks, kv_used_blocks),
{
    if active_decode_blocks.is_none() && kv_used_blocks.is_none() {
        return Err(PublishError::MissingLoadMetric);
    }
    let rank: DpRank = match dp_rank {
        Some(rank) => rank,
        None => 0,
    };
    Ok((rank, WorkerMetrics { active_decode_blocks, kv_used_blocks }))
}

/// Stores `metrics` as the latest metrics of `rank`; every other rank keeps
/// its entry.
pub fn record_metrics(map: &mut MetricsMap, rank: DpRank, metrics: WorkerMetrics)
    ensures
        final(map)@ == old(map)@.insert(rank, metrics),
{
    map.insert(rank, metrics);
}

/// Publishing one rank keeps the latest metrics of every other rank: two
/// publishes of different ranks within one debounce window both survive.
pub proof fn lemma_publish_keeps_other_ranks(
    map: Map<DpRank, WorkerMetrics>,
    rank: DpRank,
    metrics: WorkerMetrics,
    other: DpRank,
)
    requires
        rank != other,
    ensures
        map.insert(rank, metrics).contains_key(other) == map.contains_key(other),
        map.contains_key(other) ==> map.insert(rank, metrics)[other] == map[other],
        map.insert(rank, metrics)[rank] == metrics,
{
}

/// A publish call's arguments: rank, active decode blocks, KV used blocks.
pub type PublishCall = (Option<DpRank>, Option<u64>, Option<u64>);

/// The map after the accepted calls among `calls`, applied in order to `map`
/// the way [`WorkerMetricsPublisher::publish`] applies each one: the entry
/// of [`metrics_entry`] stored by [`record_metrics`]; refused calls change
/// nothing.
pub open spec fn record_all(map: Map<DpRank, WorkerMetrics>, calls: Seq<PublishCall>) -> Map<
    DpRank,
    WorkerMetrics,
>
    decreases calls.len(),
{
    if calls.len() == 0 {
        map
    } else {
        let before = record_all(map, calls.drop_last());
        let call = calls.last();
        match spec_metrics_entry(call.0, call.1, call.2) {
            Ok((rank, metrics)) => before.insert(rank, metrics),
            Err(_) => before,
        }
    }
}

/// The call is accepted and recorded under `rank`.
pub open spec fn records_rank(call: PublishCall, rank: DpRank) -> bool {
    &&& !(call.1 is None && call.2 is None)
    &&& rank_or_default(call.0) == rank
}

/// The metrics have at least one load metric.
pub open spec fn has_load_metric(metrics: WorkerMetrics) -> bool {
    metrics.active_decode_blocks is Some || metrics.kv_used_blocks is Some
}

/// What a sequence of publishes leaves in the map: a rank has an entry
/// exactly when it had one before or some accepted call recorded it; the
/// entry of a rank that a call recorded is the metrics of the last such
/// call; entries are never removed; and every entry recorded carries at
/// least one load metric.
pub proof fn lemma_publishes_accumulate(map: Map<DpRank, WorkerMetrics>, calls: Seq<PublishCall>)
    ensures
        forall|rank: DpRank|
            #[trigger] record_all(map, calls).contains_key(rank) <==> (map.contains_key(rank)
                || exists|i: int| 0 <= i < calls.len() && records_rank(#[trigger] calls[i], rank)),
        forall|rank: DpRank, i: int|
            0 <= i < calls.len() && records_rank(#[trigger] calls[i], rank) && (forall|j: int|
                i < j < calls.len() ==> !records_rank(#[trigger] calls[j], rank)) ==> #[trigger] record_all(
                map,
                calls,
            )[rank] == (WorkerMetrics {
                active_decode_blocks: calls[i].1,
                kv_used_blocks: calls[i].2,
            }),
        forall|rank: DpRank|
            #[trigger] record_all(map, calls).contains_key(rank) && !(exists|i: int|
                0 <= i < calls.len() && records_rank(#[trigger] calls[i], rank)) ==> record_all(
                map,
                calls,
            )[rank] == map[rank],
        forall|rank: DpRank|
            (map.contains_key(rank) ==> has_load_metric(map[rank])) && #[trigger] record_all(
                map,
                calls,
            ).contains_key(rank) ==> has_load_metric(record_all(map, calls)[rank]),
    decreases calls.len(),
{
    if calls.len() > 0 {
        let prefix = calls.drop_last();
        let n = calls.len() - 1;
        lemma_publishes_accumulate(map, prefix);
        assert forall|i: int| 0 <= i < n implies #[trigger] prefix[i] == calls[i] by {}
        let before = record_all(map, prefix);
        let after = record_all(map, calls);
        assert forall|rank: DpRank| #[trigger] after.contains_key(rank) <==> (map.contains_key(rank)
            || exists|i: int| 0 <= i < calls.len() && records_rank(#[trigger] calls[i], rank)) by {
            if exists|i: int| 0 <= i < calls.len() && records_rank(#[trigger] calls[i], rank) {
                let i = choose|i: int| 0 <= i < calls.len() && records_rank(#[trigger] calls[i], rank);
                if i < n {
                    assert(records_rank(prefix[i], rank));
                }
            }
            if before.contains_key(rank) && !map.contains_key(rank) {
                let i = choose|i: int| 0 <= i < n && records_rank(#[trigger] prefix[i], rank);
                assert(records_rank(calls[i], rank));
            }
        }
        assert forall|rank: DpRank, i: int|
            0 <= i < calls.len() && records_rank(#[trigger] calls[i], rank) && (forall|j: int|
                i < j < calls.len() ==> !records_rank(#[trigger] calls[j], rank)) implies #[trigger] after[rank]
            == (WorkerMetrics { active_decode_blocks: calls[i].1, kv_used_blocks: calls[i].2 }) by {
            if i < n {
                assert(!records_rank(calls[n], rank));
                assert(records_rank(prefix[i], rank));
                assert forall|j: int| i < j < n implies !records_rank(#[trigger] prefix[j], rank) by {
                    assert(!records_rank(calls[j], rank));
                }
            }
        }
        assert forall|rank: DpRank|
            #[trigger] after.contains_key(rank) && !(exists|i: int|
                0 <= i < calls.len() && records_rank(#[trigger] calls[i], rank)) implies after[rank]
            == map[rank] by {
            assert(!records_rank(calls[n], rank));
            assert(!exists|i: int| 0 <= i < n && records_rank(#[trigger] prefix[i], rank)) by {
                if exists|i: int| 0 <= i < n && records_rank(#[trigger] prefix[i], rank) {
                    let i = choose|i: int| 0 <= i < n && records_rank(#[trigger] prefix[i], rank);
                    assert(records_rank(calls[i], rank));
                }
            }
            assert(before.contains_key(rank));
        }
        assert forall|rank: DpRank|
            (map.contains_key(rank) ==> has_load_metric(map[rank])) && #[trigger] after.contains_key(
                rank,
            ) implies has_load_metric(after[rank]) by {
            if !(records_rank(calls[n], rank)) {
                assert(before.contains_key(rank));
            }
        }
    }
}

#[verifier::external_type_specification]
#[verifier::external_body]
#[verifier::reject_recursive_types(T)]
pub struct ExWatchSender<T>(Sender<T>);

#[verifier::external_type_specification]
#[verifier::external_body]
#[verifier::reject_recursive_types(T)]
pub struct ExWatchReceiver<T>(Receiver<T>);

/// Calls `tokio::sync::watch::channel`, which makes a channel whose value is
/// `init`. Nothing is stated of the result: the channel's value is state
/// shared between the sender and every receiver, changed through shared
/// references, so no function of the returned values can describe it.
#[verifier::external_body]
fn watch_channel(init: MetricsMap) -> (Sender<MetricsMap>, Receiver<MetricsMap>) {
    tokio::sync::watch::channel(init)
}

/// Calls `Sender::send_modify` with a closure that applies [`record_metrics`]
/// to the watched map, which the crate's source shows it does under the write
/// lock before notifying the receivers. Nothing is stated: the map is changed
/// through a shared reference to the sender, whose value stays the same.
#[verifier::external_body]
fn send_record_metrics(tx: &Sender<MetricsMap>, rank: DpRank, metrics: WorkerMetrics) {
    tx.send_modify(|map| record_metrics(map, rank, metrics));
}

/// Calls `Receiver::clone`, a new receiver of the same channel. Nothing is
/// stated of it.
#[verifier::external_body]
fn receiver_clone(rx: &Receiver<MetricsMap>) -> Receiver<MetricsMap> {
    rx.clone()
}

/// Calls `Receiver::borrow` and clones the map it lends: the latest value of
/// the channel. Nothing is stated: it depends on the sends made so far.
#[verifier::external_body]
fn receiver_borrow(rx: &Receiver<MetricsMap>) -> MetricsMap {
    rx.borrow().clone()
}

/// Publishes per-rank worker load metrics into a watch channel, from which a
/// background task forwards them.
pub struct WorkerMetricsPublisher {
    tx: Sender<MetricsMap>,
    rx: Receiver<MetricsMap>,
}

impl WorkerMetricsPublisher {
    /// A publisher whose channel holds no rank yet.
    pub fn new() -> (publisher: Result<Self, PublishError>)
        ensures
            publisher is Ok,
    {
        let (tx, rx) = watch_channel(HashMap::new());
        Ok(Self { tx, rx })
    }

    /// Records the metrics of `dp_rank` (rank 0 when absent) as its latest
    /// metrics in the channel; refused when neither metric is given.
    ///
    /// What is written is the entry of [`metrics_entry`], applied to the
    /// channel's map by [`record_metrics`]; the write itself goes through the
    /// channel's shared state, of which the contract says nothing.
    pub fn publish(
        &self,
        dp_rank: Option<DpRank>,
        active_decode_blocks: Option<u64>,
        kv_used_blocks: Option<u64>,
    ) -> (result: Result<(), PublishError>)
        ensures
            result == (if active_decode_blocks is None && kv_used_blocks is None {
                Err::<(), PublishError>(PublishError::MissingLoadMetric)
            } else {
                Ok(())
            }),
    {
        let (rank, metrics) = match metrics_entry(dp_rank, active_decode_blocks, kv_used_blocks) {
            Ok(entry) => entry,
            Err(e) => return Err(e),
        };
        send_record_metrics(&self.tx, rank, metrics);
        Ok(())
    }

    /// A new receiver of the channel, for the task that forwards the metrics.
    pub fn subscribe(&self) -> Receiver<MetricsMap> {
        receiver_clone(&self.rx)
    }

    /// The per-rank metrics the channel holds now.
    pub fn current_metrics(&self) -> MetricsMap {
        receiver_borrow(&self.rx)
    }
}

} // verus!
