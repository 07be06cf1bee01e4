use vstd::math::min;
use vstd::prelude::*;
use crate::mode::ReadMode;
use crate::offsets::{PartitionOffset, PartitionWatermark};
use crate::planner::{
    entries_wf, lemma_planned_entries_wf, planned_entries, snapshot_ok, PlanEntry, PlanView,
};
use crate::reader::{
    caught_up, in_window, initial, partition_caught_up, settled, Decision, Observation, Phase,
};
use crate::trace::{
    delivered, lemma_initial_wf, lemma_run_keeps_plan, lemma_yield_count_counts_yielded,
    lemma_yield_count_within_window, of_partition, run, yield_count, yielded,
};

verus! {

/// The first `n` messages of a partition's log from the start offset on, each
/// by its partition and offset.
pub open spec fn logged(entry: PlanEntry, n: int) -> Seq<(i32, i64)> {
    Seq::new(
        n as nat,
        |k: int| (entry.target.partition, (entry.target.start_offset + k) as i64),
    )
}

/// The messages that a partition held at the snapshot from the start offset
/// on: those at the offsets from the start offset up to, and without, the
/// high watermark.
pub open spec fn window_messages(entry: PlanEntry) -> Seq<(i32, i64)> {
    logged(entry, entry.window())
}

/// The polls of `trace` return each partition's log as it stands: the
/// messages of a partition of the plan come in the order of their offsets,
/// the first at the partition's start offset, each next one offset further,
/// and on past the snapshot if the log has grown.
pub open spec fn delivers_in_order(plan: PlanView, trace: Seq<Observation>) -> bool {
    forall|i: int, j: int|
        0 <= i < plan.entries.len() && 0 <= j < trace.len() ==> (
        #[trigger] trace[j] matches Observation::Message { partition, offset } ==> partition == (
        #[trigger] plan.entries[i]).target.partition ==> offset
            == plan.entries[i].target.start_offset + delivered(trace.take(j), partition))
}

/// After every empty poll of `trace` the client reports, for every partition
/// of the plan, its true position and nothing else: the offset after the last
/// message that the polls have returned of the partition.
pub open spec fn reports_true_positions(plan: PlanView, trace: Seq<Observation>) -> bool {
    forall|i: int, j: int|
        0 <= i < plan.entries.len() && 0 <= j < trace.len() ==> (
        #[trigger] trace[j] matches Observation::Empty(reports) ==> {
            let partition = (#[trigger] plan.entries[i]).target.partition;
            let position = plan.entries[i].target.start_offset + delivered(
                trace.take(j),
                partition,
            );
            &&& exists|k: int| 0 <= k < reports.len() && (#[trigger] reports[k]).partition == partition
            &&& forall|k: int|
                0 <= k < reports.len() && (#[trigger] reports[k]).partition == partition
                    ==> reports[k].offset == Some(position as i64) && position <= i64::MAX
        })
}

/// A trace of polls against a log that is read and not changed: no poll
/// fails, the messages of each partition come in order, and the reported
/// positions are true.
pub open spec fn reads_static_log(plan: PlanView, trace: Seq<Observation>) -> bool {
    &&& forall|j: int| 0 <= j < trace.len() ==> !(#[trigger] trace[j] is Failure)
    &&& delivers_in_order(plan, trace)
    &&& reports_true_positions(plan, trace)
}

/// A trace that reads a static log does so in every shorter form.
proof fn lemma_static_log_of_shorter(plan: PlanView, trace: Seq<Observation>)
    requires
        reads_static_log(plan, trace),
        trace.len() > 0,
    ensures
        reads_static_log(plan, trace.drop_last()),
{
    let earlier = trace.drop_last();
    assert forall|j: int| 0 <= j < earlier.len() implies !(#[trigger] earlier[j] is Failure) by {
        assert(earlier[j] == trace[j]);
    }
    assert forall|i: int, j: int|
        0 <= i < plan.entries.len() && 0 <= j < earlier.len() implies (
    #[trigger] earlier[j] matches Observation::Message { partition, offset } ==> partition == (
    #[trigger] plan.entries[i]).target.partition ==> offset
        == plan.entries[i].target.start_offset + delivered(earlier.take(j), partition)) by {
        assert(earlier[j] == trace[j]);
        assert(earlier.take(j) == trace.take(j));
    }
    assert forall|i: int, j: int|
        0 <= i < plan.entries.len() && 0 <= j < earlier.len() implies (
    #[trigger] earlier[j] matches Observation::Empty(reports) ==> {
        let partition = (#[trigger] plan.entries[i]).target.partition;
        let position = plan.entries[i].target.start_offset + delivered(
            earlier.take(j),
            partition,
        );
        &&& exists|k: int| 0 <= k < reports.len() && (#[trigger] reports[k]).partition == partition
        &&& forall|k: int|
            0 <= k < reports.len() && (#[trigger] reports[k]).partition == partition
                ==> reports[k].offset == Some(position as i64) && position <= i64::MAX
    }) by {
        assert(earlier[j] == trace[j]);
        assert(earlier.take(j) == trace.take(j));
    }
}

/// Against a static log a read never fails, and it yields the log of each
/// partition from the start offset on, message by message and in order: while
/// it is open, as many as the polls have returned, up to the end of the
/// window; and once it has ended, the whole window.
pub proof fn lemma_static_log_read(plan: PlanView, trace: Seq<Observation>, i: int)
    requires
        entries_wf(plan.entries),
        0 <= i < plan.entries.len(),
        reads_static_log(plan, trace),
    ensures
        ({
            let entry = plan.entries[i];
            let mine = entry.target.partition;
            let end = run(initial(plan), trace);
            let returned = min(delivered(trace, mine) as int, entry.window());
            &&& end.phase != Phase::Failed
            &&& end.phase != Phase::Done ==> {
                &&& yielded(initial(plan), trace).filter(of_partition(mine)) == logged(
                    entry,
                    returned,
                )
                &&& end.cursors[i] == entry.target.start_offset + returned
            }
            &&& end.phase == Phase::Done ==> yielded(initial(plan), trace).filter(
                of_partition(mine),
            ) == window_messages(entry)
        }),
    decreases trace.len(),
{
    let entry = plan.entries[i];
    let mine = entry.target.partition;
    let start = initial(plan);
    assert(entry.valid());
    lemma_initial_wf(plan);
    if trace.len() == 0 {
        assert(yielded(start, trace).filter(of_partition(mine)) =~= logged(entry, 0)) by {
            yielded(start, trace).lemma_filter_len(of_partition(mine));
        }
    } else {
        let earlier = trace.drop_last();
        let last = trace.len() - 1;
        let before = run(start, earlier);
        let so_far = yielded(start, earlier);
        let returned = delivered(earlier, mine) as int;
        assert(trace.take(last) == earlier);
        assert(trace[last] == trace.last());
        lemma_static_log_of_shorter(plan, trace);
        lemma_static_log_read(plan, earlier, i);
        lemma_run_keeps_plan(start, earlier);
        if before.phase != Phase::Done {
            match trace.last() {
                Observation::Message { partition, offset } => {
                    so_far.lemma_filter_push((partition, offset), of_partition(mine));
                    if partition == mine {
                        assert(offset == entry.target.start_offset + returned);
                        if returned < entry.window() {
                            assert(in_window(
                                before.plan.entries[i],
                                before.cursors[i],
                                mine,
                                offset,
                            ));
                            assert(logged(entry, returned).push((mine, offset)) =~= logged(
                                entry,
                                returned + 1,
                            ));
                        } else {
                            assert forall|k: int|
                                0 <= k < before.plan.entries.len() implies !in_window(
                                #[trigger] before.plan.entries[k],
                                before.cursors[k],
                                mine,
                                offset,
                            ) by {
                                if k != i {
                                    assert(plan.entries[k].valid());
                                }
                            }
                        }
                    }
                },
                Observation::Empty(reports) => {
                    if caught_up(plan.entries, reports) && entry.window() > 0 {
                        assert(partition_caught_up(plan.entries[i], reports));
                        let k = choose|k: int|
                            0 <= k < reports.len() && (#[trigger] reports[k]).partition == mine;
                        assert(settled(reports[k].offset, entry.watermark.high));
                    }
                },
                Observation::Failure => {},
            }
        }
    }
}

/// A read that has run to its end against a static log has yielded, from
/// every partition, exactly the messages of the partition's window: as many
/// as lie between the start offset and the high watermark of the snapshot.
pub proof fn lemma_complete_read_yields_window(plan: PlanView, trace: Seq<Observation>, i: int)
    requires
        entries_wf(plan.entries),
        0 <= i < plan.entries.len(),
        reads_static_log(plan, trace),
        run(initial(plan), trace).phase == Phase::Done,
    ensures
        yielded(initial(plan), trace).filter(of_partition(plan.entries[i].target.partition))
            == window_messages(plan.entries[i]),
        yield_count(initial(plan), trace, plan.entries[i].target.partition)
            == plan.entries[i].window(),
{
    assert(plan.entries[i].valid());
    lemma_static_log_read(plan, trace, i);
    lemma_yield_count_counts_yielded(initial(plan), trace, plan.entries[i].target.partition);
}

/// A read from the beginning that has run to its end against a static log
/// has yielded `high - low` messages from every partition, as the watermarks
/// stood at the snapshot, however many messages the log has gained since.
pub proof fn lemma_from_beginning_reads_whole_snapshot(
    topic: Seq<char>,
    partitions: Seq<PartitionWatermark>,
    resolved: Seq<PartitionOffset>,
    trace: Seq<Observation>,
    i: int,
)
    requires
        snapshot_ok(partitions),
        0 <= i < partitions.len(),
        ({
            let plan = PlanView {
                topic,
                entries: planned_entries(partitions, ReadMode::FromBeginning, resolved),
            };
            reads_static_log(plan, trace) && run(initial(plan), trace).phase == Phase::Done
        }),
    ensures
        ({
            let plan = PlanView {
                topic,
                entries: planned_entries(partitions, ReadMode::FromBeginning, resolved),
            };
            yield_count(initial(plan), trace, partitions[i].partition)
                == partitions[i].watermark.high - partitions[i].watermark.low
        }),
{
    let plan = PlanView {
        topic,
        entries: planned_entries(partitions, ReadMode::FromBeginning, resolved),
    };
    lemma_planned_entries_wf(partitions, ReadMode::FromBeginning, resolved);
    lemma_complete_read_yields_window(plan, trace, i);
}

/// A read of the last `count` messages yields at most `count` messages from
/// each partition, whatever the polls return; and one that has run to its end
/// against a static log has yielded exactly `min(high - low, count)` from
/// each.
pub proof fn lemma_last_n_reads_at_most_n(
    topic: Seq<char>,
    partitions: Seq<PartitionWatermark>,
    count: u64,
    resolved: Seq<PartitionOffset>,
    trace: Seq<Observation>,
    i: int,
)
    requires
        snapshot_ok(partitions),
        0 <= i < partitions.len(),
    ensures
        ({
            let plan = PlanView {
                topic,
                entries: planned_entries(partitions, ReadMode::LastN(count), resolved),
            };
            let number = yield_count(initial(plan), trace, partitions[i].partition);
            let most = min(partitions[i].watermark.high - partitions[i].watermark.low, count as int);
            &&& number <= most <= count
            &&& reads_static_log(plan, trace) && run(initial(plan), trace).phase == Phase::Done
                ==> number == most
        }),
{
    let plan = PlanView {
        topic,
        entries: planned_entries(partitions, ReadMode::LastN(count), resolved),
    };
    lemma_planned_entries_wf(partitions, ReadMode::LastN(count), resolved);
    assert(partitions[i].watermark.valid());
    lemma_yield_count_within_window(plan, trace, i);
    if reads_static_log(plan, trace) && run(initial(plan), trace).phase == Phase::Done {
        lemma_complete_read_yields_window(plan, trace, i);
    }
}

/// Reading a log that has not changed is idempotent: two reads of the same
/// plan that have run to their end against the static log have yielded, from
/// every partition, the same messages in the same order, however the polls
/// of the two were timed and mixed.
pub proof fn lemma_static_log_reads_agree(
    plan: PlanView,
    first: Seq<Observation>,
    second: Seq<Observation>,
    i: int,
)
    requires
        entries_wf(plan.entries),
        0 <= i < plan.entries.len(),
        reads_static_log(plan, first),
        reads_static_log(plan, second),
        run(initial(plan), first).phase == Phase::Done,
        run(initial(plan), second).phase == Phase::Done,
    ensures
        yielded(initial(plan), first).filter(of_partition(plan.entries[i].target.partition))
            == yielded(initial(plan), second).filter(
            of_partition(plan.entries[i].target.partition),
        ),
{
    lemma_complete_read_yields_window(plan, first, i);
    lemma_complete_read_yields_window(plan, second, i);
}

} // verus!
