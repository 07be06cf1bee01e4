use vstd::prelude::*;
use crate::offsets::PartitionOffset;
use crate::planner::{entries_wf, PlanEntry, PlanView};
use crate::reader::{
    caught_up, in_window, initial, partition_caught_up, settled, Decision, Observation, Phase,
    ReaderView,
};

verus! {

/// The state of a read that began in `s` after the events of `trace`, taken
/// in order.
pub open spec fn run(s: ReaderView, trace: Seq<Observation>) -> ReaderView
    decreases trace.len(),
{
    if trace.len() == 0 {
        s
    } else {
        run(s, trace.drop_last()).next(trace.last())
    }
}

/// Whether the last event of `trace` is a message of `partition` that a read
/// which began in `s` yields.
pub open spec fn yields_last(s: ReaderView, trace: Seq<Observation>, partition: i32) -> bool {
    &&& trace.len() > 0
    &&& trace.last() matches Observation::Message { partition: p, offset }
    &&& p == partition
    &&& run(s, trace.drop_last()).decide(trace.last()) == Decision::Yield
}

/// The number of messages of `partition` that a read which began in `s`
/// yields over `trace`.
pub open spec fn yield_count(s: ReaderView, trace: Seq<Observation>, partition: i32) -> nat
    decreases trace.len(),
{
    if trace.len() == 0 {
        0
    } else {
        yield_count(s, trace.drop_last(), partition) + if yields_last(s, trace, partition) {
            1nat
        } else {
            0nat
        }
    }
}

/// The number of messages of `partition` that the polls of `trace` returned.
pub open spec fn delivered(trace: Seq<Observation>, partition: i32) -> nat
    decreases trace.len(),
{
    if trace.len() == 0 {
        0
    } else {
        delivered(trace.drop_last(), partition) + if (trace.last() matches Observation::Message {
            partition: p,
            offset,
        } && p == partition) {
            1nat
        } else {
            0nat
        }
    }
}

/// The messages that a read which began in `s` yields over `trace`, each by
/// its partition and offset, in the order in which they are yielded.
pub open spec fn yielded(s: ReaderView, trace: Seq<Observation>) -> Seq<(i32, i64)>
    decreases trace.len(),
{
    if trace.len() == 0 {
        Seq::empty()
    } else {
        let earlier = yielded(s, trace.drop_last());
        match trace.last() {
            Observation::Message { partition, offset } => if run(s, trace.drop_last()).decide(
                trace.last(),
            ) == Decision::Yield {
                earlier.push((partition, offset))
            } else {
                earlier
            },
            _ => earlier,
        }
    }
}

/// The test that picks the messages of one partition.
pub open spec fn of_partition(partition: i32) -> spec_fn((i32, i64)) -> bool {
    |m: (i32, i64)| m.0 == partition
}

/// The number of messages of a partition that a read yields is the number of
/// yielded messages that are of that partition.
pub proof fn lemma_yield_count_counts_yielded(s: ReaderView, trace: Seq<Observation>, partition: i32)
    ensures
        yield_count(s, trace, partition) == yielded(s, trace).filter(of_partition(partition)).len(),
    decreases trace.len(),
{
    if trace.len() == 0 {
        assert(yielded(s, trace).filter(of_partition(partition)) =~= Seq::<(i32, i64)>::empty())
            by {
            yielded(s, trace).lemma_filter_len(of_partition(partition));
        }
    } else {
        lemma_yield_count_counts_yielded(s, trace.drop_last(), partition);
        let earlier = yielded(s, trace.drop_last());
        if let Observation::Message { partition: p, offset } = trace.last() {
            earlier.lemma_filter_push((p, offset), of_partition(partition));
        }
    }
}

/// One step keeps a well-formed state well formed and never touches the
/// plan: the snapshot a read began with is the one it ends with.
pub proof fn lemma_next_keeps_plan(s: ReaderView, event: Observation)
    requires
        s.wf(),
    ensures
        s.next(event).wf(),
        s.next(event).plan == s.plan,
        forall|i: int| 0 <= i < s.cursors.len() ==> s.cursors[i] <= #[trigger] s.next(event).cursors[i],
{
    let t = s.next(event);
    if !s.phase.is_terminal() {
        if let Observation::Message { partition, offset } = event {
            assert forall|i: int| 0 <= i < t.cursors.len() implies t.plan.entries[i].target.start_offset
                <= #[trigger] t.cursors[i] <= t.plan.entries[i].watermark.high by {
                assert(s.plan.entries[i].target.start_offset <= s.cursors[i]);
            }
        }
    }
}

/// A whole run keeps a well-formed state well formed and never touches the
/// plan.
pub proof fn lemma_run_keeps_plan(s: ReaderView, trace: Seq<Observation>)
    requires
        s.wf(),
    ensures
        run(s, trace).wf(),
        run(s, trace).plan == s.plan,
    decreases trace.len(),
{
    if trace.len() > 0 {
        lemma_run_keeps_plan(s, trace.drop_last());
        lemma_next_keeps_plan(run(s, trace.drop_last()), trace.last());
    }
}

/// The state in which a read of a well-formed plan begins is well formed.
pub proof fn lemma_initial_wf(plan: PlanView)
    requires
        entries_wf(plan.entries),
    ensures
        initial(plan).wf(),
{
    assert forall|i: int| 0 <= i < initial(plan).cursors.len() implies plan.entries[i].target.start_offset
        <= #[trigger] initial(plan).cursors[i] <= plan.entries[i].watermark.high by {
        assert(plan.entries[i].valid());
    }
}

/// A read that has ended stays ended: no later event changes its state, and
/// nothing is yielded after its end.
pub proof fn lemma_ended_stays_ended(s: ReaderView, trace: Seq<Observation>, partition: i32)
    requires
        s.phase.is_terminal(),
    ensures
        run(s, trace) == s,
        yielded(s, trace).len() == 0,
        yield_count(s, trace, partition) == 0,
    decreases trace.len(),
{
    if trace.len() > 0 {
        lemma_ended_stays_ended(s, trace.drop_last(), partition);
    }
}

/// Whatever a read yields lies within the snapshot: a message that is
/// yielded belongs to a partition of the plan, and its offset lies at or
/// after the partition's start offset and before the recorded high
/// watermark. What was written after the snapshot is never handed out.
pub proof fn lemma_yielded_lies_in_snapshot(
    s: ReaderView,
    event: Observation,
    partition: i32,
    offset: i64,
) -> (i: int)
    requires
        s.wf(),
        event == (Observation::Message { partition, offset }),
        s.decide(event) == Decision::Yield,
    ensures
        0 <= i < s.plan.entries.len(),
        s.plan.entries[i].target.partition == partition,
        s.plan.entries[i].target.start_offset <= s.cursors[i] <= offset < s.plan.entries[i].watermark.high,
        s.next(event).cursors[i] == offset + 1,
{
    let i = choose|i: int|
        0 <= i < s.plan.entries.len() && in_window(
            #[trigger] s.plan.entries[i],
            s.cursors[i],
            partition,
            offset,
        );
    i
}

/// The messages that a read yields from one partition take the partition's
/// cursor forward, each by one offset at least: over any trace, their number
/// is at most the distance the cursor has moved.
pub proof fn lemma_yield_count_moves_cursor(s: ReaderView, trace: Seq<Observation>, i: int)
    requires
        s.wf(),
        0 <= i < s.plan.entries.len(),
    ensures
        s.cursors[i] + yield_count(s, trace, s.plan.entries[i].target.partition) <= run(
            s,
            trace,
        ).cursors[i] <= s.plan.entries[i].watermark.high,
    decreases trace.len(),
{
    lemma_run_keeps_plan(s, trace);
    if trace.len() > 0 {
        let before = run(s, trace.drop_last());
        let partition = s.plan.entries[i].target.partition;
        lemma_yield_count_moves_cursor(s, trace.drop_last(), i);
        lemma_run_keeps_plan(s, trace.drop_last());
        lemma_next_keeps_plan(before, trace.last());
        if yields_last(s, trace, partition) {
            let offset = trace.last()->Message_offset;
            let k = lemma_yielded_lies_in_snapshot(before, trace.last(), partition, offset);
            if k != i {
                assert(before.plan.entries[k].valid());
                assert(before.plan.entries[i].valid());
            }
        }
    }
}

/// A read yields, from each partition, no more messages than the partition
/// held between its start offset and its high watermark at the snapshot.
pub proof fn lemma_yield_count_within_window(plan: PlanView, trace: Seq<Observation>, i: int)
    requires
        entries_wf(plan.entries),
        0 <= i < plan.entries.len(),
    ensures
        yield_count(initial(plan), trace, plan.entries[i].target.partition)
            <= plan.entries[i].window(),
{
    lemma_initial_wf(plan);
    lemma_yield_count_moves_cursor(initial(plan), trace, i);
}

/// A cursor never moves back: after more events of the same trace it stands
/// where it stood, or further on.
pub proof fn lemma_cursor_never_moves_back(
    s: ReaderView,
    trace: Seq<Observation>,
    i: int,
    shorter: int,
    longer: int,
)
    requires
        s.wf(),
        0 <= i < s.plan.entries.len(),
        0 <= shorter <= longer <= trace.len(),
    ensures
        run(s, trace.take(shorter)).cursors[i] <= run(s, trace.take(longer)).cursors[i],
    decreases longer - shorter,
{
    if shorter < longer {
        lemma_cursor_never_moves_back(s, trace, i, shorter, longer - 1);
        assert(trace.take(longer).drop_last() == trace.take(longer - 1));
        lemma_run_keeps_plan(s, trace.take(longer - 1));
        lemma_next_keeps_plan(run(s, trace.take(longer - 1)), trace.take(longer).last());
    }
}

/// The messages that a read yields from one partition come with rising
/// offsets: no message is yielded twice, and none after a later one.
pub proof fn lemma_yielded_offsets_rise(
    s: ReaderView,
    trace: Seq<Observation>,
    first: int,
    second: int,
)
    requires
        s.wf(),
        0 <= first < second < trace.len(),
        trace[first] is Message,
        trace[second] is Message,
        trace[first]->Message_partition == trace[second]->Message_partition,
        run(s, trace.take(first)).decide(trace[first]) == Decision::Yield,
        run(s, trace.take(second)).decide(trace[second]) == Decision::Yield,
    ensures
        trace[first]->Message_offset < trace[second]->Message_offset,
{
    let partition = trace[first]->Message_partition;
    let before_first = run(s, trace.take(first));
    let before_second = run(s, trace.take(second));
    lemma_run_keeps_plan(s, trace.take(first));
    lemma_run_keeps_plan(s, trace.take(second));
    let i = lemma_yielded_lies_in_snapshot(
        before_first,
        trace[first],
        partition,
        trace[first]->Message_offset,
    );
    let k = lemma_yielded_lies_in_snapshot(
        before_second,
        trace[second],
        partition,
        trace[second]->Message_offset,
    );
    if k != i {
        assert(s.plan.entries[k].valid());
        assert(s.plan.entries[i].valid());
    }
    assert(trace.take(first + 1).drop_last() == trace.take(first));
    assert(trace.take(first + 1).last() == trace[first]);
    lemma_cursor_never_moves_back(s, trace, i, first + 1, second);
}

/// The windows of the first `k` entries, added up.
pub open spec fn window_sum(entries: Seq<PlanEntry>, k: int) -> int
    decreases k,
{
    if k <= 0 {
        0
    } else {
        window_sum(entries, k - 1) + entries[k - 1].window()
    }
}

/// The offsets that the first `k` cursors of `s` still have before them,
/// added up.
pub open spec fn offsets_ahead(s: ReaderView, k: int) -> int
    decreases k,
{
    if k <= 0 {
        0
    } else {
        offsets_ahead(s, k - 1) + (s.plan.entries[k - 1].watermark.high - s.cursors[k - 1])
    }
}

/// At the beginning of a read, every cursor has its whole window before it.
proof fn lemma_offsets_ahead_at_start(plan: PlanView, k: int)
    requires
        0 <= k <= plan.entries.len(),
    ensures
        offsets_ahead(initial(plan), k) == window_sum(plan.entries, k),
    decreases k,
{
    if k > 0 {
        lemma_offsets_ahead_at_start(plan, k - 1);
    }
}

/// No event adds to the offsets that lie ahead.
proof fn lemma_step_adds_no_offsets(s: ReaderView, event: Observation, k: int)
    requires
        s.wf(),
        0 <= k <= s.plan.entries.len(),
    ensures
        0 <= offsets_ahead(s.next(event), k) <= offsets_ahead(s, k),
    decreases k,
{
    lemma_next_keeps_plan(s, event);
    if k > 0 {
        lemma_step_adds_no_offsets(s, event, k - 1);
    }
}

/// A message that is yielded from the partition of entry `i` takes one offset
/// at least from those that lie ahead of the first `k` cursors, for `k` past
/// `i`.
proof fn lemma_yield_uses_up_one(s: ReaderView, event: Observation, k: int, i: int)
    requires
        s.wf(),
        0 <= i < k <= s.plan.entries.len(),
        !s.phase.is_terminal(),
        event is Message,
        in_window(
            s.plan.entries[i],
            s.cursors[i],
            event->Message_partition,
            event->Message_offset,
        ),
    ensures
        offsets_ahead(s.next(event), k) < offsets_ahead(s, k),
    decreases k,
{
    lemma_next_keeps_plan(s, event);
    lemma_step_adds_no_offsets(s, event, k - 1);
    if i < k - 1 {
        lemma_yield_uses_up_one(s, event, k - 1, i);
    }
}

/// A read is finite by its plan: in all, it yields no more messages than the
/// windows of its plan hold.
pub proof fn lemma_yielded_within_plan(plan: PlanView, trace: Seq<Observation>)
    requires
        entries_wf(plan.entries),
    ensures
        yielded(initial(plan), trace).len() <= window_sum(plan.entries, plan.entries.len() as int),
{
    lemma_initial_wf(plan);
    lemma_offsets_ahead_at_start(plan, plan.entries.len() as int);
    lemma_yielded_uses_up_offsets(initial(plan), trace);
}

/// What a read yields over a trace, it takes from the offsets that lay ahead
/// of its cursors when it began.
proof fn lemma_yielded_uses_up_offsets(s: ReaderView, trace: Seq<Observation>)
    requires
        s.wf(),
    ensures
        yielded(s, trace).len() + offsets_ahead(run(s, trace), s.plan.entries.len() as int)
            <= offsets_ahead(s, s.plan.entries.len() as int),
        0 <= offsets_ahead(run(s, trace), s.plan.entries.len() as int),
    decreases trace.len(),
{
    let n = s.plan.entries.len() as int;
    if trace.len() == 0 {
        lemma_step_adds_no_offsets(s, Observation::Failure, n);
    } else {
        let before = run(s, trace.drop_last());
        lemma_yielded_uses_up_offsets(s, trace.drop_last());
        lemma_run_keeps_plan(s, trace.drop_last());
        lemma_step_adds_no_offsets(before, trace.last(), n);
        if let Observation::Message { partition, offset } = trace.last() {
            if before.decide(trace.last()) == Decision::Yield {
                let i = lemma_yielded_lies_in_snapshot(before, trace.last(), partition, offset);
                lemma_yield_uses_up_one(before, trace.last(), n, i);
            }
        }
    }
}

/// A read yields nothing from a partition that its plan does not name.
pub proof fn lemma_unplanned_partition_yields_nothing(
    s: ReaderView,
    trace: Seq<Observation>,
    partition: i32,
)
    requires
        s.wf(),
        forall|i: int|
            0 <= i < s.plan.entries.len() ==> (#[trigger] s.plan.entries[i]).target.partition
                != partition,
    ensures
        yield_count(s, trace, partition) == 0,
    decreases trace.len(),
{
    if trace.len() > 0 {
        lemma_unplanned_partition_yields_nothing(s, trace.drop_last(), partition);
        lemma_run_keeps_plan(s, trace.drop_last());
        if yields_last(s, trace, partition) {
            let before = run(s, trace.drop_last());
            let offset = trace.last()->Message_offset;
            let k = lemma_yielded_lies_in_snapshot(before, trace.last(), partition, offset);
            assert(s.plan.entries[k].target.partition != partition);
        }
    }
}

/// Where every partition was empty at the snapshot, a read yields no message
/// at all, whatever the polls return, and the first empty poll ends it,
/// whatever positions are reported.
pub proof fn lemma_empty_topic_yields_nothing(
    plan: PlanView,
    trace: Seq<Observation>,
    partition: i32,
    reports: Seq<PartitionOffset>,
)
    requires
        entries_wf(plan.entries),
        forall|i: int|
            0 <= i < plan.entries.len() ==> (#[trigger] plan.entries[i]).watermark.low
                == plan.entries[i].watermark.high,
    ensures
        yielded(initial(plan), trace).len() == 0,
        yield_count(initial(plan), trace, partition) == 0,
        initial(plan).decide(Observation::Empty(reports)) == Decision::End,
        initial(plan).next(Observation::Empty(reports)).phase == Phase::Done,
    decreases trace.len(),
{
    lemma_initial_wf(plan);
    if trace.len() > 0 {
        lemma_empty_topic_yields_nothing(plan, trace.drop_last(), partition, reports);
        let before = run(initial(plan), trace.drop_last());
        lemma_run_keeps_plan(initial(plan), trace.drop_last());
        if let Observation::Message { partition: p, offset } = trace.last() {
            if before.decide(trace.last()) == Decision::Yield {
                let k = lemma_yielded_lies_in_snapshot(before, trace.last(), p, offset);
                assert(plan.entries[k].valid());
            }
        }
    }
    if exists|i: int|
        0 <= i < plan.entries.len() && (#[trigger] plan.entries[i]).target.partition == partition {
        let i = choose|i: int|
            0 <= i < plan.entries.len() && (#[trigger] plan.entries[i]).target.partition
                == partition;
        assert(plan.entries[i].valid());
        lemma_yield_count_within_window(plan, trace, i);
    } else {
        lemma_unplanned_partition_yields_nothing(initial(plan), trace, partition);
    }
    assert(caught_up(plan.entries, reports));
}

/// Every report for a partition of the plan names an offset at or past the
/// partition's recorded high watermark.
pub open spec fn positions_reached_high(entries: Seq<PlanEntry>, reports: Seq<PartitionOffset>) -> bool {
    forall|i: int, j: int|
        0 <= i < entries.len() && 0 <= j < reports.len() && (#[trigger] reports[j]).partition == (
        #[trigger] entries[i]).target.partition ==> (reports[j].offset matches Some(o) && o
            >= entries[i].watermark.high)
}

/// No partition holds a read back once its position has reached the recorded
/// high watermark: the empty poll after which every reported position has
/// done so ends the read.
pub proof fn lemma_read_ends_when_positions_reach_high(s: ReaderView, reports: Seq<PartitionOffset>)
    requires
        !s.phase.is_terminal(),
        positions_reached_high(s.plan.entries, reports),
    ensures
        s.decide(Observation::Empty(reports)) == Decision::End,
        s.next(Observation::Empty(reports)).phase == Phase::Done,
{
    assert forall|i: int| 0 <= i < s.plan.entries.len() implies partition_caught_up(
        #[trigger] s.plan.entries[i],
        reports,
    ) by {
        let entry = s.plan.entries[i];
        assert forall|j: int|
            0 <= j < reports.len() && (#[trigger] reports[j]).partition
                == entry.target.partition implies settled(reports[j].offset, entry.watermark.high) by {
            assert(reports[j].partition == s.plan.entries[i].target.partition);
        }
    }
}

/// A read leaves its plan as it found it, so the plan can be read again: a
/// second read of the plan, after a first one over any trace, yields over the
/// same polls the same messages in the same order, and ends in the same state.
pub proof fn lemma_read_is_repeatable(
    plan: PlanView,
    first: Seq<Observation>,
    trace: Seq<Observation>,
)
    requires
        entries_wf(plan.entries),
    ensures
        run(initial(plan), first).plan == plan,
        yielded(initial(run(initial(plan), first).plan), trace) == yielded(initial(plan), trace),
        run(initial(run(initial(plan), first).plan), trace) == run(initial(plan), trace),
{
    lemma_initial_wf(plan);
    lemma_run_keeps_plan(initial(plan), first);
}

} // verus!
