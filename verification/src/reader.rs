use rdkafka::TopicPartitionList;
use vstd::prelude::*;
use crate::assignment::{list_entries, offsets_for_topic, reports_for};
use crate::error::TailError;
use crate::offsets::{PartitionOffset, INVALID_TOPIC_OFFSET};
use crate::planner::{entries_wf, PlanEntry, PlanView, ReadPlan};

verus! {

/// The timeout, in milliseconds, of the first poll after a message was
/// handed out or the read began.
pub const LONG_POLL_MS: u64 = 150;

/// The timeout, in milliseconds, of a poll that follows an empty poll.
pub const SHORT_POLL_MS: u64 = 15;

/// A record of a partition's log. The reader hands it on as it came.
#[derive(Debug, PartialEq, Eq)]
pub struct Message {
    pub key: Vec<u8>,
    pub value: Vec<u8>,
    pub partition: i32,
    pub offset: i64,
}

/// Where a read stands between two polls.
#[derive(Clone, Copy, Debug, PartialEq, Eq, Structural)]
pub enum Phase {
    /// The next poll is the first after the read began or a message came.
    Idle,
    /// The last poll came back empty and some partition has not caught up.
    Retrying,
    /// Every partition has caught up with its snapshot. Nothing is polled any more.
    Done,
    /// A poll failed. Nothing is polled any more.
    Failed,
}

impl Phase {
    /// A read in a terminal phase polls no more and yields no more.
    pub open spec fn is_terminal(self) -> bool {
        self is Done || self is Failed
    }
}

/// What one poll of the broker client came back with.
#[derive(Debug, PartialEq, Eq)]
pub enum PollEvent {
    /// The poll returned a message.
    Message(Message),
    /// The poll returned nothing within its timeout. The event carries the
    /// positions that the client reports for the topic after that poll.
    Empty(Vec<PartitionOffset>),
    /// The poll failed, or what it returned could not be decoded.
    Failure,
}

/// What the reader's decisions depend on in a [`PollEvent`].
pub enum Observation {
    /// A message came, from this partition and at this offset.
    Message { partition: i32, offset: i64 },
    /// Nothing came, and the client reports these positions.
    Empty(Seq<PartitionOffset>),
    /// The poll failed.
    Failure,
}

impl View for PollEvent {
    type V = Observation;

    open spec fn view(&self) -> Observation {
        match *self {
            PollEvent::Message(m) => Observation::Message {
                partition: m.partition,
                offset: m.offset,
            },
            PollEvent::Empty(reports) => Observation::Empty(reports@),
            PollEvent::Failure => Observation::Failure,
        }
    }
}

/// What the caller does after an event.
#[derive(Debug, PartialEq, Eq)]
pub enum Step {
    /// Hand this message to the consumer of the read, then poll again.
    Yield(Message),
    /// Poll again.
    Continue,
    /// The read is complete.
    End,
    /// The read is aborted. What was yielded before stays yielded.
    Abort(TailError),
}

/// The kind of a [`Step`].
#[derive(Clone, Copy, Debug, PartialEq, Eq, Structural)]
pub enum Decision {
    /// The message of the event is yielded.
    Yield,
    /// Nothing is yielded, and the read goes on.
    Continue,
    /// The read is complete.
    End,
    /// The read is aborted.
    Abort,
}

/// A reported position settles a partition when it is the invalid offset,
/// which stands for a partition without a concrete position, or has reached
/// the recorded high watermark.
pub open spec fn settled(offset: Option<i64>, high: i64) -> bool {
    match offset {
        Some(o) => o == INVALID_TOPIC_OFFSET || o >= high,
        None => false,
    }
}

/// A partition has caught up when it was empty at the snapshot, or every
/// position reported for it settles it.
pub open spec fn partition_caught_up(entry: PlanEntry, reports: Seq<PartitionOffset>) -> bool {
    entry.watermark.low == entry.watermark.high || forall|j: int|
        0 <= j < reports.len() && (#[trigger] reports[j]).partition == entry.target.partition
            ==> settled(reports[j].offset, entry.watermark.high)
}

/// A read has caught up when every partition of its plan has.
pub open spec fn caught_up(entries: Seq<PlanEntry>, reports: Seq<PartitionOffset>) -> bool {
    forall|i: int| 0 <= i < entries.len() ==> partition_caught_up(#[trigger] entries[i], reports)
}

/// Decides whether a reported position settles a partition.
pub fn is_settled(offset: Option<i64>, high: i64) -> (yes: bool)
    ensures
        yes == settled(offset, high),
{
    match offset {
        Some(o) => o == INVALID_TOPIC_OFFSET || o >= high,
        None => false,
    }
}

/// Decides whether one partition has caught up.
pub fn has_partition_caught_up(entry: &PlanEntry, reports: &Vec<PartitionOffset>) -> (yes: bool)
    ensures
        yes == partition_caught_up(*entry, reports@),
{
    if entry.watermark.is_empty() {
        return true;
    }
    let mut j: usize = 0;
    while j < reports.len()
        invariant
            j <= reports.len(),
            entry.watermark.low != entry.watermark.high,
            forall|k: int|
                0 <= k < j && (#[trigger] reports@[k]).partition == entry.target.partition
                    ==> settled(reports@[k].offset, entry.watermark.high),
        decreases reports.len() - j,
    {
        if reports[j].partition == entry.target.partition && !is_settled(
            reports[j].offset,
            entry.watermark.high,
        ) {
            return false;
        }
        j += 1;
    }
    true
}

/// Decides whether every partition of `plan` has caught up.
pub fn has_caught_up(plan: &ReadPlan, reports: &Vec<PartitionOffset>) -> (yes: bool)
    ensures
        yes == caught_up(plan@.entries, reports@),
{
    let n = plan.len();
    let mut i: usize = 0;
    while i < n
        invariant
            i <= n,
            n == plan@.entries.len(),
            forall|k: int|
                0 <= k < i ==> partition_caught_up(#[trigger] plan@.entries[k], reports@),
        decreases n - i,
    {
        let entry = plan.entry(i).unwrap();
        if !has_partition_caught_up(&entry, reports) {
            return false;
        }
        i += 1;
    }
    true
}

/// The mathematical content of a [`TailReader`]: the plan, for each entry of
/// the plan the next offset that the reader takes from that partition, and
/// the phase.
pub struct ReaderView {
    pub plan: PlanView,
    pub cursors: Seq<i64>,
    pub phase: Phase,
}

/// The message at `offset` of `partition` belongs to `entry` and is one the
/// reader has not passed yet: it lies at or after the cursor, and before the
/// recorded high watermark.
pub open spec fn in_window(entry: PlanEntry, cursor: i64, partition: i32, offset: i64) -> bool {
    entry.target.partition == partition && cursor <= offset < entry.watermark.high
}

impl ReaderView {
    /// Every partition has a cursor, between its start offset and its high
    /// watermark.
    pub open spec fn wf(self) -> bool {
        &&& entries_wf(self.plan.entries)
        &&& self.cursors.len() == self.plan.entries.len()
        &&& forall|i: int|
            0 <= i < self.cursors.len() ==> self.plan.entries[i].target.start_offset
                <= #[trigger] self.cursors[i] <= self.plan.entries[i].watermark.high
    }

    /// The reader takes the message: some partition of the plan has it in
    /// its window.
    pub open spec fn accepts(self, partition: i32, offset: i64) -> bool {
        exists|i: int|
            0 <= i < self.plan.entries.len() && in_window(
                #[trigger] self.plan.entries[i],
                self.cursors[i],
                partition,
                offset,
            )
    }

    /// The cursors after a message: the cursor of the partition that takes
    /// the message moves past it, the others stay.
    pub open spec fn advanced(self, partition: i32, offset: i64) -> Seq<i64> {
        Seq::new(
            self.cursors.len(),
            |i: int|
                if in_window(self.plan.entries[i], self.cursors[i], partition, offset) {
                    (offset + 1) as i64
                } else {
                    self.cursors[i]
                },
        )
    }

    /// The state after an event. A terminal state stays as it is.
    pub open spec fn next(self, event: Observation) -> ReaderView {
        if self.phase.is_terminal() {
            self
        } else {
            match event {
                Observation::Message { partition, offset } => ReaderView {
                    cursors: self.advanced(partition, offset),
                    phase: Phase::Idle,
                    ..self
                },
                Observation::Empty(reports) => ReaderView {
                    phase: if caught_up(self.plan.entries, reports) {
                        Phase::Done
                    } else {
                        Phase::Retrying
                    },
                    ..self
                },
                Observation::Failure => ReaderView { phase: Phase::Failed, ..self },
            }
        }
    }

    /// What the reader tells its caller after an event.
    pub open spec fn decide(self, event: Observation) -> Decision {
        match self.phase {
            Phase::Done => Decision::End,
            Phase::Failed => Decision::Abort,
            _ => match event {
                Observation::Message { partition, offset } => if self.accepts(partition, offset) {
                    Decision::Yield
                } else {
                    Decision::Continue
                },
                Observation::Empty(reports) => if caught_up(self.plan.entries, reports) {
                    Decision::End
                } else {
                    Decision::Continue
                },
                Observation::Failure => Decision::Abort,
            },
        }
    }
}

/// The state in which a read of `plan` begins: every cursor at its start
/// offset, no poll made yet.
pub open spec fn initial(plan: PlanView) -> ReaderView {
    ReaderView {
        plan,
        cursors: Seq::new(plan.entries.len(), |i: int| plan.entries[i].target.start_offset),
        phase: Phase::Idle,
    }
}

impl Step {
    /// The kind of this step.
    pub open spec fn decision(self) -> Decision {
        match self {
            Step::Yield(_) => Decision::Yield,
            Step::Continue => Decision::Continue,
            Step::End => Decision::End,
            Step::Abort(_) => Decision::Abort,
        }
    }
}

/// The bounded tail reader: the decisions of one read, from its first poll
/// to its end. The caller performs the polls and hands in what they return.
#[derive(Debug)]
pub struct TailReader {
    plan: ReadPlan,
    cursors: Vec<i64>,
    phase: Phase,
}

impl View for TailReader {
    type V = ReaderView;

    closed spec fn view(&self) -> ReaderView {
        ReaderView { plan: self.plan@, cursors: self.cursors@, phase: self.phase }
    }
}

impl TailReader {
    /// Holds of every reader: see [`ReaderView::wf`].
    #[verifier::type_invariant]
    pub open spec fn well_formed(&self) -> bool {
        self@.wf()
    }

    /// Begins a read of `plan`. The plan is meant to have been applied to the
    /// broker client before the first poll is made.
    pub fn new(plan: ReadPlan) -> (reader: TailReader)
        ensures
            reader@ == initial(plan@),
    {
        proof {
            use_type_invariant(&plan);
        }
        let n = plan.len();
        let mut cursors: Vec<i64> = Vec::new();
        let mut i: usize = 0;
        while i < n
            invariant
                i <= n,
                n == plan@.entries.len(),
                cursors@.len() == i,
                forall|k: int| 0 <= k < i ==> cursors@[k] == plan@.entries[k].target.start_offset,
            decreases n - i,
        {
            let entry = plan.entry(i).unwrap();
            cursors.push(entry.target.start_offset);
            i += 1;
        }
        proof {
            assert(cursors@ =~= initial(plan@).cursors);
            assert forall|k: int| 0 <= k < cursors@.len() implies plan@.entries[k].target.start_offset
                <= #[trigger] cursors@[k] <= plan@.entries[k].watermark.high by {
                assert(plan@.entries[k].valid());
            }
        }
        TailReader { plan, cursors, phase: Phase::Idle }
    }

    /// The plan of the read. It is the one the read began with.
    pub fn plan(&self) -> (plan: &ReadPlan)
        ensures
            plan@ == self@.plan,
    {
        &self.plan
    }

    /// The phase of the read.
    pub fn phase(&self) -> (phase: Phase)
        ensures
            phase == self@.phase,
    {
        self.phase
    }

    /// Whether the read has ended, completely or by a failure.
    pub fn is_finished(&self) -> (finished: bool)
        ensures
            finished == self@.phase.is_terminal(),
    {
        match self.phase {
            Phase::Done | Phase::Failed => true,
            _ => false,
        }
    }

    /// The timeout of the next poll, in milliseconds: long for the first
    /// poll after an idle period, short for a retry after an empty poll, and
    /// none once the read has ended.
    pub fn poll_timeout_ms(&self) -> (timeout: Option<u64>)
        ensures
            timeout == match self@.phase {
                Phase::Idle => Some(LONG_POLL_MS),
                Phase::Retrying => Some(SHORT_POLL_MS),
                Phase::Done | Phase::Failed => None,
            },
    {
        match self.phase {
            Phase::Idle => Some(LONG_POLL_MS),
            Phase::Retrying => Some(SHORT_POLL_MS),
            Phase::Done | Phase::Failed => None,
        }
    }

    /// Whether some partition has yet to catch up, going by the positions
    /// that the client's assignment reports.
    pub fn has_more(&self, position: &TopicPartitionList) -> (more: bool)
        ensures
            more == !caught_up(
                self@.plan.entries,
                reports_for(list_entries(*position), self@.plan.topic),
            ),
    {
        let reports = offsets_for_topic(position, self.plan.topic());
        !has_caught_up(&self.plan, &reports)
    }

    /// Takes the message at `offset` of `partition` if it lies in the window
    /// of its partition, and moves the partition's cursor past it.
    fn take(&mut self, partition: i32, offset: i64) -> (taken: bool)
        requires
            !old(self)@.phase.is_terminal(),
        ensures
            taken == old(self)@.accepts(partition, offset),
            final(self)@ == old(self)@.next(Observation::Message { partition, offset }),
    {
        proof {
            use_type_invariant(&*self);
        }
        let n = self.plan.len();
        let mut cursors: Vec<i64> = Vec::new();
        let mut taken = false;
        let mut i: usize = 0;
        while i < n
            invariant
                i <= n,
                n == self@.plan.entries.len(),
                self@ == old(self)@,
                self@.wf(),
                cursors@ == self@.advanced(partition, offset).take(i as int),
                taken == exists|k: int|
                    0 <= k < i && in_window(
                        #[trigger] self@.plan.entries[k],
                        self@.cursors[k],
                        partition,
                        offset,
                    ),
            decreases n - i,
        {
            let entry = self.plan.entry(i).unwrap();
            let cursor = self.cursors[i];
            if entry.target.partition == partition && cursor <= offset && offset
                < entry.watermark.high {
                cursors.push(offset + 1);
                taken = true;
            } else {
                cursors.push(cursor);
            }
            assert(cursors@ =~= self@.advanced(partition, offset).take(i + 1));
            i += 1;
        }
        proof {
            let before = old(self)@;
            assert(cursors@ =~= before.advanced(partition, offset));
            assert forall|k: int| 0 <= k < cursors@.len() implies before.plan.entries[k].target.start_offset
                <= #[trigger] cursors@[k] <= before.plan.entries[k].watermark.high by {
                assert(before.plan.entries[k].target.start_offset <= before.cursors[k]);
            }
        }
        self.cursors = cursors;
        self.phase = Phase::Idle;
        taken
    }

    /// Takes in what a poll came back with, and says what to do next.
    ///
    /// A message is yielded, unchanged, if it lies in the window of its
    /// partition; anything else that a poll returns is passed over. After an
    /// empty poll the read ends if every partition has caught up. A failure
    /// aborts the read. Once ended, a read stays ended.
    pub fn step(&mut self, event: PollEvent) -> (step: Step)
        ensures
            final(self)@ == old(self)@.next(event@),
            step.decision() == old(self)@.decide(event@),
            step matches Step::Yield(m) ==> event == PollEvent::Message(m),
            step matches Step::Abort(e) ==> e == TailError::Read,
    {
        proof {
            use_type_invariant(&*self);
        }
        match self.phase {
            Phase::Done => {
                return Step::End;
            },
            Phase::Failed => {
                return Step::Abort(TailError::Read);
            },
            _ => {},
        }
        match event {
            PollEvent::Message(m) => {
                if self.take(m.partition, m.offset) {
                    Step::Yield(m)
                } else {
                    Step::Continue
                }
            },
            PollEvent::Empty(reports) => {
                if has_caught_up(&self.plan, &reports) {
                    self.phase = Phase::Done;
                    Step::End
                } else {
                    self.phase = Phase::Retrying;
                    Step::Continue
                }
            },
            PollEvent::Failure => {
                self.phase = Phase::Failed;
                Step::Abort(TailError::Read)
            },
        }
    }

    /// Takes in an empty poll, with the positions that the client's
    /// assignment reports after it.
    pub fn on_empty_poll(&mut self, position: &TopicPartitionList) -> (step: Step)
        ensures
            final(self)@ == old(self)@.next(
                Observation::Empty(reports_for(list_entries(*position), old(self)@.plan.topic)),
            ),
            step.decision() == old(self)@.decide(
                Observation::Empty(reports_for(list_entries(*position), old(self)@.plan.topic)),
            ),
            step matches Step::Abort(e) ==> e == TailError::Read,
    {
        let reports = offsets_for_topic(position, self.plan.topic());
        self.step(PollEvent::Empty(reports))
    }
}

} // verus!
