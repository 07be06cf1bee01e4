use vstd::math::min;
use vstd::prelude::*;
use crate::error::TailError;
use crate::mode::ReadMode;
use crate::offsets::{first_report, lookup_report, PartitionOffset, PartitionWatermark, Watermark};

verus! {

/// The offset at which the read of one partition starts.
#[derive(Clone, Copy, Debug, PartialEq, Eq, Structural)]
pub struct PartitionTarget {
    pub partition: i32,
    pub start_offset: i64,
}

/// What a plan records for one partition: the watermark snapshot and the
/// start offset computed from it.
#[derive(Clone, Copy, Debug, PartialEq, Eq, Structural)]
pub struct PlanEntry {
    pub watermark: Watermark,
    pub target: PartitionTarget,
}

impl PlanEntry {
    /// The start offset lies within the snapshot.
    pub open spec fn valid(self) -> bool {
        &&& self.watermark.valid()
        &&& self.watermark.low <= self.target.start_offset <= self.watermark.high
    }

    /// The number of offsets from the start offset up to the high watermark:
    /// what a complete read of an unbroken log yields for the partition.
    pub open spec fn window(self) -> int {
        self.watermark.high - self.target.start_offset
    }
}

/// The start offset of a partition with watermark `w`.
///
/// From the beginning it is `low`; for the last `count` messages it is
/// `high - min(high - low, count)`. In `Since` mode it is the offset that the
/// broker's lookup of offsets by time reported for the partition, which is
/// `resolved` and is read in this mode only. A partition without a message at
/// or after the instant has nothing to read and starts at `high`: the lookup
/// then reports nothing, a negative number, or an offset that the snapshot
/// does not reach. An offset below `low` is moved up to `low`.
pub open spec fn start_offset(w: Watermark, mode: ReadMode, resolved: Option<i64>) -> int {
    match mode {
        ReadMode::FromBeginning => w.low as int,
        ReadMode::LastN(count) => w.high - min(w.span(), count as int),
        ReadMode::Since(_) => match resolved {
            Some(offset) => if offset < 0 || offset > w.high {
                w.high as int
            } else if offset < w.low {
                w.low as int
            } else {
                offset as int
            },
            None => w.high as int,
        },
    }
}

/// Computes the start offset of one partition.
pub fn compute_start(w: Watermark, mode: ReadMode, resolved: Option<i64>) -> (start: i64)
    requires
        w.valid(),
    ensures
        start == start_offset(w, mode, resolved),
        w.low <= start <= w.high,
{
    match mode {
        ReadMode::FromBeginning => w.low,
        ReadMode::LastN(count) => {
            let span: i64 = w.high - w.low;
            if count >= span as u64 {
                w.low
            } else {
                w.high - (count as i64)
            }
        },
        ReadMode::Since(_) => match resolved {
            Some(offset) => if offset < 0 || offset > w.high {
                w.high
            } else if offset < w.low {
                w.low
            } else {
                offset
            },
            None => w.high,
        },
    }
}

/// A snapshot can be planned from when it names at least one partition, every
/// watermark in it is valid, and no partition is named twice.
pub open spec fn snapshot_ok(partitions: Seq<PartitionWatermark>) -> bool {
    &&& partitions.len() > 0
    &&& forall|i: int| 0 <= i < partitions.len() ==> (#[trigger] partitions[i]).watermark.valid()
    &&& forall|i: int, j: int|
        0 <= i < j < partitions.len() ==> (#[trigger] partitions[i]).partition != (
        #[trigger] partitions[j]).partition
}

/// Decides whether a snapshot can be planned from.
pub fn snapshot_usable(partitions: &Vec<PartitionWatermark>) -> (ok: bool)
    ensures
        ok == snapshot_ok(partitions@),
{
    if partitions.len() == 0 {
        return false;
    }
    let mut i: usize = 0;
    while i < partitions.len()
        invariant
            i <= partitions.len(),
            forall|k: int| 0 <= k < i ==> (#[trigger] partitions@[k]).watermark.valid(),
            forall|k: int, l: int|
                0 <= k < l < i ==> (#[trigger] partitions@[k]).partition != (
                #[trigger] partitions@[l]).partition,
        decreases partitions.len() - i,
    {
        if !partitions[i].watermark.is_valid() {
            return false;
        }
        let mut j: usize = 0;
        while j < i
            invariant
                j <= i < partitions.len(),
                forall|k: int|
                    0 <= k < j ==> (#[trigger] partitions@[k]).partition
                        != partitions@[i as int].partition,
            decreases i - j,
        {
            if partitions[j].partition == partitions[i].partition {
                return false;
            }
            j += 1;
        }
        i += 1;
    }
    true
}

/// The entry planned for one partition of the snapshot.
pub open spec fn planned_entry(
    p: PartitionWatermark,
    mode: ReadMode,
    resolved: Seq<PartitionOffset>,
) -> PlanEntry {
    PlanEntry {
        watermark: p.watermark,
        target: PartitionTarget {
            partition: p.partition,
            start_offset: start_offset(p.watermark, mode, first_report(resolved, p.partition)) as i64,
        },
    }
}

/// The entries planned for a snapshot: one for each partition, in the order of
/// the snapshot.
pub open spec fn planned_entries(
    partitions: Seq<PartitionWatermark>,
    mode: ReadMode,
    resolved: Seq<PartitionOffset>,
) -> Seq<PlanEntry> {
    Seq::new(partitions.len(), |i: int| planned_entry(partitions[i], mode, resolved))
}

/// What makes a sequence of entries a plan: it is not empty, every start
/// offset lies within its watermark, and every partition has one entry only.
pub open spec fn entries_wf(entries: Seq<PlanEntry>) -> bool {
    &&& entries.len() > 0
    &&& forall|i: int| 0 <= i < entries.len() ==> (#[trigger] entries[i]).valid()
    &&& forall|i: int, j: int|
        0 <= i < j < entries.len() ==> (#[trigger] entries[i]).target.partition != (
        #[trigger] entries[j]).target.partition
}

/// The mathematical content of a [`ReadPlan`].
pub struct PlanView {
    pub topic: Seq<char>,
    pub entries: Seq<PlanEntry>,
}

/// The start offsets of one read, for every partition of one topic. A plan is
/// built once per read and never changes afterwards.
#[derive(Debug)]
pub struct ReadPlan {
    topic: String,
    entries: Vec<PlanEntry>,
}

impl View for ReadPlan {
    type V = PlanView;

    closed spec fn view(&self) -> PlanView {
        PlanView { topic: self.topic@, entries: self.entries@ }
    }
}

impl ReadPlan {
    /// Holds of every plan: see [`entries_wf`].
    #[verifier::type_invariant]
    pub open spec fn well_formed(&self) -> bool {
        entries_wf(self@.entries)
    }

    /// The topic the plan was made for.
    pub fn topic(&self) -> (topic: &str)
        ensures
            topic@ == self@.topic,
    {
        self.topic.as_str()
    }

    /// The number of partitions, which is never zero.
    pub fn len(&self) -> (n: usize)
        ensures
            n == self@.entries.len(),
            n > 0,
    {
        proof {
            use_type_invariant(self);
        }
        self.entries.len()
    }

    /// The entry of `partition`, if the plan names the partition.
    pub fn lookup(&self, partition: i32) -> (entry: Option<PlanEntry>)
        ensures
            match entry {
                Some(e) => e.target.partition == partition && self@.entries.contains(e),
                None => forall|i: int|
                    0 <= i < self@.entries.len() ==> (#[trigger] self@.entries[i]).target.partition
                        != partition,
            },
    {
        let mut i: usize = 0;
        while i < self.entries.len()
            invariant
                i <= self.entries.len(),
                forall|k: int|
                    0 <= k < i ==> (#[trigger] self.entries@[k]).target.partition != partition,
            decreases self.entries.len() - i,
        {
            if self.entries[i].target.partition == partition {
                return Some(self.entries[i]);
            }
            i += 1;
        }
        None
    }

    /// The number of offsets between the start offset and the high
    /// watermark of the entry at position `index`.
    pub fn window(&self, index: usize) -> (size: Option<u64>)
        ensures
            match size {
                Some(n) => index < self@.entries.len() && n == self@.entries[index as int].window(),
                None => index >= self@.entries.len(),
            },
    {
        proof {
            use_type_invariant(self);
        }
        if index < self.entries.len() {
            let entry = self.entries[index];
            assert(entry.valid());
            Some((entry.watermark.high - entry.target.start_offset) as u64)
        } else {
            None
        }
    }

    /// The entry at position `index`, in the order of the snapshot.
    pub fn entry(&self, index: usize) -> (entry: Option<PlanEntry>)
        ensures
            entry == if index < self@.entries.len() {
                Some(self@.entries[index as int])
            } else {
                None
            },
            entry is Some ==> entry.unwrap().valid(),
    {
        proof {
            use_type_invariant(self);
        }
        if index < self.entries.len() {
            Some(self.entries[index])
        } else {
            None
        }
    }
}

impl Clone for ReadPlan {
    fn clone(&self) -> (copy: ReadPlan)
        ensures
            copy@ == self@,
    {
        proof {
            use_type_invariant(self);
        }
        let mut entries: Vec<PlanEntry> = Vec::new();
        let mut i: usize = 0;
        while i < self.entries.len()
            invariant
                i <= self.entries.len(),
                entries@ == self.entries@.take(i as int),
            decreases self.entries.len() - i,
        {
            entries.push(self.entries[i]);
            assert(entries@ =~= self.entries@.take(i + 1));
            i += 1;
        }
        assert(self.entries@.take(self.entries@.len() as int) =~= self.entries@);
        ReadPlan { topic: self.topic.clone(), entries }
    }
}

/// Planned entries are well formed whenever the snapshot is usable: every
/// partition of the snapshot has exactly one entry, at the same position, and
/// every start offset lies within `[low, high]`.
pub proof fn lemma_planned_entries_wf(
    partitions: Seq<PartitionWatermark>,
    mode: ReadMode,
    resolved: Seq<PartitionOffset>,
)
    requires
        snapshot_ok(partitions),
    ensures
        entries_wf(planned_entries(partitions, mode, resolved)),
        planned_entries(partitions, mode, resolved).len() == partitions.len(),
        forall|i: int|
            0 <= i < partitions.len() ==> {
                let entry = #[trigger] planned_entries(partitions, mode, resolved)[i];
                &&& entry.target.partition == partitions[i].partition
                &&& entry.watermark == partitions[i].watermark
                &&& entry.watermark.low <= entry.target.start_offset <= entry.watermark.high
            },
{
    let entries = planned_entries(partitions, mode, resolved);
    assert forall|i: int| 0 <= i < entries.len() implies (#[trigger] entries[i]).valid() by {
        assert(partitions[i].watermark.valid());
    }
    assert forall|i: int, j: int| 0 <= i < j < entries.len() implies (#[trigger] entries[i]).target.partition
        != (#[trigger] entries[j]).target.partition by {
        assert(partitions[i].partition != partitions[j].partition);
    }
}

/// The window that each mode plans for a partition: from the beginning it is
/// the whole retained log, `high - low`; for the last `count` messages it is
/// `min(high - low, count)`, and so never more than `count`; since an instant
/// for which the lookup reports no offset of the partition, the start offset
/// is `high` and the window is empty; and a partition that is empty has an
/// empty window in every mode.
pub proof fn lemma_planned_window(
    p: PartitionWatermark,
    mode: ReadMode,
    resolved: Seq<PartitionOffset>,
)
    requires
        p.watermark.valid(),
    ensures
        0 <= planned_entry(p, mode, resolved).window() <= p.watermark.span(),
        mode is FromBeginning ==> planned_entry(p, mode, resolved).window() == p.watermark.high
            - p.watermark.low,
        mode matches ReadMode::LastN(count) ==> planned_entry(p, mode, resolved).window() == min(
            p.watermark.high - p.watermark.low,
            count as int,
        ) && planned_entry(p, mode, resolved).window() <= count,
        mode is Since && first_report(resolved, p.partition) is None ==> planned_entry(
            p,
            mode,
            resolved,
        ).target.start_offset == p.watermark.high && planned_entry(p, mode, resolved).window() == 0,
        p.watermark.low == p.watermark.high ==> planned_entry(p, mode, resolved).window() == 0,
{
}

/// Plans a read of `topic` from the watermark snapshot `partitions`.
///
/// `resolved` is what the broker's lookup of offsets by time reported, and is
/// read in `Since` mode only. The plan fails if, and only if, the snapshot is
/// not usable.
pub fn plan(
    topic: &str,
    partitions: &Vec<PartitionWatermark>,
    mode: ReadMode,
    resolved: &Vec<PartitionOffset>,
) -> (planned: Result<ReadPlan, TailError>)
    ensures
        match planned {
            Ok(p) => {
                &&& snapshot_ok(partitions@)
                &&& p@.topic == topic@
                &&& p@.entries == planned_entries(partitions@, mode, resolved@)
            },
            Err(e) => e == TailError::Metadata && !snapshot_ok(partitions@),
        },
{
    if !snapshot_usable(partitions) {
        return Err(TailError::Metadata);
    }
    let mut entries: Vec<PlanEntry> = Vec::new();
    let mut i: usize = 0;
    while i < partitions.len()
        invariant
            i <= partitions.len(),
            snapshot_ok(partitions@),
            entries@.len() == i,
            forall|k: int|
                0 <= k < i ==> entries@[k] == planned_entry(partitions@[k], mode, resolved@),
        decreases partitions.len() - i,
    {
        let p = partitions[i];
        let found = lookup_report(resolved, p.partition);
        let start = compute_start(p.watermark, mode, found);
        entries.push(
            PlanEntry {
                watermark: p.watermark,
                target: PartitionTarget { partition: p.partition, start_offset: start },
            },
        );
        i += 1;
    }
    proof {
        assert(entries@ =~= planned_entries(partitions@, mode, resolved@));
        lemma_planned_entries_wf(partitions@, mode, resolved@);
    }
    Ok(ReadPlan { topic: topic.to_owned(), entries })
}

} // verus!
