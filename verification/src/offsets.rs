use vstd::prelude::*;

verus! {

/// The offset a broker client reports for a partition that has no concrete
/// position yet.
pub const INVALID_TOPIC_OFFSET: i64 = -1001;

/// The bounds of one partition's retained log at the moment a read starts:
/// `low` is the oldest retained offset, `high` is one past the newest.
#[derive(Clone, Copy, Debug, PartialEq, Eq, Structural)]
pub struct Watermark {
    pub low: i64,
    pub high: i64,
}

impl Watermark {
    /// Offsets are never negative and the log never ends before it starts.
    pub open spec fn valid(self) -> bool {
        0 <= self.low <= self.high
    }

    /// The number of offsets between the two bounds.
    pub open spec fn span(self) -> int {
        self.high - self.low
    }

    /// Decides whether the watermark is valid.
    pub fn is_valid(&self) -> (ok: bool)
        ensures
            ok == self.valid(),
    {
        0 <= self.low && self.low <= self.high
    }

    /// A partition without data has both bounds at the same offset.
    pub fn is_empty(&self) -> (empty: bool)
        ensures
            empty == (self.low == self.high),
    {
        self.low == self.high
    }
}

/// The watermark fetched for one partition of the topic.
#[derive(Clone, Copy, Debug, PartialEq, Eq, Structural)]
pub struct PartitionWatermark {
    pub partition: i32,
    pub watermark: Watermark,
}

/// An offset that a broker list reports for one partition. `offset` is the raw
/// number the client uses, or `None` where the list holds a number that stands
/// for no offset at all.
#[derive(Clone, Copy, Debug, PartialEq, Eq)]
pub struct PartitionOffset {
    pub partition: i32,
    pub offset: Option<i64>,
}

/// The index of the first report for `partition`, or the length of `reports`
/// where there is none.
pub open spec fn first_report_index(reports: Seq<PartitionOffset>, partition: i32) -> int
    decreases reports.len(),
{
    if reports.len() == 0 {
        0
    } else if reports[0].partition == partition {
        0
    } else {
        1 + first_report_index(reports.skip(1), partition)
    }
}

/// What the first report for `partition` says, if there is a report and it
/// holds a number.
pub open spec fn first_report(reports: Seq<PartitionOffset>, partition: i32) -> Option<i64> {
    let i = first_report_index(reports, partition);
    if i < reports.len() {
        reports[i].offset
    } else {
        None
    }
}

/// The first report for a partition is at an index within the list exactly
/// when some report names the partition, and no earlier report names it.
pub proof fn lemma_first_report_index(reports: Seq<PartitionOffset>, partition: i32)
    ensures
        0 <= first_report_index(reports, partition) <= reports.len(),
        first_report_index(reports, partition) < reports.len() ==> reports[first_report_index(
            reports,
            partition,
        )].partition == partition,
        forall|j: int|
            0 <= j < first_report_index(reports, partition) ==> reports[j].partition != partition,
    decreases reports.len(),
{
    if reports.len() > 0 && reports[0].partition != partition {
        let rest = reports.skip(1);
        lemma_first_report_index(rest, partition);
        assert forall|j: int| 0 <= j < first_report_index(reports, partition) implies reports[j].partition
            != partition by {
            if j > 0 {
                assert(rest[j - 1] == reports[j]);
            }
        }
    }
}

/// Looks up what a broker list reports for `partition`.
pub fn lookup_report(reports: &Vec<PartitionOffset>, partition: i32) -> (found: Option<i64>)
    ensures
        found == first_report(reports@, partition),
{
    let mut i: usize = 0;
    while i < reports.len()
        invariant
            i <= reports.len(),
            forall|j: int| 0 <= j < i ==> reports@[j].partition != partition,
        decreases reports.len() - i,
    {
        if reports[i].partition == partition {
            proof {
                lemma_first_report_index(reports@, partition);
            }
            return reports[i].offset;
        }
        i += 1;
    }
    proof {
        lemma_first_report_index(reports@, partition);
    }
    None
}

} // verus!
