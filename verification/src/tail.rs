use rdkafka::TopicPartitionList;
use vstd::prelude::*;
use crate::assignment::{
    assigned_entries, assignment, list_entries, offsets_for_topic, plain_topic, reports_for,
};
use crate::error::TailError;
use crate::mode::ReadMode;
use crate::offsets::{PartitionOffset, PartitionWatermark};
use crate::planner::{plan, planned_entries, snapshot_ok, PlanView};
use crate::reader::{initial, TailReader};

verus! {

/// What the broker's lookup of offsets by time reported for `topic`; nothing
/// where no lookup was made.
pub open spec fn lookup_reports(lookup: Option<&TopicPartitionList>, topic: Seq<char>) -> Seq<
    PartitionOffset,
> {
    match lookup {
        Some(list) => reports_for(list_entries(*list), topic),
        None => Seq::empty(),
    }
}

/// Sets up a bounded read of `topic`: plans it from the watermark snapshot
/// `partitions`, and returns the assignment that applies the plan together
/// with the reader that decides the read once the assignment has been applied.
///
/// `lookup` is the broker's answer to [`timestamp_query`], which a read in
/// `Since` mode asks for first.
///
/// An unusable snapshot is a metadata error; otherwise a topic name that
/// cannot be handed to the broker client is an assignment error. Nothing else
/// fails.
///
/// [`timestamp_query`]: crate::assignment::timestamp_query
pub fn tail(
    topic: &str,
    partitions: &Vec<PartitionWatermark>,
    mode: ReadMode,
    lookup: Option<&TopicPartitionList>,
) -> (started: Result<(TopicPartitionList, TailReader), TailError>)
    ensures
        match started {
            Ok((list, reader)) => {
                &&& snapshot_ok(partitions@)
                &&& plain_topic(topic@)
                &&& reader@ == initial(
                    (PlanView {
                        topic: topic@,
                        entries: planned_entries(partitions@, mode, lookup_reports(lookup, topic@)),
                    }),
                )
                &&& list_entries(list) == assigned_entries(reader@.plan)
            },
            Err(e) => if !snapshot_ok(partitions@) {
                e == TailError::Metadata
            } else {
                e == TailError::Assignment && !plain_topic(topic@)
            },
        },
{
    let resolved = match lookup {
        Some(list) => offsets_for_topic(list, topic),
        None => Vec::new(),
    };
    let planned = match plan(topic, partitions, mode, &resolved) {
        Ok(planned) => planned,
        Err(e) => {
            return Err(e);
        },
    };
    let list = match assignment(&planned) {
        Ok(list) => list,
        Err(e) => {
            return Err(e);
        },
    };
    Ok((list, TailReader::new(planned)))
}

} // verus!
