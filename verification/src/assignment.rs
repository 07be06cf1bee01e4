use rdkafka::error::KafkaError;
use rdkafka::TopicPartitionList;
use vstd::prelude::*;
use vstd::string::StrSliceExecFns;
use crate::error::TailError;
use crate::offsets::{PartitionOffset, PartitionWatermark, INVALID_TOPIC_OFFSET};
use crate::planner::{entries_wf, snapshot_ok, snapshot_usable, PlanView, ReadPlan};

verus! {

/// `rdkafka::TopicPartitionList`: a list of topics and partitions with their
/// offsets, kept by the broker client. What it holds is [`list_entries`].
#[verifier::external_type_specification]
#[verifier::external_body]
pub struct ExTopicPartitionList(rdkafka::TopicPartitionList);

/// `rdkafka::error::KafkaError`: why a call of the broker client failed.
/// Nothing is read from it.
#[verifier::external_type_specification]
#[verifier::external_body]
pub struct ExKafkaError(rdkafka::error::KafkaError);

/// One element of a broker list: a topic, a partition and the offset that the
/// element reports, as a raw number.
pub struct ListedOffset {
    pub topic: Seq<char>,
    pub partition: i32,
    pub offset: Option<i64>,
}

/// The elements that a broker list holds, in the order in which
/// `TopicPartitionList::elements` hands them out: for each its topic, its
/// partition, and what `Offset::to_raw` makes of its offset.
pub uninterp spec fn list_entries(list: TopicPartitionList) -> Seq<ListedOffset>;

/// `TopicPartitionList::new` makes a list without elements.
pub assume_specification[ rdkafka::TopicPartitionList::new ]() -> (list:
    rdkafka::TopicPartitionList)
    ensures
        list_entries(list) == Seq::<ListedOffset>::empty(),
;

/// A topic name that can be handed to the broker client: the client ends a
/// name at its first NUL character, and refuses to take one that holds any.
pub open spec fn plain_topic(topic: Seq<char>) -> bool {
    forall|i: int| 0 <= i < topic.len() ==> topic[i] != '\0'
}

/// No element of `entries` is for `partition` of `topic`.
pub open spec fn unlisted(entries: Seq<ListedOffset>, topic: Seq<char>, partition: i32) -> bool {
    forall|i: int|
        0 <= i < entries.len() ==> !((#[trigger] entries[i]).topic == topic && entries[i].partition
            == partition)
}

/// `TopicPartitionList::add_partition_offset` with `Offset::Offset(offset)`.
///
/// The call first appends an element for the partition, whose offset is the
/// invalid one, and then sets the offset of the first element for that topic
/// and partition. Here no earlier element is for them, so the new element is
/// the one that is set. A negative offset is refused: the call fails and the
/// new element keeps the invalid offset. The call panics on a topic with a NUL
/// character, which `requires` leaves out.
#[verifier::external_body]
fn add_offset(list: &mut TopicPartitionList, topic: &str, partition: i32, offset: i64) -> (added:
    Result<(), KafkaError>)
    requires
        plain_topic(topic@),
        unlisted(list_entries(*old(list)), topic@, partition),
    ensures
        added is Ok <==> offset >= 0,
        list_entries(*final(list)) == list_entries(*old(list)).push(
            (ListedOffset {
                topic: topic@,
                partition,
                offset: Some(
                    if offset >= 0 {
                        offset
                    } else {
                        INVALID_TOPIC_OFFSET
                    },
                ),
            }),
        ),
{
    list.add_partition_offset(topic, partition, rdkafka::Offset::Offset(offset))
}

/// What a list reports for one topic: the partition and offset of each
/// element of that topic, in the order of the list.
pub open spec fn reports_for(entries: Seq<ListedOffset>, topic: Seq<char>) -> Seq<PartitionOffset> {
    entries.filter(|e: ListedOffset| e.topic == topic).map_values(
        |e: ListedOffset| PartitionOffset { partition: e.partition, offset: e.offset },
    )
}

/// `TopicPartitionList::elements_for_topic`, each element handed out as its
/// partition and the raw number of its offset.
///
/// The client panics on a list that holds a topic name which is not UTF-8; a
/// broker accepts no such name.
#[verifier::external_body]
pub(crate) fn offsets_for_topic(list: &TopicPartitionList, topic: &str) -> (reports: Vec<PartitionOffset>)
    ensures
        reports@ == reports_for(list_entries(*list), topic@),
{
    list.elements_for_topic(topic).iter().map(
        |e| PartitionOffset { partition: e.partition(), offset: e.offset().to_raw() },
    ).collect()
}

/// Decides whether a topic name can be handed to the broker client.
pub fn topic_is_plain(topic: &str) -> (ok: bool)
    ensures
        ok == plain_topic(topic@),
{
    let n = topic.unicode_len();
    let mut i: usize = 0;
    while i < n
        invariant
            i <= n,
            n == topic@.len(),
            forall|j: int| 0 <= j < i ==> topic@[j] != '\0',
        decreases n - i,
    {
        if topic.get_char(i) == '\0' {
            return false;
        }
        i += 1;
    }
    true
}

/// The elements of the assignment that applies `plan`: one for each entry, in
/// the order of the plan, at the entry's start offset.
pub open spec fn assigned_entries(plan: PlanView) -> Seq<ListedOffset> {
    Seq::new(
        plan.entries.len(),
        |i: int|
            ListedOffset {
                topic: plan.topic,
                partition: plan.entries[i].target.partition,
                offset: Some(plan.entries[i].target.start_offset),
            },
    )
}

/// Builds the assignment that applies `plan` to the broker client in one
/// call. It fails if, and only if, the topic name cannot be handed over.
pub fn assignment(plan: &ReadPlan) -> (built: Result<TopicPartitionList, TailError>)
    ensures
        match built {
            Ok(list) => plain_topic(plan@.topic) && list_entries(list) == assigned_entries(plan@),
            Err(e) => e == TailError::Assignment && !plain_topic(plan@.topic),
        },
{
    let topic = plan.topic();
    if !topic_is_plain(topic) {
        return Err(TailError::Assignment);
    }
    proof {
        use_type_invariant(plan);
    }
    let mut list = TopicPartitionList::new();
    let n = plan.len();
    let mut i: usize = 0;
    while i < n
        invariant
            i <= n,
            n == plan@.entries.len(),
            topic@ == plan@.topic,
            plain_topic(topic@),
            entries_wf(plan@.entries),
            list_entries(list) == assigned_entries(plan@).take(i as int),
        decreases n - i,
    {
        let entry = plan.entry(i).unwrap();
        assert(unlisted(list_entries(list), topic@, entry.target.partition)) by {
            assert forall|k: int| 0 <= k < i implies plan@.entries[k].target.partition
                != entry.target.partition by {
                assert(plan@.entries[k].valid());
                assert(plan@.entries[i as int].valid());
            }
        }
        let ghost before = list_entries(list);
        match add_offset(&mut list, topic, entry.target.partition, entry.target.start_offset) {
            Ok(()) => {},
            Err(_) => {
                assert(plan@.entries[i as int].valid());
                return Err(TailError::Assignment);
            },
        }
        assert(list_entries(list) =~= assigned_entries(plan@).take(i + 1));
        i += 1;
    }
    assert(assigned_entries(plan@).take(n as int) =~= assigned_entries(plan@));
    Ok(list)
}

/// The elements of the list that asks the broker, for every partition of the
/// snapshot, for the first offset written at or after `millis`.
pub open spec fn query_entries(
    topic: Seq<char>,
    partitions: Seq<PartitionWatermark>,
    millis: i64,
) -> Seq<ListedOffset> {
    Seq::new(
        partitions.len(),
        |i: int|
            ListedOffset { topic, partition: partitions[i].partition, offset: Some(millis) },
    )
}

/// Builds the list that is handed to the broker's lookup of offsets by time.
///
/// An unusable snapshot is a metadata error. Otherwise the list cannot be
/// built, and the error is an assignment error, if the topic name cannot be
/// handed over or the instant lies before the epoch.
pub fn timestamp_query(topic: &str, partitions: &Vec<PartitionWatermark>, millis: i64) -> (built:
    Result<TopicPartitionList, TailError>)
    ensures
        match built {
            Ok(list) => {
                &&& snapshot_ok(partitions@)
                &&& plain_topic(topic@)
                &&& millis >= 0
                &&& list_entries(list) == query_entries(topic@, partitions@, millis)
            },
            Err(e) => if !snapshot_ok(partitions@) {
                e == TailError::Metadata
            } else {
                e == TailError::Assignment && (!plain_topic(topic@) || millis < 0)
            },
        },
{
    if !snapshot_usable(partitions) {
        return Err(TailError::Metadata);
    }
    if millis < 0 || !topic_is_plain(topic) {
        return Err(TailError::Assignment);
    }
    let mut list = TopicPartitionList::new();
    let mut i: usize = 0;
    while i < partitions.len()
        invariant
            i <= partitions.len(),
            snapshot_ok(partitions@),
            plain_topic(topic@),
            millis >= 0,
            list_entries(list) == query_entries(topic@, partitions@, millis).take(i as int),
        decreases partitions.len() - i,
    {
        let partition = partitions[i].partition;
        assert(unlisted(list_entries(list), topic@, partition)) by {
            assert forall|k: int| 0 <= k < i implies partitions@[k].partition != partition by {
                assert(partitions@[k].partition != partitions@[i as int].partition);
            }
        }
        match add_offset(&mut list, topic, partition, millis) {
            Ok(()) => {},
            Err(_) => {
                return Err(TailError::Assignment);
            },
        }
        assert(list_entries(list) =~= query_entries(topic@, partitions@, millis).take(i + 1));
        i += 1;
    }
    assert(query_entries(topic@, partitions@, millis).take(partitions@.len() as int)
        =~= query_entries(topic@, partitions@, millis));
    Ok(list)
}

} // verus!
