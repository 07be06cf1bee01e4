use rdkafka::{Offset, TopicPartitionList};
use stream_shift::error::TailError;
use stream_shift::mode::ReadMode;
use stream_shift::offsets::{PartitionOffset, PartitionWatermark, Watermark};
use stream_shift::reader::{Message, Phase, PollEvent, Step};
use stream_shift::tail::tail;

fn partition(partition: i32, low: i64, high: i64) -> PartitionWatermark {
    PartitionWatermark { partition, watermark: Watermark { low, high } }
}

fn elements(list: &TopicPartitionList) -> Vec<(String, i32, Offset)> {
    list.elements().iter().map(|e| (e.topic().to_string(), e.partition(), e.offset())).collect()
}

fn message(partition: i32, offset: i64) -> Message {
    Message { key: vec![1], value: vec![2, 3], partition, offset }
}

#[test]
fn tail_from_beginning_assigns_every_low_watermark() {
    let snapshot = vec![partition(0, 0, 3), partition(1, 0, 1)];
    let (list, reader) = tail("orders", &snapshot, ReadMode::FromBeginning, None).unwrap();
    assert_eq!(
        elements(&list),
        vec![("orders".to_string(), 0, Offset::Offset(0)), ("orders".to_string(), 1, Offset::Offset(0))]
    );
    assert_eq!(reader.phase(), Phase::Idle);
    assert_eq!(reader.plan().topic(), "orders");
    assert_eq!(reader.plan().window(0), Some(3));
    assert_eq!(reader.plan().window(1), Some(1));
}

#[test]
fn tail_of_the_last_n_assigns_the_tail_of_every_partition() {
    let snapshot = vec![partition(0, 0, 100), partition(1, 10, 12)];
    let (list, mut reader) = tail("orders", &snapshot, ReadMode::LastN(5), None).unwrap();
    assert_eq!(
        elements(&list),
        vec![
            ("orders".to_string(), 0, Offset::Offset(95)),
            ("orders".to_string(), 1, Offset::Offset(10)),
        ]
    );
    assert_eq!(reader.step(PollEvent::Message(message(0, 94))), Step::Continue);
    assert_eq!(reader.step(PollEvent::Message(message(0, 95))), Step::Yield(message(0, 95)));
}

#[test]
fn tail_since_starts_where_the_lookup_says() {
    let mut lookup = TopicPartitionList::new();
    lookup.add_partition_offset("other", 0, Offset::Offset(1)).unwrap();
    lookup.add_partition_offset("orders", 1, Offset::End).unwrap();
    lookup.add_partition_offset("orders", 0, Offset::Offset(6)).unwrap();
    let snapshot = vec![partition(0, 0, 10), partition(1, 0, 10), partition(2, 0, 10)];
    let (list, reader) =
        tail("orders", &snapshot, ReadMode::Since(1_000), Some(&lookup)).unwrap();
    assert_eq!(
        elements(&list),
        vec![
            ("orders".to_string(), 0, Offset::Offset(6)),
            ("orders".to_string(), 1, Offset::Offset(10)),
            ("orders".to_string(), 2, Offset::Offset(10)),
        ]
    );
    assert_eq!(reader.plan().window(0), Some(4));
    assert_eq!(reader.plan().window(1), Some(0));
    assert_eq!(reader.plan().window(2), Some(0));
}

#[test]
fn tail_since_without_any_later_message_reads_nothing() {
    let mut lookup = TopicPartitionList::new();
    lookup.add_partition_offset("orders", 0, Offset::End).unwrap();
    let snapshot = vec![partition(0, 2, 10)];
    let (list, mut reader) =
        tail("orders", &snapshot, ReadMode::Since(1_000), Some(&lookup)).unwrap();
    assert_eq!(elements(&list), vec![("orders".to_string(), 0, Offset::Offset(10))]);
    assert_eq!(reader.plan().entry(0).unwrap().target.start_offset, 10);
    assert_eq!(reader.plan().window(0), Some(0));
    assert_eq!(reader.step(PollEvent::Message(message(0, 9))), Step::Continue);
    assert_eq!(reader.step(PollEvent::Message(message(0, 10))), Step::Continue);
    let position = PartitionOffset { partition: 0, offset: Some(10) };
    assert_eq!(reader.step(PollEvent::Empty(vec![position])), Step::End);
}

#[test]
fn tail_ignores_the_lookup_outside_since_mode() {
    let mut lookup = TopicPartitionList::new();
    lookup.add_partition_offset("orders", 0, Offset::Offset(6)).unwrap();
    let snapshot = vec![partition(0, 0, 10)];
    let (list, _) = tail("orders", &snapshot, ReadMode::FromBeginning, Some(&lookup)).unwrap();
    assert_eq!(elements(&list), vec![("orders".to_string(), 0, Offset::Offset(0))]);
}

#[test]
fn tail_without_partitions_is_a_metadata_error() {
    let started = tail("orders", &Vec::new(), ReadMode::FromBeginning, None);
    assert_eq!(started.err(), Some(TailError::Metadata));
}

#[test]
fn tail_of_a_topic_with_nul_is_an_assignment_error() {
    let started = tail("or\0ders", &vec![partition(0, 0, 3)], ReadMode::FromBeginning, None);
    assert_eq!(started.err(), Some(TailError::Assignment));
    let both = tail("or\0ders", &Vec::new(), ReadMode::FromBeginning, None);
    assert_eq!(both.err(), Some(TailError::Metadata));
}
