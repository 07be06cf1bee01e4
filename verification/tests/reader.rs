use rdkafka::{Offset, TopicPartitionList};
use stream_shift::error::TailError;
use stream_shift::mode::ReadMode;
use stream_shift::offsets::{
    PartitionOffset, PartitionWatermark, Watermark, INVALID_TOPIC_OFFSET,
};
use stream_shift::planner::{plan, PartitionTarget, PlanEntry, ReadPlan};
use stream_shift::reader::{
    has_caught_up, has_partition_caught_up, is_settled, Message, Phase, PollEvent, Step,
    TailReader, LONG_POLL_MS, SHORT_POLL_MS,
};

fn partition(partition: i32, low: i64, high: i64) -> PartitionWatermark {
    PartitionWatermark { partition, watermark: Watermark { low, high } }
}

fn position(partition: i32, offset: i64) -> PartitionOffset {
    PartitionOffset { partition, offset: Some(offset) }
}

fn message(partition: i32, offset: i64) -> Message {
    Message {
        key: format!("key-{}-{}", partition, offset).into_bytes(),
        value: format!("value-{}-{}", partition, offset).into_bytes(),
        partition,
        offset,
    }
}

fn orders_plan() -> ReadPlan {
    let snapshot = vec![partition(0, 0, 3), partition(1, 0, 1)];
    plan("orders", &snapshot, ReadMode::FromBeginning, &Vec::new()).unwrap()
}

fn read(planned: ReadPlan, events: Vec<PollEvent>) -> (Vec<Message>, Vec<Phase>) {
    let mut reader = TailReader::new(planned);
    let mut yielded = Vec::new();
    let mut phases = Vec::new();
    for event in events {
        if let Step::Yield(m) = reader.step(event) {
            yielded.push(m);
        }
        phases.push(reader.phase());
    }
    (yielded, phases)
}

fn offsets(yielded: &Vec<Message>, partition: i32) -> Vec<i64> {
    yielded.iter().filter(|m| m.partition == partition).map(|m| m.offset).collect()
}

#[test]
fn poll_timeouts_are_long_then_short() {
    assert_eq!(LONG_POLL_MS, 150);
    assert_eq!(SHORT_POLL_MS, 15);
}

#[test]
fn settled_positions() {
    assert!(is_settled(Some(INVALID_TOPIC_OFFSET), 10));
    assert!(is_settled(Some(-1001), 10));
    assert!(is_settled(Some(10), 10));
    assert!(is_settled(Some(11), 10));
    assert!(!is_settled(Some(9), 10));
    assert!(!is_settled(Some(-1), 10));
    assert!(!is_settled(Some(-1000), 10));
    assert!(!is_settled(None, 10));
}

#[test]
fn empty_partition_has_always_caught_up() {
    let entry = PlanEntry {
        watermark: Watermark { low: 5, high: 5 },
        target: PartitionTarget { partition: 0, start_offset: 5 },
    };
    assert!(has_partition_caught_up(&entry, &Vec::new()));
    assert!(has_partition_caught_up(&entry, &vec![position(0, 0)]));
    assert!(has_partition_caught_up(&entry, &vec![PartitionOffset { partition: 0, offset: None }]));
}

#[test]
fn partition_has_caught_up_when_every_report_for_it_is_settled() {
    let entry = PlanEntry {
        watermark: Watermark { low: 0, high: 3 },
        target: PartitionTarget { partition: 0, start_offset: 0 },
    };
    assert!(has_partition_caught_up(&entry, &vec![position(0, 3)]));
    assert!(has_partition_caught_up(&entry, &vec![position(1, 0), position(0, 4)]));
    assert!(has_partition_caught_up(&entry, &vec![position(0, INVALID_TOPIC_OFFSET)]));
    assert!(has_partition_caught_up(&entry, &vec![position(1, 0)]));
    assert!(!has_partition_caught_up(&entry, &vec![position(0, 2)]));
    assert!(!has_partition_caught_up(&entry, &vec![position(0, 3), position(0, 2)]));
}

#[test]
fn read_has_caught_up_when_every_partition_has() {
    let planned = orders_plan();
    assert!(has_caught_up(&planned, &vec![position(0, 3), position(1, 1)]));
    assert!(has_caught_up(&planned, &vec![position(1, 5), position(0, 3)]));
    assert!(!has_caught_up(&planned, &vec![position(0, 3), position(1, 0)]));
    assert!(!has_caught_up(&planned, &vec![position(0, 2), position(1, 1)]));
}

#[test]
fn new_reader_is_idle_and_keeps_its_plan() {
    let reader = TailReader::new(orders_plan());
    assert_eq!(reader.phase(), Phase::Idle);
    assert!(!reader.is_finished());
    assert_eq!(reader.poll_timeout_ms(), Some(150));
    assert_eq!(reader.plan().topic(), "orders");
    assert_eq!(reader.plan().len(), 2);
    assert_eq!(reader.plan().entry(0), orders_plan().entry(0));
}

#[test]
fn orders_read_yields_four_messages_and_ends() {
    let mut reader = TailReader::new(orders_plan());
    let mut yielded = Vec::new();
    for (p, o) in [(0, 0), (1, 0), (0, 1), (0, 2)] {
        match reader.step(PollEvent::Message(message(p, o))) {
            Step::Yield(m) => yielded.push(m),
            other => panic!("not yielded: {:?}", other),
        }
        assert_eq!(reader.phase(), Phase::Idle);
    }
    assert_eq!(yielded.len(), 4);
    assert_eq!(yielded, vec![message(0, 0), message(1, 0), message(0, 1), message(0, 2)]);
    let step = reader.step(PollEvent::Empty(vec![position(0, 3), position(1, 1)]));
    assert_eq!(step, Step::End);
    assert_eq!(reader.phase(), Phase::Done);
    assert!(reader.is_finished());
    assert_eq!(reader.poll_timeout_ms(), None);
}

#[test]
fn orders_read_goes_on_until_both_partitions_report_their_high() {
    let mut reader = TailReader::new(orders_plan());
    assert_eq!(reader.step(PollEvent::Empty(vec![position(0, 0), position(1, 0)])), Step::Continue);
    assert_eq!(reader.phase(), Phase::Retrying);
    assert_eq!(reader.step(PollEvent::Empty(vec![position(0, 3), position(1, 0)])), Step::Continue);
    assert_eq!(reader.step(PollEvent::Empty(vec![position(0, 2), position(1, 1)])), Step::Continue);
    assert_eq!(reader.phase(), Phase::Retrying);
    assert_eq!(reader.step(PollEvent::Empty(vec![position(0, 3), position(1, 1)])), Step::End);
    assert_eq!(reader.phase(), Phase::Done);
}

#[test]
fn empty_topic_ends_on_the_first_check() {
    let planned =
        plan("empty-topic", &vec![partition(0, 5, 5)], ReadMode::FromBeginning, &Vec::new())
            .unwrap();
    let mut reader = TailReader::new(planned);
    assert_eq!(reader.poll_timeout_ms(), Some(LONG_POLL_MS));
    assert_eq!(reader.step(PollEvent::Empty(vec![position(0, 0)])), Step::End);
    assert_eq!(reader.phase(), Phase::Done);
    assert_eq!(reader.poll_timeout_ms(), None);
}

#[test]
fn empty_partitions_yield_nothing_whatever_is_polled() {
    let snapshot = vec![partition(0, 5, 5), partition(1, 0, 0), partition(2, 9, 9)];
    let planned = plan("quiet", &snapshot, ReadMode::FromBeginning, &Vec::new()).unwrap();
    let events = vec![
        PollEvent::Message(message(0, 5)),
        PollEvent::Message(message(1, 0)),
        PollEvent::Message(message(2, 8)),
        PollEvent::Message(message(0, 4)),
        PollEvent::Empty(Vec::new()),
    ];
    let (yielded, phases) = read(planned, events);
    assert!(yielded.is_empty());
    assert_eq!(phases, vec![Phase::Idle, Phase::Idle, Phase::Idle, Phase::Idle, Phase::Done]);
}

#[test]
fn timeout_is_short_after_an_empty_poll_and_long_after_a_message() {
    let mut reader = TailReader::new(orders_plan());
    assert_eq!(reader.poll_timeout_ms(), Some(150));
    assert_eq!(reader.step(PollEvent::Empty(vec![position(0, 0), position(1, 0)])), Step::Continue);
    assert_eq!(reader.poll_timeout_ms(), Some(15));
    assert_eq!(reader.step(PollEvent::Empty(vec![position(0, 0), position(1, 0)])), Step::Continue);
    assert_eq!(reader.poll_timeout_ms(), Some(15));
    assert_eq!(reader.step(PollEvent::Message(message(0, 0))), Step::Yield(message(0, 0)));
    assert_eq!(reader.poll_timeout_ms(), Some(150));
    assert_eq!(reader.step(PollEvent::Empty(vec![position(0, 1), position(1, 0)])), Step::Continue);
    assert_eq!(reader.step(PollEvent::Message(message(7, 0))), Step::Continue);
    assert_eq!(reader.poll_timeout_ms(), Some(150));
}

#[test]
fn message_is_yielded_as_it_came() {
    let mut reader = TailReader::new(orders_plan());
    let polled = Message {
        key: vec![0xff, 0x00, 0x61],
        value: Vec::new(),
        partition: 1,
        offset: 0,
    };
    let expected = Message {
        key: vec![0xff, 0x00, 0x61],
        value: Vec::new(),
        partition: 1,
        offset: 0,
    };
    assert_eq!(reader.step(PollEvent::Message(polled)), Step::Yield(expected));
}

#[test]
fn message_written_after_the_snapshot_is_not_yielded() {
    let mut reader = TailReader::new(orders_plan());
    assert_eq!(reader.step(PollEvent::Message(message(1, 0))), Step::Yield(message(1, 0)));
    assert_eq!(reader.step(PollEvent::Message(message(1, 1))), Step::Continue);
    assert_eq!(reader.step(PollEvent::Message(message(0, 3))), Step::Continue);
    assert_eq!(reader.step(PollEvent::Message(message(0, 400))), Step::Continue);
    assert_eq!(reader.phase(), Phase::Idle);
    assert_eq!(reader.step(PollEvent::Message(message(0, 2))), Step::Yield(message(0, 2)));
}

#[test]
fn message_before_the_start_offset_is_not_yielded() {
    let planned = plan("t", &vec![partition(0, 0, 10)], ReadMode::LastN(3), &Vec::new()).unwrap();
    let mut reader = TailReader::new(planned);
    assert_eq!(reader.step(PollEvent::Message(message(0, 6))), Step::Continue);
    assert_eq!(reader.step(PollEvent::Message(message(0, 7))), Step::Yield(message(0, 7)));
}

#[test]
fn message_of_another_partition_is_not_yielded() {
    let mut reader = TailReader::new(orders_plan());
    assert_eq!(reader.step(PollEvent::Message(message(2, 0))), Step::Continue);
    assert_eq!(reader.step(PollEvent::Message(message(-1, 0))), Step::Continue);
}

#[test]
fn message_is_yielded_once() {
    let mut reader = TailReader::new(orders_plan());
    assert_eq!(reader.step(PollEvent::Message(message(0, 1))), Step::Yield(message(0, 1)));
    assert_eq!(reader.step(PollEvent::Message(message(0, 1))), Step::Continue);
    assert_eq!(reader.step(PollEvent::Message(message(0, 0))), Step::Continue);
    assert_eq!(reader.step(PollEvent::Message(message(0, 2))), Step::Yield(message(0, 2)));
    assert_eq!(reader.step(PollEvent::Message(message(0, 2))), Step::Continue);
}

#[test]
fn invalid_position_counts_as_caught_up() {
    let mut reader = TailReader::new(orders_plan());
    let step = reader.step(PollEvent::Empty(vec![
        position(0, INVALID_TOPIC_OFFSET),
        position(1, INVALID_TOPIC_OFFSET),
    ]));
    assert_eq!(step, Step::End);
    assert_eq!(reader.phase(), Phase::Done);
}

#[test]
fn partition_without_a_report_counts_as_caught_up() {
    let mut reader = TailReader::new(orders_plan());
    assert_eq!(reader.step(PollEvent::Empty(vec![position(0, 3)])), Step::End);
}

#[test]
fn position_that_is_no_offset_keeps_the_read_open() {
    let mut reader = TailReader::new(orders_plan());
    let step = reader.step(PollEvent::Empty(vec![
        position(0, 3),
        PartitionOffset { partition: 1, offset: None },
    ]));
    assert_eq!(step, Step::Continue);
    assert_eq!(reader.phase(), Phase::Retrying);
}

#[test]
fn read_ends_once_every_position_has_reached_its_high() {
    let snapshot = vec![partition(0, 10, 20), partition(1, 0, 7), partition(2, 3, 3)];
    let planned = plan("t", &snapshot, ReadMode::LastN(5), &Vec::new()).unwrap();
    let mut reader = TailReader::new(planned);
    assert_eq!(
        reader.step(PollEvent::Empty(vec![position(0, 19), position(1, 7), position(2, 3)])),
        Step::Continue
    );
    assert_eq!(
        reader.step(PollEvent::Empty(vec![position(0, 20), position(1, 9), position(2, 0)])),
        Step::End
    );
}

#[test]
fn failure_aborts_the_read_with_a_read_error() {
    let mut reader = TailReader::new(orders_plan());
    assert_eq!(reader.step(PollEvent::Message(message(0, 0))), Step::Yield(message(0, 0)));
    assert_eq!(reader.step(PollEvent::Failure), Step::Abort(TailError::Read));
    assert_eq!(reader.phase(), Phase::Failed);
    assert!(reader.is_finished());
    assert_eq!(reader.poll_timeout_ms(), None);
}

#[test]
fn aborted_read_stays_aborted() {
    let mut reader = TailReader::new(orders_plan());
    assert_eq!(reader.step(PollEvent::Failure), Step::Abort(TailError::Read));
    assert_eq!(reader.step(PollEvent::Message(message(0, 0))), Step::Abort(TailError::Read));
    assert_eq!(
        reader.step(PollEvent::Empty(vec![position(0, 3), position(1, 1)])),
        Step::Abort(TailError::Read)
    );
    assert_eq!(reader.phase(), Phase::Failed);
}

#[test]
fn ended_read_stays_ended() {
    let mut reader = TailReader::new(orders_plan());
    assert_eq!(reader.step(PollEvent::Empty(vec![position(0, 3), position(1, 1)])), Step::End);
    assert_eq!(reader.step(PollEvent::Message(message(0, 0))), Step::End);
    assert_eq!(reader.step(PollEvent::Failure), Step::End);
    assert_eq!(reader.step(PollEvent::Empty(vec![position(0, 0)])), Step::End);
    assert_eq!(reader.phase(), Phase::Done);
}

#[test]
fn from_beginning_yields_the_snapshot_despite_later_writes() {
    let planned =
        plan("t", &vec![partition(0, 2, 5), partition(1, 0, 2)], ReadMode::FromBeginning, &Vec::new())
            .unwrap();
    let mut events = Vec::new();
    for offset in 2..9 {
        events.push(PollEvent::Message(message(0, offset)));
    }
    for offset in 0..4 {
        events.push(PollEvent::Message(message(1, offset)));
    }
    let (yielded, _) = read(planned, events);
    assert_eq!(offsets(&yielded, 0), vec![2, 3, 4]);
    assert_eq!(offsets(&yielded, 1), vec![0, 1]);
    assert_eq!(yielded.len(), 5);
}

#[test]
fn last_n_yields_at_most_n_from_each_partition() {
    let snapshot = vec![partition(0, 0, 10), partition(1, 0, 2), partition(2, 4, 4)];
    let planned = plan("t", &snapshot, ReadMode::LastN(3), &Vec::new()).unwrap();
    let mut events = Vec::new();
    for offset in 0..12 {
        for p in 0..3 {
            events.push(PollEvent::Message(message(p, offset)));
        }
    }
    let (yielded, _) = read(planned, events);
    assert_eq!(offsets(&yielded, 0), vec![7, 8, 9]);
    assert_eq!(offsets(&yielded, 1), vec![0, 1]);
    assert_eq!(offsets(&yielded, 2), Vec::<i64>::new());
}

#[test]
fn reading_the_same_plan_twice_yields_the_same_messages() {
    let planned = orders_plan();
    let trace = || {
        vec![
            PollEvent::Message(message(0, 0)),
            PollEvent::Empty(vec![position(0, 1), position(1, 0)]),
            PollEvent::Message(message(1, 0)),
            PollEvent::Message(message(1, 1)),
            PollEvent::Message(message(0, 1)),
            PollEvent::Message(message(0, 2)),
            PollEvent::Empty(vec![position(0, 3), position(1, 2)]),
            PollEvent::Message(message(0, 2)),
        ]
    };
    let (first, first_phases) = read(planned.clone(), trace());
    let (second, second_phases) = read(planned, trace());
    assert_eq!(first, second);
    assert_eq!(first_phases, second_phases);
    assert_eq!(first, vec![message(0, 0), message(1, 0), message(0, 1), message(0, 2)]);
    assert_eq!(first_phases.last(), Some(&Phase::Done));
}

#[test]
fn has_more_reads_the_positions_of_the_topic() {
    let reader = TailReader::new(orders_plan());
    let mut behind = TopicPartitionList::new();
    behind.add_partition_offset("orders", 0, Offset::Offset(2)).unwrap();
    behind.add_partition_offset("orders", 1, Offset::Offset(1)).unwrap();
    assert!(reader.has_more(&behind));
    let mut done = TopicPartitionList::new();
    done.add_partition_offset("orders", 0, Offset::Offset(3)).unwrap();
    done.add_partition_offset("orders", 1, Offset::Offset(1)).unwrap();
    done.add_partition_offset("invoices", 0, Offset::Offset(0)).unwrap();
    assert!(!reader.has_more(&done));
    let mut unassigned = TopicPartitionList::new();
    unassigned.add_partition("orders", 0);
    unassigned.add_partition_offset("orders", 1, Offset::Invalid).unwrap();
    assert!(!reader.has_more(&unassigned));
    let mut elsewhere = TopicPartitionList::new();
    elsewhere.add_partition_offset("orders", 0, Offset::Offset(3)).unwrap();
    elsewhere.add_partition_offset("orders", 1, Offset::End).unwrap();
    assert!(reader.has_more(&elsewhere));
}

#[test]
fn empty_poll_with_the_clients_positions() {
    let mut reader = TailReader::new(orders_plan());
    let mut behind = TopicPartitionList::new();
    behind.add_partition_offset("orders", 0, Offset::Offset(3)).unwrap();
    behind.add_partition_offset("orders", 1, Offset::Offset(0)).unwrap();
    assert_eq!(reader.on_empty_poll(&behind), Step::Continue);
    assert_eq!(reader.phase(), Phase::Retrying);
    let mut done = TopicPartitionList::new();
    done.add_partition_offset("orders", 0, Offset::Offset(3)).unwrap();
    done.add_partition_offset("orders", 1, Offset::Offset(1)).unwrap();
    assert_eq!(reader.on_empty_poll(&done), Step::End);
    assert_eq!(reader.phase(), Phase::Done);
}

#[test]
fn reads_of_an_unchanged_log_agree_however_the_polls_are_mixed() {
    let one = vec![
        PollEvent::Message(message(0, 0)),
        PollEvent::Message(message(0, 1)),
        PollEvent::Empty(vec![position(0, 2), position(1, 0)]),
        PollEvent::Message(message(0, 2)),
        PollEvent::Message(message(1, 0)),
        PollEvent::Empty(vec![position(0, 3), position(1, 1)]),
    ];
    let other = vec![
        PollEvent::Empty(vec![position(0, 0), position(1, 0)]),
        PollEvent::Message(message(1, 0)),
        PollEvent::Message(message(0, 0)),
        PollEvent::Message(message(1, 1)),
        PollEvent::Message(message(0, 1)),
        PollEvent::Message(message(0, 2)),
        PollEvent::Message(message(0, 3)),
        PollEvent::Empty(vec![position(0, 4), position(1, 2)]),
    ];
    let (first, first_phases) = read(orders_plan(), one);
    let (second, second_phases) = read(orders_plan(), other);
    assert_eq!(first_phases.last(), Some(&Phase::Done));
    assert_eq!(second_phases.last(), Some(&Phase::Done));
    for p in 0..2 {
        assert_eq!(offsets(&first, p), offsets(&second, p));
    }
    assert_eq!(offsets(&first, 0), vec![0, 1, 2]);
    assert_eq!(offsets(&first, 1), vec![0]);
}
