//! End-to-end exercises of the registry and the broadcast engine, driving
//! the fan-out rounds the way the surrounding event loop does.

use chat_core::registry::SharedData;
use chat_core::room::DeliveryAttempt;
use chat_core::room::MAILBOX_CAPACITY;
use chat_core::types::ChatError;
use chat_core::types::MessageMetaData;
use chat_core::types::RoomDescription;

fn desc(name: &str, long_desc: &str) -> RoomDescription {
    RoomDescription { name: name.to_string(), long_desc: long_desc.to_string() }
}

fn message(text: &str) -> MessageMetaData {
    MessageMetaData {
        username: "alice".to_string(),
        user_color: [0xff, 0x00, 0x7f],
        msg: text.to_string(),
    }
}

/// One fan-out round in which every delivery succeeds; returns the delivered
/// message and its targets, or None when the mailbox was empty.
fn run_healthy_round(reg: &mut SharedData, room: usize) -> Option<(MessageMetaData, Vec<u64>)> {
    let round = reg.begin_round(room)?;
    let attempts: Vec<DeliveryAttempt> =
        round.targets.iter().map(|&sink| DeliveryAttempt { sink, delivered: true }).collect();
    reg.finish_round(room, &attempts);
    Some((round.msg, round.targets))
}

#[test]
fn scenario_create_general_twice() {
    let mut reg = SharedData::default();
    assert!(reg.create_room(desc("general", "x")));
    assert!(!reg.create_room(desc("general", "y")));
    let rooms = reg.get_rooms();
    assert_eq!(rooms.len(), 1);
    assert_eq!(rooms[0].name, "general");
    assert_eq!(rooms[0].long_desc, "x");
}

#[test]
fn create_room_returns_whether_inserted() {
    let mut reg = SharedData::default();
    assert!(reg.create_room(desc("a", "first")));
    assert!(reg.create_room(desc("b", "second")));
    assert!(!reg.create_room(desc("a", "third")));
    let names: Vec<String> = reg.get_rooms().into_iter().map(|d| d.name).collect();
    assert_eq!(names, vec!["a".to_string(), "b".to_string()]);
}

#[test]
fn chat_nonexistent_room_is_rejected() {
    let mut reg = SharedData::default();
    reg.create_room(desc("general", "x"));
    let err = reg.chat(&"nonexistent".to_string()).unwrap_err();
    assert_eq!(err, ChatError::RoomDoesNotExist("nonexistent".to_string()));
    assert_eq!(err.room_name().as_str(), "nonexistent");
    // the failed lookup changed nothing
    assert_eq!(reg.get_rooms().len(), 1);
}

#[test]
fn chat_existing_room_always_succeeds() {
    let mut reg = SharedData::default();
    reg.create_room(desc("general", "x"));
    let first = reg.chat(&"general".to_string()).unwrap();
    let second = reg.chat(&"general".to_string()).unwrap();
    assert_eq!(first.room, second.room);
    assert_ne!(first.sink, second.sink);
}

#[test]
fn get_room_reports_missing_name() {
    let reg = SharedData::default();
    match reg.get_room(&"nowhere".to_string()) {
        Err(ChatError::RoomDoesNotExist(name)) => assert_eq!(name, "nowhere"),
        Ok(_) => panic!("lookup in an empty registry must fail"),
    }
}

#[test]
fn messages_reach_one_subscriber_in_send_order() {
    let mut reg = SharedData::default();
    reg.create_room(desc("general", "x"));
    let sub = reg.chat(&"general".to_string()).unwrap();
    for text in ["m1", "m2", "m3"] {
        assert!(reg.enqueue_message(sub.room, message(text)));
    }
    let mut received = Vec::new();
    while let Some((msg, targets)) = run_healthy_round(&mut reg, sub.room) {
        assert_eq!(targets, vec![sub.sink]);
        received.push(msg.msg);
    }
    assert_eq!(received, vec!["m1".to_string(), "m2".to_string(), "m3".to_string()]);
}

#[test]
fn one_message_fans_out_to_all_subscribers() {
    let mut reg = SharedData::default();
    reg.create_room(desc("general", "x"));
    let subs: Vec<u64> =
        (0..5).map(|_| reg.chat(&"general".to_string()).unwrap().sink).collect();
    assert!(reg.enqueue_message(0, message("hello")));
    let (msg, targets) = run_healthy_round(&mut reg, 0).unwrap();
    assert_eq!(msg.msg, "hello");
    assert_eq!(targets.len(), 5);
    for sink in &subs {
        assert!(targets.contains(sink));
    }
}

#[test]
fn broken_sink_is_pruned_and_healthy_one_keeps_receiving() {
    let mut reg = SharedData::default();
    reg.create_room(desc("general", "x"));
    let broken = reg.chat(&"general".to_string()).unwrap().sink;
    let healthy = reg.chat(&"general".to_string()).unwrap().sink;

    assert!(reg.enqueue_message(0, message("first")));
    let round = reg.begin_round(0).unwrap();
    assert!(round.targets.contains(&broken));
    assert!(round.targets.contains(&healthy));
    let attempts = vec![
        DeliveryAttempt { sink: broken, delivered: false },
        DeliveryAttempt { sink: healthy, delivered: true },
    ];
    reg.finish_round(0, &attempts);

    // the broken sink is absent from every later round; the healthy one stays
    assert!(reg.enqueue_message(0, message("second")));
    let (msg, targets) = run_healthy_round(&mut reg, 0).unwrap();
    assert_eq!(msg.msg, "second");
    assert_eq!(targets, vec![healthy]);
}

#[test]
fn sink_registered_after_snapshot_survives_pruning() {
    let mut reg = SharedData::default();
    reg.create_room(desc("general", "x"));
    let old_sink = reg.chat(&"general".to_string()).unwrap().sink;
    assert!(reg.enqueue_message(0, message("m")));
    let round = reg.begin_round(0).unwrap();
    assert_eq!(round.targets, vec![old_sink]);

    // a new session joins while delivery is in flight
    let late_sink = reg.chat(&"general".to_string()).unwrap().sink;
    let attempts = vec![DeliveryAttempt { sink: old_sink, delivered: false }];
    reg.finish_round(0, &attempts);

    // only the failed sink is gone; the late one is targeted next round
    assert!(reg.enqueue_message(0, message("n")));
    let (_, targets) = run_healthy_round(&mut reg, 0).unwrap();
    assert_eq!(targets, vec![late_sink]);
}

#[test]
fn full_mailbox_blocks_producer_without_dropping() {
    let mut reg = SharedData::default();
    reg.create_room(desc("general", "x"));
    reg.chat(&"general".to_string()).unwrap();
    for i in 0..MAILBOX_CAPACITY {
        assert!(reg.enqueue_message(0, message(&format!("m{i}"))));
    }
    // the mailbox is at capacity: the next send is held back, not dropped
    assert!(!reg.enqueue_message(0, message("overflow")));
    assert!(!reg.enqueue_message(0, message("overflow")));

    // one drained slot lets the held-back message through
    let (first, _) = run_healthy_round(&mut reg, 0).unwrap();
    assert_eq!(first.msg, "m0");
    assert!(reg.enqueue_message(0, message("overflow")));

    // every accepted message comes out, in order, with nothing lost
    let mut received = Vec::new();
    while let Some((msg, _)) = run_healthy_round(&mut reg, 0) {
        received.push(msg.msg);
    }
    assert_eq!(received.len(), MAILBOX_CAPACITY);
    for (i, text) in received.iter().take(MAILBOX_CAPACITY - 1).enumerate() {
        assert_eq!(text, &format!("m{}", i + 1));
    }
    assert_eq!(received.last().unwrap(), "overflow");
}

#[test]
fn rooms_do_not_share_state() {
    let mut reg = SharedData::default();
    reg.create_room(desc("a", "first"));
    reg.create_room(desc("b", "second"));
    let sub_a = reg.chat(&"a".to_string()).unwrap();
    let sub_b = reg.chat(&"b".to_string()).unwrap();
    assert_ne!(sub_a.room, sub_b.room);
    assert!(reg.enqueue_message(sub_a.room, message("only in a")));
    assert!(reg.begin_round(sub_b.room).is_none());
    let (msg, _) = run_healthy_round(&mut reg, sub_a.room).unwrap();
    assert_eq!(msg.msg, "only in a");
}
