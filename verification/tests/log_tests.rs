use msglog::log::{LogError, LogState};
use crdts::glist::Op;
use msglog::message::MessageData;

fn msg(from: &str, stamp: &str) -> MessageData {
    MessageData {
        from: from.to_string(),
        tag: "/s".to_string(),
        content: "Some base64 data".to_string(),
        signature: "Some base64 data".to_string(),
        signed_time_stamp: stamp.to_string(),
    }
}

const STAMP_1999: &str = "1999 Jun 8 12:09:14.274 +0000";
const STAMP_2022: &str = "2022 Aug 17 1:09:01.666 +0000";

#[test]
fn added_message_reads_back() {
    let m = MessageData {
        from: "a".to_string(),
        tag: "b".to_string(),
        content: "c".to_string(),
        signature: "d".to_string(),
        signed_time_stamp: STAMP_1999.to_string(),
    };
    let mut log_a = LogState::new("Alice", "test");
    log_a.add_message(m.clone());
    let msgs = log_a.messages();
    assert!(msgs[0] == m);
    assert_eq!(msgs.len(), 1);
    assert_eq!(msgs[0].tag, "b");
    assert_eq!(msgs[0].content, "c");
    assert_eq!(msgs[0].signature, "d");
}

#[test]
fn kept_plain_text_reads_back() {
    let m = msg("a", STAMP_2022);
    let mut log_a = LogState::new("Alice", "test");
    log_a.add_message(m.clone());
    log_a.decrypt(&m, "x");
    assert_eq!(log_a.decrypted(&m), Some("x".to_string()));
}

#[test]
fn can_stop_duplicates() {
    let m = msg("a", STAMP_1999);
    let mut log = LogState::new("Alice", "test");
    log.add_message(m.clone());
    let log_clone = log.clone();
    assert_eq!(log.add_message(m.clone()), None);
    assert!(log == log_clone);
}

#[test]
fn can_stop_duplicates_two() {
    let m = msg("a", STAMP_1999);
    let mut log = LogState::new("Alice", "test");
    let op = log.add_message(m).unwrap();
    let log_clone = log.clone();
    log.apply_op(op);
    assert!(log == log_clone);
}

#[test]
fn new_log_is_empty_and_named() {
    let log = LogState::new("Alice", "test");
    assert!(log.messages().is_empty());
    assert_eq!(log.name, "Alice");
    assert_eq!(log.group, "test");
    assert_eq!(log.id_keys.public, "");
    assert_eq!(log.id_keys.private, "");
}

#[test]
fn later_messages_go_at_the_end() {
    let early = msg("a", "2022 Aug 17 1:09:01.666 +0000");
    let late = msg("a", "2022 Aug 17 1:09:02.000 +0000");
    let mut log = LogState::new("Alice", "test");
    assert!(log.add_message(early.clone()).is_some());
    assert!(log.add_message(late.clone()).is_some());
    let ms = log.messages();
    assert!(ms[0] == early);
    assert!(ms[1] == late);
}

#[test]
fn same_instant_orders_by_sender() {
    let bob = msg("bob", STAMP_1999);
    let ann = msg("ann", STAMP_1999);
    let mut log = LogState::new("Alice", "test");
    log.add_message(ann.clone());
    log.add_message(bob.clone());
    let ms = log.messages();
    assert_eq!(ms[0].from, "ann");
    assert_eq!(ms[1].from, "bob");
}

#[test]
fn an_earlier_message_goes_right_after_the_first_later_one() {
    // The scan stops at the first entry with a greater key and the new message
    // is put directly after it.
    let late = msg("a", "2022 Aug 17 1:09:02.000 +0000");
    let early = msg("a", "2022 Aug 17 1:09:01.000 +0000");
    let mut log = LogState::new("Alice", "test");
    log.add_message(late.clone());
    log.add_message(early.clone());
    let ms = log.messages();
    assert_eq!(ms.len(), 2);
    assert!(ms[0] == late);
    assert!(ms[1] == early);
}

#[test]
fn second_add_after_a_later_entry_is_not_refused() {
    // Where the scan stops at a later entry, adding the same message again
    // inserts it once more.
    let late = msg("a", "2022 Aug 17 1:09:02.000 +0000");
    let early = msg("a", "2022 Aug 17 1:09:01.000 +0000");
    let mut log = LogState::new("Alice", "test");
    log.add_message(late);
    log.add_message(early.clone());
    assert!(log.add_message(early).is_some());
    assert_eq!(log.messages().len(), 3);
}

#[test]
fn same_instant_in_another_offset_is_a_duplicate() {
    let a = msg("a", "2022 Aug 17 1:09:01.666 +0000");
    let b = msg("a", "2022 Aug 17 3:09:01.666 +0200");
    let mut log = LogState::new("Alice", "test");
    assert!(log.add_message(a).is_some());
    assert_eq!(log.add_message(b), None);
    assert_eq!(log.messages().len(), 1);
}

#[test]
fn unreadable_stamp_on_an_empty_log_is_added() {
    let bad = msg("a", "yesterday");
    let mut log = LogState::new("Alice", "test");
    assert!(log.try_add_message(bad.clone()).unwrap().is_some());
    let ms = log.messages();
    assert_eq!(ms.len(), 1);
    assert_eq!(ms[0].signed_time_stamp, "yesterday");
    // The next add compares with that entry, whose stamp does not read.
    assert_eq!(log.try_add_message(msg("b", STAMP_1999)), Err(LogError::BadTimeStamp));
    assert_eq!(log.messages().len(), 1);
}

#[test]
fn unreadable_stamp_on_a_log_with_messages_is_refused() {
    let mut log = LogState::new("Alice", "test");
    log.add_message(msg("a", STAMP_1999));
    assert_eq!(log.try_add_message(msg("b", "yesterday")), Err(LogError::BadTimeStamp));
    assert_eq!(log.messages().len(), 1);
    assert_eq!(log.try_add_message(msg("b", STAMP_2022)).map(|r| r.is_some()), Ok(true));
}

#[test]
fn op_carries_the_message() {
    let mut log = LogState::new("Alice", "test");
    let op = log.add_message(msg("a", STAMP_1999)).unwrap();
    let Op::Insert { id } = op;
    let e = id.value();
    assert_eq!(e.0, Some((928843754, 274_000_000)));
    assert_eq!(e.1, "a");
    assert_eq!(e.5, STAMP_1999);
    assert_eq!(e.6, None);
}

#[test]
fn op_moves_a_message_to_another_log() {
    let m = msg("a", STAMP_1999);
    let mut alice = LogState::new("Alice", "test");
    let op = alice.add_message(m.clone()).unwrap();
    let mut bob = LogState::new("Bob", "test");
    bob.apply_op(op.clone());
    let ms = bob.messages();
    assert_eq!(ms.len(), 1);
    assert!(ms[0] == m);
    assert_eq!(ms[0].content, "Some base64 data");
    bob.apply_op(op);
    assert_eq!(bob.messages().len(), 1);
}

#[test]
fn ops_from_two_members_converge() {
    let m1 = msg("a", STAMP_1999);
    let m2 = msg("b", STAMP_2022);
    let mut alice = LogState::new("Alice", "test");
    let mut bob = LogState::new("Bob", "test");
    let op1 = alice.add_message(m1.clone()).unwrap();
    let op2 = bob.add_message(m2.clone()).unwrap();
    alice.apply_op(op2);
    bob.apply_op(op1);
    let a = alice.messages();
    let b = bob.messages();
    assert_eq!(a.len(), 2);
    assert_eq!(b.len(), 2);
    assert!(a[0] == b[0]);
    assert!(a[1] == b[1]);
    assert!(alice.msgs() == bob.msgs());
}

#[test]
fn decrypted_of_unknown_message_is_none() {
    let log = LogState::new("Alice", "test");
    assert_eq!(log.decrypted(&msg("a", STAMP_1999)), None);
}

#[test]
fn first_kept_plain_text_is_found() {
    let m = msg("a", STAMP_1999);
    let other = msg("b", STAMP_1999);
    let mut log = LogState::new("Alice", "test");
    log.decrypt(&other, "other");
    log.decrypt(&m, "first");
    log.decrypt(&m, "second");
    assert_eq!(log.decrypted(&m), Some("first".to_string()));
    assert_eq!(log.decrypted(&other), Some("other".to_string()));
}

#[test]
fn decrypt_leaves_messages_alone() {
    let m = msg("a", STAMP_1999);
    let mut log = LogState::new("Alice", "test");
    log.add_message(m.clone());
    log.decrypt(&m, "x");
    assert_eq!(log.messages().len(), 1);
}

#[test]
fn filename_is_hashed_name_at_group() {
    let log = LogState::new("Alice", "test");
    let expected = format!("./saves/{}.msglog", msglog::naming::calc_hash("Alice@test"));
    assert_eq!(log.filename(), expected);
    assert_eq!(LogState::new("Alice", "test").filename(), log.filename());
    assert_ne!(LogState::new("Bob", "test").filename(), log.filename());
}
