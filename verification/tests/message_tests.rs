use std::cmp::Ordering;
use std::collections::hash_map::DefaultHasher;
use std::hash::{Hash, Hasher};

use msglog::message::{str_less, MessageData};
use msglog::naming::{calc_hash, fmt_file_name, hash_text, u64_to_decimal};

fn msg(from: &str, stamp: &str) -> MessageData {
    MessageData {
        from: from.to_string(),
        tag: "t".to_string(),
        content: "c".to_string(),
        signature: "s".to_string(),
        signed_time_stamp: stamp.to_string(),
    }
}

fn std_hash(text: &str) -> u64 {
    let mut hasher = DefaultHasher::new();
    text.to_string().hash(&mut hasher);
    hasher.finish()
}

#[test]
fn time_stamp_reads_as_utc_instant() {
    assert_eq!(msg("a", "1999 Jun 8 12:09:14.274 +0000").time_stamp(), Some((928843754, 274_000_000)));
    assert_eq!(msg("a", "2022 Aug 17 1:09:01.666 +0000").time_stamp(), Some((1660698541, 666_000_000)));
    assert_eq!(msg("a", "2022 Aug 17 3:09:01.666 +0200").time_stamp(), Some((1660698541, 666_000_000)));
    assert_eq!(msg("a", "1999-06-08").time_stamp(), None);
    assert_eq!(msg("a", "1999 Jun 8 12:09:14.274 +0000").get_time_stamp(), (928843754, 274_000_000));
}

#[test]
fn entry_keeps_the_message() {
    let m = msg("a", "1999 Jun 8 12:09:14.274 +0000");
    let e = m.to_entry();
    assert_eq!(e.0, Some((928843754, 274_000_000)));
    assert_eq!(e.1, "a");
    assert_eq!(e.6, None);
    assert!(MessageData::from_entry(&e) == m);
}

#[test]
fn id_is_hash_of_sender_and_stamp() {
    let m = msg("Alice", "1999 Jun 8 12:09:14.274 +0000");
    assert_eq!(m.get_id(), std_hash("Alice1999 Jun 8 12:09:14.274 +0000"));
    assert_ne!(m.get_id(), msg("Bob", "1999 Jun 8 12:09:14.274 +0000").get_id());
}

#[test]
fn hash_matches_std_default_hasher() {
    assert_eq!(hash_text("abc"), std_hash("abc"));
    assert_eq!(hash_text(""), std_hash(""));
    assert_ne!(hash_text("abc"), hash_text("abd"));
}

#[test]
fn calc_hash_writes_decimal() {
    assert_eq!(calc_hash("Alice@test"), format!("{}", std_hash("Alice@test")));
}

#[test]
fn decimal_of_u64() {
    assert_eq!(u64_to_decimal(0), "0");
    assert_eq!(u64_to_decimal(7), "7");
    assert_eq!(u64_to_decimal(10), "10");
    assert_eq!(u64_to_decimal(1234567890), "1234567890");
    assert_eq!(u64_to_decimal(u64::MAX), "18446744073709551615");
}

#[test]
fn store_file_name() {
    assert_eq!(fmt_file_name("Alice", "test"), format!("./saves/{}.msglog", std_hash("Alice@test")));
}

#[test]
fn text_order_is_byte_order() {
    assert!(str_less("a", "b"));
    assert!(!str_less("b", "a"));
    assert!(str_less("a", "ab"));
    assert!(!str_less("ab", "ab"));
    assert!(str_less("", "a"));
    assert!(!str_less("", ""));
    assert!(str_less("Z", "a"));
    assert!(str_less("z", "é"));
}

#[test]
fn messages_compare_by_instant_then_sender() {
    let early = msg("b", "2022 Aug 17 1:09:01.000 +0000");
    let late = msg("a", "2022 Aug 17 1:09:02.000 +0000");
    assert_eq!(early.partial_cmp(&late), Some(Ordering::Less));
    assert_eq!(late.partial_cmp(&early), Some(Ordering::Greater));
    let a = msg("a", "2022 Aug 17 1:09:01.000 +0000");
    assert_eq!(a.partial_cmp(&early), Some(Ordering::Less));
    let same = msg("b", "2022 Aug 17 3:09:01.000 +0200");
    assert_eq!(early.partial_cmp(&same), Some(Ordering::Equal));
    assert!(early == same);
    assert!(early != a);
    let bad = msg("b", "never");
    assert_eq!(bad.partial_cmp(&early), Some(Ordering::Less));
    assert_eq!(early.partial_cmp(&bad), Some(Ordering::Greater));
    assert!(bad == bad.clone());
    assert!(bad != msg("c", "never"));
}
