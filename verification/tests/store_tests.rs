use magic_crypt::{MagicCrypt256, MagicCryptTrait};
use msglog::db::{fmtFileName, MessageData, DB};
use msglog::seal::{open_store, seal_store, SealError};

#[test]
fn sealed_text_opens() {
    let text = "{\"name\":\"Alice\"}";
    let sealed = seal_store(text, "pass");
    assert_ne!(sealed, text);
    assert_eq!(open_store(&sealed, "pass"), Ok(text.to_string()));
}

#[test]
fn seal_matches_magic_crypt() {
    let mc = MagicCrypt256::new("pass", None::<&[u8]>);
    assert_eq!(seal_store("hello", "pass"), mc.encrypt_str_to_base64("hello"));
    assert_ne!(seal_store("hello", "pass"), seal_store("hello", "other"));
}

#[test]
fn wrong_password_or_text_does_not_open() {
    let sealed = seal_store("some text", "pass");
    assert_ne!(open_store(&sealed, "wrong"), Ok("some text".to_string()));
    assert_eq!(open_store("not base64!", "pass"), Err(SealError::Decrypt));
}

fn db_msg(stamp: &str) -> MessageData {
    MessageData {
        from: "a".to_string(),
        tag: "t".to_string(),
        encryptedContent: "x".to_string(),
        signature: "s".to_string(),
        signedTimeStamp: stamp.to_string(),
        content: Some("plain".to_string()),
    }
}

#[test]
fn db_file_name() {
    assert_eq!(fmtFileName("Alice", "test"), "Alice@test..rstore");
    assert_eq!(DB::new("Alice", "test").getFileName(), "Alice@test..rstore");
}

#[test]
fn db_add_message_appends() {
    let mut db = DB::new("Alice", "test");
    db.addMessage(db_msg("2022 Aug 17 1:09:02.000 +0000"));
    db.addMessage(db_msg("2022 Aug 17 1:09:01.000 +0000"));
    db.addMessage(db_msg("not a stamp"));
    let before = db.clone();
    assert!(before == db);
    db.addMessage(db_msg("not a stamp"));
    assert!(before != db);
    let e = db_msg("x").to_entry();
    assert_eq!(e.6, Some("plain".to_string()));
    assert_eq!(e.0, None);
}

#[test]
fn db_messages_compare_by_instant() {
    let a = db_msg("2022 Aug 17 1:09:01.000 +0000");
    let b = db_msg("2022 Aug 17 1:09:02.000 +0000");
    assert!(a < b);
    assert!(a == a.clone());
    assert_eq!(a.getTimeStamp(), (1660698541, 0));
    assert_eq!(db_msg("never").time_stamp(), None);
}
