//! Messages, the keys by which they order, and the records kept of them.
use vstd::prelude::*;
use vstd::utf8::encode_utf8;
use crate::crdt_list::Entry;
use crate::naming::{hash_text, text_hash};
use crate::stamp::{parse_instant, parsed_instant, DATE_FMT};

verus! {

/// A signed message of a group.
#[derive(Debug)]
pub struct MessageData {
    pub from: String,
    pub tag: String,
    pub content: String,
    pub signature: String,
    pub signed_time_stamp: String,
}

/// The plain text of a message, kept under the message's id.
#[derive(Debug, PartialEq, Eq)]
pub struct DecryptedData {
    pub id: u64,
    pub content: String,
}

/// A member's key pair.
#[derive(Debug, PartialEq, Eq)]
pub struct KeyPair {
    pub public: String,
    pub private: String,
}

impl Clone for MessageData {
    fn clone(&self) -> (r: Self)
        ensures
            r == *self,
    {
        MessageData {
            from: self.from.clone(),
            tag: self.tag.clone(),
            content: self.content.clone(),
            signature: self.signature.clone(),
            signed_time_stamp: self.signed_time_stamp.clone(),
        }
    }
}

impl Clone for DecryptedData {
    fn clone(&self) -> (r: Self)
        ensures
            r == *self,
    {
        DecryptedData { id: self.id, content: self.content.clone() }
    }
}

impl Clone for KeyPair {
    fn clone(&self) -> (r: Self)
        ensures
            r == *self,
    {
        KeyPair { public: self.public.clone(), private: self.private.clone() }
    }
}

/// Lexicographic order of byte strings, the order of `Ord` on `str`.
pub open spec fn bytes_less(a: Seq<u8>, b: Seq<u8>) -> bool
    decreases a.len(),
{
    if a.len() == 0 {
        b.len() > 0
    } else if b.len() == 0 {
        false
    } else if a[0] != b[0] {
        a[0] < b[0]
    } else {
        bytes_less(a.drop_first(), b.drop_first())
    }
}

/// No byte string is below itself, and of two byte strings at most one is
/// below the other.
pub proof fn lemma_bytes_less_strict(a: Seq<u8>, b: Seq<u8>)
    ensures
        !bytes_less(a, a),
        !(bytes_less(a, b) && bytes_less(b, a)),
    decreases a.len(),
{
    if a.len() > 0 {
        lemma_bytes_less_strict(a.drop_first(), a.drop_first());
        if b.len() > 0 {
            lemma_bytes_less_strict(a.drop_first(), b.drop_first());
        }
    }
}

/// The order of texts as `Ord` on `String` compares them: by their UTF-8 bytes.
pub open spec fn text_less(a: Seq<char>, b: Seq<char>) -> bool {
    bytes_less(encode_utf8(a), encode_utf8(b))
}

/// Whether `a < b`, as `Ord` on `str` compares.
pub fn str_less(a: &str, b: &str) -> (r: bool)
    ensures
        r == text_less(a@, b@),
{
    let x = a.as_bytes();
    let y = b.as_bytes();
    let mut i: usize = 0;
    assert(x@.skip(0) =~= x@);
    assert(y@.skip(0) =~= y@);
    while i < x.len() && i < y.len()
        invariant
            x@ == encode_utf8(a@),
            y@ == encode_utf8(b@),
            0 <= i <= x.len(),
            i <= y.len(),
            bytes_less(x@, y@) == bytes_less(x@.skip(i as int), y@.skip(i as int)),
        decreases x.len() - i,
    {
        if x[i] != y[i] {
            return x[i] < y[i];
        }
        proof {
            assert(x@.skip(i as int).drop_first() =~= x@.skip(i + 1));
            assert(y@.skip(i as int).drop_first() =~= y@.skip(i + 1));
        }
        i = i + 1;
    }
    i == x.len() && i < y.len()
}

/// The order of instants, a missing one first.
pub open spec fn instant_less(a: Option<(i64, u32)>, b: Option<(i64, u32)>) -> bool {
    match (a, b) {
        (None, Some(_)) => true,
        (Some(x), Some(y)) => x.0 < y.0 || (x.0 == y.0 && x.1 < y.1),
        _ => false,
    }
}

/// The key by which entries order and are told apart: their instant, then
/// their sender.
pub open spec fn key_less(a: Entry, b: Entry) -> bool {
    ||| instant_less(a.0, b.0)
    ||| a.0 == b.0 && text_less(a.1@, b.1@)
}

/// Whether two entries share instant and sender, as messages compare equal.
pub open spec fn key_same(a: Entry, b: Entry) -> bool {
    a.0 == b.0 && a.1@ == b.1@
}

/// No entry's key is below itself or below a key it is below, and one below
/// another is not the same key.
pub proof fn lemma_key_less_strict(a: Entry, b: Entry)
    ensures
        !key_less(a, a),
        !(key_less(a, b) && key_less(b, a)),
        key_less(a, b) ==> !key_same(a, b),
{
    lemma_bytes_less_strict(encode_utf8(a.1@), encode_utf8(b.1@));
    lemma_bytes_less_strict(encode_utf8(b.1@), encode_utf8(a.1@));
}

/// An instant as nanoseconds since the Unix epoch.
pub open spec fn instant_nanos(x: (i64, u32)) -> int {
    x.0 * 1_000_000_000 + x.1
}

/// Instants order as time does: of two instants whose nanoseconds stay
/// within their second, one orders before the other exactly when it is
/// earlier in nanoseconds since the epoch, and they are the same instant
/// exactly when those agree.
pub proof fn law_instants_order_as_time(x: (i64, u32), y: (i64, u32))
    requires
        x.1 < 1_000_000_000,
        y.1 < 1_000_000_000,
    ensures
        instant_less(Some(x), Some(y)) <==> instant_nanos(x) < instant_nanos(y),
        x == y <==> instant_nanos(x) == instant_nanos(y),
{
}

/// Entries order by time before sender: of two entries whose stamps read as
/// instants within their second, the earlier orders first, and where the
/// instants agree the sender decides.
pub proof fn law_entries_order_by_time(a: Entry, b: Entry)
    requires
        a.0 is Some,
        b.0 is Some,
        (a.0->0).1 < 1_000_000_000,
        (b.0->0).1 < 1_000_000_000,
    ensures
        instant_nanos(a.0->0) < instant_nanos(b.0->0) ==> key_less(a, b) && !key_less(b, a),
        instant_nanos(a.0->0) == instant_nanos(b.0->0) ==> (key_less(a, b) <==> text_less(a.1@, b.1@)),
{
    law_instants_order_as_time(a.0->0, b.0->0);
    law_instants_order_as_time(b.0->0, a.0->0);
}

/// Whether one instant orders before another, a missing one first.
pub fn instant_before(a: Option<(i64, u32)>, b: Option<(i64, u32)>) -> (r: bool)
    ensures
        r == instant_less(a, b),
{
    match (a, b) {
        (None, Some(_)) => true,
        (Some(x), Some(y)) => x.0 < y.0 || (x.0 == y.0 && x.1 < y.1),
        _ => false,
    }
}

/// Whether entry `a` orders before entry `b` by instant, then sender.
pub fn entry_key_less(a: &Entry, b: &Entry) -> (r: bool)
    ensures
        r == key_less(*a, *b),
{
    if instant_before(a.0, b.0) {
        true
    } else if a.0 == b.0 {
        str_less(a.1.as_str(), b.1.as_str())
    } else {
        false
    }
}

/// Whether two entries share instant and sender.
pub fn entry_key_same(a: &Entry, b: &Entry) -> (r: bool)
    ensures
        r == key_same(*a, *b),
{
    a.0 == b.0 && a.1 == b.1
}

/// The instant of a message's signed time stamp, if it reads as one.
pub open spec fn message_instant(m: MessageData) -> Option<(i64, u32)> {
    parsed_instant(m.signed_time_stamp@, DATE_FMT@)
}

/// The id of a message: the hash of its sender followed by its time stamp.
pub open spec fn message_id(m: MessageData) -> u64 {
    text_hash(m.from@ + m.signed_time_stamp@)
}

/// The entry that stands for a message: the log keeps plain texts apart,
/// so its entries keep none.
pub open spec fn entry_of(m: MessageData) -> Entry {
    (message_instant(m), m.from, m.tag, m.content, m.signature, m.signed_time_stamp, None)
}

/// The message that an entry stands for.
pub open spec fn message_of(e: Entry) -> MessageData {
    MessageData { from: e.1, tag: e.2, content: e.3, signature: e.4, signed_time_stamp: e.5 }
}

/// An entry keeps each field of its message in its own place: the message
/// reads back whole from its entry, with the instant its stamp reads as.
pub proof fn law_entry_reads_back(m: MessageData)
    ensures
        message_of(entry_of(m)) == m,
        entry_of(m).0 == message_instant(m),
        entry_of(m).1 == m.from,
        entry_of(m).2 == m.tag,
        entry_of(m).3 == m.content,
        entry_of(m).4 == m.signature,
        entry_of(m).5 == m.signed_time_stamp,
{
}

impl MessageData {
    /// The instant of the signed time stamp, or `None` where it does not read.
    pub fn time_stamp(&self) -> (r: Option<(i64, u32)>)
        ensures
            r == message_instant(*self),
    {
        parse_instant(self.signed_time_stamp.as_str(), DATE_FMT)
    }

    /// The instant of the signed time stamp, which must read.
    pub fn get_time_stamp(&self) -> (r: (i64, u32))
        requires
            message_instant(*self) is Some,
        ensures
            message_instant(*self) == Some(r),
    {
        parse_instant(self.signed_time_stamp.as_str(), DATE_FMT).unwrap()
    }

    /// The id under which the plain text of this message is kept.
    pub fn get_id(&self) -> (id: u64)
        ensures
            id == message_id(*self),
    {
        let mut key = String::from_str(self.from.as_str());
        key.append(self.signed_time_stamp.as_str());
        hash_text(key.as_str())
    }

    /// The entry that stands for this message, with the given instant.
    pub fn entry_at(&self, instant: Option<(i64, u32)>) -> (e: Entry)
        ensures
            e == (instant, self.from, self.tag, self.content, self.signature, self.signed_time_stamp, None::<String>),
    {
        (
            instant,
            self.from.clone(),
            self.tag.clone(),
            self.content.clone(),
            self.signature.clone(),
            self.signed_time_stamp.clone(),
            None,
        )
    }

    /// The entry that stands for this message.
    pub fn to_entry(&self) -> (e: Entry)
        ensures
            e == entry_of(*self),
    {
        self.entry_at(self.time_stamp())
    }

    /// The message that an entry stands for.
    pub fn from_entry(e: &Entry) -> (m: MessageData)
        ensures
            m == message_of(*e),
    {
        MessageData {
            from: e.1.clone(),
            tag: e.2.clone(),
            content: e.3.clone(),
            signature: e.4.clone(),
            signed_time_stamp: e.5.clone(),
        }
    }
}

} // verus!
