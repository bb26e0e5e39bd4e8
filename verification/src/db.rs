//! The earlier store of a member's messages, which keeps each message's
//! plain text with the message and names its file after the member and group.
use vstd::prelude::*;
use crdts::glist::{GList, Op};
use crdts::Identifier;
use crate::crdt_list::{
    glist_apply, glist_clone, glist_ids, glist_insert_after, glist_last, glist_new, identifier_entry,
    inserted_op, op_identifier, Entry,
};
use crate::stamp::{parse_instant, parsed_instant, DATE_FMT};

verus! {

/// The extension that the store's file name ends with.
pub const FILE_EXT: &'static str = ".rstore";

/// The file name of the store of `name` in `group`: `name@group.` and the
/// extension (which starts with a dot of its own).
pub open spec fn db_file_name(name: Seq<char>, group: Seq<char>) -> Seq<char> {
    name + "@"@ + group + "."@ + FILE_EXT@
}

/// Names the store file of `name` in `group`.
pub fn fmtFileName(name: &str, group: &str) -> (s: String)
    ensures
        s@ == db_file_name(name@, group@),
{
    let mut s = String::from_str(name);
    s.append("@");
    s.append(group);
    s.append(".");
    s.append(FILE_EXT);
    s
}

/// A member's key pair.
#[derive(Debug, PartialEq, Eq)]
pub struct KeyPair {
    pub public: String,
    pub private: String,
}

/// A signed message, with its plain text where it is known.
#[derive(Debug)]
pub struct MessageData {
    pub from: String,
    pub tag: String,
    pub encryptedContent: String,
    pub signature: String,
    pub signedTimeStamp: String,
    pub content: Option<String>,
}

impl Clone for KeyPair {
    fn clone(&self) -> (r: Self)
        ensures
            r == *self,
    {
        KeyPair { public: self.public.clone(), private: self.private.clone() }
    }
}

impl Clone for MessageData {
    fn clone(&self) -> (r: Self)
        ensures
            r == *self,
    {
        MessageData {
            from: self.from.clone(),
            tag: self.tag.clone(),
            encryptedContent: self.encryptedContent.clone(),
            signature: self.signature.clone(),
            signedTimeStamp: self.signedTimeStamp.clone(),
            content: clone_text(&self.content),
        }
    }
}

/// A copy of an optional text.
fn clone_text(t: &Option<String>) -> (r: Option<String>)
    ensures
        r == *t,
{
    match t {
        Some(c) => Some(c.clone()),
        None => None,
    }
}

/// The instant of a message's signed time stamp, if it reads as one.
pub open spec fn db_message_instant(m: MessageData) -> Option<(i64, u32)> {
    parsed_instant(m.signedTimeStamp@, DATE_FMT@)
}

/// The entry that stands for a message.
pub open spec fn db_entry_of(m: MessageData) -> Entry {
    (db_message_instant(m), m.from, m.tag, m.encryptedContent, m.signature, m.signedTimeStamp, m.content)
}

/// The message that an entry of the store stands for.
pub open spec fn db_message_of(e: Entry) -> MessageData {
    MessageData { from: e.1, tag: e.2, encryptedContent: e.3, signature: e.4, signedTimeStamp: e.5, content: e.6 }
}

/// An entry keeps each field of its message in its own place: the message
/// reads back whole from its entry, with the instant its stamp reads as.
pub proof fn law_db_entry_reads_back(m: MessageData)
    ensures
        db_message_of(db_entry_of(m)) == m,
        db_entry_of(m).0 == db_message_instant(m),
        db_entry_of(m).1 == m.from,
        db_entry_of(m).2 == m.tag,
        db_entry_of(m).3 == m.encryptedContent,
        db_entry_of(m).4 == m.signature,
        db_entry_of(m).5 == m.signedTimeStamp,
        db_entry_of(m).6 == m.content,
{
}

/// The message that the store adds last reads back from its last entry as
/// it was added.
pub proof fn law_db_added_reads_back(es: Seq<Entry>, m: MessageData)
    ensures
        db_message_of(es.push(db_entry_of(m)).last()) == m,
        es.push(db_entry_of(m)).last().2 == m.tag,
        es.push(db_entry_of(m)).last().4 == m.signature,
{
    law_db_entry_reads_back(m);
}

impl MessageData {
    /// The instant of the signed time stamp, or `None` where it does not read.
    pub fn time_stamp(&self) -> (r: Option<(i64, u32)>)
        ensures
            r == db_message_instant(*self),
    {
        parse_instant(self.signedTimeStamp.as_str(), DATE_FMT)
    }

    /// The instant of the signed time stamp, which must read.
    pub fn getTimeStamp(&self) -> (r: (i64, u32))
        requires
            db_message_instant(*self) is Some,
        ensures
            db_message_instant(*self) == Some(r),
    {
        parse_instant(self.signedTimeStamp.as_str(), DATE_FMT).unwrap()
    }

    /// The entry that stands for this message.
    pub fn to_entry(&self) -> (e: Entry)
        ensures
            e == db_entry_of(*self),
    {
        let content = clone_text(&self.content);
        (
            self.time_stamp(),
            self.from.clone(),
            self.tag.clone(),
            self.encryptedContent.clone(),
            self.signature.clone(),
            self.signedTimeStamp.clone(),
            content,
        )
    }
}

impl Clone for DB {
    fn clone(&self) -> (r: Self)
        ensures
            r.ids() == self.ids(),
            r.wf() == self.wf(),
            r.group == self.group,
            r.name == self.name,
            r.idKeys == self.idKeys,
    {
        DB {
            msgs: glist_clone(&self.msgs),
            group: self.group.clone(),
            name: self.name.clone(),
            idKeys: self.idKeys.clone(),
        }
    }
}

/// The store of a member's messages in a group.
#[derive(Debug, PartialEq, Eq)]
pub struct DB {
    pub msgs: GList<Entry>,
    pub group: String,
    pub name: String,
    pub idKeys: KeyPair,
}

impl DB {
    /// The identifiers that the store's list holds, in order.
    pub open spec fn ids(self) -> Seq<Identifier<Entry>> {
        glist_ids(self.msgs)
    }

    /// The entries of the store, in order.
    pub open spec fn entries(self) -> Seq<Entry> {
        self.ids().map_values(|id: Identifier<Entry>| identifier_entry(id)->0)
    }

    /// Every identifier of the list ends with an entry.
    pub open spec fn wf(self) -> bool {
        forall|i: int| 0 <= i < self.ids().len() ==> (identifier_entry(#[trigger] self.ids()[i]) is Some)
    }

    /// The op that putting `e` after the last entry makes.
    pub open spec fn append_op(self, e: Entry) -> Op<Entry> {
        inserted_op(self.msgs, if self.ids().len() > 0 { Some(self.ids().last()) } else { None }, e)
    }

    /// A store of `name` in `group` that holds nothing yet, with empty keys.
    pub fn new(name: &str, group: &str) -> (db: DB)
        ensures
            db.wf(),
            db.ids() == Seq::<Identifier<Entry>>::empty(),
            db.name@ == name@,
            db.group@ == group@,
            db.idKeys.public@ == Seq::<char>::empty(),
            db.idKeys.private@ == Seq::<char>::empty(),
    {
        DB {
            msgs: glist_new(),
            group: String::from_str(group),
            name: String::from_str(name),
            idKeys: KeyPair { public: String::new(), private: String::new() },
        }
    }

    /// The name of the file that holds this store.
    pub fn getFileName(&self) -> (f: String)
        ensures
            f@ == db_file_name(self.name@, self.group@),
    {
        fmtFileName(self.name.as_str(), self.group.as_str())
    }

    /// Adds a message after the last one of the list.
    pub fn addMessage(&mut self, msg: MessageData)
        requires
            old(self).wf(),
        ensures
            final(self).wf(),
            final(self).ids() == old(self).ids().push(op_identifier(old(self).append_op(db_entry_of(msg)))),
            identifier_entry(op_identifier(old(self).append_op(db_entry_of(msg)))) == Some(db_entry_of(msg)),
            final(self).entries() == old(self).entries().push(db_entry_of(msg)),
            final(self).name == old(self).name,
            final(self).group == old(self).group,
            final(self).idKeys == old(self).idKeys,
    {
        let entry = msg.to_entry();
        let last = glist_last(&self.msgs);
        let op = glist_insert_after(&self.msgs, last, entry);
        let ghost id = op_identifier(op);
        let ghost before = self.ids();
        proof {
            if before.len() > 0 {
                assert(before[before.len() - 1] == before.last());
                assert(identifier_entry(before[before.len() - 1]) is Some);
            }
        }
        glist_apply(&mut self.msgs, op);
        assert(self.ids() =~= before.push(id));
        assert forall|i: int| 0 <= i < self.ids().len() implies (identifier_entry(#[trigger] self.ids()[i]) is Some) by {
            if i < before.len() {
                assert(self.ids()[i] == before[i]);
            }
        }
        assert(self.entries() =~= old(self).entries().push(db_entry_of(msg)));
    }
}

} // verus!
