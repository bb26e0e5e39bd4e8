//! The message log of a member in a group: a grow-only list of entries that
//! members exchange as insert ops, and the plain texts kept of messages.
use vstd::prelude::*;
use crdts::glist::{GList, Op};
use crdts::Identifier;
use crate::crdt_list::{
    glist_apply, glist_clone, glist_get, glist_ids, glist_insert_after, glist_last, glist_len, glist_new,
    identifier_entry, identifier_equiv, identifier_value, ids_after_insert, ids_hold, inserted_op,
    lemma_ids_below_bound, op_clone, op_identifier, order_closed, strictly_sorted, Entry,
};
use crate::message::{
    entry_key_less, entry_key_same, entry_of, key_less, key_same, lemma_key_less_strict, message_id, message_instant,
    message_of, DecryptedData, KeyPair, MessageData,
};
use crate::naming::{fmt_file_name, store_file_name};
use crate::stamp::{parse_instant, parsed_instant, DATE_FMT};

verus! {

/// Why the log refused a message.
#[derive(Debug, PartialEq, Eq, Structural)]
pub enum LogError {
    /// A signed time stamp that adding the message compares does not read
    /// as an instant: the message's own, or that of an entry it is compared
    /// with.
    BadTimeStamp,
}

/// The state of a member's log in a group.
#[derive(Debug, PartialEq, Eq)]
pub struct LogState {
    msgs: GList<Entry>,
    decrypted_data: Vec<DecryptedData>,
    pub group: String,
    pub name: String,
    pub id_keys: KeyPair,
}

impl Clone for LogState {
    fn clone(&self) -> (r: Self)
        ensures
            r.ids() == self.ids(),
            r.records() == self.records(),
            r.group_of() == self.group_of(),
            r.name_of() == self.name_of(),
            r.keys_of() == self.keys_of(),
    {
        LogState {
            msgs: glist_clone(&self.msgs),
            decrypted_data: self.decrypted_data.clone(),
            group: self.group.clone(),
            name: self.name.clone(),
            id_keys: self.id_keys.clone(),
        }
    }
}

/// Whether an entry's time stamp reads, as the instant that the entry holds.
pub open spec fn entry_reads(e: Entry) -> bool {
    e.0 is Some && parsed_instant(e.5@, DATE_FMT@) == e.0
}

/// The index at which a scan of `es` for `e` stops: the first entry with the
/// key of `e` or a greater one, or the end.
pub open spec fn first_stop(es: Seq<Entry>, e: Entry) -> nat
    decreases es.len(),
{
    if es.len() == 0 {
        0
    } else if key_same(es[0], e) || key_less(e, es[0]) {
        0
    } else {
        1 + first_stop(es.drop_first(), e)
    }
}

/// Whether every entry that a scan of `es` for `e` compares with `e` (those
/// up to where it stops) has a time stamp that reads.
pub open spec fn scan_reads(es: Seq<Entry>, e: Entry) -> bool {
    forall|j: int| 0 <= j < es.len() && j <= first_stop(es, e) ==> entry_reads(#[trigger] es[j])
}

/// Whether adding a message to a log with entries `es` compares no time
/// stamp that does not read: the log is empty (nothing is compared), or the
/// message's stamp and those of the entries that the scan passes read.
pub open spec fn add_reads(es: Seq<Entry>, m: MessageData) -> bool {
    es.len() == 0 || (message_instant(m) is Some && scan_reads(es, entry_of(m)))
}

/// Whether adding `e` to `es` is refused: the scan stops at an entry with
/// the same key.
pub open spec fn add_refused(es: Seq<Entry>, e: Entry) -> bool {
    first_stop(es, e) < es.len() && key_same(es[first_stop(es, e) as int], e)
}

/// Where an added entry comes to stand: right after the entry at which the
/// scan stops, or at the end.
pub open spec fn add_position(es: Seq<Entry>, e: Entry) -> nat {
    if first_stop(es, e) < es.len() {
        first_stop(es, e) + 1
    } else {
        es.len()
    }
}

/// The entries after adding `e` to `es`.
pub open spec fn entries_after_add(es: Seq<Entry>, e: Entry) -> Seq<Entry> {
    if add_refused(es, e) {
        es
    } else {
        es.insert(add_position(es, e) as int, e)
    }
}

/// The first plain text kept under `id`, if any.
pub open spec fn find_record(rs: Seq<(u64, Seq<char>)>, id: u64) -> Option<Seq<char>>
    decreases rs.len(),
{
    if rs.len() == 0 {
        None
    } else if rs[0].0 == id {
        Some(rs[0].1)
    } else {
        find_record(rs.drop_first(), id)
    }
}

proof fn lemma_first_stop(es: Seq<Entry>, e: Entry, k: int)
    requires
        0 <= k <= es.len(),
        forall|j: int| 0 <= j < k ==> !(key_same(#[trigger] es[j], e) || key_less(e, es[j])),
        k == es.len() || key_same(es[k], e) || key_less(e, es[k]),
    ensures
        first_stop(es, e) == k,
    decreases k,
{
    if k > 0 {
        let rest = es.drop_first();
        assert forall|j: int| 0 <= j < k - 1 implies !(key_same(#[trigger] rest[j], e) || key_less(e, rest[j])) by {
            assert(rest[j] == es[j + 1]);
        }
        assert(!(key_same(es[0], e) || key_less(e, es[0])));
        lemma_first_stop(rest, e, k - 1);
    }
}

proof fn lemma_find_record(rs: Seq<(u64, Seq<char>)>, id: u64, k: int)
    requires
        0 <= k <= rs.len(),
        forall|j: int| 0 <= j < k ==> (#[trigger] rs[j]).0 != id,
        k == rs.len() || rs[k].0 == id,
    ensures
        find_record(rs, id) == if k < rs.len() { Some(rs[k].1) } else { None },
    decreases k,
{
    if k > 0 {
        let rest = rs.drop_first();
        assert forall|j: int| 0 <= j < k - 1 implies (#[trigger] rest[j]).0 != id by {
            assert(rest[j] == rs[j + 1]);
        }
        assert(rs[0].0 != id);
        lemma_find_record(rest, id, k - 1);
    }
}

/// Where a scan stops: every entry before it lets the scan go on, and the
/// entry at it, if any, stops it.
pub proof fn lemma_first_stop_facts(es: Seq<Entry>, e: Entry)
    ensures
        first_stop(es, e) <= es.len(),
        forall|j: int| 0 <= j < first_stop(es, e) ==> !(key_same(#[trigger] es[j], e) || key_less(e, es[j])),
        first_stop(es, e) < es.len() ==> key_same(es[first_stop(es, e) as int], e) || key_less(e, es[first_stop(es, e) as int]),
    decreases es.len(),
{
    if es.len() > 0 && !(key_same(es[0], e) || key_less(e, es[0])) {
        let rest = es.drop_first();
        lemma_first_stop_facts(rest, e);
        assert forall|j: int| 0 <= j < first_stop(es, e) implies !(key_same(#[trigger] es[j], e) || key_less(e, es[j])) by {
            if j > 0 {
                assert(es[j] == rest[j - 1]);
            }
        }
        if first_stop(es, e) < es.len() {
            assert(es[first_stop(es, e) as int] == rest[first_stop(rest, e) as int]);
        }
    }
}

/// Adding a message a second time is refused, where the first add put it at
/// the end of the log or was itself refused.
pub proof fn law_second_add_refused(es: Seq<Entry>, e: Entry)
    requires
        first_stop(es, e) == es.len() || add_refused(es, e),
    ensures
        add_refused(entries_after_add(es, e), e),
{
    lemma_first_stop_facts(es, e);
    if !add_refused(es, e) {
        let es2 = entries_after_add(es, e);
        assert(es2 == es.push(e));
        assert forall|j: int| 0 <= j < es.len() implies !(key_same(#[trigger] es2[j], e) || key_less(e, es2[j])) by {
            assert(es2[j] == es[j]);
        }
        lemma_first_stop(es2, e, es.len() as int);
    }
}

/// A message goes right after the first entry with a greater key: where each
/// of the first `k` entries has a smaller key than the message and the entry
/// at `k` a greater one, adding it is not refused and puts it at `k + 1`,
/// whatever follows.
pub proof fn law_insert_after_first_greater(es: Seq<Entry>, e: Entry, k: int)
    requires
        0 <= k < es.len(),
        forall|j: int| 0 <= j < k ==> key_less(#[trigger] es[j], e),
        key_less(e, es[k]),
    ensures
        !add_refused(es, e),
        entries_after_add(es, e) == es.insert(k + 1, e),
        entries_after_add(es, e)[k] == es[k],
        entries_after_add(es, e)[k + 1] == e,
{
    assert forall|j: int| 0 <= j < k implies !(key_same(#[trigger] es[j], e) || key_less(e, es[j])) by {
        lemma_key_less_strict(es[j], e);
    }
    lemma_key_less_strict(e, es[k]);
    lemma_first_stop(es, e, k);
}

/// Where the message's time stamp and that of every entry read, adding the
/// message compares nothing that fails to read, so the checked add goes
/// ahead; where it is refused, the entries stay as they were.
pub proof fn law_readable_stamps_add(es: Seq<Entry>, m: MessageData)
    requires
        message_instant(m) is Some,
        forall|j: int| 0 <= j < es.len() ==> entry_reads(#[trigger] es[j]),
    ensures
        add_reads(es, m),
        add_refused(es, entry_of(m)) ==> entries_after_add(es, entry_of(m)) == es,
{
}

/// A message that the log already holds, at an entry that the scan reaches
/// (every entry before it has a smaller key), is refused and leaves the
/// entries as they were; where the time stamps read, the checked add refuses
/// it without an error.
pub proof fn law_duplicate_refused(es: Seq<Entry>, m: MessageData, k: int)
    requires
        0 <= k < es.len(),
        forall|j: int| 0 <= j < k ==> key_less(#[trigger] es[j], entry_of(m)),
        key_same(es[k], entry_of(m)),
    ensures
        add_refused(es, entry_of(m)),
        entries_after_add(es, entry_of(m)) == es,
        message_instant(m) is Some && (forall|j: int| 0 <= j < es.len() ==> entry_reads(#[trigger] es[j]))
            ==> add_reads(es, m),
{
    let e = entry_of(m);
    assert forall|j: int| 0 <= j < k implies !(key_same(#[trigger] es[j], e) || key_less(e, es[j])) by {
        lemma_key_less_strict(es[j], e);
    }
    lemma_first_stop(es, e, k);
}

/// Whether the keys of `es` ascend strictly.
pub open spec fn keys_ascending(es: Seq<Entry>) -> bool {
    forall|i: int, j: int| 0 <= i < j < es.len() ==> key_less(#[trigger] es[i], #[trigger] es[j])
}

/// Messages added in ascending order of their keys keep the log in that
/// order: an entry above every entry goes at the end.
pub proof fn law_in_order_adds_stay_sorted(es: Seq<Entry>, e: Entry)
    requires
        keys_ascending(es),
        forall|i: int| 0 <= i < es.len() ==> key_less(#[trigger] es[i], e),
    ensures
        entries_after_add(es, e) == es.push(e),
        keys_ascending(entries_after_add(es, e)),
{
    assert forall|j: int| 0 <= j < es.len() implies !(key_same(#[trigger] es[j], e) || key_less(e, es[j])) by {
        lemma_key_less_strict(es[j], e);
    }
    lemma_first_stop(es, e, es.len() as int);
    let after = es.push(e);
    assert(entries_after_add(es, e) =~= after);
    assert forall|i: int, j: int| 0 <= i < j < after.len() implies key_less(#[trigger] after[i], #[trigger] after[j]) by {
        if j < es.len() {
            assert(after[i] == es[i] && after[j] == es[j]);
        } else {
            assert(after[i] == es[i]);
        }
    }
}

/// Applying an insert op whose identifier a list holds changes nothing.
pub proof fn law_reapply_changes_nothing(ids: Seq<Identifier<Entry>>, id: Identifier<Entry>)
    requires
        strictly_sorted(ids),
        ids.contains(id),
    ensures
        ids_after_insert(ids, id) == ids,
{
    let k = choose|k: int| 0 <= k < ids.len() && ids[k] == id;
    assert(identifier_equiv(ids[k], id));
}

/// Applying an insert op twice does what applying it once does.
pub proof fn law_apply_idempotent(ids: Seq<Identifier<Entry>>, id: Identifier<Entry>)
    requires
        strictly_sorted(ids_after_insert(ids, id)),
    ensures
        ids_after_insert(ids_after_insert(ids, id), id) == ids_after_insert(ids, id),
{
    if !ids_hold(ids, id) {
        lemma_ids_below_bound(ids, id);
        let p = crate::crdt_list::ids_below(ids, id) as int;
        assert(ids_after_insert(ids, id)[p] == id);
        law_reapply_changes_nothing(ids_after_insert(ids, id), id);
    }
}

/// A plain text kept for a message is found for it afterwards: the one just
/// kept, unless one was kept for that id before, which is found first.
pub proof fn law_decrypted_after_decrypt(rs: Seq<(u64, Seq<char>)>, id: u64, c: Seq<char>)
    ensures
        find_record(rs.push((id, c)), id) == match find_record(rs, id) {
            Some(first) => Some(first),
            None => Some(c),
        },
    decreases rs.len(),
{
    if rs.len() > 0 {
        assert(rs.push((id, c)).drop_first() =~= rs.drop_first().push((id, c)));
        law_decrypted_after_decrypt(rs.drop_first(), id, c);
    }
}

impl LogState {
    /// The identifiers that the log's list holds, in order.
    pub closed spec fn ids(self) -> Seq<Identifier<Entry>> {
        glist_ids(self.msgs)
    }

    /// The log's group.
    pub closed spec fn group_of(self) -> String {
        self.group
    }

    /// The log's member name.
    pub closed spec fn name_of(self) -> String {
        self.name
    }

    /// The member's keys.
    pub closed spec fn keys_of(self) -> KeyPair {
        self.id_keys
    }

    /// The entries of the log, in order.
    pub open spec fn entries(self) -> Seq<Entry> {
        self.ids().map_values(|id: Identifier<Entry>| identifier_entry(id)->0)
    }

    /// The plain texts kept, as (message id, text), in the order kept.
    pub closed spec fn records(self) -> Seq<(u64, Seq<char>)> {
        self.decrypted_data@.map_values(|d: DecryptedData| (d.id, d.content@))
    }

    /// Every identifier of the list has a non-empty path, so it ends with an
    /// entry.
    pub open spec fn wf(self) -> bool {
        forall|i: int| 0 <= i < self.ids().len() ==> (identifier_entry(#[trigger] self.ids()[i]) is Some)
    }

    /// The insert op that adding `e` to this log makes.
    pub closed spec fn add_op(self, e: Entry) -> Op<Entry> {
        let es = self.entries();
        let k = first_stop(es, e);
        let low = if k < es.len() {
            Some(self.ids()[k as int])
        } else if es.len() > 0 {
            Some(self.ids().last())
        } else {
            None
        };
        inserted_op(self.msgs, low, e)
    }

    /// A log made of its parts, as a store holds them.
    pub fn from_parts(
        msgs: GList<Entry>,
        decrypted_data: Vec<DecryptedData>,
        group: String,
        name: String,
        id_keys: KeyPair,
    ) -> (s: LogState)
        ensures
            s.ids() == glist_ids(msgs),
            s.records() == decrypted_data@.map_values(|d: DecryptedData| (d.id, d.content@)),
            s.group_of() == group,
            s.name_of() == name,
            s.keys_of() == id_keys,
    {
        LogState { msgs, decrypted_data, group, name, id_keys }
    }

    /// The log's list.
    pub fn msgs(&self) -> (l: &GList<Entry>)
        ensures
            glist_ids(*l) == self.ids(),
    {
        &self.msgs
    }

    /// The plain texts kept, in the order kept.
    pub fn decrypted_data(&self) -> (d: &Vec<DecryptedData>)
        ensures
            d@.map_values(|x: DecryptedData| (x.id, x.content@)) == self.records(),
    {
        &self.decrypted_data
    }

    /// A log of `name` in `group` that holds nothing yet, with empty keys.
    pub fn new(name: &str, group: &str) -> (s: LogState)
        ensures
            s.wf(),
            s.ids() == Seq::<Identifier<Entry>>::empty(),
            s.records() == Seq::<(u64, Seq<char>)>::empty(),
            s.name_of()@ == name@,
            s.group_of()@ == group@,
            s.keys_of().public@ == Seq::<char>::empty(),
            s.keys_of().private@ == Seq::<char>::empty(),
    {
        let s = LogState {
            msgs: glist_new(),
            decrypted_data: Vec::new(),
            group: String::from_str(group),
            name: String::from_str(name),
            id_keys: KeyPair { public: String::new(), private: String::new() },
        };
        assert(s.records() =~= Seq::<(u64, Seq<char>)>::empty());
        s
    }

    /// The name of the file that stores this log.
    pub fn filename(&self) -> (f: String)
        ensures
            f@ == store_file_name(self.name_of()@, self.group_of()@),
    {
        fmt_file_name(self.name.as_str(), self.group.as_str())
    }

    /// The messages of the log, in order.
    pub fn messages(&self) -> (ms: Vec<MessageData>)
        requires
            self.wf(),
        ensures
            ms@ == self.entries().map_values(|e: Entry| message_of(e)),
    {
        let n = glist_len(&self.msgs);
        let mut ms: Vec<MessageData> = Vec::new();
        let mut i: usize = 0;
        while i < n
            invariant
                self.wf(),
                n == self.ids().len(),
                0 <= i <= n,
                ms@ == self.entries().map_values(|e: Entry| message_of(e)).subrange(0, i as int),
            decreases n - i,
        {
            let id = glist_get(&self.msgs, i).unwrap();
            assert(identifier_entry(self.ids()[i as int]) is Some);
            let e = identifier_value(id);
            ms.push(MessageData::from_entry(e));
            assert(ms@ =~= self.entries().map_values(|e: Entry| message_of(e)).subrange(0, i + 1));
            i = i + 1;
        }
        assert(ms@ =~= self.entries().map_values(|e: Entry| message_of(e)));
        ms
    }

    /// Keeps the plain text of a message, under the message's id.
    pub fn decrypt(&mut self, msg: &MessageData, content: &str)
        ensures
            final(self).records() == old(self).records().push((message_id(*msg), content@)),
            final(self).ids() == old(self).ids(),
            final(self).name_of() == old(self).name_of(),
            final(self).group_of() == old(self).group_of(),
            final(self).keys_of() == old(self).keys_of(),
    {
        let d = DecryptedData { id: msg.get_id(), content: String::from_str(content) };
        self.decrypted_data.push(d);
        assert(self.records() =~= old(self).records().push((message_id(*msg), content@)));
    }

    /// The first plain text kept for a message, if any.
    pub fn decrypted(&self, msg: &MessageData) -> (r: Option<String>)
        ensures
            match find_record(self.records(), message_id(*msg)) {
                Some(c) => r matches Some(t) && t@ == c,
                None => r is None,
            },
    {
        let id = msg.get_id();
        let mut i: usize = 0;
        while i < self.decrypted_data.len()
            invariant
                0 <= i <= self.decrypted_data.len(),
                id == message_id(*msg),
                forall|j: int| 0 <= j < i ==> (#[trigger] self.records()[j]).0 != id,
                self.records().len() == self.decrypted_data.len(),
            decreases self.decrypted_data.len() - i,
        {
            assert(self.records()[i as int] == (self.decrypted_data@[i as int].id, self.decrypted_data@[i as int].content@));
            if self.decrypted_data[i].id == id {
                proof { lemma_find_record(self.records(), id, i as int); }
                return Some(self.decrypted_data[i].content.clone());
            }
            i = i + 1;
        }
        proof { lemma_find_record(self.records(), id, i as int); }
        None
    }

    /// Adds a message, where no time stamp that the scan compares fails to
    /// read (where one fails, comparing messages panics). The list is scanned in order
    /// for the first entry with the message's key (refused: nothing changes,
    /// `None`) or with a greater key (the message goes right after it); with
    /// neither, the message goes at the end. An added message comes back as
    /// the insert op that carried it, for other members to apply.
    pub fn add_message(&mut self, msg: MessageData) -> (r: Option<Op<Entry>>)
        requires
            old(self).wf(),
            add_reads(old(self).entries(), msg),
        ensures
            final(self).wf(),
            final(self).entries() == entries_after_add(old(self).entries(), entry_of(msg)),
            add_refused(old(self).entries(), entry_of(msg)) ==> r is None && *final(self) == *old(self),
            !add_refused(old(self).entries(), entry_of(msg)) ==> {
                let op = old(self).add_op(entry_of(msg));
                &&& r == Some(op)
                &&& !ids_hold(old(self).ids(), op_identifier(op))
                &&& final(self).ids() == ids_after_insert(old(self).ids(), op_identifier(op))
                &&& final(self).ids().contains(op_identifier(op))
                &&& strictly_sorted(final(self).ids())
                &&& order_closed(final(self).ids())
                &&& identifier_entry(op_identifier(op)) == Some(entry_of(msg))
                &&& final(self).ids() == old(self).ids().insert(
                    add_position(old(self).entries(), entry_of(msg)) as int,
                    op_identifier(op),
                )
            },
            final(self).records() == old(self).records(),
            final(self).name_of() == old(self).name_of(),
            final(self).group_of() == old(self).group_of(),
            final(self).keys_of() == old(self).keys_of(),
    {
        let ghost es = self.entries();
        let ghost e = entry_of(msg);
        let ghost ids = self.ids();
        let entry = msg.to_entry();
        let n = glist_len(&self.msgs);
        let mut i: usize = 0;
        while i < n
            invariant
                *self == *old(self),
                self.wf(),
                ids == self.ids(),
                es == self.entries(),
                entry == e,
                e == entry_of(msg),
                n == ids.len(),
                0 <= i <= n,
                forall|j: int| 0 <= j < i ==> !(key_same(#[trigger] es[j], e) || key_less(e, es[j])),
            decreases n - i,
        {
            let id = glist_get(&self.msgs, i).unwrap();
            assert(identifier_entry(ids[i as int]) is Some);
            let other = identifier_value(id);
            assert(*other == es[i as int]);
            if entry_key_same(other, &entry) {
                proof {
                    lemma_first_stop(es, e, i as int);
                    assert(add_refused(es, e));
                    assert(entries_after_add(es, e) == es);
                    assert(es == old(self).entries());
                    assert(self.entries() == old(self).entries());
                }
                return None;
            } else if entry_key_less(&entry, other) {
                proof {
                    lemma_first_stop(es, e, i as int);
                    assert(!add_refused(es, e));
                    assert(add_position(es, e) == i + 1);
                }
                let op = glist_insert_after(&self.msgs, Some(id), entry);
                assert(op == old(self).add_op(e));
                let ghost op_id = op_identifier(op);
                glist_apply(&mut self.msgs, op_clone(&op));
                proof {
                    assert(self.ids() == ids.insert(i + 1, op_id));
                    assert(self.ids()[i + 1] == op_id);
                    self.lemma_inserted(old(self).msgs, i + 1, e);
                    assert(es == old(self).entries());
                    assert(ids == old(self).ids());
                    assert(self.entries() == entries_after_add(es, e));
                }
                return Some(op);
            }
            i = i + 1;
        }
        proof { lemma_first_stop(es, e, n as int); }
        let last = glist_last(&self.msgs);
        let op = glist_insert_after(&self.msgs, last, entry);
        assert(op == old(self).add_op(e));
        let ghost op_id = op_identifier(op);
        glist_apply(&mut self.msgs, op_clone(&op));
        proof {
            assert(self.ids() == ids.insert(n as int, op_id));
            assert(self.ids()[n as int] == op_id);
            self.lemma_inserted(old(self).msgs, n as int, e);
            assert(es == old(self).entries());
            assert(ids == old(self).ids());
            assert(!add_refused(es, e));
            assert(add_position(es, e) == n);
            assert(self.entries() == entries_after_add(es, e));
        }
        Some(op)
    }

    /// What an insert at `pos` of an identifier that ends with `e`
    /// does to the entries, and that it keeps the log well formed.
    proof fn lemma_inserted(self, before: GList<Entry>, pos: int, e: Entry)
        requires
            0 <= pos <= glist_ids(before).len(),
            forall|i: int| 0 <= i < glist_ids(before).len() ==> (identifier_entry(#[trigger] glist_ids(before)[i]) is Some),
            exists|id: Identifier<Entry>| identifier_entry(id) == Some(e) && self.ids() == glist_ids(before).insert(pos, id),
        ensures
            self.wf(),
            self.entries() == glist_ids(before).map_values(|id: Identifier<Entry>| identifier_entry(id)->0).insert(pos, e),
    {
        let id = choose|id: Identifier<Entry>| identifier_entry(id) == Some(e) && self.ids() == glist_ids(before).insert(pos, id);
        let old_ids = glist_ids(before);
        assert forall|i: int| 0 <= i < self.ids().len() implies (identifier_entry(#[trigger] self.ids()[i]) is Some) by {
            if i < pos {
                assert(self.ids()[i] == old_ids[i]);
            } else if i > pos {
                assert(self.ids()[i] == old_ids[i - 1]);
            }
        }
        assert(self.entries() =~= old_ids.map_values(|id: Identifier<Entry>| identifier_entry(id)->0).insert(pos, e));
    }

    /// Whether every entry that a scan for `e` compares with it has a time
    /// stamp that reads.
    pub fn scan_stamps_read(&self, e: &Entry) -> (r: bool)
        requires
            self.wf(),
        ensures
            r == scan_reads(self.entries(), *e),
    {
        let ghost es = self.entries();
        proof { lemma_first_stop_facts(es, *e); }
        let n = glist_len(&self.msgs);
        let mut i: usize = 0;
        while i < n
            invariant
                self.wf(),
                es == self.entries(),
                n == es.len(),
                0 <= i <= n,
                first_stop(es, *e) <= es.len(),
                forall|j: int| 0 <= j < first_stop(es, *e) ==> !(key_same(#[trigger] es[j], *e) || key_less(*e, es[j])),
                first_stop(es, *e) < es.len() ==> key_same(es[first_stop(es, *e) as int], *e) || key_less(*e, es[first_stop(es, *e) as int]),
                forall|j: int| 0 <= j < i ==> !(key_same(#[trigger] es[j], *e) || key_less(*e, es[j])) && entry_reads(es[j]),
            decreases n - i,
        {
            let id = glist_get(&self.msgs, i).unwrap();
            assert(identifier_entry(self.ids()[i as int]) is Some);
            let x = identifier_value(id);
            assert(*x == es[i as int]);
            let reads = match x.0 {
                Some(t) => match parse_instant(x.5.as_str(), DATE_FMT) {
                    Some(u) => t.0 == u.0 && t.1 == u.1,
                    None => false,
                },
                None => false,
            };
            assert(reads == entry_reads(es[i as int]));
            if !reads {
                assert(first_stop(es, *e) >= i);
                return false;
            }
            if entry_key_same(x, e) || entry_key_less(e, x) {
                proof { lemma_first_stop(es, *e, i as int); }
                return true;
            }
            i = i + 1;
        }
        proof { lemma_first_stop(es, *e, n as int); }
        true
    }

    /// Adds a message, or refuses it where a time stamp that the scan would
    /// compare does not read (where comparing messages panics).
    pub fn try_add_message(&mut self, msg: MessageData) -> (r: Result<Option<Op<Entry>>, LogError>)
        requires
            old(self).wf(),
        ensures
            final(self).wf(),
            final(self).records() == old(self).records(),
            final(self).name_of() == old(self).name_of(),
            final(self).group_of() == old(self).group_of(),
            final(self).keys_of() == old(self).keys_of(),
            !add_reads(old(self).entries(), msg) ==> r == Err::<Option<Op<Entry>>, LogError>(LogError::BadTimeStamp)
                && *final(self) == *old(self),
            add_reads(old(self).entries(), msg) ==> r is Ok
                && final(self).entries() == entries_after_add(old(self).entries(), entry_of(msg)),
            add_reads(old(self).entries(), msg) && add_refused(old(self).entries(), entry_of(msg))
                ==> r == Ok::<Option<Op<Entry>>, LogError>(None) && *final(self) == *old(self),
            add_reads(old(self).entries(), msg) && !add_refused(old(self).entries(), entry_of(msg))
                ==> r == Ok::<Option<Op<Entry>>, LogError>(Some(old(self).add_op(entry_of(msg))))
                && final(self).ids() == ids_after_insert(old(self).ids(), op_identifier(old(self).add_op(entry_of(msg)))),
    {
        if glist_len(&self.msgs) == 0 {
            return Ok(self.add_message(msg));
        }
        match msg.time_stamp() {
            None => Err(LogError::BadTimeStamp),
            Some(_) => {
                let e = msg.to_entry();
                if self.scan_stamps_read(&e) {
                    Ok(self.add_message(msg))
                } else {
                    Err(LogError::BadTimeStamp)
                }
            },
        }
    }

    /// Applies an insert op that another member sent. Its identifier joins
    /// the list at its place in the order, unless the list holds one that
    /// `Ord` calls equal to it. The log stays well formed where the op's
    /// path is not empty.
    pub fn apply_op(&mut self, op: Op<Entry>)
        ensures
            final(self).ids() == ids_after_insert(old(self).ids(), op_identifier(op)),
            final(self).wf() <==> old(self).wf()
                && (ids_hold(old(self).ids(), op_identifier(op)) || identifier_entry(op_identifier(op)) is Some),
            strictly_sorted(final(self).ids()),
            order_closed(final(self).ids()),
            final(self).records() == old(self).records(),
            final(self).name_of() == old(self).name_of(),
            final(self).group_of() == old(self).group_of(),
            final(self).keys_of() == old(self).keys_of(),
    {
        let ghost op_id = op_identifier(op);
        glist_apply(&mut self.msgs, op);
        proof {
            let old_ids = old(self).ids();
            if !ids_hold(old_ids, op_id) {
                let p = crate::crdt_list::ids_below(old_ids, op_id) as int;
                lemma_ids_below_bound(old_ids, op_id);
                assert(self.ids()[p] == op_id);
                if old(self).wf() && identifier_entry(op_id) is Some {
                    assert forall|i: int| 0 <= i < self.ids().len() implies (identifier_entry(#[trigger] self.ids()[i]) is Some) by {
                        if i < p {
                            assert(self.ids()[i] == old_ids[i]);
                        } else if i > p {
                            assert(self.ids()[i] == old_ids[i - 1]);
                        }
                    }
                }
                if self.wf() {
                    assert forall|i: int| 0 <= i < old_ids.len() implies (identifier_entry(#[trigger] old_ids[i]) is Some) by {
                        if i < p {
                            assert(self.ids()[i] == old_ids[i]);
                        } else {
                            assert(self.ids()[i + 1] == old_ids[i]);
                        }
                    }
                }
            }
        }
    }
}

} // verus!
