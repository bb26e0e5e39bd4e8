//! How messages compare: by the instant of their signed time stamp (one that
//! does not read first), then by sender, as their entries order in a log.
use vstd::prelude::*;
use std::cmp::Ordering;
use vstd::std_specs::cmp::{PartialEqSpec, PartialEqSpecImpl, PartialOrdSpec, PartialOrdSpecImpl};
use crate::message::{
    entry_key_less, entry_key_same, entry_of, instant_nanos, key_less, key_same, law_entries_order_by_time,
    lemma_key_less_strict, message_instant, text_less, MessageData,
};

verus! {

/// How two messages order: as the keys of their entries.
pub open spec fn message_order(a: MessageData, b: MessageData) -> Ordering {
    if key_same(entry_of(a), entry_of(b)) {
        Ordering::Equal
    } else if key_less(entry_of(a), entry_of(b)) {
        Ordering::Less
    } else {
        Ordering::Greater
    }
}

impl PartialEq for MessageData {
    fn eq(&self, other: &Self) -> (r: bool) {
        entry_key_same(&self.to_entry(), &other.to_entry())
    }
}

impl PartialEqSpecImpl for MessageData {
    open spec fn obeys_eq_spec() -> bool {
        true
    }

    open spec fn eq_spec(&self, other: &MessageData) -> bool {
        key_same(entry_of(*self), entry_of(*other))
    }
}

impl Eq for MessageData {}

impl PartialOrd for MessageData {
    fn partial_cmp(&self, other: &Self) -> (r: Option<Ordering>) {
        let a = self.to_entry();
        let b = other.to_entry();
        if entry_key_same(&a, &b) {
            Some(Ordering::Equal)
        } else if entry_key_less(&a, &b) {
            Some(Ordering::Less)
        } else {
            Some(Ordering::Greater)
        }
    }
}

impl PartialOrdSpecImpl for MessageData {
    open spec fn obeys_partial_cmp_spec() -> bool {
        true
    }

    open spec fn partial_cmp_spec(&self, other: &MessageData) -> Option<Ordering> {
        Some(message_order(*self, *other))
    }
}

/// Two messages are equal exactly when their stamps read as the same
/// instant (or neither reads) and they come from the same sender, and equal
/// messages are those that compare as `Equal`.
pub proof fn law_message_eq(a: MessageData, b: MessageData)
    ensures
        PartialEqSpec::eq_spec(&a, &b) <==> (message_instant(a) == message_instant(b) && a.from@ == b.from@),
        PartialEqSpec::eq_spec(&a, &b) <==> PartialOrdSpec::partial_cmp_spec(&a, &b) == Some(Ordering::Equal),
        PartialEqSpec::eq_spec(&a, &b) <==> PartialEqSpec::eq_spec(&b, &a),
{
}

/// Messages order by time, then sender: of two messages whose stamps read
/// as instants within their second, the earlier compares `Less` and the
/// later `Greater`; at the same instant the senders decide.
pub proof fn law_message_order_by_time(a: MessageData, b: MessageData)
    requires
        message_instant(a) is Some,
        message_instant(b) is Some,
        (message_instant(a)->0).1 < 1_000_000_000,
        (message_instant(b)->0).1 < 1_000_000_000,
    ensures
        instant_nanos(message_instant(a)->0) < instant_nanos(message_instant(b)->0)
            ==> PartialOrdSpec::partial_cmp_spec(&a, &b) == Some(Ordering::Less) && PartialOrdSpec::partial_cmp_spec(&b, &a) == Some(Ordering::Greater),
        instant_nanos(message_instant(a)->0) == instant_nanos(message_instant(b)->0) && text_less(a.from@, b.from@)
            ==> PartialOrdSpec::partial_cmp_spec(&a, &b) == Some(Ordering::Less),
{
    law_entries_order_by_time(entry_of(a), entry_of(b));
    law_entries_order_by_time(entry_of(b), entry_of(a));
    lemma_key_less_strict(entry_of(a), entry_of(b));
}

} // verus!
