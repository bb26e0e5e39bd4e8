//! How messages of the earlier store compare: by the instant of their signed
//! time stamp (one that does not read first), then by sender.
use vstd::prelude::*;
use std::cmp::Ordering;
use vstd::std_specs::cmp::{PartialEqSpecImpl, PartialOrdSpecImpl};
use crate::db::{db_entry_of, MessageData};
use crate::message::{entry_key_less, entry_key_same, key_less, key_same};

verus! {

/// How two messages of the store order: as the keys of their entries.
pub open spec fn db_message_order(a: MessageData, b: MessageData) -> Ordering {
    if key_same(db_entry_of(a), db_entry_of(b)) {
        Ordering::Equal
    } else if key_less(db_entry_of(a), db_entry_of(b)) {
        Ordering::Less
    } else {
        Ordering::Greater
    }
}

impl PartialEq for MessageData {
    fn eq(&self, other: &Self) -> (r: bool) {
        entry_key_same(&self.to_entry(), &other.to_entry())
    }
}

impl PartialEqSpecImpl for MessageData {
    open spec fn obeys_eq_spec() -> bool {
        true
    }

    open spec fn eq_spec(&self, other: &MessageData) -> bool {
        key_same(db_entry_of(*self), db_entry_of(*other))
    }
}

impl Eq for MessageData {}

impl PartialOrd for MessageData {
    fn partial_cmp(&self, other: &Self) -> (r: Option<Ordering>) {
        let a = self.to_entry();
        let b = other.to_entry();
        if entry_key_same(&a, &b) {
            Some(Ordering::Equal)
        } else if entry_key_less(&a, &b) {
            Some(Ordering::Less)
        } else {
            Some(Ordering::Greater)
        }
    }
}

impl PartialOrdSpecImpl for MessageData {
    open spec fn obeys_partial_cmp_spec() -> bool {
        true
    }

    open spec fn partial_cmp_spec(&self, other: &MessageData) -> Option<Ordering> {
        Some(db_message_order(*self, *other))
    }
}

} // verus!
