//! The grow-only list of the `crdts` crate, as this library uses it: the
//! contracts speak of the identifiers that a list holds, in the order that
//! its iterator yields them.
use vstd::prelude::*;
use crdts::glist::{GList, Op};
use crdts::{CmRDT, Identifier};

verus! {

/// A message as the list holds it: the UTC instant of its signed time stamp
/// (whole seconds since the epoch and nanoseconds; `None` where the stamp
/// does not read), its sender, tag, content (as sent, encrypted), signature,
/// the time stamp as written, and its plain text where it is kept with the
/// message. The list orders its items by the tuple's `Ord`, which goes over
/// all seven fields in turn: by instant, then sender, then the others. Messages
/// themselves compare by instant and sender only (the scan of
/// `LogState::add_message` and `MessageData`'s order); where two entries tie
/// on both, the list still tells them apart by the further fields, so it keeps
/// both, and `Identifier::between` breaks such ties by them.
pub type Entry = (Option<(i64, u32)>, String, String, String, String, String, Option<String>);

#[verifier::external_type_specification]
#[verifier::external_body]
#[verifier::reject_recursive_types(T)]
pub struct ExGList<T: Ord>(GList<T>);

#[verifier::external_type_specification]
#[verifier::external_body]
#[verifier::reject_recursive_types(T)]
pub struct ExIdentifier<T>(Identifier<T>);

#[verifier::external_type_specification]
#[verifier::external_body]
#[verifier::reject_recursive_types(T)]
pub struct ExOp<T>(Op<T>);

/// The identifiers that a list holds, in the order that `GList::iter` yields
/// them: a `BTreeSet` of identifiers, so ascending by `Identifier`'s `Ord`,
/// with one identifier of each class of identifiers that `Ord` calls equal.
pub uninterp spec fn glist_ids(list: GList<Entry>) -> Seq<Identifier<Entry>>;

/// What `Identifier::value` returns: the element at the end of the
/// identifier's path, or `None` for an empty path (where `value` panics).
pub uninterp spec fn identifier_entry(id: Identifier<Entry>) -> Option<Entry>;

/// Whether `a < b` by the `Ord` impl of `Identifier`, by which a list orders
/// what it holds.
pub uninterp spec fn identifier_less(a: Identifier<Entry>, b: Identifier<Entry>) -> bool;

/// The identifier that an insert op carries (`Op::Insert { id }`).
pub uninterp spec fn op_identifier(op: Op<Entry>) -> Identifier<Entry>;

/// What `GList::insert_after` returns for a list, a marker and an element.
pub uninterp spec fn inserted_op(list: GList<Entry>, low: Option<Identifier<Entry>>, elem: Entry) -> Op<Entry>;

/// How many of `ids` are below `id`: the index at which a sorted set puts `id`.
pub open spec fn ids_below(ids: Seq<Identifier<Entry>>, id: Identifier<Entry>) -> nat
    decreases ids.len(),
{
    if ids.len() == 0 {
        0
    } else {
        ids_below(ids.drop_last(), id) + if identifier_less(ids.last(), id) { 1nat } else { 0nat }
    }
}

/// A set puts an identifier no further than its end.
pub proof fn lemma_ids_below_bound(ids: Seq<Identifier<Entry>>, id: Identifier<Entry>)
    ensures
        ids_below(ids, id) <= ids.len(),
    decreases ids.len(),
{
    if ids.len() > 0 {
        lemma_ids_below_bound(ids.drop_last(), id);
    }
}

/// Whether `Ord` calls two identifiers equal: neither is below the other.
pub open spec fn identifier_equiv(a: Identifier<Entry>, b: Identifier<Entry>) -> bool {
    !identifier_less(a, b) && !identifier_less(b, a)
}

/// Whether `ids` holds an identifier that `Ord` calls equal to `id`, as a
/// `BTreeSet` looks an element up.
pub open spec fn ids_hold(ids: Seq<Identifier<Entry>>, id: Identifier<Entry>) -> bool {
    exists|i: int| 0 <= i < ids.len() && identifier_equiv(#[trigger] ids[i], id)
}

/// The identifiers after an insert of `id`: a set that holds an identifier
/// equal to it by `Ord` keeps what it holds; else `id` joins at its place in
/// the order.
pub open spec fn ids_after_insert(ids: Seq<Identifier<Entry>>, id: Identifier<Entry>) -> Seq<Identifier<Entry>> {
    if ids_hold(ids, id) {
        ids
    } else {
        ids.insert(ids_below(ids, id) as int, id)
    }
}

/// The identifiers stand in strictly ascending order of `Identifier`'s `Ord`,
/// which is irreflexive on them.
pub open spec fn strictly_sorted(s: Seq<Identifier<Entry>>) -> bool {
    &&& forall|i: int, j: int|
        0 <= i < j < s.len() ==> identifier_less(#[trigger] s[i], #[trigger] s[j]) && !identifier_less(s[j], s[i])
    &&& forall|i: int| 0 <= i < s.len() ==> !identifier_less(#[trigger] s[i], s[i])
}

/// The order by which the identifiers stand is transitive through them:
/// what is above a later identifier is above an earlier one, and what is
/// below an earlier one is below a later one.
pub open spec fn order_closed(s: Seq<Identifier<Entry>>) -> bool {
    &&& forall|y: Identifier<Entry>, i: int, j: int|
        #![trigger identifier_less(s[j], y), s[i]]
        0 <= i < j < s.len() && identifier_less(s[j], y) ==> identifier_less(s[i], y)
    &&& forall|y: Identifier<Entry>, i: int, j: int|
        #![trigger identifier_less(y, s[i]), s[j]]
        0 <= i < j < s.len() && identifier_less(y, s[i]) ==> identifier_less(y, s[j])
}

/// Two strictly sorted sequences of the same identifiers are the same.
pub proof fn lemma_sorted_unique(s1: Seq<Identifier<Entry>>, s2: Seq<Identifier<Entry>>)
    requires
        strictly_sorted(s1),
        strictly_sorted(s2),
        s1.to_set() == s2.to_set(),
    ensures
        s1 == s2,
    decreases s1.len(),
{
    if s1.len() == 0 || s2.len() == 0 {
        if s1.len() > 0 {
            assert(s1.to_set().contains(s1[0]));
        }
        if s2.len() > 0 {
            assert(s2.to_set().contains(s2[0]));
        }
        assert(s1 =~= s2);
    } else {
        let x = s1[0];
        let y = s2[0];
        assert(s1.to_set().contains(x));
        assert(s2.to_set().contains(y));
        if x != y {
            assert(s2.to_set().contains(x));
            assert(s1.to_set().contains(y));
            let j = choose|j: int| 0 <= j < s2.len() && s2[j] == x;
            let i = choose|i: int| 0 <= i < s1.len() && s1[i] == y;
            assert(j != 0 && i != 0);
            assert(identifier_less(s2[0], s2[j]));
            assert(!identifier_less(s1[i], s1[0]));
            assert(false);
        }
        let t1 = s1.drop_first();
        let t2 = s2.drop_first();
        assert forall|z: Identifier<Entry>| t1.to_set().contains(z) implies t2.to_set().contains(z) by {
            let k = choose|k: int| 0 <= k < t1.len() && t1[k] == z;
            assert(s1[k + 1] == z);
            assert(s1.to_set().contains(z));
            let m = choose|m: int| 0 <= m < s2.len() && s2[m] == z;
            if m == 0 {
                assert(identifier_less(s1[0], s1[k + 1]));
                assert(!identifier_less(s1[k + 1], s1[0]));
            }
            assert(t2[m - 1] == z);
        }
        assert forall|z: Identifier<Entry>| t2.to_set().contains(z) implies t1.to_set().contains(z) by {
            let k = choose|k: int| 0 <= k < t2.len() && t2[k] == z;
            assert(s2[k + 1] == z);
            assert(s2.to_set().contains(z));
            let m = choose|m: int| 0 <= m < s1.len() && s1[m] == z;
            if m == 0 {
                assert(identifier_less(s2[0], s2[k + 1]));
                assert(!identifier_less(s2[k + 1], s2[0]));
            }
            assert(t1[m - 1] == z);
        }
        assert(t1.to_set() =~= t2.to_set());
        assert forall|i: int, j: int| 0 <= i < j < t1.len() implies identifier_less(#[trigger] t1[i], #[trigger] t1[j]) && !identifier_less(t1[j], t1[i]) by {
            assert(t1[i] == s1[i + 1] && t1[j] == s1[j + 1]);
        }
        assert forall|i: int, j: int| 0 <= i < j < t2.len() implies identifier_less(#[trigger] t2[i], #[trigger] t2[j]) && !identifier_less(t2[j], t2[i]) by {
            assert(t2[i] == s2[i + 1] && t2[j] == s2[j + 1]);
        }
        assert forall|i: int| 0 <= i < t1.len() implies !identifier_less(#[trigger] t1[i], t1[i]) by {
            assert(t1[i] == s1[i + 1]);
        }
        assert forall|i: int| 0 <= i < t2.len() implies !identifier_less(#[trigger] t2[i], t2[i]) by {
            assert(t2[i] == s2[i + 1]);
        }
        lemma_sorted_unique(t1, t2);
        assert(x == y);
        assert forall|k: int| 0 <= k < s1.len() implies s1[k] == s2[k] by {
            if k > 0 {
                assert(s1[k] == t1[k - 1]);
                assert(s2[k] == t2[k - 1]);
            }
        }
        assert(s1 =~= s2);
    }
}

/// An insert of an identifier that the set does not hold adds it to the set
/// of identifiers, and nothing else; what the set held, it still holds.
pub proof fn lemma_insert_set(ids: Seq<Identifier<Entry>>, id: Identifier<Entry>)
    ensures
        !ids_hold(ids, id) ==> ids_after_insert(ids, id).to_set() == ids.to_set().insert(id),
        ids_hold(ids, id) ==> ids_after_insert(ids, id) == ids,
        forall|x: Identifier<Entry>| ids_hold(ids, x) ==> ids_hold(ids_after_insert(ids, id), x),
        forall|x: Identifier<Entry>|
            !ids_hold(ids, id) && !ids_hold(ids, x) && !identifier_equiv(id, x)
                ==> !ids_hold(ids_after_insert(ids, id), x),
{
    if !ids_hold(ids, id) {
        lemma_ids_below_bound(ids, id);
        let p = ids_below(ids, id) as int;
        let after = ids.insert(p, id);
        ids.insert_ensures(p, id);
        assert forall|z: Identifier<Entry>| after.to_set().contains(z) implies ids.to_set().insert(id).contains(z) by {
            let k = choose|k: int| 0 <= k < after.len() && after[k] == z;
            if k < p {
                assert(ids[k] == z);
            } else if k > p {
                assert(ids[k - 1] == z);
            }
        }
        assert forall|z: Identifier<Entry>| ids.to_set().insert(id).contains(z) implies after.to_set().contains(z) by {
            if z == id {
                assert(after[p] == z);
            } else {
                let k = choose|k: int| 0 <= k < ids.len() && ids[k] == z;
                if k < p {
                    assert(after[k] == z);
                } else {
                    assert(after[k + 1] == z);
                }
            }
        }
        assert(after.to_set() =~= ids.to_set().insert(id));
        assert forall|x: Identifier<Entry>| ids_hold(ids, x) implies ids_hold(after, x) by {
            let k = choose|k: int| 0 <= k < ids.len() && identifier_equiv(#[trigger] ids[k], x);
            if k < p {
                assert(identifier_equiv(after[k], x));
            } else {
                assert(identifier_equiv(after[k + 1], x));
            }
        }
        assert forall|x: Identifier<Entry>|
            !ids_hold(ids, x) && !identifier_equiv(id, x) implies !ids_hold(after, x) by {
            if ids_hold(after, x) {
                let k = choose|k: int| 0 <= k < after.len() && identifier_equiv(#[trigger] after[k], x);
                if k < p {
                    assert(identifier_equiv(ids[k], x));
                } else if k > p {
                    assert(identifier_equiv(ids[k - 1], x));
                }
            }
        }
    }
}

/// Inserts commute: members that apply the same two insert ops, in either
/// order, hold identifiers that `Ord` calls equal, one by one, in the same
/// order (so the lists compare equal). Where two identifiers that `Ord` calls
/// equal are the same value, they hold the very same identifiers.
pub proof fn law_inserts_commute(ids: Seq<Identifier<Entry>>, a: Identifier<Entry>, b: Identifier<Entry>)
    requires
        strictly_sorted(ids_after_insert(ids_after_insert(ids, a), b)),
        strictly_sorted(ids_after_insert(ids_after_insert(ids, b), a)),
        order_closed(ids_after_insert(ids_after_insert(ids, a), b)),
        order_closed(ids_after_insert(ids_after_insert(ids, b), a)),
    ensures
        ({
            let s1 = ids_after_insert(ids_after_insert(ids, a), b);
            let s2 = ids_after_insert(ids_after_insert(ids, b), a);
            &&& s1.len() == s2.len()
            &&& forall|i: int| 0 <= i < s1.len() ==> identifier_equiv(#[trigger] s1[i], s2[i])
            &&& (identifier_equiv(a, b) ==> a == b) ==> s1 == s2
        }),
{
    let s1 = ids_after_insert(ids_after_insert(ids, a), b);
    let s2 = ids_after_insert(ids_after_insert(ids, b), a);
    lemma_insert_set(ids, a);
    lemma_insert_set(ids, b);
    lemma_insert_set(ids_after_insert(ids, a), b);
    lemma_insert_set(ids_after_insert(ids, b), a);
    if ids_hold(ids, a) {
        assert(ids_hold(ids_after_insert(ids, b), a));
        assert(s1 == s2);
    } else if ids_hold(ids, b) {
        assert(ids_hold(ids_after_insert(ids, a), b));
        assert(s1 == s2);
    } else if a == b {
        assert(s1 == s2);
    } else if !identifier_equiv(a, b) {
        assert(!identifier_equiv(b, a));
        assert(ids.to_set().insert(a).insert(b) =~= ids.to_set().insert(b).insert(a));
        lemma_sorted_unique(s1, s2);
    } else {
        lemma_ids_below_bound(ids, a);
        lemma_ids_below_bound(ids, b);
        let pa = ids_below(ids, a) as int;
        let pb = ids_below(ids, b) as int;
        let r1 = ids.insert(pa, a);
        let r2 = ids.insert(pb, b);
        ids.insert_ensures(pa, a);
        ids.insert_ensures(pb, b);
        assert(r1[pa] == a);
        assert(r2[pb] == b);
        assert(ids_hold(r1, b));
        assert(ids_hold(r2, a));
        assert(s1 == r1);
        assert(s2 == r2);
        if pa < pb {
            let x = ids[pa];
            assert(r2[pa] == x);
            assert(identifier_less(r2[pa], r2[pb]));
            assert(r1[pa + 1] == x);
            assert(identifier_less(r1[pa + 1], b));
            assert(identifier_less(r1[pa], b));
        } else if pb < pa {
            let y = ids[pb];
            assert(r1[pb] == y);
            assert(identifier_less(r1[pb], r1[pa]));
            assert(r2[pb + 1] == y);
            assert(identifier_less(r2[pb + 1], a));
            assert(identifier_less(r2[pb], a));
        }
        assert(pa == pb);
        assert forall|i: int| 0 <= i < s1.len() implies identifier_equiv(#[trigger] s1[i], s2[i]) by {
            if i < pa {
                assert(s1[i] == ids[i] && s2[i] == ids[i]);
                assert(!identifier_less(s1[i], s1[i]));
            } else if i > pa {
                assert(s1[i] == ids[i - 1] && s2[i] == ids[i - 1]);
                assert(!identifier_less(s1[i], s1[i]));
            }
        }
    }
    if s1 == s2 {
        assert forall|i: int| 0 <= i < s1.len() implies identifier_equiv(#[trigger] s1[i], s2[i]) by {
            assert(!identifier_less(s1[i], s1[i]));
        }
    }
}

/// `GList::new`: a list that holds nothing.
#[verifier::external_body]
pub(crate) fn glist_new() -> (list: GList<Entry>)
    ensures
        glist_ids(list) == Seq::<Identifier<Entry>>::empty(),
{
    GList::new()
}

/// `Clone::clone` of a list: a list that holds the same identifiers.
#[verifier::external_body]
pub(crate) fn glist_clone(list: &GList<Entry>) -> (r: GList<Entry>)
    ensures
        glist_ids(r) == glist_ids(*list),
{
    list.clone()
}

/// `Clone::clone` of an op: the same op.
#[verifier::external_body]
pub(crate) fn op_clone(op: &Op<Entry>) -> (r: Op<Entry>)
    ensures
        r == *op,
{
    op.clone()
}

/// `GList::len`: how many identifiers the list holds.
#[verifier::external_body]
pub(crate) fn glist_len(list: &GList<Entry>) -> (n: usize)
    ensures
        n == glist_ids(*list).len(),
{
    list.len()
}

/// `GList::get`: the identifier at an index of the iteration order.
#[verifier::external_body]
pub(crate) fn glist_get(list: &GList<Entry>, idx: usize) -> (r: Option<&Identifier<Entry>>)
    ensures
        r is Some <==> idx < glist_ids(*list).len(),
        r matches Some(id) ==> *id == glist_ids(*list)[idx as int],
{
    list.get(idx)
}

/// `GList::last`: the last identifier of the iteration order.
#[verifier::external_body]
pub(crate) fn glist_last(list: &GList<Entry>) -> (r: Option<&Identifier<Entry>>)
    ensures
        r is Some <==> glist_ids(*list).len() > 0,
        r matches Some(id) ==> *id == glist_ids(*list).last(),
{
    list.last()
}

/// `Identifier::value`: the element at the end of the path; it panics on an
/// empty path, which `requires` leaves out.
#[verifier::external_body]
pub(crate) fn identifier_value(id: &Identifier<Entry>) -> (e: &Entry)
    requires
        identifier_entry(*id) is Some,
    ensures
        identifier_entry(*id) == Some(*e),
{
    id.value()
}

/// `GList::insert_after`: an op that inserts `elem` directly after `low`, or
/// into an empty list when `low` is `None`. The identifier it builds lies
/// strictly between `low` and the next identifier of the list (the density
/// of `Identifier::between`), so the list holds nothing equal to it by `Ord`
/// and it comes to stand right after `low`; its path ends with `elem`.
/// Where `low` is `None` on a list that holds something, or is an
/// identifier with an empty path (which orders after every other), the
/// source builds a path after rational zero or after `low`'s first rational,
/// whose place in the list is left unsaid: `requires` leaves those inputs out.
#[verifier::external_body]
pub(crate) fn glist_insert_after(list: &GList<Entry>, low: Option<&Identifier<Entry>>, elem: Entry) -> (op: Op<Entry>)
    requires
        low is None ==> glist_ids(*list).len() == 0,
        low matches Some(l) ==> glist_ids(*list).contains(*l) && identifier_entry(*l) is Some,
    ensures
        op == inserted_op(*list, match low { Some(l) => Some(*l), None => None }, elem),
        identifier_entry(op_identifier(op)) == Some(elem),
        !ids_hold(glist_ids(*list), op_identifier(op)),
        low matches Some(l) ==> identifier_less(*l, op_identifier(op)),
        low is None ==> ids_below(glist_ids(*list), op_identifier(op)) == 0,
        forall|k: int|
            #![trigger glist_ids(*list)[k]]
            0 <= k < glist_ids(*list).len() && low == Some(&glist_ids(*list)[k])
                ==> ids_below(glist_ids(*list), op_identifier(op)) == k + 1,
{
    list.insert_after(low, elem)
}

/// `CmRDT::apply` on a list: `BTreeSet::insert` of the op's identifier. If
/// the set holds an identifier that `Ord` calls equal to it, nothing changes;
/// else it joins at its place in the order. A `BTreeSet` iterates in
/// ascending order of its elements' `Ord`, a total order (so transitive).
#[verifier::external_body]
pub(crate) fn glist_apply(list: &mut GList<Entry>, op: Op<Entry>)
    ensures
        strictly_sorted(glist_ids(*final(list))),
        order_closed(glist_ids(*final(list))),
        glist_ids(*final(list)) == ids_after_insert(glist_ids(*old(list)), op_identifier(op)),
{
    list.apply(op)
}

} // verus!
