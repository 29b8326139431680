//! The service's cross-operation guarantees, each proved once and for all
//! over the collection model.

use vstd::prelude::*;
use crate::items::Rec;
use crate::model::{
    sorted, has_name, idx_of, insert_pos, lookup, model_upsert, model_delete, unique_names,
    lemma_sorted_unique, lemma_idx_of_is, lemma_insert_pos_props, lemma_upsert_semantics,
    lemma_delete_semantics,
};
use crate::store::GroceryMgr;
use crate::text::str_le;

verus! {

/// Listing twice with no intervening writes yields identical ordered
/// sequences: a listing carries exactly the collection's records, so two of
/// them over one state coincide.
pub proof fn lemma_listing_idempotent(mgr: GroceryMgr, r1: Seq<Rec>, r2: Seq<Rec>)
    requires
        r1 == mgr@,
        r2 == mgr@,
    ensures
        r1 == r2,
{
}

/// Every adjacent pair of a sorted collection's records ascends by name, so
/// a listing is ascending pair by pair.
pub proof fn lemma_listing_sorted(s: Seq<Rec>)
    requires
        sorted(s),
    ensures
        forall|i: int| 0 <= i && i + 1 < s.len() ==> #[trigger] str_le(s[i].name, s[i + 1].name),
{
}

/// Upserting a name twice adds up: the two quantities accumulate into the
/// one record, exactly as a single upsert of their sum would.
pub proof fn lemma_upsert_additive(s: Seq<Rec>, name: Seq<char>, q1: int, q2: int)
    requires
        sorted(s),
    ensures
        model_upsert(model_upsert(s, name, q1), name, q2) == model_upsert(s, name, q1 + q2),
{
    let t1 = model_upsert(s, name, q1);
    lemma_upsert_semantics(s, name, q1);
    if has_name(s, name) {
        let k = idx_of(s, name);
        lemma_idx_of_is(s, name, k);
        assert(idx_of(t1, name) == k);
        assert(t1[k].qty == s[k].qty + q1);
        assert(model_upsert(t1, name, q2) =~= model_upsert(s, name, q1 + q2));
    } else {
        let p = insert_pos(s, name);
        lemma_insert_pos_props(s, name);
        s.insert_ensures(p, Rec { name: name, qty: q1 });
        s.insert_ensures(p, Rec { name: name, qty: q1 + q2 });
        assert(idx_of(t1, name) == p);
        assert(t1[p].qty == q1);
        assert(model_upsert(t1, name, q2) =~= model_upsert(s, name, q1 + q2));
    }
}

/// The two-upsert scenario in full: on a name not yet present, upserting
/// `q1` then `q2` leaves exactly one record under the name, holding
/// `q1 + q2`.
pub proof fn lemma_upsert_accumulates(s: Seq<Rec>, name: Seq<char>, q1: int, q2: int)
    requires
        sorted(s),
        !has_name(s, name),
    ensures
        lookup(model_upsert(model_upsert(s, name, q1), name, q2), name) == Some(q1 + q2),
        has_name(model_upsert(model_upsert(s, name, q1), name, q2), name),
        unique_names(model_upsert(model_upsert(s, name, q1), name, q2)),
{
    lemma_upsert_additive(s, name, q1, q2);
    lemma_upsert_semantics(s, name, q1 + q2);
    lemma_sorted_unique(model_upsert(s, name, q1 + q2));
}

/// Upserting a name not yet present creates exactly one record with the
/// given quantity, and touches nothing else.
pub proof fn lemma_upsert_new_key(s: Seq<Rec>, name: Seq<char>, q: int)
    requires
        sorted(s),
        !has_name(s, name),
    ensures
        lookup(model_upsert(s, name, q), name) == Some(q),
        model_upsert(s, name, q).len() == s.len() + 1,
        forall|other: Seq<char>|
            other != name ==> lookup(model_upsert(s, name, q), other) == lookup(s, other),
        unique_names(model_upsert(s, name, q)),
{
    lemma_upsert_semantics(s, name, q);
    lemma_sorted_unique(model_upsert(s, name, q));
}

/// Deleting an absent name is a no-op that still succeeds: the collection
/// comes through unchanged.
pub proof fn lemma_delete_absent_noop(s: Seq<Rec>, name: Seq<char>)
    requires
        !has_name(s, name),
    ensures
        model_delete(s, name) == s,
{
}

/// A delete right after an upsert of the same name takes that record out
/// again: the name is gone, and the collection stands as if only the delete
/// had run.
pub proof fn lemma_delete_after_upsert(s: Seq<Rec>, name: Seq<char>, q: int)
    requires
        sorted(s),
    ensures
        model_delete(model_upsert(s, name, q), name) == model_delete(s, name),
        !has_name(model_delete(model_upsert(s, name, q), name), name),
{
    let t1 = model_upsert(s, name, q);
    lemma_upsert_semantics(s, name, q);
    lemma_delete_semantics(t1, name);
    if has_name(s, name) {
        let k = idx_of(s, name);
        lemma_idx_of_is(s, name, k);
        assert(idx_of(t1, name) == k);
        t1.remove_ensures(k);
        s.remove_ensures(k);
        assert(model_delete(t1, name) =~= model_delete(s, name));
    } else {
        let p = insert_pos(s, name);
        lemma_insert_pos_props(s, name);
        s.insert_ensures(p, Rec { name: name, qty: q });
        assert(idx_of(t1, name) == p);
        t1.remove_ensures(p);
        assert(model_delete(t1, name) =~= s);
    }
}

} // verus!
