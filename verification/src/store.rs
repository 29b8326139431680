//! The store adapter's verified reference: a collection held in memory in
//! ascending name order, with the exact list / increment-upsert / delete-one
//! semantics the service expects of its document store.

use vstd::prelude::*;
use crate::errors::{QueryError, WriteError};
use crate::items::{GroceryItem, GroceryId, Rec, recs_of};
use crate::model::{
    sorted, has_name, model_upsert, model_delete, upsert_fits, lemma_idx_of_is,
    lemma_insert_pos_is, lemma_scan_miss, lemma_upsert_preserves_sorted,
    lemma_delete_preserves_sorted,
};
use crate::text::{str_lt, str_lt_exec};

verus! {

/// Manages one grocery collection; the view is the sequence of ghost
/// records in stored order.
pub struct GroceryMgr {
    items: Vec<GroceryItem>,
}

impl View for GroceryMgr {
    type V = Seq<Rec>;

    closed spec fn view(&self) -> Seq<Rec> {
        recs_of(self.items@)
    }
}

/// The index of the first item whose name is not below the given one.
fn scan_pos(items: &Vec<GroceryItem>, name: &String) -> (i: usize)
    ensures
        i <= items@.len(),
        forall|k: int| 0 <= k < i ==> str_lt(items@[k]@.name, name@),
        i < items@.len() ==> !str_lt(items@[i as int]@.name, name@),
{
    let mut i: usize = 0;
    while i < items.len()
        invariant
            i <= items@.len(),
            forall|k: int| 0 <= k < i ==> str_lt(items@[k]@.name, name@),
        decreases items@.len() - i,
    {
        if !str_lt_exec(items[i].name.as_str(), name.as_str()) {
            return i;
        }
        i = i + 1;
    }
    i
}

impl GroceryMgr {
    /// The collection invariant: the stored items' records ascend by name.
    pub open spec fn wf(&self) -> bool {
        sorted(self@)
    }

    /// Create a new manager over an empty collection.
    pub fn new() -> (m: GroceryMgr)
        ensures
            m.wf(),
            m@ == Seq::<Rec>::empty(),
    {
        let m = GroceryMgr { items: Vec::new() };
        proof {
            assert(m@ =~= Seq::<Rec>::empty());
        }
        m
    }

    /// Every stored item, in ascending name order; an empty collection
    /// yields an empty listing, never an error.
    pub fn db_find_groceries(&self) -> (r: Vec<GroceryItem>)
        requires
            self.wf(),
        ensures
            recs_of(r@) == self@,
            forall|i: int, j: int| 0 <= i < j < r@.len() ==> str_lt(r@[i]@.name, r@[j]@.name),
    {
        let mut r: Vec<GroceryItem> = Vec::new();
        let mut i: usize = 0;
        while i < self.items.len()
            invariant
                i <= self.items@.len(),
                r@.len() == i,
                forall|k: int| 0 <= k < i ==> r@[k]@ == self@[k],
            decreases self.items@.len() - i,
        {
            let it = self.items[i].duplicate();
            r.push(it);
            i = i + 1;
        }
        proof {
            assert(recs_of(r@) =~= self@);
            assert forall|a: int, b: int|
                0 <= a < b < r@.len() implies str_lt(r@[a]@.name, r@[b]@.name) by {
                assert(r@[a]@ == self@[a]);
                assert(r@[b]@ == self@[b]);
            }
        }
        r
    }

    /// Increment-upsert: an item under a present name has its quantity
    /// added onto the stored one in place; an absent name gains a fresh
    /// record. The one failure is a sum that leaves the stored 32-bit
    /// range, which changes nothing.
    pub fn db_upsert_groceries(&mut self, item: GroceryItem) -> (r: Result<(), WriteError>)
        requires
            old(self).wf(),
        ensures
            final(self).wf(),
            upsert_fits(old(self)@, item@.name, item@.qty) ==> r is Ok && final(self)@
                == model_upsert(old(self)@, item@.name, item@.qty),
            !upsert_fits(old(self)@, item@.name, item@.qty) ==> (r
                == Result::<(), WriteError>::Err(WriteError::QuantityOverflow) && final(self)@
                == old(self)@),
    {
        let ghost s0 = self@;
        let ghost name = item@.name;
        let ghost qty = item@.qty;
        let i = scan_pos(&self.items, &item.name);
        if i < self.items.len() && self.items[i].name == item.name {
            proof {
                lemma_idx_of_is(s0, name, i as int);
            }
            let q0 = self.items[i].quantity;
            let sum_wide: i64 = q0 as i64 + item.quantity as i64;
            if sum_wide < i32::MIN as i64 || sum_wide > i32::MAX as i64 {
                assert(!upsert_fits(s0, name, item@.qty));
                return Err(WriteError::QuantityOverflow);
            }
            let summed: i32 = sum_wide as i32;
            self.items[i] = GroceryItem { name: item.name, quantity: summed };
            proof {
                assert(self@ =~= model_upsert(s0, name, item@.qty));
                lemma_upsert_preserves_sorted(s0, name, item@.qty);
            }
            Ok(())
        } else {
            proof {
                lemma_scan_miss(s0, name, i as int);
                lemma_insert_pos_is(s0, name, i as int);
            }
            let ghost gitem = item;
            let ghost old_items = self.items@;
            self.items.insert(i, item);
            proof {
                old_items.insert_ensures(i as int, gitem);
                s0.insert_ensures(i as int, Rec { name: name, qty: qty });
                assert(self@ =~= model_upsert(s0, name, qty));
                lemma_upsert_preserves_sorted(s0, name, qty);
            }
            Ok(())
        }
    }

    /// Delete-one: removes the record whose name matches, and succeeds with
    /// zero effect when none does; success is owed on every input.
    pub fn db_delete_groceries(&mut self, id: GroceryId) -> (r: Result<(), WriteError>)
        requires
            old(self).wf(),
        ensures
            r is Ok,
            final(self).wf(),
            final(self)@ == model_delete(old(self)@, id@),
    {
        let ghost s0 = self@;
        let ghost name = id@;
        let i = scan_pos(&self.items, &id.name);
        if i < self.items.len() && self.items[i].name == id.name {
            proof {
                lemma_idx_of_is(s0, name, i as int);
            }
            self.items.remove(i);
            proof {
                assert(self@ =~= model_delete(s0, name));
                lemma_delete_preserves_sorted(s0, name);
            }
            Ok(())
        } else {
            proof {
                lemma_scan_miss(s0, name, i as int);
                assert(self@ =~= model_delete(s0, name));
            }
            Ok(())
        }
    }
}

/// Fold per-document decode outcomes into one listing: the first document
/// that failed to decode aborts the whole listing, and no partial results
/// come back.
pub fn assemble_listing(docs: Vec<Option<GroceryItem>>) -> (r: Result<
    Vec<GroceryItem>,
    QueryError,
>)
    ensures
        r is Ok <==> (forall|i: int| 0 <= i < docs@.len() ==> docs@[i] is Some),
        r matches Ok(v) ==> v@.len() == docs@.len() && (forall|i: int|
            0 <= i < docs@.len() ==> (docs@[i] matches Some(it) && #[trigger] v@[i]@ == it@)),
        r is Err ==> r == Result::<Vec<GroceryItem>, QueryError>::Err(
            QueryError::MalformedDocument,
        ),
{
    let mut out: Vec<GroceryItem> = Vec::new();
    let mut i: usize = 0;
    while i < docs.len()
        invariant
            i <= docs@.len(),
            out@.len() == i,
            forall|k: int| 0 <= k < i ==> docs@[k] is Some,
            forall|k: int|
                0 <= k < i ==> (docs@[k] matches Some(it) && #[trigger] out@[k]@ == it@),
        decreases docs@.len() - i,
    {
        match &docs[i] {
            Some(it) => {
                out.push(it.duplicate());
            },
            None => {
                return Err(QueryError::MalformedDocument);
            },
        }
        i = i + 1;
    }
    Ok(out)
}

} // verus!
