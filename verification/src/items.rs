//! The two record shapes the service works with, and their ghost views.

use vstd::prelude::*;

verus! {

/// One inventory line: a uniquely-named entry and its running quantity.
pub struct GroceryItem {
    pub name: String,
    pub quantity: i32,
}

/// Deletion key: selects the stored entry whose name matches.
pub struct GroceryId {
    pub name: String,
}

/// Ghost form of one stored entry: the name's characters and the quantity as
/// a mathematical integer.
pub struct Rec {
    pub name: Seq<char>,
    pub qty: int,
}

impl View for GroceryItem {
    type V = Rec;

    open spec fn view(&self) -> Rec {
        Rec { name: self.name@, qty: self.quantity as int }
    }
}

impl View for GroceryId {
    type V = Seq<char>;

    open spec fn view(&self) -> Seq<char> {
        self.name@
    }
}

impl GroceryItem {
    /// A field-for-field copy of this item.
    pub fn duplicate(&self) -> (it: GroceryItem)
        ensures
            it@ == self@,
    {
        GroceryItem { name: self.name.clone(), quantity: self.quantity }
    }
}

/// The ghost records behind a vector of items, in the same order.
pub open spec fn recs_of(v: Seq<GroceryItem>) -> Seq<Rec> {
    Seq::new(v.len(), |i: int| v[i]@)
}

} // verus!
