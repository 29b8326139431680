//! The mathematical model of the grocery collection: a sequence of ghost
//! records kept in strictly ascending name order, with the increment-upsert
//! and delete-one semantics the store guarantees.

use vstd::prelude::*;
use crate::items::Rec;
use crate::text::{str_lt, lemma_str_lt_neq, lemma_str_lt_transitive, lemma_str_lt_trichotomy};

verus! {

/// The collection invariant: names strictly ascend, so each name occurs once.
pub open spec fn sorted(s: Seq<Rec>) -> bool {
    forall|i: int, j: int| 0 <= i < j < s.len() ==> str_lt(s[i].name, s[j].name)
}

/// Some record carries the given name.
pub open spec fn has_name(s: Seq<Rec>, name: Seq<char>) -> bool {
    exists|i: int| 0 <= i < s.len() && s[i].name == name
}

/// An index of a record carrying the name; for a sorted collection it is
/// the only one.
pub open spec fn idx_of(s: Seq<Rec>, name: Seq<char>) -> int {
    choose|i: int| 0 <= i < s.len() && s[i].name == name
}

/// The stored quantity under a name, when the name is present.
pub open spec fn lookup(s: Seq<Rec>, name: Seq<char>) -> Option<int> {
    if has_name(s, name) {
        Some(s[idx_of(s, name)].qty)
    } else {
        None
    }
}

/// Where a name belongs in the ascending order: the index of the first
/// record whose name is not below it.
pub open spec fn insert_pos(s: Seq<Rec>, name: Seq<char>) -> int
    decreases s.len(),
{
    if s.len() == 0 {
        0
    } else if str_lt(s[0].name, name) {
        1 + insert_pos(s.drop_first(), name)
    } else {
        0
    }
}

/// The collection after an increment-upsert: a present name has the
/// quantity added onto it in place, an absent one gains a fresh record at
/// its ordered position.
pub open spec fn model_upsert(s: Seq<Rec>, name: Seq<char>, q: int) -> Seq<Rec> {
    if has_name(s, name) {
        s.update(idx_of(s, name), Rec { name: name, qty: s[idx_of(s, name)].qty + q })
    } else {
        s.insert(insert_pos(s, name), Rec { name: name, qty: q })
    }
}

/// The collection after a delete: the record under the name goes, or
/// nothing changes when no record carries it.
pub open spec fn model_delete(s: Seq<Rec>, name: Seq<char>) -> Seq<Rec> {
    if has_name(s, name) {
        s.remove(idx_of(s, name))
    } else {
        s
    }
}

/// Whether an increment-upsert stays within the stored 32-bit quantity.
pub open spec fn upsert_fits(s: Seq<Rec>, name: Seq<char>, q: int) -> bool {
    match lookup(s, name) {
        Some(v) => i32::MIN <= v + q <= i32::MAX,
        None => true,
    }
}

/// No two distinct records carry the same name.
pub open spec fn unique_names(s: Seq<Rec>) -> bool {
    forall|i: int, j: int|
        #![trigger s[i], s[j]]
        0 <= i < s.len() && 0 <= j < s.len() && i != j ==> s[i].name != s[j].name
}

/// In a sorted collection two distinct records carry distinct names.
pub proof fn lemma_sorted_unique(s: Seq<Rec>)
    requires
        sorted(s),
    ensures
        unique_names(s),
{
    assert forall|i: int, j: int|
        0 <= i < s.len() && 0 <= j < s.len() && i != j implies s[i].name != s[j].name by {
        if i < j {
            lemma_str_lt_neq(s[i].name, s[j].name);
        } else {
            lemma_str_lt_neq(s[j].name, s[i].name);
        }
    }
}

/// In a sorted collection any index whose record carries the name is the
/// one `idx_of` denotes.
pub proof fn lemma_idx_of_is(s: Seq<Rec>, name: Seq<char>, i: int)
    requires
        sorted(s),
        0 <= i < s.len(),
        s[i].name == name,
    ensures
        has_name(s, name),
        idx_of(s, name) == i,
{
    assert(has_name(s, name));
    lemma_sorted_unique(s);
    let j = idx_of(s, name);
    assert(0 <= j < s.len() && s[j].name == name);
}

/// Dropping the first record keeps a collection sorted.
pub proof fn lemma_sorted_drop_first(s: Seq<Rec>)
    requires
        sorted(s),
        s.len() > 0,
    ensures
        sorted(s.drop_first()),
{
    assert forall|i: int, j: int|
        0 <= i < j < s.drop_first().len() implies str_lt(
        s.drop_first()[i].name,
        s.drop_first()[j].name,
    ) by {
        assert(s.drop_first()[i] == s[i + 1]);
        assert(s.drop_first()[j] == s[j + 1]);
    }
}

/// What `insert_pos` points at: everything before it is below the name,
/// nothing from it on is.
pub proof fn lemma_insert_pos_props(s: Seq<Rec>, name: Seq<char>)
    requires
        sorted(s),
    ensures
        0 <= insert_pos(s, name) <= s.len(),
        forall|i: int| 0 <= i < insert_pos(s, name) ==> str_lt(s[i].name, name),
        forall|i: int| insert_pos(s, name) <= i < s.len() ==> !str_lt(s[i].name, name),
    decreases s.len(),
{
    if s.len() > 0 {
        lemma_sorted_drop_first(s);
        lemma_insert_pos_props(s.drop_first(), name);
        let p = insert_pos(s, name);
        if str_lt(s[0].name, name) {
            let p1 = insert_pos(s.drop_first(), name);
            assert forall|i: int| 0 <= i < p implies str_lt(s[i].name, name) by {
                if i > 0 {
                    assert(s.drop_first()[i - 1] == s[i]);
                }
            }
            assert forall|i: int| p <= i < s.len() implies !str_lt(s[i].name, name) by {
                assert(s.drop_first()[i - 1] == s[i]);
            }
        } else {
            assert forall|i: int| 0 <= i < s.len() implies !str_lt(s[i].name, name) by {
                if i > 0 {
                    if str_lt(s[i].name, name) {
                        lemma_str_lt_transitive(s[0].name, s[i].name, name);
                    }
                }
            }
        }
    }
}

/// Any index with the two bracketing properties is `insert_pos`.
pub proof fn lemma_insert_pos_is(s: Seq<Rec>, name: Seq<char>, i: int)
    requires
        sorted(s),
        0 <= i <= s.len(),
        forall|k: int| 0 <= k < i ==> str_lt(s[k].name, name),
        i < s.len() ==> !str_lt(s[i as int].name, name),
    ensures
        insert_pos(s, name) == i,
{
    lemma_insert_pos_props(s, name);
    let p = insert_pos(s, name);
    if p < i {
        assert(str_lt(s[p].name, name));
    }
    if p > i {
        assert(str_lt(s[i].name, name));
    }
}

/// A scan that passed every name below the sought one and stopped at an
/// index whose name is not below it and differs finds the name absent.
pub proof fn lemma_scan_miss(s: Seq<Rec>, name: Seq<char>, i: int)
    requires
        sorted(s),
        0 <= i <= s.len(),
        forall|k: int| 0 <= k < i ==> str_lt(s[k].name, name),
        i < s.len() ==> !str_lt(s[i as int].name, name) && s[i as int].name != name,
    ensures
        !has_name(s, name),
{
    assert forall|k: int| 0 <= k < s.len() implies s[k].name != name by {
        if k < i {
            lemma_str_lt_neq(s[k].name, name);
        } else if k == i {
        } else {
            assert(str_lt(s[i as int].name, s[k].name));
            lemma_str_lt_trichotomy(s[i as int].name, name);
            if str_lt(name, s[i as int].name) {
                lemma_str_lt_transitive(name, s[i as int].name, s[k].name);
                lemma_str_lt_neq(name, s[k].name);
            }
        }
    }
}

/// A name below everything from `insert_pos` on, given it is absent.
pub proof fn lemma_absent_name_above(s: Seq<Rec>, name: Seq<char>)
    requires
        sorted(s),
        !has_name(s, name),
    ensures
        forall|i: int|
            insert_pos(s, name) <= i < s.len() ==> str_lt(name, s[i].name),
{
    lemma_insert_pos_props(s, name);
    assert forall|i: int|
        insert_pos(s, name) <= i < s.len() implies str_lt(name, s[i].name) by {
        assert(s[i].name != name);
        lemma_str_lt_trichotomy(s[i].name, name);
    }
}

/// An increment-upsert keeps the collection sorted.
pub proof fn lemma_upsert_preserves_sorted(s: Seq<Rec>, name: Seq<char>, q: int)
    requires
        sorted(s),
    ensures
        sorted(model_upsert(s, name, q)),
{
    let t = model_upsert(s, name, q);
    if has_name(s, name) {
        let k = idx_of(s, name);
        lemma_idx_of_is(s, name, k);
        assert forall|i: int, j: int| 0 <= i < j < t.len() implies str_lt(t[i].name, t[j].name) by {
            assert(t[i].name == s[i].name);
            assert(t[j].name == s[j].name);
        }
    } else {
        let p = insert_pos(s, name);
        lemma_insert_pos_props(s, name);
        lemma_absent_name_above(s, name);
        s.insert_ensures(p, Rec { name: name, qty: q });
        assert forall|i: int, j: int| 0 <= i < j < t.len() implies str_lt(t[i].name, t[j].name) by {
            if i < p && j < p {
                assert(t[i] == s[i] && t[j] == s[j]);
            } else if i < p && j == p {
                assert(t[i] == s[i]);
            } else if i < p && j > p {
                assert(t[i] == s[i] && t[j] == s[j - 1]);
            } else if i == p && j > p {
                assert(t[j] == s[j - 1]);
            } else if i > p && j > p {
                assert(t[i] == s[i - 1] && t[j] == s[j - 1]);
            }
        }
    }
}

/// A delete keeps the collection sorted.
pub proof fn lemma_delete_preserves_sorted(s: Seq<Rec>, name: Seq<char>)
    requires
        sorted(s),
    ensures
        sorted(model_delete(s, name)),
{
    let t = model_delete(s, name);
    if has_name(s, name) {
        let k = idx_of(s, name);
        lemma_idx_of_is(s, name, idx_of(s, name));
        s.remove_ensures(k);
        assert forall|i: int, j: int| 0 <= i < j < t.len() implies str_lt(t[i].name, t[j].name) by {
            if j < k {
                assert(t[i] == s[i] && t[j] == s[j]);
            } else if i < k && j >= k {
                assert(t[i] == s[i] && t[j] == s[j + 1]);
            } else {
                assert(t[i] == s[i + 1] && t[j] == s[j + 1]);
            }
        }
    }
}

/// The full account of one increment-upsert: the named record ends with the
/// summed quantity (or the given one, when new), every other name keeps its
/// stored quantity, and the length grows only for a new name.
pub proof fn lemma_upsert_semantics(s: Seq<Rec>, name: Seq<char>, q: int)
    requires
        sorted(s),
    ensures
        sorted(model_upsert(s, name, q)),
        has_name(model_upsert(s, name, q), name),
        idx_of(model_upsert(s, name, q), name) == (if has_name(s, name) {
            idx_of(s, name)
        } else {
            insert_pos(s, name)
        }),
        lookup(model_upsert(s, name, q), name) == Some(
            if has_name(s, name) {
                s[idx_of(s, name)].qty + q
            } else {
                q
            },
        ),
        forall|other: Seq<char>|
            other != name ==> lookup(model_upsert(s, name, q), other) == lookup(s, other),
        model_upsert(s, name, q).len() == (if has_name(s, name) {
            s.len()
        } else {
            s.len() + 1
        }),
{
    let t = model_upsert(s, name, q);
    lemma_upsert_preserves_sorted(s, name, q);
    if has_name(s, name) {
        let k = idx_of(s, name);
        lemma_idx_of_is(s, name, k);
        lemma_idx_of_is(t, name, k);
        assert forall|other: Seq<char>|
            other != name implies lookup(t, other) == lookup(s, other) by {
            assert forall|i: int|
                0 <= i < s.len() implies t[i].name == s[i].name && (i != k ==> t[i] == s[i]) by {}
            if has_name(s, other) {
                let io = idx_of(s, other);
                assert(0 <= io < s.len() && s[io].name == other);
                assert(io != k);
                lemma_idx_of_is(t, other, io);
            } else {
                if has_name(t, other) {
                    let io = idx_of(t, other);
                    assert(0 <= io < t.len() && t[io].name == other);
                    assert(s[io].name == other);
                }
            }
        }
    } else {
        let p = insert_pos(s, name);
        lemma_insert_pos_props(s, name);
        lemma_absent_name_above(s, name);
        s.insert_ensures(p, Rec { name: name, qty: q });
        lemma_idx_of_is(t, name, p);
        assert forall|other: Seq<char>|
            other != name implies lookup(t, other) == lookup(s, other) by {
            if has_name(s, other) {
                let io = idx_of(s, other);
                assert(0 <= io < s.len() && s[io].name == other);
                if io < p {
                    assert(t[io] == s[io]);
                    lemma_idx_of_is(t, other, io);
                } else {
                    assert(t[io + 1] == s[io]);
                    lemma_idx_of_is(t, other, io + 1);
                }
            } else {
                if has_name(t, other) {
                    let io = idx_of(t, other);
                    assert(0 <= io < t.len() && t[io].name == other);
                    if io < p {
                        assert(s[io].name == other);
                    } else {
                        assert(io != p);
                        assert(s[io - 1].name == other);
                    }
                }
            }
        }
    }
}

/// The full account of one delete: the name is gone afterwards, every other
/// name keeps its stored quantity, and the length shrinks exactly when the
/// name was present.
pub proof fn lemma_delete_semantics(s: Seq<Rec>, name: Seq<char>)
    requires
        sorted(s),
    ensures
        sorted(model_delete(s, name)),
        !has_name(model_delete(s, name), name),
        forall|other: Seq<char>|
            other != name ==> lookup(model_delete(s, name), other) == lookup(s, other),
        model_delete(s, name).len() == (if has_name(s, name) {
            s.len() - 1
        } else {
            s.len() as int
        }),
{
    let t = model_delete(s, name);
    lemma_delete_preserves_sorted(s, name);
    if has_name(s, name) {
        let k = idx_of(s, name);
        lemma_idx_of_is(s, name, k);
        lemma_sorted_unique(s);
        s.remove_ensures(k);
        assert forall|i: int| 0 <= i < t.len() implies t[i].name != name by {
            if i < k {
                assert(t[i] == s[i]);
            } else {
                assert(t[i] == s[i + 1]);
            }
        }
        assert forall|other: Seq<char>|
            other != name implies lookup(t, other) == lookup(s, other) by {
            if has_name(s, other) {
                let io = idx_of(s, other);
                assert(0 <= io < s.len() && s[io].name == other);
                assert(io != k);
                if io < k {
                    assert(t[io] == s[io]);
                    lemma_idx_of_is(t, other, io);
                } else {
                    assert(t[io - 1] == s[io]);
                    lemma_idx_of_is(t, other, io - 1);
                }
            } else {
                if has_name(t, other) {
                    let io = idx_of(t, other);
                    assert(0 <= io < t.len() && t[io].name == other);
                    if io < k {
                        assert(s[io].name == other);
                    } else {
                        assert(s[io + 1].name == other);
                    }
                }
            }
        }
    }
}

} // verus!
