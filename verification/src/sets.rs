//! Small sets kept as duplicate-free vectors.
//!
//! The graph stores every membership set (replica locations, assignment
//! sets, session contents) as a `Vec` without duplicates, so insertion
//! order is preserved. The helpers here give the exact sequence-level
//! effect of each operation.

use vstd::prelude::*;
use crate::ids::{Address, DataObjectId, TaskId};

verus! {

/// What a set insertion leaves behind: unchanged when the element is
/// already present, appended at the end otherwise.
pub open spec fn set_insert<T>(s: Seq<T>, x: T) -> Seq<T> {
    if s.contains(x) {
        s
    } else {
        s.push(x)
    }
}

pub proof fn lemma_set_insert<T>(s: Seq<T>, x: T)
    requires
        s.no_duplicates(),
    ensures
        set_insert(s, x).no_duplicates(),
        forall|y: T| set_insert(s, x).contains(y) <==> (s.contains(y) || y == x),
{
    if !s.contains(x) {
        assert forall|y: T| #[trigger] s.push(x).contains(y) implies (s.contains(y) || y == x) by {
            let i = choose|i: int| 0 <= i < s.push(x).len() && s.push(x)[i] == y;
            if i < s.len() {
                assert(s[i] == y);
            }
        }
        assert forall|y: T| (s.contains(y) || y == x) implies #[trigger] s.push(x).contains(y) by {
            if s.contains(y) {
                let i = choose|i: int| 0 <= i < s.len() && s[i] == y;
                assert(s.push(x)[i] == y);
            } else {
                assert(s.push(x)[s.len() as int] == x);
            }
        }
    }
}

pub proof fn lemma_set_remove<T>(s: Seq<T>, x: T)
    requires
        s.no_duplicates(),
    ensures
        s.remove_value(x).no_duplicates(),
        forall|y: T| s.remove_value(x).contains(y) <==> (s.contains(y) && y != x),
        s.contains(x) ==> s.remove_value(x).len() == s.len() - 1,
        !s.contains(x) ==> s.remove_value(x) == s,
{
    s.index_of_first_ensures(x);
    match s.index_of_first(x) {
        Some(i) => {
            let r = s.remove(i);
            s.remove_ensures(i);
            assert forall|y: T| #[trigger] r.contains(y) implies (s.contains(y) && y != x) by {
                let j = choose|j: int| 0 <= j < r.len() && r[j] == y;
                if j < i {
                    assert(s[j] == y);
                    assert(s[j] != s[i]);
                } else {
                    assert(r[j] == s[j + 1]);
                    assert(s[j + 1] != s[i]);
                }
            }
            assert forall|y: T| (s.contains(y) && y != x) implies #[trigger] r.contains(y) by {
                let m = choose|m: int| 0 <= m < s.len() && s[m] == y;
                if m < i {
                    assert(r[m] == y);
                } else {
                    assert(m != i);
                    assert(r[m - 1] == s[m]);
                }
            }
            assert forall|a: int, b: int| 0 <= a < b < r.len() implies r[a] != r[b] by {
                let sa: int = if a < i {
                    a
                } else {
                    a + 1
                };
                let sb: int = if b < i {
                    b
                } else {
                    b + 1
                };
                assert(r[a] == s[sa]);
                assert(r[b] == s[sb]);
                assert(s[sa] != s[sb]);
            }
        },
        None => {},
    }
}

pub fn tid_contains(v: &Vec<TaskId>, x: TaskId) -> (r: bool)
    ensures
        r == v@.contains(x),
{
    let mut k: usize = 0;
    while k < v.len()
        invariant
            k <= v@.len(),
            forall|i: int| 0 <= i < k ==> v@[i] != x,
        decreases v@.len() - k,
    {
        if v[k] == x {
            return true;
        }
        k = k + 1;
    }
    false
}

pub fn tid_insert(v: &mut Vec<TaskId>, x: TaskId)
    ensures
        final(v)@ == set_insert(old(v)@, x),
{
    if !tid_contains(v, x) {
        v.push(x);
    }
}

pub fn tid_remove(v: &mut Vec<TaskId>, x: TaskId)
    ensures
        final(v)@ == old(v)@.remove_value(x),
{
    let mut k: usize = 0;
    while k < v.len()
        invariant
            v@ == old(v)@,
            k <= v@.len(),
            forall|i: int| 0 <= i < k ==> v@[i] != x,
        decreases v@.len() - k,
    {
        if v[k] == x {
            proof {
                v@.index_of_first_ensures(x);
                assert(v@.index_of_first(x) == Some(k as int));
            }
            v.remove(k);
            return;
        }
        k = k + 1;
    }
    proof {
        v@.index_of_first_ensures(x);
    }
}

pub fn oid_contains(v: &Vec<DataObjectId>, x: DataObjectId) -> (r: bool)
    ensures
        r == v@.contains(x),
{
    let mut k: usize = 0;
    while k < v.len()
        invariant
            k <= v@.len(),
            forall|i: int| 0 <= i < k ==> v@[i] != x,
        decreases v@.len() - k,
    {
        if v[k] == x {
            return true;
        }
        k = k + 1;
    }
    false
}

pub fn oid_insert(v: &mut Vec<DataObjectId>, x: DataObjectId)
    ensures
        final(v)@ == set_insert(old(v)@, x),
{
    if !oid_contains(v, x) {
        v.push(x);
    }
}

pub fn oid_remove(v: &mut Vec<DataObjectId>, x: DataObjectId)
    ensures
        final(v)@ == old(v)@.remove_value(x),
{
    let mut k: usize = 0;
    while k < v.len()
        invariant
            v@ == old(v)@,
            k <= v@.len(),
            forall|i: int| 0 <= i < k ==> v@[i] != x,
        decreases v@.len() - k,
    {
        if v[k] == x {
            proof {
                v@.index_of_first_ensures(x);
                assert(v@.index_of_first(x) == Some(k as int));
            }
            v.remove(k);
            return;
        }
        k = k + 1;
    }
    proof {
        v@.index_of_first_ensures(x);
    }
}

pub fn addr_contains(v: &Vec<Address>, x: Address) -> (r: bool)
    ensures
        r == v@.contains(x),
{
    let mut k: usize = 0;
    while k < v.len()
        invariant
            k <= v@.len(),
            forall|i: int| 0 <= i < k ==> v@[i] != x,
        decreases v@.len() - k,
    {
        if v[k] == x {
            return true;
        }
        k = k + 1;
    }
    false
}

pub fn addr_insert(v: &mut Vec<Address>, x: Address)
    ensures
        final(v)@ == set_insert(old(v)@, x),
{
    if !addr_contains(v, x) {
        v.push(x);
    }
}

pub fn addr_remove(v: &mut Vec<Address>, x: Address)
    ensures
        final(v)@ == old(v)@.remove_value(x),
{
    let mut k: usize = 0;
    while k < v.len()
        invariant
            v@ == old(v)@,
            k <= v@.len(),
            forall|i: int| 0 <= i < k ==> v@[i] != x,
        decreases v@.len() - k,
    {
        if v[k] == x {
            proof {
                v@.index_of_first_ensures(x);
                assert(v@.index_of_first(x) == Some(k as int));
            }
            v.remove(k);
            return;
        }
        k = k + 1;
    }
    proof {
        v@.index_of_first_ensures(x);
    }
}

} // verus!
