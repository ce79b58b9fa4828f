//! Finding a record in a table by its identifier.

use vstd::prelude::*;
use crate::records::views;

verus! {

/// `i` is the first position of `s` whose item satisfies `p`.
pub open spec fn is_first<T>(s: Seq<T>, p: spec_fn(T) -> bool, i: int) -> bool {
    &&& 0 <= i < s.len()
    &&& p(s[i])
    &&& forall|j: int| 0 <= j < i ==> !p(#[trigger] s[j])
}

/// The first position of `s` whose item satisfies `p`, if there is one.
pub open spec fn first_index<T>(s: Seq<T>, p: spec_fn(T) -> bool) -> Option<int> {
    if exists|i: int| is_first(s, p, i) {
        Some(choose|i: int| is_first(s, p, i))
    } else {
        None
    }
}

/// Some item of `s` satisfies `p`.
pub open spec fn occurs<T>(s: Seq<T>, p: spec_fn(T) -> bool) -> bool {
    exists|i: int| 0 <= i < s.len() && p(#[trigger] s[i])
}

/// A first position is the one that `first_index` gives.
pub proof fn lemma_first_index_found<T>(s: Seq<T>, p: spec_fn(T) -> bool, i: int)
    requires
        is_first(s, p, i),
    ensures
        first_index(s, p) == Some(i),
{
    let c = choose|k: int| is_first(s, p, k);
    assert(is_first(s, p, c));
    if c < i {
        assert(!p(s[c]));
    } else if i < c {
        assert(!p(s[i]));
    }
}

proof fn lemma_least_exists<T>(s: Seq<T>, p: spec_fn(T) -> bool, j: int)
    requires
        0 <= j < s.len(),
        p(s[j]),
    ensures
        exists|i: int| is_first(s, p, i),
    decreases j,
{
    if forall|k: int| 0 <= k < j ==> !p(#[trigger] s[k]) {
        assert(is_first(s, p, j));
    } else {
        let k = choose|k: int| 0 <= k < j && p(#[trigger] s[k]);
        lemma_least_exists(s, p, k);
    }
}

/// What `first_index` says of its result, in both cases.
pub proof fn lemma_first_index<T>(s: Seq<T>, p: spec_fn(T) -> bool)
    ensures
        match first_index(s, p) {
            Some(i) => is_first(s, p, i),
            None => forall|j: int| 0 <= j < s.len() ==> !p(#[trigger] s[j]),
        },
        first_index(s, p) is Some <==> occurs(s, p),
{
    if first_index(s, p) is None {
        assert forall|j: int| 0 <= j < s.len() implies !p(#[trigger] s[j]) by {
            if p(s[j]) {
                lemma_least_exists(s, p, j);
            }
        }
    } else {
        let i = first_index(s, p)->0;
        assert(is_first(s, p, i));
        assert(p(s[i]));
    }
}

/// A record that is found by an integer identifier.
pub trait Keyed: View + Sized {
    /// The identifier, read from the record's view.
    spec fn key_of(v: Self::V) -> i32;

    fn key(&self) -> (k: i32)
        ensures
            k == Self::key_of(self@),
    ;
}

/// The predicate "has the identifier `key`" on the views of `T`.
pub open spec fn has_key<T: Keyed>(key: i32) -> spec_fn(T::V) -> bool {
    |v: T::V| T::key_of(v) == key
}

/// The position of the first record with the identifier `key`.
pub fn find<T: Keyed>(rows: &Vec<T>, key: i32) -> (r: Option<usize>)
    ensures
        match r {
            Some(i) => first_index(views(rows@), has_key::<T>(key)) == Some(i as int),
            None => first_index(views(rows@), has_key::<T>(key)) is None,
        },
{
    let ghost s = views(rows@);
    let ghost p = has_key::<T>(key);
    let mut i: usize = 0;
    while i < rows.len()
        invariant
            i <= rows.len(),
            s == views(rows@),
            p == has_key::<T>(key),
            forall|j: int| 0 <= j < i ==> !p(#[trigger] s[j]),
        decreases rows.len() - i,
    {
        if rows[i].key() == key {
            proof {
                assert(s[i as int] == rows@[i as int]@);
                assert(p(s[i as int]));
                lemma_first_index_found(s, p, i as int);
            }
            return Some(i);
        }
        proof {
            assert(s[i as int] == rows@[i as int]@);
        }
        i += 1;
    }
    proof {
        lemma_first_index(s, p);
        if first_index(s, p) is Some {
            let k = first_index(s, p)->0;
            assert(p(s[k]));
        }
    }
    None
}

/// The highest identifier of a table, or zero where none is positive.
pub open spec fn highest_key<T: Keyed>(rows: Seq<T::V>) -> i32
    decreases rows.len(),
{
    if rows.len() == 0 {
        0
    } else if T::key_of(rows.last()) > highest_key::<T>(rows.drop_last()) {
        T::key_of(rows.last())
    } else {
        highest_key::<T>(rows.drop_last())
    }
}

/// No identifier of the table exceeds the highest one.
pub proof fn lemma_highest_key<T: Keyed>(rows: Seq<T::V>)
    ensures
        0 <= highest_key::<T>(rows),
        forall|i: int| 0 <= i < rows.len() ==> T::key_of(#[trigger] rows[i]) <= highest_key::<T>(rows),
    decreases rows.len(),
{
    if rows.len() > 0 {
        let init = rows.drop_last();
        lemma_highest_key::<T>(init);
        assert forall|i: int| 0 <= i < rows.len() implies T::key_of(#[trigger] rows[i])
            <= highest_key::<T>(rows) by {
            if i < init.len() {
                assert(init[i] == rows[i]);
            }
        }
    }
}

/// Computes the highest identifier of a table.
pub fn top_key<T: Keyed>(rows: &Vec<T>) -> (r: i32)
    ensures
        r == highest_key::<T>(views(rows@)),
{
    let ghost s = views(rows@);
    let mut top: i32 = 0;
    let mut i: usize = 0;
    while i < rows.len()
        invariant
            i <= rows.len(),
            s == views(rows@),
            top == highest_key::<T>(s.take(i as int)),
        decreases rows.len() - i,
    {
        proof {
            assert(s.take(i as int + 1).drop_last() =~= s.take(i as int));
            assert(s.take(i as int + 1).last() == rows@[i as int]@);
        }
        let k = rows[i].key();
        if k > top {
            top = k;
        }
        i += 1;
    }
    proof {
        assert(s.take(i as int) =~= s);
    }
    top
}

} // verus!
