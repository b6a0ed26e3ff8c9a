use vstd::prelude::*;
use vstd::laws_eq::obeys_concrete_eq;
use vstd::std_specs::cmp::PartialEqSpec;
use crate::doublelinkedlist::{
    back_of, front_of, holds_equal, inserted_at, removed_at, removed_value, without_back,
    without_front, ListError,
};

verus! {

/// The contents after `push_back` of each of `vs`, in order, on a list holding `s`.
pub open spec fn pushed_back_all<T>(s: Seq<T>, vs: Seq<T>) -> Seq<T>
    decreases vs.len(),
{
    if vs.len() == 0 {
        s
    } else {
        pushed_back_all(s, vs.drop_last()).push(vs.last())
    }
}

/// The contents after `push_front` of each of `vs`, in order, on a list holding `s`.
pub open spec fn pushed_front_all<T>(s: Seq<T>, vs: Seq<T>) -> Seq<T>
    decreases vs.len(),
{
    if vs.len() == 0 {
        s
    } else {
        seq![vs.last()] + pushed_front_all(s, vs.drop_last())
    }
}

/// Pushing values at the back of an empty list leaves them in push order, so
/// the length is the number of pushes and a forward pass yields them as pushed.
pub proof fn lemma_push_back_order<T>(vs: Seq<T>)
    ensures
        pushed_back_all(Seq::<T>::empty(), vs) == vs,
        pushed_back_all(Seq::<T>::empty(), vs).len() == vs.len(),
    decreases vs.len(),
{
    if vs.len() > 0 {
        lemma_push_back_order(vs.drop_last());
        assert(vs.drop_last().push(vs.last()) =~= vs);
    }
}

/// Pushing values at the front of an empty list leaves them in reverse push
/// order.
pub proof fn lemma_push_front_order<T>(vs: Seq<T>)
    ensures
        pushed_front_all(Seq::<T>::empty(), vs) == vs.reverse(),
    decreases vs.len(),
{
    if vs.len() > 0 {
        lemma_push_front_order(vs.drop_last());
        assert(seq![vs.last()] + vs.drop_last().reverse() =~= vs.reverse());
    }
}

/// Inserting at or past the end is the same as pushing at the back.
pub proof fn lemma_insert_past_end<T>(s: Seq<T>, index: int, v: T)
    requires
        index >= s.len(),
    ensures
        inserted_at(s, index, v) == s.push(v),
{
}

/// Inserting at index zero is the same as pushing at the front.
pub proof fn lemma_insert_at_zero<T>(s: Seq<T>, v: T)
    ensures
        inserted_at(s, 0, v) == seq![v] + s,
{
    if s.len() == 0 {
        assert(s.push(v) =~= seq![v] + s);
    } else {
        assert(s.insert(0, v) =~= seq![v] + s);
    }
}

/// Removing at or past the end is the same as popping at the back.
pub proof fn lemma_remove_past_end<T>(s: Seq<T>, index: int)
    requires
        index >= s.len(),
    ensures
        removed_at(s, index) == without_back(s),
        removed_value(s, index) == back_of(s),
{
}

/// Removing at index zero is the same as popping at the front.
pub proof fn lemma_remove_at_zero<T>(s: Seq<T>)
    ensures
        removed_at(s, 0) == without_front(s),
        removed_value(s, 0) == front_of(s),
{
    if s.len() > 0 {
        assert(s.remove(0) =~= s.drop_first());
    }
}

/// Pushing at the back and popping at once gives back the value and restores
/// the previous contents, hence the previous length and last element.
pub proof fn lemma_push_pop_back<T>(s: Seq<T>, v: T)
    ensures
        without_back(s.push(v)) == s,
        back_of(s.push(v)) == Ok::<T, ListError>(v),
{
    assert(s.push(v).drop_last() =~= s);
}

/// Where `==` compares values exactly, a value is found just after it is pushed
/// at either end, and no longer once its only occurrence is removed.
pub proof fn lemma_contains_after_push_and_remove<T: PartialEq>(s: Seq<T>, v: T, index: int)
    requires
        obeys_concrete_eq::<T>(),
        0 <= index < s.len(),
        s[index] == v,
        forall|j: int| 0 <= j < s.len() && j != index ==> s[j] != v,
    ensures
        holds_equal(s.push(v), &v),
        holds_equal(seq![v] + s, &v),
        !holds_equal(removed_at(s, index), &v),
{
    reveal(obeys_concrete_eq);
    assert(s.push(v)[s.len() as int] == v);
    assert((seq![v] + s)[0] == v);
    let r = removed_at(s, index);
    assert(r == s.remove(index));
    assert forall|j: int| 0 <= j < r.len() implies !(#[trigger] r[j]).eq_spec(&v) by {
        if j < index {
            assert(r[j] == s[j]);
        } else {
            assert(r[j] == s[j + 1]);
        }
    }
}

/// Whatever a list held, it is empty after `clear`.
pub proof fn lemma_clear_empties<T>()
    ensures
        Seq::<T>::empty().len() == 0,
{
}

/// Popping at either end of an empty list reports it and leaves it empty.
pub proof fn lemma_pop_on_empty<T>()
    ensures
        without_back(Seq::<T>::empty()) == Seq::<T>::empty(),
        without_front(Seq::<T>::empty()) == Seq::<T>::empty(),
        back_of(Seq::<T>::empty()) == Err::<T, ListError>(ListError::Empty),
        front_of(Seq::<T>::empty()) == Err::<T, ListError>(ListError::Empty),
{
}

} // verus!
