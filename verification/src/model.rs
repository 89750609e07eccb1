//! Models of sequences of values.

use vstd::prelude::*;

verus! {

/// The models of the elements of `s`.
pub open spec fn views<T: DeepView>(s: Seq<T>) -> Seq<T::V> {
    s.map_values(|t: T| t.deep_view())
}

pub broadcast proof fn lemma_vec_views<T: DeepView>(v: Vec<T>)
    ensures
        #[trigger] v.deep_view() == views(v@),
{
    assert(v.deep_view() =~= views(v@));
}

pub broadcast proof fn lemma_views_push<T: DeepView>(s: Seq<T>, x: T)
    ensures
        #[trigger] views(s.push(x)) == views(s).push(x.deep_view()),
{
    assert(views(s.push(x)) =~= views(s).push(x.deep_view()));
}

pub broadcast proof fn lemma_views_empty<T: DeepView>()
    ensures
        #[trigger] views(Seq::<T>::empty()) == Seq::<T::V>::empty(),
{
    assert(views(Seq::<T>::empty()) =~= Seq::<T::V>::empty());
}

pub broadcast proof fn lemma_views_update<T: DeepView>(s: Seq<T>, i: int, x: T)
    requires
        0 <= i < s.len(),
    ensures
        #[trigger] views(s.update(i, x)) == views(s).update(i, x.deep_view()),
{
    assert(views(s.update(i, x)) =~= views(s).update(i, x.deep_view()));
}

pub broadcast proof fn lemma_views_remove<T: DeepView>(s: Seq<T>, i: int)
    requires
        0 <= i < s.len(),
    ensures
        #[trigger] views(s.remove(i)) == views(s).remove(i),
{
    assert(views(s.remove(i)) =~= views(s).remove(i));
}

pub broadcast proof fn lemma_views_take<T: DeepView>(s: Seq<T>, n: int)
    requires
        0 <= n <= s.len(),
    ensures
        #[trigger] views(s.take(n)) == views(s).take(n),
{
    assert(views(s.take(n)) =~= views(s).take(n));
}

pub broadcast proof fn lemma_views_subrange<T: DeepView>(s: Seq<T>, a: int, b: int)
    requires
        0 <= a <= b <= s.len(),
    ensures
        #[trigger] views(s.subrange(a, b)) == views(s).subrange(a, b),
{
    assert(views(s.subrange(a, b)) =~= views(s).subrange(a, b));
}

pub broadcast group group_views {
    lemma_vec_views,
    lemma_views_push,
    lemma_views_empty,
    lemma_views_update,
    lemma_views_remove,
    lemma_views_take,
    lemma_views_subrange,
}

} // verus!
