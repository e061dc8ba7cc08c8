//! Lists read through the models of their items.
use vstd::prelude::*;

verus! {

/// A list without items.
pub fn empty<T: DeepView>() -> (r: Vec<T>)
    ensures
        r@ == Seq::<T>::empty(),
        r.deep_view() == Seq::<T::V>::empty(),
{
    let r: Vec<T> = Vec::new();
    assert(r.deep_view() == Seq::<T::V>::empty());
    r
}

/// A list with one item.
pub fn single<T: DeepView>(item: T) -> (r: Vec<T>)
    ensures
        r@ == seq![item],
        r.deep_view() == seq![item.deep_view()],
{
    let mut r: Vec<T> = Vec::new();
    r.push(item);
    assert(r.deep_view() == seq![item.deep_view()]);
    r
}

/// Adds an item at the end.
pub fn push<T: DeepView>(items: &mut Vec<T>, item: T)
    ensures
        final(items)@ == old(items)@.push(item),
        final(items).deep_view() == old(items).deep_view().push(item.deep_view()),
{
    let ghost before = items.deep_view();
    items.push(item);
    assert(items.deep_view() == before.push(item.deep_view()));
}

/// Adds all items of another list at the end.
pub fn extend<T: DeepView>(items: &mut Vec<T>, more: Vec<T>)
    ensures
        final(items)@ == old(items)@ + more@,
        final(items).deep_view() == old(items).deep_view() + more.deep_view(),
{
    let ghost before = items.deep_view();
    let ghost added = more.deep_view();
    let mut rest = more;
    items.append(&mut rest);
    assert(items.deep_view() == before + added);
}

/// The items that `part` gives for 0, 1, .. up to `n`, one after another.
pub open spec fn flat<V>(n: int, part: spec_fn(int) -> Seq<V>) -> Seq<V>
    decreases n,
{
    if n <= 0 {
        Seq::empty()
    } else {
        flat(n - 1, part) + part(n - 1)
    }
}

} // verus!
