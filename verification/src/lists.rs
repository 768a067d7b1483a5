//! Facts about sequences that the loops of this library lean on.

use vstd::prelude::*;

verus! {

/// Filtering one element more keeps or drops exactly that element.
pub proof fn filter_step<T>(items: Seq<T>, keep: spec_fn(T) -> bool, index: int)
    requires
        0 <= index < items.len(),
    ensures
        items.take(index + 1).filter(keep) == (if keep(items[index]) {
            items.take(index).filter(keep).push(items[index])
        } else {
            items.take(index).filter(keep)
        }),
{
    reveal(Seq::filter);
    assert(items.take(index + 1).drop_last() =~= items.take(index));
}

/// Filtering no element leaves none, and filtering all of them is filtering the sequence.
pub proof fn filter_ends<T>(items: Seq<T>, keep: spec_fn(T) -> bool)
    ensures
        items.take(0).filter(keep) == Seq::<T>::empty(),
        items.take(items.len() as int) == items,
{
    reveal(Seq::filter);
    assert(items.take(0) =~= Seq::<T>::empty());
    assert(items.take(0).filter(keep) =~= Seq::<T>::empty());
    assert(items.take(items.len() as int) =~= items);
}

/// The first element that is kept.
pub open spec fn first_kept<T>(items: Seq<T>, keep: spec_fn(T) -> bool) -> Option<T> {
    if items.filter(keep).len() > 0 {
        Some(items.filter(keep)[0])
    } else {
        None
    }
}

/// What is kept of the front of a sequence is the front of what is kept.
pub proof fn filter_keeps_front<T>(items: Seq<T>, keep: spec_fn(T) -> bool, length: int)
    requires
        0 <= length <= items.len(),
    ensures
        items.take(length).filter(keep).len() <= items.filter(keep).len(),
        forall|at: int|
            0 <= at < items.take(length).filter(keep).len() ==> #[trigger] items.take(
                length,
            ).filter(keep)[at] == items.filter(keep)[at],
    decreases items.len() - length,
{
    if length == items.len() {
        assert(items.take(length) =~= items);
    } else {
        filter_step(items, keep, length);
        filter_keeps_front(items, keep, length + 1);
        let now = items.take(length).filter(keep);
        let next = items.take(length + 1).filter(keep);
        assert forall|at: int| 0 <= at < now.len() implies now[at] == items.filter(keep)[at] by {
            assert(next[at] == items.filter(keep)[at]);
        }
    }
}

/// Where nothing was kept before an element that is kept, that element is the first.
pub proof fn first_is_kept<T>(items: Seq<T>, keep: spec_fn(T) -> bool, at: int)
    requires
        0 <= at < items.len(),
        keep(items[at]),
        items.take(at).filter(keep).len() == 0,
    ensures
        first_kept(items, keep) == Some(items[at]),
{
    filter_step(items, keep, at);
    filter_keeps_front(items, keep, at + 1);
    assert(items.take(at + 1).filter(keep)[0] == items[at]);
}

/// What is kept of a sequence stands in the sequence, and is to be kept.
pub proof fn kept_is_there<T>(items: Seq<T>, keep: spec_fn(T) -> bool, at: int) -> (place: int)
    requires
        0 <= at < items.filter(keep).len(),
    ensures
        0 <= place < items.len(),
        items[place] == items.filter(keep)[at],
        keep(items[place]),
    decreases items.len(),
{
    reveal(Seq::filter);
    let front = items.drop_last();
    if keep(items.last()) && at == front.filter(keep).len() {
        items.len() - 1
    } else {
        kept_is_there(front, keep, at)
    }
}

/// An element that is to be kept is found among what is kept.
pub proof fn kept_is_found<T>(items: Seq<T>, keep: spec_fn(T) -> bool, place: int) -> (at: int)
    requires
        0 <= place < items.len(),
        keep(items[place]),
    ensures
        0 <= at < items.filter(keep).len(),
        items.filter(keep)[at] == items[place],
{
    filter_step(items, keep, place);
    filter_keeps_front(items, keep, place + 1);
    let front = items.take(place).filter(keep);
    assert(items.take(place + 1).filter(keep)[front.len() as int] == items[place]);
    front.len() as int
}

/// The first element that is kept is in the sequence, is to be kept, and none before it is; where
/// there is none, no element is to be kept.
pub proof fn first_kept_is_first<T>(items: Seq<T>, keep: spec_fn(T) -> bool)
    ensures
        match first_kept(items, keep) {
            Some(first) => exists|at: int|
                {
                    &&& 0 <= at < items.len()
                    &&& #[trigger] items[at] == first
                    &&& keep(first)
                    &&& forall|earlier: int| 0 <= earlier < at ==> !keep(#[trigger] items[earlier])
                },
            None => forall|at: int| 0 <= at < items.len() ==> !keep(#[trigger] items[at]),
        },
    decreases items.len(),
{
    reveal(Seq::filter);
    if items.len() > 0 {
        let front = items.drop_last();
        first_kept_is_first(front, keep);
        assert(forall|at: int| 0 <= at < front.len() ==> front[at] == #[trigger] items[at]);
        match first_kept(front, keep) {
            Some(first) => {
                let at = choose|at: int|
                    {
                        &&& 0 <= at < front.len()
                        &&& #[trigger] front[at] == first
                        &&& keep(first)
                        &&& forall|earlier: int|
                            0 <= earlier < at ==> !keep(#[trigger] front[earlier])
                    };
                assert(items[at] == first);
                assert forall|earlier: int| 0 <= earlier < at implies !keep(
                    #[trigger] items[earlier],
                ) by {
                    assert(!keep(front[earlier]));
                }
            },
            None => {
                assert forall|at: int| 0 <= at < front.len() implies !keep(#[trigger] items[at]) by {
                    assert(!keep(front[at]));
                }
                if keep(items.last()) {
                    assert(items[items.len() - 1] == items.last());
                }
            },
        }
    }
}

} // verus!
