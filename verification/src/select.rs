//! The selection that listings and queries make from an ordered sequence:
//! the items that a filter keeps, in ascending or descending order, up to a
//! limit.

use vstd::prelude::*;

verus! {

/// The items in the order asked for.
pub open spec fn ordered<T>(items: Seq<T>, descending: bool) -> Seq<T> {
    if descending {
        items.reverse()
    } else {
        items
    }
}

/// The first `limit` items of `items`, or all of them where there is no
/// limit or there are fewer.
pub open spec fn limited<T>(items: Seq<T>, limit: Option<u32>) -> Seq<T> {
    match limit {
        Some(n) => if n < items.len() {
            items.take(n as int)
        } else {
            items
        },
        None => items,
    }
}

/// The items that `keep` keeps, in the order asked for, up to the limit.
pub open spec fn select<T>(
    items: Seq<T>,
    keep: spec_fn(T) -> bool,
    descending: bool,
    limit: Option<u32>,
) -> Seq<T> {
    limited(ordered(items, descending).filter(keep), limit)
}

/// The selection from the first `i + 1` items is that from the first `i`,
/// with the item at `i` added if the filter keeps it and the limit is not
/// reached.
pub proof fn lemma_select_step<T>(
    items: Seq<T>,
    keep: spec_fn(T) -> bool,
    limit: Option<u32>,
    i: int,
)
    requires
        0 <= i < items.len(),
    ensures
        limited(items.take(i + 1).filter(keep), limit) == (if keep(items[i]) && !(limit matches Some(
            n,
        ) && limited(items.take(i).filter(keep), limit).len() >= n) {
            limited(items.take(i).filter(keep), limit).push(items[i])
        } else {
            limited(items.take(i).filter(keep), limit)
        }),
{
    reveal(Seq::filter);
    let shorter = items.take(i).filter(keep);
    assert(items.take(i + 1).drop_last() =~= items.take(i));
    assert(items.take(i + 1).last() == items[i]);
    let longer = items.take(i + 1).filter(keep);
    if keep(items[i]) {
        assert(longer == shorter.push(items[i]));
        match limit {
            Some(n) => {
                if shorter.len() >= n {
                    assert(longer.take(n as int) =~= shorter.take(n as int));
                } else {
                    assert(limited(longer, limit) =~= shorter.push(items[i]));
                }
            },
            None => {},
        }
    } else {
        assert(longer == shorter);
    }
}

/// The selection from no items is empty.
pub proof fn lemma_select_none<T>(items: Seq<T>, keep: spec_fn(T) -> bool, limit: Option<u32>)
    ensures
        limited(items.take(0).filter(keep), limit) == Seq::<T>::empty(),
{
    reveal(Seq::filter);
    assert(items.take(0) =~= Seq::<T>::empty());
    assert(limited(Seq::<T>::empty().filter(keep), limit) =~= Seq::<T>::empty());
}

/// The position, in `items`, of the item at position `i` of the order asked
/// for.
pub fn position(len: usize, i: usize, descending: bool) -> (p: usize)
    requires
        i < len,
    ensures
        p < len,
        p == (if descending {
            len - 1 - i
        } else {
            i as int
        }),
{
    if descending {
        len - 1 - i
    } else {
        i
    }
}

/// The item at position `i` of the order asked for.
pub proof fn lemma_ordered_at<T>(items: Seq<T>, descending: bool, i: int)
    requires
        0 <= i < items.len(),
    ensures
        ordered(items, descending).len() == items.len(),
        ordered(items, descending)[i] == items[if descending {
            items.len() - 1 - i
        } else {
            i
        }],
{
}

/// Every item of a selection is an item that the filter keeps.
pub proof fn lemma_select_sound<T>(
    items: Seq<T>,
    keep: spec_fn(T) -> bool,
    descending: bool,
    limit: Option<u32>,
    j: int,
) -> (i: int)
    requires
        0 <= j < select(items, keep, descending, limit).len(),
    ensures
        0 <= i < items.len(),
        items[i] == select(items, keep, descending, limit)[j],
        keep(items[i]),
{
    let all = ordered(items, descending);
    let kept = all.filter(keep);
    let chosen = select(items, keep, descending, limit);
    assert(chosen[j] == kept[j]);
    kept.lemma_filter_len(keep);
    all.lemma_filter_pred(keep, j);
    assert(kept.contains(kept[j]));
    all.lemma_filter_contains_rev(keep, kept[j]);
    let a = choose|a: int| 0 <= a < all.len() && all[a] == kept[j];
    if descending {
        items.len() - 1 - a
    } else {
        a
    }
}

/// Without a limit, every item that the filter keeps is in the selection.
pub proof fn lemma_select_complete<T>(
    items: Seq<T>,
    keep: spec_fn(T) -> bool,
    descending: bool,
    i: int,
) -> (j: int)
    requires
        0 <= i < items.len(),
        keep(items[i]),
    ensures
        0 <= j < select(items, keep, descending, None).len(),
        select(items, keep, descending, None)[j] == items[i],
{
    let all = ordered(items, descending);
    let a = if descending { items.len() - 1 - i } else { i };
    assert(all[a] == items[i]);
    all.lemma_filter_contains(keep, a);
    let kept = all.filter(keep);
    choose|j: int| 0 <= j < kept.len() && kept[j] == items[i]
}

} // verus!
