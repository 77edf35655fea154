//! Writers that increment one key at the same time.
//!
//! Each writer reads what the key holds, adds its amount to the number it
//! saw, and writes the sum only if the key still holds what it saw;
//! otherwise it takes what the key holds now and tries again. This module
//! states what the key holds and what the writers have returned after any
//! interleaving of such attempts.

use crate::database::kv::{
    lemma_entry_round_trip, spec_attempt, spec_numeric_base, AttemptView, EntryView,
};
use crate::error::ErrorView;
use crate::keyvalue::numeric::{lemma_wrap_add, spec_increment, wrap_u64, Numeric};
use crate::keyvalue::{OutputView, ValueView};
use vstd::prelude::*;

verus! {

/// A writer that adds `amount`, as an unsigned number and without
/// saturation, to the number of the key.
pub struct Writer {
    /// The amount that the writer adds.
    pub amount: u64,
    /// What the writer last saw the key hold.
    pub observed: Option<Seq<u8>>,
    /// Whether the writer has written its sum.
    pub done: bool,
    /// What the operation of the writer returned, once it is over.
    pub returned: Option<Result<OutputView, ErrorView>>,
}

/// What an operation returns that has written the unsigned number `v`.
pub open spec fn wrote(v: u64) -> Result<OutputView, ErrorView> {
    Ok(OutputView::Value(Some(ValueView::Numeric(Numeric::UnsignedInteger(v)))))
}

/// The unsigned number that the key holds, where it holds one; a key that
/// holds nothing counts as zero.
pub open spec fn counter(held: Option<Seq<u8>>) -> Option<u64> {
    match spec_numeric_base(held) {
        Ok((Numeric::UnsignedInteger(v), _)) => Some(v),
        _ => None,
    }
}

/// One attempt of the writer `w` on a key that holds `held`, as
/// [`attempt_increment_operation`] makes it: what the key holds afterwards,
/// and the writer afterwards. A writer that is done does nothing.
///
/// [`attempt_increment_operation`]: crate::database::kv::attempt_increment_operation
pub open spec fn attempt(held: Option<Seq<u8>>, w: Writer) -> (Option<Seq<u8>>, Writer) {
    if w.done {
        (held, w)
    } else {
        let (after, ended) = spec_attempt(
            held,
            w.observed,
            |existing: Numeric| spec_increment(existing, Numeric::UnsignedInteger(w.amount), false),
        );
        match ended {
            AttemptView::Done(r) => (after, Writer { done: true, returned: Some(r), ..w }),
            AttemptView::Retry(now) => (after, Writer { observed: now, ..w }),
        }
    }
}

/// What the key holds, the writers, and the writers that are done in the
/// order in which their operations ended, after the attempts that
/// `schedule` lists: each of its items is the index of the writer that
/// makes the next attempt; an item that is no index does nothing.
pub open spec fn run(held: Option<Seq<u8>>, writers: Seq<Writer>, schedule: Seq<int>) -> (
    Option<Seq<u8>>,
    Seq<Writer>,
    Seq<int>,
)
    decreases schedule.len(),
{
    if schedule.len() == 0 {
        (held, writers, Seq::empty())
    } else {
        let (held, writers, finished) = run(held, writers, schedule.drop_last());
        let i = schedule.last();
        if 0 <= i < writers.len() {
            let (held, w) = attempt(held, writers[i]);
            (
                held,
                writers.update(i, w),
                if w.done && !writers[i].done {
                    finished.push(i)
                } else {
                    finished
                },
            )
        } else {
            (held, writers, finished)
        }
    }
}

/// The sum of the amounts of the first `n` writers of `finished`.
pub open spec fn finished_sum(writers: Seq<Writer>, finished: Seq<int>, n: int) -> int
    decreases n,
{
    if n <= 0 {
        0
    } else {
        finished_sum(writers, finished, n - 1) + writers[finished[n - 1]].amount
    }
}

/// The sum of the amounts of the writers that are done.
pub open spec fn done_sum(writers: Seq<Writer>) -> int
    decreases writers.len(),
{
    if writers.len() == 0 {
        0
    } else {
        done_sum(writers.drop_last()) + (if writers.last().done {
            writers.last().amount as int
        } else {
            0
        })
    }
}

/// The sum of the amounts of all the writers.
pub open spec fn total(writers: Seq<Writer>) -> int
    decreases writers.len(),
{
    if writers.len() == 0 {
        0
    } else {
        total(writers.drop_last()) + writers.last().amount
    }
}

/// When a writer that was not done becomes done, the sum of the amounts of
/// the writers that are done grows by its amount; a change that leaves
/// `done` as it was leaves the sum as it was.
proof fn lemma_done_sum_update(writers: Seq<Writer>, i: int, w: Writer)
    requires
        0 <= i < writers.len(),
        w.amount == writers[i].amount,
    ensures
        done_sum(writers.update(i, w)) == done_sum(writers) + (if w.done {
            w.amount as int
        } else {
            0
        }) - (if writers[i].done {
            writers[i].amount as int
        } else {
            0
        }),
    decreases writers.len(),
{
    let updated = writers.update(i, w);
    if i == writers.len() - 1 {
        assert(updated.drop_last() =~= writers.drop_last());
    } else {
        assert(updated.drop_last() =~= writers.drop_last().update(i, w));
        lemma_done_sum_update(writers.drop_last(), i, w);
    }
}

/// Where every writer is done, the sum over those that are done is the sum
/// over all.
proof fn lemma_all_done(writers: Seq<Writer>)
    requires
        forall|i: int| 0 <= i < writers.len() ==> (#[trigger] writers[i]).done,
    ensures
        done_sum(writers) == total(writers),
    decreases writers.len(),
{
    if writers.len() > 0 {
        assert forall|i: int| 0 <= i < writers.drop_last().len() implies (
        #[trigger] writers.drop_last()[i]).done by {
            assert(writers.drop_last()[i] == writers[i]);
        }
        lemma_all_done(writers.drop_last());
    }
}

/// What holds of the key and the writers at every moment: the key holds
/// the number it held at first plus the amounts of the writers that are
/// done; no writer has seen anything but an unsigned number; the writers
/// that are done are those of `finished`, each once; and each of them has
/// returned the number that the key held at first plus the amounts of those
/// that ended before it and its own.
pub open spec fn consistent(
    start: u64,
    first: Seq<Writer>,
    held: Option<Seq<u8>>,
    writers: Seq<Writer>,
    finished: Seq<int>,
) -> bool {
    &&& writers.len() == first.len()
    &&& counter(held) == Some(wrap_u64(start + done_sum(writers)))
    &&& done_sum(writers) == finished_sum(first, finished, finished.len() as int)
    &&& finished.no_duplicates()
    &&& forall|i: int|
        0 <= i < writers.len() ==> (#[trigger] writers[i]).amount == first[i].amount && (
        !writers[i].done ==> counter(writers[i].observed) is Some && writers[i].returned is None)
            && (writers[i].done ==> finished.contains(i))
    &&& forall|k: int|
        0 <= k < finished.len() ==> 0 <= #[trigger] finished[k] < writers.len()
            && writers[finished[k]].done && writers[finished[k]].returned == Some(
            wrote(wrap_u64(start + finished_sum(first, finished, k + 1))),
        )
}

/// The sum of the amounts of the first `n` writers of a list is that of the
/// first `n` writers of any list that starts with the same writers.
proof fn lemma_finished_sum_prefix(writers: Seq<Writer>, a: Seq<int>, b: Seq<int>, n: int)
    requires
        n <= a.len(),
        n <= b.len(),
        forall|j: int| 0 <= j < n ==> a[j] == b[j],
    ensures
        finished_sum(writers, a, n) == finished_sum(writers, b, n),
    decreases n,
{
    if n > 0 {
        lemma_finished_sum_prefix(writers, a, b, n - 1);
    }
}

/// The writers that are done after the writer `i` made an attempt.
pub open spec fn finished_after(writers: Seq<Writer>, finished: Seq<int>, i: int, w: Writer) -> Seq<
    int,
> {
    if w.done && !writers[i].done {
        finished.push(i)
    } else {
        finished
    }
}

/// An attempt keeps the key and the writers consistent.
proof fn lemma_attempt_keeps(
    start: u64,
    first: Seq<Writer>,
    held: Option<Seq<u8>>,
    writers: Seq<Writer>,
    finished: Seq<int>,
    i: int,
)
    requires
        consistent(start, first, held, writers, finished),
        0 <= i < writers.len(),
    ensures
        consistent(
            start,
            first,
            attempt(held, writers[i]).0,
            writers.update(i, attempt(held, writers[i]).1),
            finished_after(writers, finished, i, attempt(held, writers[i]).1),
        ),
{
    let w = writers[i];
    let (held2, w2) = attempt(held, w);
    let writers2 = writers.update(i, w2);
    let finished2 = finished_after(writers, finished, i, w2);
    let n = finished.len() as int;
    lemma_done_sum_update(writers, i, w2);
    assert(w.amount == first[i].amount);
    if !w.done {
        let base = spec_numeric_base(w.observed);
        let existing = base->Ok_0.0;
        let expiration = base->Ok_0.1;
        let seen = counter(w.observed)->0;
        assert(existing == Numeric::UnsignedInteger(seen));
        let sum = wrap_u64(seen + w.amount);
        assert(spec_increment(existing, Numeric::UnsignedInteger(w.amount), false) == Some(
            Numeric::UnsignedInteger(sum),
        ));
        if held == w.observed {
            let entry = EntryView {
                value: ValueView::Numeric(Numeric::UnsignedInteger(sum)),
                expiration,
            };
            lemma_entry_round_trip(entry);
            lemma_wrap_add(start + done_sum(writers), w.amount as int);
            assert(counter(held2) == Some(sum));
            assert(w2.done && w2.returned == Some(wrote(sum)));
            assert(finished2 == finished.push(i));
            assert(!finished.contains(i)) by {
                if finished.contains(i) {
                    let k = choose|k: int| 0 <= k < finished.len() && finished[k] == i;
                    assert(writers[finished[k]].done);
                }
            }
            lemma_finished_sum_prefix(first, finished, finished2, n);
            assert(finished_sum(first, finished2, n + 1) == done_sum(writers) + w.amount);
        } else {
            assert(!w2.done);
            assert(finished2 == finished);
        }
    } else {
        assert(w2 == w);
        assert(writers2 =~= writers);
    }
    assert forall|j: int| 0 <= j < writers2.len() implies (#[trigger] writers2[j]).amount
        == first[j].amount && (!writers2[j].done ==> counter(writers2[j].observed) is Some
        && writers2[j].returned is None) && (writers2[j].done ==> finished2.contains(j)) by {
        if j != i {
            assert(writers2[j] == writers[j]);
            if writers[j].done {
                let k = choose|k: int| 0 <= k < finished.len() && finished[k] == j;
                assert(finished2[k] == j);
            }
        } else if w2.done {
            if w.done {
                let k = choose|k: int| 0 <= k < finished.len() && finished[k] == i;
                assert(finished2[k] == i);
            } else {
                assert(finished2[n] == i);
            }
        }
    }
    assert forall|k: int| 0 <= k < finished2.len() implies 0 <= #[trigger] finished2[k]
        < writers2.len() && writers2[finished2[k]].done && writers2[finished2[k]].returned
        == Some(wrote(wrap_u64(start + finished_sum(first, finished2, k + 1)))) by {
        if k < n {
            assert(finished2[k] == finished[k]);
            assert(writers[finished[k]].done);
            lemma_finished_sum_prefix(first, finished, finished2, k + 1);
            if finished[k] != i {
                assert(writers2[finished[k]] == writers[finished[k]]);
            }
        }
    }
    assert(finished2.no_duplicates()) by {
        assert forall|a: int, b: int|
            0 <= a < finished2.len() && 0 <= b < finished2.len() && a != b implies finished2[a]
            != finished2[b] by {
            if a < n && b < n {
                assert(finished[a] != finished[b]);
            } else if a < n {
                assert(finished.contains(finished[a]));
            } else if b < n {
                assert(finished.contains(finished[b]));
            }
        }
    }
    if finished2 == finished {
        assert(done_sum(writers2) == done_sum(writers));
    }
}

/// Any interleaving of attempts keeps the key and the writers consistent.
proof fn lemma_run_keeps(
    start: u64,
    held: Option<Seq<u8>>,
    writers: Seq<Writer>,
    schedule: Seq<int>,
)
    requires
        consistent(start, writers, held, writers, Seq::empty()),
    ensures
        consistent(
            start,
            writers,
            run(held, writers, schedule).0,
            run(held, writers, schedule).1,
            run(held, writers, schedule).2,
        ),
    decreases schedule.len(),
{
    if schedule.len() > 0 {
        lemma_run_keeps(start, held, writers, schedule.drop_last());
        let (held1, writers1, finished1) = run(held, writers, schedule.drop_last());
        let i = schedule.last();
        if 0 <= i < writers1.len() {
            lemma_attempt_keeps(start, writers, held1, writers1, finished1, i);
        }
    }
}

/// Increments by several writers at the same time add up, and none is
/// lost or made twice. Let every writer start from what the key holds at
/// first, an unsigned number or nothing, and have returned nothing. Then
/// after any interleaving of their attempts:
///
/// - the key holds that number plus the amounts of the writers that are
///   done, modulo 2^64; and once all are done, plus the amounts of all;
/// - the writers that are done are those of the third part of what [`run`]
///   gives, each once, in the order in which their operations ended;
/// - each of them has returned a number, never an error nor a conflict:
///   the number that the key held at first plus the amounts of the writers
///   that ended before it and its own, modulo 2^64;
/// - a writer that is not done has returned nothing.
pub proof fn lemma_concurrent_increments(
    initial: Option<Seq<u8>>,
    writers: Seq<Writer>,
    schedule: Seq<int>,
)
    requires
        counter(initial) is Some,
        forall|i: int|
            0 <= i < writers.len() ==> !(#[trigger] writers[i]).done && writers[i].observed
                == initial && writers[i].returned is None,
    ensures
        ({
            let (held, after, finished) = run(initial, writers, schedule);
            &&& after.len() == writers.len()
            &&& counter(held) == Some(wrap_u64(counter(initial)->0 + done_sum(after)))
            &&& (forall|i: int| 0 <= i < after.len() ==> (#[trigger] after[i]).done) ==> counter(
                held,
            ) == Some(wrap_u64(counter(initial)->0 + total(writers)))
            &&& finished.no_duplicates()
            &&& done_sum(after) == finished_sum(writers, finished, finished.len() as int)
            &&& forall|i: int|
                0 <= i < after.len() ==> ((#[trigger] after[i]).done <==> finished.contains(i))
                    && (!after[i].done ==> after[i].returned is None) && after[i].amount
                    == writers[i].amount
            &&& forall|k: int|
                0 <= k < finished.len() ==> 0 <= #[trigger] finished[k] < after.len()
                    && after[finished[k]].returned == Some(
                    wrote(
                        wrap_u64(counter(initial)->0 + finished_sum(writers, finished, k + 1)),
                    ),
                )
        }),
{
    let start = counter(initial)->0;
    lemma_none_done(writers);
    crate::keyvalue::numeric::lemma_wrap_in_range(start as int);
    assert(consistent(start, writers, initial, writers, Seq::empty()));
    lemma_run_keeps(start, initial, writers, schedule);
    let (held, after, finished) = run(initial, writers, schedule);
    if forall|i: int| 0 <= i < after.len() ==> (#[trigger] after[i]).done {
        lemma_all_done(after);
        lemma_same_total(after, writers);
    }
    assert forall|i: int| 0 <= i < after.len() implies ((#[trigger] after[i]).done
        <==> finished.contains(i)) && (!after[i].done ==> after[i].returned is None)
        && after[i].amount == writers[i].amount by {
        if finished.contains(i) {
            let k = choose|k: int| 0 <= k < finished.len() && finished[k] == i;
            assert(after[finished[k]].done);
        }
    }
}

/// Where every writer adds one, the first `n` writers of a list add `n`.
proof fn lemma_finished_sum_of_ones(writers: Seq<Writer>, finished: Seq<int>, n: int)
    requires
        0 <= n <= finished.len(),
        forall|k: int| 0 <= k < finished.len() ==> 0 <= #[trigger] finished[k] < writers.len(),
        forall|i: int| 0 <= i < writers.len() ==> (#[trigger] writers[i]).amount == 1,
    ensures
        finished_sum(writers, finished, n) == n,
    decreases n,
{
    if n > 0 {
        lemma_finished_sum_of_ones(writers, finished, n - 1);
        assert(writers[finished[n - 1]].amount == 1);
    }
}

/// Where every writer adds one, all the writers add their number.
proof fn lemma_total_of_ones(writers: Seq<Writer>)
    requires
        forall|i: int| 0 <= i < writers.len() ==> (#[trigger] writers[i]).amount == 1,
    ensures
        total(writers) == writers.len(),
    decreases writers.len(),
{
    if writers.len() > 0 {
        assert forall|i: int| 0 <= i < writers.drop_last().len() implies (
        #[trigger] writers.drop_last()[i]).amount == 1 by {
            assert(writers.drop_last()[i] == writers[i]);
        }
        lemma_total_of_ones(writers.drop_last());
        assert(writers.last() == writers[writers.len() - 1]);
    }
}

/// Writers that count together count every one of them once. Let a key
/// hold nothing, and let each of several writers add one to it. Then after
/// any interleaving of their attempts the writer whose operation was the
/// `k`-th to end has returned `k`; and once all are done, they have
/// returned the numbers from one to their number, each once, and the key
/// holds their number.
pub proof fn lemma_counting_together(writers: Seq<Writer>, schedule: Seq<int>)
    requires
        writers.len() <= u64::MAX,
        forall|i: int|
            0 <= i < writers.len() ==> !(#[trigger] writers[i]).done && writers[i].observed
                is None && writers[i].returned is None && writers[i].amount == 1,
    ensures
        ({
            let (held, after, finished) = run(None, writers, schedule);
            &&& finished.no_duplicates()
            &&& finished.len() <= writers.len()
            &&& forall|k: int|
                0 <= k < finished.len() ==> 0 <= #[trigger] finished[k] < after.len()
                    && after[finished[k]].returned == Some(wrote((k + 1) as u64))
            &&& (forall|i: int| 0 <= i < after.len() ==> (#[trigger] after[i]).done) ==> {
                &&& finished.len() == writers.len()
                &&& counter(held) == Some(writers.len() as u64)
            }
        }),
{
    let initial: Option<Seq<u8>> = None;
    assert(counter(initial) == Some(0u64));
    lemma_concurrent_increments(initial, writers, schedule);
    let (held, after, finished) = run(initial, writers, schedule);
    let n = finished.len() as int;
    lemma_finished_sum_of_ones(writers, finished, n);
    lemma_done_sum_bounds(after);
    lemma_same_total(after, writers);
    lemma_total_of_ones(writers);
    assert(n <= writers.len());
    assert forall|k: int| 0 <= k < finished.len() implies 0 <= #[trigger] finished[k]
        < after.len() && after[finished[k]].returned == Some(wrote((k + 1) as u64)) by {
        lemma_finished_sum_of_ones(writers, finished, k + 1);
        crate::keyvalue::numeric::lemma_wrap_in_range(k + 1);
    }
    if forall|i: int| 0 <= i < after.len() ==> (#[trigger] after[i]).done {
        lemma_all_done(after);
        crate::keyvalue::numeric::lemma_wrap_in_range(writers.len() as int);
    }
}

/// The amounts of the writers that are done add up to no more than those
/// of all.
proof fn lemma_done_sum_bounds(writers: Seq<Writer>)
    ensures
        0 <= done_sum(writers) <= total(writers),
    decreases writers.len(),
{
    if writers.len() > 0 {
        lemma_done_sum_bounds(writers.drop_last());
    }
}

/// A writer is kept from ending only by another that writes in between:
/// of two attempts that a writer makes one after the other, the second
/// ends its operation, if the first has not.
pub proof fn lemma_second_attempt_ends(held: Option<Seq<u8>>, w: Writer)
    ensures
        ({
            let (held, w) = attempt(held, w);
            attempt(held, w).1.done
        }),
{
}

/// Where no writer is done, the sum over those that are done is zero.
proof fn lemma_none_done(writers: Seq<Writer>)
    requires
        forall|i: int| 0 <= i < writers.len() ==> !(#[trigger] writers[i]).done,
    ensures
        done_sum(writers) == 0,
    decreases writers.len(),
{
    if writers.len() > 0 {
        assert forall|i: int| 0 <= i < writers.drop_last().len() implies !(
        #[trigger] writers.drop_last()[i]).done by {
            assert(writers.drop_last()[i] == writers[i]);
        }
        lemma_none_done(writers.drop_last());
    }
}

/// Writers with the same amounts have the same total.
proof fn lemma_same_total(a: Seq<Writer>, b: Seq<Writer>)
    requires
        a.len() == b.len(),
        forall|i: int| 0 <= i < a.len() ==> (#[trigger] a[i]).amount == b[i].amount,
    ensures
        total(a) == total(b),
    decreases a.len(),
{
    if a.len() > 0 {
        assert forall|i: int| 0 <= i < a.drop_last().len() implies (
        #[trigger] a.drop_last()[i]).amount == b.drop_last()[i].amount by {
            assert(a.drop_last()[i] == a[i]);
            assert(b.drop_last()[i] == b[i]);
        }
        lemma_same_total(a.drop_last(), b.drop_last());
        assert(a.last().amount == b.last().amount);
    }
}

} // verus!
