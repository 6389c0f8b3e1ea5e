//! The order of a task collection: by deadline, earliest first, tasks without
//! a deadline last, and tasks with the same deadline in the order they had.

use crate::task::Task;
use vstd::prelude::*;

verus! {

/// Whether a task with deadline `a` is due strictly before one with deadline `b`.
/// A task without a deadline is due after every task that has one.
pub open spec fn due_before(a: Option<(i64, u32)>, b: Option<(i64, u32)>) -> bool {
    match (a, b) {
        (Some(x), Some(y)) => x.0 < y.0 || (x.0 == y.0 && x.1 < y.1),
        (Some(_), None) => true,
        (None, _) => false,
    }
}

/// The deadlines of the tasks, in order.
pub open spec fn deadlines(tasks: Seq<Task>) -> Seq<Option<(i64, u32)>> {
    Seq::new(tasks.len(), |i: int| tasks[i]@.deadline)
}

/// Whether the task at position `a` belongs before the task at position `b`:
/// it is due earlier, or it is due at the same time and stands earlier.
pub open spec fn comes_first(keys: Seq<Option<(i64, u32)>>, a: int, b: int) -> bool {
    due_before(keys[a], keys[b]) || (keys[a] == keys[b] && a < b)
}

/// Whether `order` lists every position of `keys`, so that each belongs before the next.
/// `order[i]` is the position that the `i`-th task of the sorted collection had before.
pub open spec fn stable_order(keys: Seq<Option<(i64, u32)>>, order: Seq<int>) -> bool {
    &&& order.len() == keys.len()
    &&& forall|i: int| 0 <= i < order.len() ==> 0 <= #[trigger] order[i] < keys.len()
    &&& forall|at: int| 0 <= at < keys.len() ==> #[trigger] order.contains(at)
    &&& forall|i: int, j: int|
        0 <= i < j < order.len() ==> comes_first(keys, #[trigger] order[i], #[trigger] order[j])
}

/// The items of `items` in the order that `order` lists their positions.
pub open spec fn rearranged<T>(items: Seq<T>, order: Seq<int>) -> Seq<T> {
    Seq::new(order.len(), |i: int| items[order[i]])
}

/// Whether `sorted` holds the tasks of `tasks` by deadline, ties in their old order.
pub open spec fn sorted_from(tasks: Seq<Task>, sorted: Seq<Task>) -> bool {
    exists|order: Seq<int>|
        stable_order(deadlines(tasks), order) && sorted == rearranged(tasks, order)
}

/// Whether `a` is due strictly before `b`.
pub fn is_due_before(a: &Task, b: &Task) -> (r: bool)
    ensures
        r == due_before(a@.deadline, b@.deadline),
{
    match (&a.deadline, &b.deadline) {
        (Some(x), Some(y)) => x.is_before(y),
        (Some(_), None) => true,
        (None, _) => false,
    }
}

/// Sorts the tasks by deadline, earliest first and those without one last.
/// Tasks with the same deadline keep the order they had.
pub fn sort_by_deadline(tasks: Vec<Task>) -> (sorted: Vec<Task>)
    ensures
        sorted_from(tasks@, sorted@),
{
    let ghost input = tasks@;
    let ghost keys = deadlines(input);
    let mut rest = tasks;
    let mut sorted: Vec<Task> = Vec::new();
    let ghost mut order: Seq<int> = Seq::empty();
    while rest.len() > 0
        invariant
            keys == deadlines(input),
            rest@ == input.take(rest.len() as int),
            rest.len() <= input.len(),
            order.len() == sorted.len() == input.len() - rest.len(),
            forall|i: int| 0 <= i < order.len() ==> rest.len() <= #[trigger] order[i] < input.len(),
            forall|i: int| 0 <= i < order.len() ==> sorted@[i] == input[#[trigger] order[i]],
            forall|at: int| rest.len() <= at < input.len() ==> #[trigger] order.contains(at),
            forall|i: int, j: int|
                0 <= i < j < order.len() ==> comes_first(
                    keys,
                    #[trigger] order[i],
                    #[trigger] order[j],
                ),
        decreases rest.len(),
    {
        let ghost at: int = rest.len() - 1;
        let task = rest.pop().unwrap();
        assert(task == input[at]);
        let mut slot: usize = 0;
        while slot < sorted.len() && is_due_before(&sorted[slot], &task)
            invariant
                slot <= sorted.len(),
                forall|q: int| 0 <= q < slot ==> due_before(sorted@[q]@.deadline, task@.deadline),
            decreases sorted.len() - slot,
        {
            slot += 1;
        }
        let ghost old_order = order;
        let ghost old_sorted = sorted@;
        sorted.insert(slot, task);
        proof {
            order = old_order.insert(slot as int, at);
            assert forall|i: int, j: int| 0 <= i < j < order.len() implies comes_first(
                keys,
                #[trigger] order[i],
                #[trigger] order[j],
            ) by {
                if j < slot {
                    assert(order[i] == old_order[i] && order[j] == old_order[j]);
                } else if j == slot {
                    assert(order[i] == old_order[i]);
                    assert(old_sorted[i] == input[old_order[i]]);
                } else if i < slot {
                    assert(order[i] == old_order[i] && order[j] == old_order[j - 1]);
                } else if i == slot {
                    assert(order[j] == old_order[j - 1]);
                    assert(old_sorted[j - 1] == input[old_order[j - 1]]);
                    assert(old_sorted[slot as int] == input[old_order[slot as int]]);
                    if j - 1 > slot {
                        assert(comes_first(keys, old_order[slot as int], old_order[j - 1]));
                    }
                } else {
                    assert(order[i] == old_order[i - 1] && order[j] == old_order[j - 1]);
                }
            }
            assert forall|seen: int| rest.len() <= seen < input.len() implies #[trigger] order.contains(
                seen,
            ) by {
                if seen == at {
                    assert(order[slot as int] == seen);
                } else {
                    assert(old_order.contains(seen));
                    let i = choose|i: int| 0 <= i < old_order.len() && old_order[i] == seen;
                    if i < slot {
                        assert(order[i] == seen);
                    } else {
                        assert(order[i + 1] == seen);
                    }
                }
            }
            assert(rest@ =~= input.take(rest.len() as int));
        }
    }
    proof {
        assert(sorted@ =~= rearranged(input, order));
        assert(stable_order(keys, order));
    }
    sorted
}

/// Tasks with the same deadline stand in the sorted collection in the order in
/// which they stood before: if the tasks that come out at positions `i < j` are
/// due at the same time, the first of them stood before the second.
pub proof fn lemma_sort_keeps_ties(keys: Seq<Option<(i64, u32)>>, order: Seq<int>, i: int, j: int)
    requires
        stable_order(keys, order),
        0 <= i < j < order.len(),
        keys[order[i]] == keys[order[j]],
    ensures
        order[i] < order[j],
{
    assert(comes_first(keys, order[i], order[j]));
}

/// A sorted collection has its deadlines in order: no task is due before one
/// that precedes it.
pub proof fn lemma_sort_orders(keys: Seq<Option<(i64, u32)>>, order: Seq<int>, i: int, j: int)
    requires
        stable_order(keys, order),
        0 <= i <= j < order.len(),
    ensures
        !due_before(keys[order[j]], keys[order[i]]),
{
    if i < j {
        assert(comes_first(keys, order[i], order[j]));
    }
}


/// There is one sorted order only: two orders of the same deadlines, each
/// listing every position so that each belongs before the next, are the same.
pub proof fn lemma_sort_is_unique(keys: Seq<Option<(i64, u32)>>, a: Seq<int>, b: Seq<int>)
    requires
        stable_order(keys, a),
        stable_order(keys, b),
    ensures
        a == b,
{
    lemma_same_upto(keys, a, b, keys.len() as int);
    assert(a =~= b);
}

proof fn lemma_same_upto(keys: Seq<Option<(i64, u32)>>, a: Seq<int>, b: Seq<int>, upto: int)
    requires
        stable_order(keys, a),
        stable_order(keys, b),
        0 <= upto <= keys.len(),
    ensures
        forall|i: int| 0 <= i < upto ==> a[i] == b[i],
    decreases upto,
{
    if upto > 0 {
        lemma_same_upto(keys, a, b, upto - 1);
        let at = upto - 1;
        lemma_not_later(keys, a, b, at);
        lemma_not_later(keys, b, a, at);
        assert(a[at] == b[at]) by {
            if a[at] != b[at] {
                assert(!comes_first(keys, b[at], a[at]));
                assert(!comes_first(keys, a[at], b[at]));
            }
        }
    }
}

/// Where two orders agree on their first `at` places, the task that the first
/// has at place `at` does not belong after the one that the second has there.
proof fn lemma_not_later(keys: Seq<Option<(i64, u32)>>, a: Seq<int>, b: Seq<int>, at: int)
    requires
        stable_order(keys, a),
        stable_order(keys, b),
        0 <= at < keys.len(),
        forall|i: int| 0 <= i < at ==> a[i] == b[i],
    ensures
        !comes_first(keys, b[at], a[at]),
{
    assert(0 <= b[at] < keys.len());
    assert(a.contains(b[at]));
    let j = choose|j: int| 0 <= j < a.len() && a[j] == b[at];
    if j < at {
        assert(b[j] == a[j]);
        assert(comes_first(keys, b[j], b[at]));
    } else if j > at {
        assert(comes_first(keys, a[at], a[j]));
    }
}

} // verus!
