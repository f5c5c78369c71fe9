//! Batches of a longer list.

use vstd::prelude::*;
use vstd::slice::slice_subrange;

verus! {

/// Where the batch that starts at `at` ends.
pub open spec fn batch_end(at: int, size: int, len: int) -> int {
    if at + size < len {
        at + size
    } else {
        len
    }
}

/// Find where the batch that starts at `at` ends.
pub fn end_of_batch(at: usize, size: usize, len: usize) -> (end: usize)
    requires
        at <= len,
    ensures
        end == batch_end(at as int, size as int, len as int),
        at <= end <= len,
{
    if size < len - at {
        at + size
    } else {
        len
    }
}

/// The items from `at` on, at most `size` of them.
pub open spec fn batch_of<T>(items: Seq<T>, at: int, size: int) -> Seq<T> {
    items.subrange(at, batch_end(at, size, items.len() as int))
}

/// Take the items from `at` on, at most `size` of them.
pub fn batch<T>(items: &[T], at: usize, size: usize) -> (part: &[T])
    requires
        at <= items@.len(),
    ensures
        part@ == batch_of(items@, at as int, size as int),
{
    let end: usize = end_of_batch(at, size, items.len());
    slice_subrange(items, at, end)
}

/// How many batches there are in so many items.
pub open spec fn batches_in(len: int, size: int) -> int {
    if len % size == 0 {
        len / size
    } else {
        len / size + 1
    }
}

/// Count the batches in so many items.
pub fn count_batches(len: usize, size: usize) -> (n: usize)
    requires
        size > 0,
    ensures
        n == batches_in(len as int, size as int),
{
    if len % size == 0 {
        len / size
    } else {
        proof {
            lemma_rounding_up_fits(len as int, size as int);
        }
        len / size + 1
    }
}

proof fn lemma_rounding_up_fits(len: int, size: int)
    requires
        0 <= len,
        0 < size,
        len % size != 0,
    ensures
        len / size + 1 <= len,
{
    assert(len / size + 1 <= len) by (nonlinear_arith)
        requires
            0 <= len,
            0 < size,
            len % size != 0,
    ;
}

/// There are batches exactly where there are items.
pub proof fn batches_come_with_items(len: int, size: int)
    requires
        0 <= len,
        0 < size,
    ensures
        0 <= batches_in(len, size),
        batches_in(len, size) == 0 <==> len == 0,
{
    assert(0 <= len / size && (len / size == 0 && len % size == 0 <==> len == 0)) by (
    nonlinear_arith)
        requires
            0 <= len,
            0 < size,
    ;
}

/// Each batch taken leaves one batch less.
pub proof fn a_batch_taken_leaves_one_less(at: int, size: int, len: int)
    requires
        0 <= at < len,
        0 < size,
    ensures
        batches_in(len - batch_end(at, size, len), size) == batches_in(len - at, size) - 1,
{
    let left = len - at;
    if size < left {
        assert((left - size) / size == left / size - 1 && (left - size) % size == left % size)
            by (nonlinear_arith)
            requires
                0 < size < left,
        ;
    } else if size == left {
        assert(left / size == 1 && left % size == 0 && 0int / size == 0 && 0int % size == 0)
            by (nonlinear_arith)
            requires
                0 < size,
                size == left,
        ;
    } else {
        assert(left / size == 0 && left % size == left && 0int / size == 0 && 0int % size == 0)
            by (nonlinear_arith)
            requires
                0 < left < size,
        ;
    }
}

/// Going on at the end of each batch passes every item once: what came before
/// a batch and the batch itself are what comes before the next one.
pub proof fn batches_follow_each_other<T>(items: Seq<T>, at: int, size: int)
    requires
        0 <= at <= items.len(),
        size > 0,
    ensures
        items.take(at) + batch_of(items, at, size) == items.take(
            batch_end(at, size, items.len() as int),
        ),
        at < items.len() ==> at < batch_end(at, size, items.len() as int),
        batch_of(items, at, size).len() <= size,
{
    assert(items.take(at) + batch_of(items, at, size) =~= items.take(
        batch_end(at, size, items.len() as int),
    ));
}

} // verus!
