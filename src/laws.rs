//! Properties of sequences of operations, stated over the contents and cursors that the
//! operations' contracts describe.
use crate::ring::RingBuffer;
use vstd::prelude::*;

verus! {

/// Each item of `xs` as a present value, in order.
pub open spec fn present<T>(xs: Seq<T>) -> Seq<Option<T>> {
    xs.map_values(|x: T| Some(x))
}

/// While there is room, pushing at the back appends the items.
proof fn lemma_back_pushes_append<T, const CAPACITY: usize>(w: Seq<T>, xs: Seq<T>)
    requires
        w.len() + xs.len() < CAPACITY,
    ensures
        RingBuffer::<T, CAPACITY>::pushed_back_all(w, xs) == w + xs,
    decreases xs.len(),
{
    if xs.len() > 0 {
        lemma_back_pushes_append::<T, CAPACITY>(w, xs.drop_last());
        assert(w + xs.drop_last() + seq![xs.last()] =~= w + xs);
    }
}

/// Pushes at the back grow the contents until they hold `CAPACITY - 1` elements.
proof fn lemma_back_pushes_len<T, const CAPACITY: usize>(w: Seq<T>, xs: Seq<T>)
    requires
        w.len() < CAPACITY,
    ensures
        RingBuffer::<T, CAPACITY>::pushed_back_all(w, xs).len() == if w.len() + xs.len()
            < CAPACITY {
            w.len() + xs.len()
        } else {
            (CAPACITY - 1) as nat
        },
    decreases xs.len(),
{
    if xs.len() > 0 {
        lemma_back_pushes_len::<T, CAPACITY>(w, xs.drop_last());
    }
}

/// Pushes at the front grow the contents until they hold `CAPACITY - 1` elements.
proof fn lemma_front_pushes_len<T, const CAPACITY: usize>(w: Seq<T>, xs: Seq<T>)
    requires
        w.len() < CAPACITY,
    ensures
        RingBuffer::<T, CAPACITY>::pushed_front_all(w, xs).len() == if w.len() + xs.len()
            < CAPACITY {
            w.len() + xs.len()
        } else {
            (CAPACITY - 1) as nat
        },
    decreases xs.len(),
{
    if xs.len() > 0 {
        lemma_front_pushes_len::<T, CAPACITY>(w, xs.drop_last());
    }
}

/// Once the first `k` pushes at the back have filled the buffer, the later ones change nothing.
proof fn lemma_back_pushes_saturate<T, const CAPACITY: usize>(w: Seq<T>, xs: Seq<T>, k: int)
    requires
        w.len() < CAPACITY,
        w.len() + k + 1 >= CAPACITY,
        0 <= k <= xs.len(),
    ensures
        forall|j: int|
            k <= j <= xs.len() ==> #[trigger] RingBuffer::<T, CAPACITY>::pushed_back_all(
                w,
                xs.take(j),
            ) == RingBuffer::<T, CAPACITY>::pushed_back_all(w, xs.take(k)),
    decreases xs.len() - k,
{
    if k < xs.len() {
        lemma_back_pushes_len::<T, CAPACITY>(w, xs.take(k));
        assert(xs.take(k + 1).drop_last() =~= xs.take(k));
        lemma_back_pushes_saturate::<T, CAPACITY>(w, xs, k + 1);
    }
}

/// Once the first `k` pushes at the front have filled the buffer, the later ones change nothing.
proof fn lemma_front_pushes_saturate<T, const CAPACITY: usize>(w: Seq<T>, xs: Seq<T>, k: int)
    requires
        w.len() < CAPACITY,
        w.len() + k + 1 >= CAPACITY,
        0 <= k <= xs.len(),
    ensures
        forall|j: int|
            k <= j <= xs.len() ==> #[trigger] RingBuffer::<T, CAPACITY>::pushed_front_all(
                w,
                xs.take(j),
            ) == RingBuffer::<T, CAPACITY>::pushed_front_all(w, xs.take(k)),
    decreases xs.len() - k,
{
    if k < xs.len() {
        lemma_front_pushes_len::<T, CAPACITY>(w, xs.take(k));
        assert(xs.take(k + 1).drop_last() =~= xs.take(k));
        lemma_front_pushes_saturate::<T, CAPACITY>(w, xs, k + 1);
    }
}

/// A buffer as `new` leaves it (well formed, no elements, no slot holding a value) is empty,
/// is not full unless its capacity is one, and both peeks give `None`.
pub proof fn lemma_fresh_buffer<T, const CAPACITY: usize>(b: RingBuffer<T, CAPACITY>)
    requires
        b.wf(),
        b@ == Seq::<T>::empty(),
        b.holding() == Set::<int>::empty(),
    ensures
        b@.len() == 0,
        CAPACITY > 1 ==> b@.len() != CAPACITY - 1,
        RingBuffer::<T, CAPACITY>::front_taken(b@) is None,
        RingBuffer::<T, CAPACITY>::back_taken(b@) is None,
        forall|j: int| 0 <= j < CAPACITY ==> !b.holding().contains(j),
{
}

/// Pushing at the back of an empty buffer succeeds exactly `CAPACITY - 1` times: after the
/// first `k` items of `xs`, the next push succeeds exactly when `k < CAPACITY - 1`, and every
/// push made once the buffer is full leaves its contents unchanged.
pub proof fn lemma_push_until_full<T, const CAPACITY: usize>(b: RingBuffer<T, CAPACITY>, xs: Seq<T>)
    requires
        b.wf(),
        b@.len() == 0,
    ensures
        forall|k: int|
            0 <= k <= xs.len() ==> ((#[trigger] RingBuffer::<T, CAPACITY>::pushed_back_all(
                b@,
                xs.take(k),
            )).len() < CAPACITY - 1) == (k < CAPACITY - 1),
        forall|k: int|
            CAPACITY - 1 <= k <= xs.len() ==> #[trigger] RingBuffer::<T, CAPACITY>::pushed_back_all(
                b@,
                xs.take(k),
            ) == RingBuffer::<T, CAPACITY>::pushed_back_all(b@, xs.take(CAPACITY - 1)),
{
    b.lemma_len_bound();
    assert forall|k: int| 0 <= k <= xs.len() implies ((
    #[trigger] RingBuffer::<T, CAPACITY>::pushed_back_all(b@, xs.take(k))).len() < CAPACITY - 1)
        == (k < CAPACITY - 1) by {
        lemma_back_pushes_len::<T, CAPACITY>(b@, xs.take(k));
    }
    if CAPACITY - 1 <= xs.len() {
        lemma_back_pushes_saturate::<T, CAPACITY>(b@, xs, CAPACITY - 1);
    }
}

/// Pushing at the front of an empty buffer succeeds exactly `CAPACITY - 1` times: after the
/// first `k` items of `xs`, the next push succeeds exactly when `k < CAPACITY - 1`, and every
/// push made once the buffer is full leaves its contents unchanged.
pub proof fn lemma_push_front_until_full<T, const CAPACITY: usize>(
    b: RingBuffer<T, CAPACITY>,
    xs: Seq<T>,
)
    requires
        b.wf(),
        b@.len() == 0,
    ensures
        forall|k: int|
            0 <= k <= xs.len() ==> ((#[trigger] RingBuffer::<T, CAPACITY>::pushed_front_all(
                b@,
                xs.take(k),
            )).len() < CAPACITY - 1) == (k < CAPACITY - 1),
        forall|k: int|
            CAPACITY - 1 <= k <= xs.len() ==> #[trigger] RingBuffer::<
                T,
                CAPACITY,
            >::pushed_front_all(b@, xs.take(k)) == RingBuffer::<T, CAPACITY>::pushed_front_all(
                b@,
                xs.take(CAPACITY - 1),
            ),
{
    b.lemma_len_bound();
    assert forall|k: int| 0 <= k <= xs.len() implies ((
    #[trigger] RingBuffer::<T, CAPACITY>::pushed_front_all(b@, xs.take(k))).len() < CAPACITY
        - 1) == (k < CAPACITY - 1) by {
        lemma_front_pushes_len::<T, CAPACITY>(b@, xs.take(k));
    }
    if CAPACITY - 1 <= xs.len() {
        lemma_front_pushes_saturate::<T, CAPACITY>(b@, xs, CAPACITY - 1);
    }
}

/// On an empty buffer with room for one element, a push at the back followed by a pop at the
/// back returns the pushed item and leaves the buffer as it was: `mid` and `end` are any
/// states that the two calls' contracts allow.
pub proof fn lemma_push_then_pop<T, const CAPACITY: usize>(
    b: RingBuffer<T, CAPACITY>,
    x: T,
    mid: RingBuffer<T, CAPACITY>,
    end: RingBuffer<T, CAPACITY>,
)
    requires
        b.wf(),
        b@.len() == 0,
        CAPACITY >= 2,
        mid.wf(),
        mid@ == RingBuffer::<T, CAPACITY>::pushed_back(b@, x),
        mid.front_cursor() == b.front_cursor(),
        mid.back_cursor() == RingBuffer::<T, CAPACITY>::slot_after(b.back_cursor()),
        end.wf(),
        end@ == RingBuffer::<T, CAPACITY>::popped_back(mid@),
        end.front_cursor() == mid.front_cursor(),
        end.back_cursor() == RingBuffer::<T, CAPACITY>::slot_before(mid.back_cursor()),
    ensures
        RingBuffer::<T, CAPACITY>::back_taken(mid@) == Some(x),
        end == b,
{
    b.lemma_len_bound();
    assert(b@.push(x).drop_last() =~= b@);
    end.lemma_state_determined(&b);
}

/// On an empty buffer with room for one element, a push at the front followed by a pop at the
/// front returns the pushed item and leaves the buffer as it was: `mid` and `end` are any
/// states that the two calls' contracts allow.
pub proof fn lemma_push_front_then_pop_front<T, const CAPACITY: usize>(
    b: RingBuffer<T, CAPACITY>,
    x: T,
    mid: RingBuffer<T, CAPACITY>,
    end: RingBuffer<T, CAPACITY>,
)
    requires
        b.wf(),
        b@.len() == 0,
        CAPACITY >= 2,
        mid.wf(),
        mid@ == RingBuffer::<T, CAPACITY>::pushed_front(b@, x),
        mid.back_cursor() == b.back_cursor(),
        mid.front_cursor() == RingBuffer::<T, CAPACITY>::slot_before(b.front_cursor()),
        end.wf(),
        end@ == RingBuffer::<T, CAPACITY>::popped_front(mid@),
        end.back_cursor() == mid.back_cursor(),
        end.front_cursor() == RingBuffer::<T, CAPACITY>::slot_after(mid.front_cursor()),
    ensures
        RingBuffer::<T, CAPACITY>::front_taken(mid@) == Some(x),
        end == b,
{
    b.lemma_len_bound();
    let v = seq![x] + b@;
    assert(v.subrange(1, v.len() as int) =~= b@);
    end.lemma_state_determined(&b);
}

/// Pops at the back return the elements from the last one down.
proof fn lemma_back_pops_reverse<T, const CAPACITY: usize>(w: Seq<T>, ys: Seq<T>)
    ensures
        RingBuffer::<T, CAPACITY>::back_pops(w + ys, ys.len()) == present(ys.reverse()),
    decreases ys.len(),
{
    if ys.len() > 0 {
        assert((w + ys).drop_last() =~= w + ys.drop_last());
        lemma_back_pops_reverse::<T, CAPACITY>(w, ys.drop_last());
        assert(seq![Some(ys.last())] + present(ys.drop_last().reverse()) =~= present(
            ys.reverse(),
        ));
    }
}

/// Pops at the front return the elements from the first one up.
proof fn lemma_front_pops_in_order<T, const CAPACITY: usize>(w: Seq<T>, k: nat)
    requires
        k <= w.len(),
    ensures
        RingBuffer::<T, CAPACITY>::front_pops(w, k) == present(w.take(k as int)),
    decreases k,
{
    if k > 0 {
        let rest = w.subrange(1, w.len() as int);
        lemma_front_pops_in_order::<T, CAPACITY>(rest, (k - 1) as nat);
        assert(seq![Some(w[0])] + present(rest.take(k - 1)) =~= present(w.take(k as int)));
    }
}

/// Pushing the items of `xs` at the back and then popping as many at the back returns them in
/// the reverse order, as long as the buffer has room for all of them.
pub proof fn lemma_lifo<T, const CAPACITY: usize>(b: RingBuffer<T, CAPACITY>, xs: Seq<T>)
    requires
        b.wf(),
        b@.len() + xs.len() < CAPACITY,
    ensures
        RingBuffer::<T, CAPACITY>::back_pops(
            RingBuffer::<T, CAPACITY>::pushed_back_all(b@, xs),
            xs.len(),
        ) == present(xs.reverse()),
{
    lemma_back_pushes_append::<T, CAPACITY>(b@, xs);
    lemma_back_pops_reverse::<T, CAPACITY>(b@, xs);
}

/// Pushing the items of `xs` at the back of an empty buffer, fewer than `CAPACITY` of them,
/// and then popping as many at the front returns them in the same order.
pub proof fn lemma_fifo<T, const CAPACITY: usize>(b: RingBuffer<T, CAPACITY>, xs: Seq<T>)
    requires
        b.wf(),
        b@.len() == 0,
        xs.len() < CAPACITY,
    ensures
        RingBuffer::<T, CAPACITY>::front_pops(
            RingBuffer::<T, CAPACITY>::pushed_back_all(b@, xs),
            xs.len(),
        ) == present(xs),
{
    lemma_back_pushes_append::<T, CAPACITY>(b@, xs);
    assert(b@ + xs =~= xs);
    lemma_front_pops_in_order::<T, CAPACITY>(xs, xs.len());
    assert(xs.take(xs.len() as int) =~= xs);
}

} // verus!
