use vstd::arithmetic::div_mod::{lemma_mod_self_0, lemma_small_mod};
use vstd::prelude::*;
use vstd::set_lib::{lemma_int_range, lemma_set_disjoint_lens, set_int_range};

verus! {

/// The slot `i` places after `start`, walking upwards and wrapping round at `n`
/// (for `0 <= start < n` and `0 <= i < n`).
pub open spec fn wrap_index(start: int, i: int, n: int) -> int {
    if start + i < n {
        start + i
    } else {
        start + i - n
    }
}

/// A double-ended ring buffer of `CAPACITY` slots that holds at most `CAPACITY - 1` elements.
#[derive(Debug)]
pub struct RingBuffer<T, const CAPACITY: usize> {
    data: [Option<T>; CAPACITY],
    front: usize,
    back: usize,
}

/// A slot that holds nothing; used to fill the storage of a new buffer.
fn vacant_slot<T>(_i: usize) -> (r: Option<T>)
    ensures
        r is None,
{
    None
}

/// Relies on `core::array::from_fn`, which builds the array whose element at each index `i`
/// is `f(i)`: here every slot is vacant.
#[verifier::external_body]
fn vacant_slots<T, const CAPACITY: usize>() -> (r: [Option<T>; CAPACITY])
    ensures
        forall|i: int| 0 <= i < CAPACITY ==> (#[trigger] r@[i]) is None,
{
    core::array::from_fn(|i| vacant_slot(i))
}

impl<T, const CAPACITY: usize> RingBuffer<T, CAPACITY> {
    /// Number of elements: how far `back` stands past `front`, wrapping.
    closed spec fn count(&self) -> nat {
        if self.front <= self.back {
            (self.back - self.front) as nat
        } else {
            (self.back + CAPACITY - self.front) as nat
        }
    }

    /// Whether slot `j` lies in the circular range after `front` up to `back` inclusive.
    closed spec fn occupied(&self, j: int) -> bool {
        if self.front <= self.back {
            self.front < j <= self.back
        } else {
            j > self.front || j <= self.back
        }
    }

    /// The buffer is well formed: the capacity is at least one, both cursors lie in range, and
    /// a slot holds a value exactly when it lies after `front` and up to `back`.
    pub closed spec fn wf(&self) -> bool {
        &&& CAPACITY >= 1
        &&& self.front < CAPACITY
        &&& self.back < CAPACITY
        &&& forall|j: int|
            0 <= j < CAPACITY ==> ((#[trigger] self.data@[j]) is Some <==> self.occupied(j))
    }

    /// The `front` cursor: the slot just before the first element.
    pub closed spec fn front_cursor(&self) -> int {
        self.front as int
    }

    /// The `back` cursor: the slot of the last element.
    pub closed spec fn back_cursor(&self) -> int {
        self.back as int
    }

    /// The indices of the storage slots that hold a value.
    pub closed spec fn holding(&self) -> Set<int> {
        Set::new(|j: int| 0 <= j < CAPACITY && self.data@[j] is Some)
    }
}

impl<T, const CAPACITY: usize> View for RingBuffer<T, CAPACITY> {
    type V = Seq<T>;

    /// The elements from front to back: the values in the slots after `front` up to `back`.
    closed spec fn view(&self) -> Seq<T> {
        Seq::new(
            self.count(),
            |i: int| self.data@[wrap_index(self.front as int, i + 1, CAPACITY as int)]->0,
        )
    }
}

/// `(b + 1) % n` is the slot after `b`, wrapping round at `n`.
proof fn lemma_next_index(b: int, n: int)
    requires
        0 <= b < n,
    ensures
        (b + 1) % n == if b + 1 < n { b + 1 } else { 0 },
{
    if b + 1 < n {
        lemma_small_mod((b + 1) as nat, n as nat);
    } else {
        lemma_mod_self_0(n);
    }
}

impl<T, const CAPACITY: usize> RingBuffer<T, CAPACITY> {
    /// The slot after `i`, wrapping round at `CAPACITY`.
    pub open spec fn slot_after(i: int) -> int {
        if i + 1 < CAPACITY {
            i + 1
        } else {
            0
        }
    }

    /// The slot before `i`, wrapping round at `CAPACITY`.
    pub open spec fn slot_before(i: int) -> int {
        if i == 0 {
            CAPACITY - 1
        } else {
            i - 1
        }
    }

    /// The contents after a push at the back: `item` appended, unless the buffer is full.
    pub open spec fn pushed_back(w: Seq<T>, item: T) -> Seq<T> {
        if w.len() + 1 < CAPACITY {
            w.push(item)
        } else {
            w
        }
    }

    /// The contents after a push at the front: `item` prepended, unless the buffer is full.
    pub open spec fn pushed_front(w: Seq<T>, item: T) -> Seq<T> {
        if w.len() + 1 < CAPACITY {
            seq![item] + w
        } else {
            w
        }
    }

    /// What a pop at the back returns: the last element, or `None` when there is none.
    pub open spec fn back_taken(w: Seq<T>) -> Option<T> {
        if w.len() > 0 {
            Some(w.last())
        } else {
            None
        }
    }

    /// What a pop at the front returns: the first element, or `None` when there is none.
    pub open spec fn front_taken(w: Seq<T>) -> Option<T> {
        if w.len() > 0 {
            Some(w[0])
        } else {
            None
        }
    }

    /// The contents after a pop at the back: the last element gone, if there was one.
    pub open spec fn popped_back(w: Seq<T>) -> Seq<T> {
        if w.len() > 0 {
            w.drop_last()
        } else {
            w
        }
    }

    /// The contents after a pop at the front: the first element gone, if there was one.
    pub open spec fn popped_front(w: Seq<T>) -> Seq<T> {
        if w.len() > 0 {
            w.subrange(1, w.len() as int)
        } else {
            w
        }
    }

    /// The contents after pushing the items of `xs` at the back, one after another.
    pub open spec fn pushed_back_all(w: Seq<T>, xs: Seq<T>) -> Seq<T>
        decreases xs.len(),
    {
        if xs.len() == 0 {
            w
        } else {
            Self::pushed_back(Self::pushed_back_all(w, xs.drop_last()), xs.last())
        }
    }

    /// The contents after pushing the items of `xs` at the front, one after another.
    pub open spec fn pushed_front_all(w: Seq<T>, xs: Seq<T>) -> Seq<T>
        decreases xs.len(),
    {
        if xs.len() == 0 {
            w
        } else {
            Self::pushed_front(Self::pushed_front_all(w, xs.drop_last()), xs.last())
        }
    }

    /// What `k` pops at the back return, in the order they are made.
    pub open spec fn back_pops(w: Seq<T>, k: nat) -> Seq<Option<T>>
        decreases k,
    {
        if k == 0 {
            Seq::empty()
        } else {
            seq![Self::back_taken(w)] + Self::back_pops(Self::popped_back(w), (k - 1) as nat)
        }
    }

    /// What `k` pops at the front return, in the order they are made.
    pub open spec fn front_pops(w: Seq<T>, k: nat) -> Seq<Option<T>>
        decreases k,
    {
        if k == 0 {
            Seq::empty()
        } else {
            seq![Self::front_taken(w)] + Self::front_pops(Self::popped_front(w), (k - 1) as nat)
        }
    }

    /// A well-formed buffer holds at most `CAPACITY - 1` elements, and its cursors lie in the
    /// storage.
    pub proof fn lemma_len_bound(&self)
        requires
            self.wf(),
        ensures
            CAPACITY >= 1,
            self@.len() <= CAPACITY - 1,
            0 <= self.front_cursor() < CAPACITY,
            0 <= self.back_cursor() < CAPACITY,
    {
    }

    /// Whatever operations came before, the number of storage slots that hold a value is the
    /// number of elements, so `is_empty` and `is_full` agree with the slots.
    pub proof fn lemma_holding_count(&self)
        requires
            self.wf(),
        ensures
            self.holding().finite(),
            self.holding().len() == self@.len(),
    {
        let n = CAPACITY as int;
        let f = self.front as int;
        let b = self.back as int;
        if f <= b {
            lemma_int_range(f + 1, b + 1);
            assert(self.holding() =~= set_int_range(f + 1, b + 1));
        } else {
            lemma_int_range(f + 1, n);
            lemma_int_range(0, b + 1);
            lemma_set_disjoint_lens(set_int_range(f + 1, n), set_int_range(0, b + 1));
            assert(self.holding() =~= set_int_range(f + 1, n) + set_int_range(0, b + 1));
        }
    }

    /// Two well-formed buffers with the same cursors and the same elements are equal, slot
    /// for slot.
    pub proof fn lemma_state_determined(&self, other: &Self)
        requires
            self.wf(),
            other.wf(),
            self.front_cursor() == other.front_cursor(),
            self.back_cursor() == other.back_cursor(),
            self@ == other@,
        ensures
            *self == *other,
    {
        assert forall|j: int| 0 <= j < CAPACITY implies self.data@[j] == other.data@[j] by {
            if self.occupied(j) {
                let i = if j > self.front { j - self.front - 1 } else { j + CAPACITY - self.front
                    - 1 };
                assert(wrap_index(self.front as int, i + 1, CAPACITY as int) == j);
                assert(0 <= i < self@.len());
                assert(self.data@[j] is Some && other.data@[j] is Some);
                assert(self@[i] == self.data@[j]->0);
                assert(other@[i] == other.data@[j]->0);
            } else {
                assert(self.data@[j] is None && other.data@[j] is None);
            }
        }
        assert(self.data =~= other.data);
    }

    /// An empty buffer with every slot vacant and both cursors at slot 0. The capacity must be
    /// at least one.
    pub fn new() -> (r: Self)
        requires
            CAPACITY >= 1,
        ensures
            r.wf(),
            r@ == Seq::<T>::empty(),
            r.front_cursor() == 0,
            r.back_cursor() == 0,
            r.holding() == Set::<int>::empty(),
    {
        let r = RingBuffer { data: vacant_slots(), front: 0, back: 0 };
        assert(r@ =~= Seq::<T>::empty());
        assert(r.holding() =~= Set::<int>::empty());
        r
    }

    /// Whether the buffer holds no element (`front == back`).
    pub fn is_empty(&self) -> (r: bool)
        requires
            self.wf(),
        ensures
            r == (self@.len() == 0),
    {
        self.front == self.back
    }

    /// Whether the buffer holds `CAPACITY - 1` elements (`(back + 1) % CAPACITY == front`).
    pub fn is_full(&self) -> (r: bool)
        requires
            self.wf(),
        ensures
            r == (self@.len() == CAPACITY - 1),
    {
        proof {
            lemma_next_index(self.back as int, CAPACITY as int);
        }
        (self.back + 1) % CAPACITY == self.front
    }

    /// Removes the last element: takes the slot under `back`, leaving it vacant, and moves
    /// `back` one slot down. An empty buffer is left as it is and gives `None`.
    pub fn pop(&mut self) -> (r: Option<T>)
        requires
            old(self).wf(),
        ensures
            final(self).wf(),
            r == Self::back_taken(old(self)@),
            final(self)@ == Self::popped_back(old(self)@),
            final(self).front_cursor() == old(self).front_cursor(),
            old(self)@.len() > 0 ==> final(self).back_cursor() == Self::slot_before(
                old(self).back_cursor(),
            ),
            old(self)@.len() == 0 ==> *final(self) == *old(self),
    {
        if self.is_empty() {
            return None;
        }
        let ghost w = self@;
        assert(wrap_index(self.front as int, w.len() as int, CAPACITY as int) == self.back);
        let item = self.data[self.back].take();
        self.back = if self.back == 0 {
            CAPACITY - 1
        } else {
            self.back - 1
        };
        assert(self@ =~= w.drop_last());
        item
    }

    /// Inserts `item` at the back: moves `back` one slot up and stores `item` there. A full
    /// buffer is left as it is and gives `false`.
    pub fn push(&mut self, item: T) -> (r: bool)
        requires
            old(self).wf(),
        ensures
            final(self).wf(),
            r == (old(self)@.len() < CAPACITY - 1),
            final(self)@ == Self::pushed_back(old(self)@, item),
            final(self).front_cursor() == old(self).front_cursor(),
            r ==> final(self).back_cursor() == Self::slot_after(old(self).back_cursor()),
            !r ==> *final(self) == *old(self),
    {
        if self.is_full() {
            return false;
        }
        let ghost w = self@;
        proof {
            lemma_next_index(self.back as int, CAPACITY as int);
        }
        self.back = (self.back + 1) % CAPACITY;
        self.data[self.back] = Some(item);
        assert(self@ =~= w.push(item));
        true
    }

    /// Inserts `item` at the front: stores `item` in the slot under `front` and moves `front`
    /// one slot down. A full buffer is left as it is and gives `false`.
    pub fn push_front(&mut self, item: T) -> (r: bool)
        requires
            old(self).wf(),
        ensures
            final(self).wf(),
            r == (old(self)@.len() < CAPACITY - 1),
            final(self)@ == Self::pushed_front(old(self)@, item),
            final(self).back_cursor() == old(self).back_cursor(),
            r ==> final(self).front_cursor() == Self::slot_before(old(self).front_cursor()),
            !r ==> *final(self) == *old(self),
    {
        if self.is_full() {
            return false;
        }
        let ghost w = self@;
        self.data[self.front] = Some(item);
        self.front = if self.front == 0 {
            CAPACITY - 1
        } else {
            self.front - 1
        };
        assert(self@ =~= seq![item] + w);
        true
    }

    /// Removes the first element: moves `front` one slot up and takes the slot under it,
    /// leaving it vacant. An empty buffer is left as it is and gives `None`.
    pub fn pop_front(&mut self) -> (r: Option<T>)
        requires
            old(self).wf(),
        ensures
            final(self).wf(),
            r == Self::front_taken(old(self)@),
            final(self)@ == Self::popped_front(old(self)@),
            final(self).back_cursor() == old(self).back_cursor(),
            old(self)@.len() > 0 ==> final(self).front_cursor() == Self::slot_after(
                old(self).front_cursor(),
            ),
            old(self)@.len() == 0 ==> *final(self) == *old(self),
    {
        if self.is_empty() {
            return None;
        }
        let ghost w = self@;
        proof {
            lemma_next_index(self.front as int, CAPACITY as int);
        }
        self.front = (self.front + 1) % CAPACITY;
        let item = self.data[self.front].take();
        assert(self@ =~= w.subrange(1, w.len() as int));
        item
    }

    /// A reference to the first element, read from the slot after `front`; it holds `None`
    /// when the buffer is empty.
    pub fn get_front_ref(&self) -> (r: &Option<T>)
        requires
            self.wf(),
        ensures
            *r == Self::front_taken(self@),
    {
        proof {
            lemma_next_index(self.front as int, CAPACITY as int);
        }
        &self.data[(self.front + 1) % CAPACITY]
    }

    /// A reference to the last element, read from the slot under `back`; it holds `None` when
    /// the buffer is empty.
    pub fn get_back_ref(&self) -> (r: &Option<T>)
        requires
            self.wf(),
        ensures
            *r == Self::back_taken(self@),
    {
        proof {
            if self.front != self.back {
                assert(wrap_index(self.front as int, self@.len() as int, CAPACITY as int)
                    == self.back);
            }
        }
        &self.data[self.back]
    }
}

impl<T: Copy, const CAPACITY: usize> RingBuffer<T, CAPACITY> {
    /// A copy of the first element, or `None` when the buffer is empty.
    pub fn get_front(&self) -> (r: Option<T>)
        requires
            self.wf(),
        ensures
            r == Self::front_taken(self@),
    {
        *self.get_front_ref()
    }

    /// A copy of the last element, or `None` when the buffer is empty.
    pub fn get_back(&self) -> (r: Option<T>)
        requires
            self.wf(),
        ensures
            r == Self::back_taken(self@),
    {
        *self.get_back_ref()
    }
}

} // verus!
