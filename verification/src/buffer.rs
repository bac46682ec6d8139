use vstd::prelude::*;
use vstd::arithmetic::div_mod::lemma_add_mod_noop_right;
use vstd::arithmetic::div_mod::lemma_mod_sub_multiples_vanish;
use vstd::arithmetic::div_mod::lemma_small_mod;
use crate::model::insert_model;

verus! {

/// A fixed-capacity rolling buffer: it holds the most recent values of a
/// copyable element type and, once full, each insertion overwrites the
/// oldest valid value.
///
/// `T::default()` fills the slots that no insertion has reached yet. Such a
/// value is never part of the valid contents, though `get` can reach one
/// through its clamping rule while the buffer is not yet full.
pub struct RollingBuffer<T> where T: Copy + Default {
    capacity: usize,
    buffer: Vec<T>,
    current_index: usize,
    count: usize,
}

impl<T> View for RollingBuffer<T> where T: Copy + Default {
    type V = Seq<T>;

    /// The valid contents, oldest first.
    open spec fn view(&self) -> Seq<T> {
        Seq::new(self.spec_len() as nat, |j: int| self.storage()[self.slot_of(j)])
    }
}

impl<T> RollingBuffer<T> where T: Copy + Default {
    /// The fixed capacity.
    pub closed spec fn spec_capacity(&self) -> int {
        self.capacity as int
    }

    /// The number of valid values.
    pub closed spec fn spec_len(&self) -> int {
        self.count as int
    }

    /// The physical storage, one slot per unit of capacity.
    pub closed spec fn storage(&self) -> Seq<T> {
        self.buffer@
    }

    /// The physical slot that the next insertion writes.
    pub closed spec fn cursor(&self) -> int {
        self.current_index as int
    }

    /// A well-formed buffer: positive capacity, storage of exactly that
    /// length, cursor inside the storage, and no more valid values than
    /// the capacity.
    pub open spec fn wf(&self) -> bool {
        &&& 1 <= self.spec_capacity()
        &&& self.storage().len() == self.spec_capacity()
        &&& 0 <= self.cursor() < self.spec_capacity()
        &&& 0 <= self.spec_len() <= self.spec_capacity()
    }

    /// The physical slot read for a logical index, where logical index 0
    /// is the oldest valid value. An index at or above the capacity is
    /// clamped to the last logical position, `capacity - 1`.
    pub open spec fn slot_of(&self, index: int) -> int {
        let i = if index >= self.spec_capacity() {
            self.spec_capacity() - 1
        } else {
            index
        };
        (self.cursor() + i + self.spec_capacity() - self.spec_len()) % self.spec_capacity()
    }

    /// Create a buffer of the given capacity, holding no valid values; all
    /// storage slots start out as `T::default()`.
    pub fn new(capacity: usize) -> (r: RollingBuffer<T>)
        requires
            1 <= capacity,
        ensures
            r.wf(),
            r.spec_capacity() == capacity,
            r@ == Seq::<T>::empty(),
    {
        let r = RollingBuffer {
            capacity,
            buffer: vec![T::default(); capacity],
            current_index: 0,
            count: 0,
        };
        proof {
            assert(r@ =~= Seq::<T>::empty());
        }
        r
    }

    /// Insert a value, overwriting the oldest valid value once the buffer
    /// is full, and report whether the buffer is full after the insertion.
    pub fn add(&mut self, value: T) -> (r: bool)
        requires
            old(self).wf(),
        ensures
            final(self).wf(),
            final(self).spec_capacity() == old(self).spec_capacity(),
            final(self)@ == insert_model(old(self)@, old(self).spec_capacity(), value),
            final(self).storage() == old(self).storage().update(old(self).cursor(), value),
            final(self).cursor() == (old(self).cursor() + 1) % old(self).spec_capacity(),
            final(self)@.len() == if old(self)@.len() < old(self).spec_capacity() {
                old(self)@.len() as int + 1
            } else {
                old(self)@.len() as int
            },
            r == (final(self)@.len() == final(self).spec_capacity()),
    {
        self.buffer[self.current_index] = value;
        self.current_index = (self.current_index + 1) % self.capacity;
        if self.count < self.capacity {
            self.count = self.count + 1;
        }
        proof {
            lemma_view_after_insert(*old(self), *self, value);
        }
        self.is_full()
    }

    /// The number of valid values in the buffer.
    pub fn len(&self) -> (r: usize)
        ensures
            r == self@.len(),
    {
        self.count
    }

    /// Whether the buffer has reached capacity, so that insertions now
    /// overwrite the oldest valid value.
    pub fn is_full(&self) -> (r: bool)
        ensures
            r == (self@.len() == self.spec_capacity()),
    {
        self.count == self.capacity
    }

    /// The value at a logical index, where index 0 is the oldest valid
    /// value and `len() - 1` the newest. An index at or above the capacity
    /// is clamped to logical position `capacity - 1` instead of failing;
    /// for a full buffer that is the newest valid value, and for a buffer
    /// that is not yet full it is a storage slot that may never have been
    /// written, still holding `T::default()`.
    pub fn get(&self, index: usize) -> (r: &T)
        requires
            self.wf(),
        ensures
            *r == self.storage()[self.slot_of(index as int)],
            index < self@.len() ==> *r == self@[index as int],
            self@.len() == self.spec_capacity() && index >= self@.len() ==> *r == self@[self.spec_capacity() - 1],
    {
        let cap = self.capacity as u128;
        let i = if index >= self.capacity {
            cap - 1
        } else {
            index as u128
        };
        let slot_wide = (self.current_index as u128 + i + cap - self.count as u128) % cap;
        proof {
            assert(slot_wide == self.slot_of(index as int));
        }
        let slot = slot_wide as usize;
        &self.buffer[slot]
    }

    /// All valid values, oldest first, as a newly allocated vector.
    pub fn values(&self) -> (r: Vec<T>)
        requires
            self.wf(),
        ensures
            r@ == self@,
    {
        let mut values: Vec<T> = Vec::with_capacity(self.count);
        let mut i: usize = 0;
        proof {
            assert(values@ =~= self@.subrange(0, 0));
        }
        while i < self.count
            invariant
                self.wf(),
                i <= self.spec_len(),
                values@ == self@.subrange(0, i as int),
            decreases self.spec_len() - i,
        {
            values.push(*self.get(i));
            i = i + 1;
            proof {
                assert(values@ =~= self@.subrange(0, i as int));
            }
        }
        proof {
            assert(self@.subrange(0, self.spec_len()) =~= self@);
        }
        values
    }

    /// The same valid values as `values`, oldest first, produced one at a
    /// time by `ValuesIter::next` instead of being materialized at once.
    pub fn values_iter<'a>(&'a self) -> (r: ValuesIter<'a, T>)
        requires
            self.wf(),
        ensures
            r.wf(),
            r.source() == *self,
            r.remaining() == self@,
    {
        let r = ValuesIter { source: self, position: 0 };
        proof {
            assert(r.remaining() =~= self@);
        }
        r
    }
}

/// A single-pass producer of a buffer's valid values, oldest first. It
/// reads the buffer it was created from; the values still to be produced
/// are `remaining()`.
pub struct ValuesIter<'a, T> where T: Copy + Default {
    source: &'a RollingBuffer<T>,
    position: usize,
}

impl<'a, T> ValuesIter<'a, T> where T: Copy + Default {
    /// The buffer whose values are produced.
    pub closed spec fn source(&self) -> RollingBuffer<T> {
        *self.source
    }

    /// How many values were already produced.
    pub closed spec fn position(&self) -> int {
        self.position as int
    }

    /// A well-formed producer reads a well-formed buffer and stands at or
    /// before the end of its valid values.
    pub open spec fn wf(&self) -> bool {
        &&& self.source().wf()
        &&& 0 <= self.position() <= self.source()@.len()
    }

    /// The values not yet produced, oldest first.
    pub open spec fn remaining(&self) -> Seq<T> {
        self.source()@.subrange(self.position(), self.source()@.len() as int)
    }

    /// Produce the next valid value, oldest first, or `None` once every
    /// valid value was produced.
    pub fn next(&mut self) -> (r: Option<T>)
        requires
            old(self).wf(),
        ensures
            final(self).wf(),
            final(self).source() == old(self).source(),
            old(self).remaining().len() > 0 ==> {
                &&& r == Some(old(self).remaining()[0])
                &&& final(self).remaining() == old(self).remaining().drop_first()
            },
            old(self).remaining().len() == 0 ==> {
                &&& r is None
                &&& final(self).remaining() == old(self).remaining()
            },
    {
        if self.position < self.source.count {
            let v = *self.source.get(self.position);
            self.position = self.position + 1;
            proof {
                assert(self.remaining() =~= old(self).remaining().drop_first());
            }
            Some(v)
        } else {
            None
        }
    }
}

/// Any result that meets the contract of `values` and any producer that
/// meets the contract of `values_iter` hold the same values in the same
/// order: both are exactly the buffer's valid contents, oldest first.
pub proof fn lemma_values_matches_iter<'a, T: Copy + Default>(
    b: &RollingBuffer<T>,
    vs: Vec<T>,
    it: ValuesIter<'a, T>,
)
    requires
        vs@ == b@,
        it.remaining() == b@,
    ensures
        vs@ == it.remaining(),
{
}

/// The number of valid values in a well-formed buffer never exceeds its
/// capacity.
pub proof fn lemma_len_bounded_by_capacity<T: Copy + Default>(b: &RollingBuffer<T>)
    requires
        b.wf(),
    ensures
        b@.len() <= b.spec_capacity(),
{
}

/// A buffer that meets the contract of `new` holds no valid values and is
/// not full, whatever its capacity.
pub proof fn lemma_fresh_buffer_empty<T: Copy + Default>(b: &RollingBuffer<T>)
    requires
        b.wf(),
        b@ == Seq::<T>::empty(),
    ensures
        b@.len() == 0,
        b@.len() != b.spec_capacity(),
{
}

/// For offsets below the capacity, stepping the cursor by `d` modulo the
/// capacity lands on the cursor's own slot exactly when `d` is zero.
proof fn lemma_step_hits_cursor(c: int, d: int, cap: int)
    requires
        1 <= cap,
        0 <= c < cap,
        0 <= d < cap,
    ensures
        (c + d) % cap == if c + d < cap {
            c + d
        } else {
            c + d - cap
        },
        ((c + d) % cap == c) <==> (d == 0),
{
    if c + d < cap {
        lemma_small_mod((c + d) as nat, cap as nat);
    } else {
        lemma_mod_sub_multiples_vanish(c + d, cap);
        lemma_small_mod((c + d - cap) as nat, cap as nat);
    }
}

/// After one insertion, the valid contents are the old contents with the
/// new value appended, minus the oldest one if the buffer was full.
proof fn lemma_view_after_insert<T: Copy + Default>(
    pre: RollingBuffer<T>,
    post: RollingBuffer<T>,
    value: T,
)
    requires
        pre.wf(),
        post.capacity == pre.capacity,
        post.buffer@ == pre.buffer@.update(pre.current_index as int, value),
        post.current_index == (pre.current_index + 1) % (pre.capacity as int),
        post.count == if pre.count < pre.capacity {
            pre.count + 1
        } else {
            pre.count as int
        },
    ensures
        post.wf(),
        post@ == insert_model(pre@, pre.spec_capacity(), value),
{
    let cap = pre.capacity as int;
    let c = pre.current_index as int;
    let n = pre.count as int;
    assert forall|j: int| 0 <= j < post.count implies post@[j] == insert_model(
        pre@,
        cap,
        value,
    )[j] by {
        lemma_add_mod_noop_right(j + cap - post.count, c + 1, cap);
        assert(post.slot_of(j) == (c + 1 + j + cap - post.count) % cap);
        if n < cap {
            assert(post.slot_of(j) == pre.slot_of(j));
            if j < n {
                lemma_step_hits_cursor(c, cap - n + j, cap);
                assert(pre.slot_of(j) != c);
            } else {
                lemma_mod_sub_multiples_vanish(c + cap, cap);
                lemma_small_mod(c as nat, cap as nat);
                assert(pre.slot_of(j) == c);
            }
        } else {
            if j < cap - 1 {
                lemma_step_hits_cursor(c, j + 1, cap);
                assert(post.slot_of(j) == (c + 1 + j) % cap);
                assert(pre.slot_of(j + 1) == (c + j + 1) % cap);
                assert(post.slot_of(j) != c);
            } else {
                lemma_mod_sub_multiples_vanish(c + cap, cap);
                lemma_small_mod(c as nat, cap as nat);
                assert(post.slot_of(j) == c);
            }
        }
    }
    assert(post@ =~= insert_model(pre@, cap, value));
}

} // verus!
