//! Fixed-capacity FIFO window over fixed-point values.

use vstd::prelude::*;
use crate::fixed::VAL_LIMIT;
use crate::sorting::{bounded_by, sort_spec, sort_vec};

verus! {

/// The contents of a window of capacity `cap` after pushing `v`: the value is
/// appended and, if the window was full, the oldest element is evicted.
pub open spec fn push_evict(s: Seq<i128>, cap: int, v: i128) -> Seq<i128> {
    if s.len() < cap {
        s.push(v)
    } else {
        s.drop_first().push(v)
    }
}

/// A bounded FIFO of fixed-point values: pushing onto a full window evicts
/// the oldest element.
pub struct RollingWindow {
    buf: Vec<i128>,
    capacity: usize,
}

impl View for RollingWindow {
    type V = Seq<i128>;

    closed spec fn view(&self) -> Seq<i128> {
        self.buf@
    }
}

impl RollingWindow {
    /// The fixed capacity the window was created with.
    pub closed spec fn cap(&self) -> int {
        self.capacity as int
    }

    /// Structural invariant: positive capacity, never over-full, contents
    /// within the pipeline value bound.
    pub closed spec fn inv(&self) -> bool {
        &&& self.capacity >= 1
        &&& self.buf@.len() <= self.capacity
        &&& bounded_by(self.buf@, VAL_LIMIT as int)
    }

    /// Create an empty window with the given capacity.
    pub fn new(capacity: usize) -> (r: RollingWindow)
        requires
            capacity >= 1,
        ensures
            r@ == Seq::<i128>::empty(),
            r.cap() == capacity,
            r.inv(),
    {
        RollingWindow { buf: Vec::new(), capacity }
    }

    /// Push a value, evicting the oldest element if the window is full.
    pub fn push(&mut self, value: i128)
        requires
            old(self).inv(),
            -VAL_LIMIT <= value <= VAL_LIMIT,
        ensures
            final(self).inv(),
            final(self).cap() == old(self).cap(),
            final(self)@ == push_evict(old(self)@, old(self).cap(), value),
            final(self)@.len() <= old(self)@.len() + 1,
            final(self)@.len() >= 1,
    {
        if self.buf.len() == self.capacity {
            let ghost pre = self.buf@;
            self.buf.remove(0);
            proof {
                assert(self.buf@ =~= pre.drop_first());
            }
        }
        self.buf.push(value);
    }

    /// Whether the window has reached its capacity.
    pub fn is_full(&self) -> (r: bool)
        ensures
            r == (self@.len() == self.cap()),
    {
        self.buf.len() == self.capacity
    }

    /// Number of elements currently held.
    pub fn len(&self) -> (r: usize)
        ensures
            r == self@.len(),
    {
        self.buf.len()
    }

    /// A copy of the contents in ascending order.
    pub fn sorted_snapshot(&self) -> (r: Vec<i128>)
        ensures
            r@ == sort_spec(self@),
    {
        sort_vec(&self.buf)
    }

    /// A copy of the contents in insertion order (oldest first).
    pub fn as_slice(&self) -> (r: Vec<i128>)
        requires
            self.inv(),
        ensures
            r@ == self@,
            bounded_by(r@, VAL_LIMIT as int),
    {
        let n = self.buf.len();
        let mut out: Vec<i128> = Vec::new();
        let mut i: usize = 0;
        while i < n
            invariant
                n == self.buf@.len(),
                i <= n,
                out@ =~= self.buf@.subrange(0, i as int),
            decreases n - i,
        {
            out.push(self.buf[i]);
            proof {
                assert(out@ =~= self.buf@.subrange(0, i + 1));
            }
            i += 1;
        }
        proof {
            assert(out@ =~= self.buf@);
        }
        out
    }
}

} // verus!
