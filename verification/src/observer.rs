//! Windowed telemetry.
//!
//! A `Window` is a fixed-size ring of the most recently observed fitness
//! values.  Each insertion advances a circular index; whenever the index
//! wraps to zero the window reports the mean fitness over the window.
//! Observation never influences selection.

use vstd::prelude::*;

verus! {

/// Sum of the filled slots of a frame.
pub open spec fn frame_sum(s: Seq<Option<usize>>) -> int
    decreases s.len(),
{
    if s.len() == 0 {
        0
    } else {
        frame_sum(s.drop_last()) + (match s.last() {
            Some(f) => f as int,
            None => 0,
        })
    }
}

/// Number of filled slots of a frame.
pub open spec fn frame_count(s: Seq<Option<usize>>) -> int
    decreases s.len(),
{
    if s.len() == 0 {
        0
    } else {
        frame_count(s.drop_last()) + (if s.last() is Some {
            1int
        } else {
            0int
        })
    }
}

/// A fixed-size ring buffer of observed fitness values.
pub struct Window {
    pub frame: Vec<Option<usize>>,
    pub index: usize,
    pub window_size: usize,
}

impl Window {
    pub open spec fn wf(&self) -> bool {
        &&& self.window_size > 0
        &&& self.frame@.len() == self.window_size
        &&& self.index < self.window_size
    }

    /// An empty window of `window_size` slots.
    pub fn new(window_size: usize) -> (r: Window)
        requires
            window_size > 0,
        ensures
            r.wf(),
            r.window_size == window_size,
            r.index == 0,
            forall|k: int| 0 <= k < window_size ==> r.frame@[k] is None,
    {
        let mut frame: Vec<Option<usize>> = Vec::new();
        let mut i: usize = 0;
        while i < window_size
            invariant
                i <= window_size,
                frame@.len() == i,
                forall|k: int| 0 <= k < i ==> frame@[k] is None,
            decreases window_size - i,
        {
            frame.push(None);
            i += 1;
        }
        Window { frame, index: 0, window_size }
    }

    /// Records one observed fitness; when the circular index wraps to
    /// zero, reports the mean fitness over the window.
    pub fn insert(&mut self, fitness: usize) -> (r: Option<u64>)
        requires
            old(self).wf(),
        ensures
            final(self).wf(),
            final(self).window_size == old(self).window_size,
            final(self).index == (old(self).index + 1) % (old(self).window_size as int),
            final(self).frame@ == old(self).frame@.update(
                final(self).index as int,
                Some(fitness),
            ),
            r is Some <==> final(self).index == 0,
            match r {
                Some(m) => frame_count(final(self).frame@) > 0 && m == frame_sum(
                    final(self).frame@,
                ) / frame_count(final(self).frame@),
                None => true,
            },
    {
        self.index = (self.index + 1) % self.window_size;
        self.frame.set(self.index, Some(fitness));
        if self.index == 0 {
            proof {
                lemma_frame_count_pos(self.frame@, 0);
            }
            Some(self.report())
        } else {
            None
        }
    }

    /// Mean fitness over the filled slots of the window.
    fn report(&self) -> (r: u64)
        requires
            self.wf(),
            frame_count(self.frame@) > 0,
        ensures
            r == frame_sum(self.frame@) / frame_count(self.frame@),
    {
        let ghost fr = self.frame@;
        let mut sum: u128 = 0;
        let mut count: u64 = 0;
        let mut i: usize = 0;
        proof {
            assert(fr.take(0) =~= Seq::<Option<usize>>::empty());
        }
        while i < self.frame.len()
            invariant
                i <= fr.len(),
                fr == self.frame@,
                self.frame@.len() == fr.len(),
                sum == frame_sum(fr.take(i as int)),
                count == frame_count(fr.take(i as int)),
                sum <= (count as int) * (usize::MAX as int),
                count <= i,
            decreases fr.len() - i,
        {
            proof {
                assert(fr.take(i as int + 1).drop_last() =~= fr.take(i as int));
                assert((count as int + 1) * (usize::MAX as int) == (count as int) * (
                usize::MAX as int) + (usize::MAX as int)) by (nonlinear_arith);
                vstd::arithmetic::mul::lemma_mul_upper_bound(
                    count as int + 1,
                    u64::MAX as int,
                    usize::MAX as int,
                    u64::MAX as int,
                );
                vstd::arithmetic::mul::lemma_mul_nonnegative(count as int, usize::MAX as int);
            }
            match self.frame[i] {
                Some(f) => {
                    sum = sum + (f as u128);
                    count = count + 1;
                },
                None => {},
            }
            i += 1;
        }
        proof {
            assert(fr.take(i as int) =~= fr);
            let c = count as int;
            vstd::arithmetic::div_mod::lemma_div_is_ordered(
                sum as int,
                c * (usize::MAX as int),
                c,
            );
            vstd::arithmetic::div_mod::lemma_div_by_multiple(usize::MAX as int, c);
            assert((usize::MAX as int) * c == c * (usize::MAX as int)) by (nonlinear_arith);
        }
        (sum / (count as u128)) as u64
    }
}

/// A frame is never negatively filled.
proof fn lemma_frame_count_nonneg(s: Seq<Option<usize>>)
    ensures
        frame_count(s) >= 0,
    decreases s.len(),
{
    if s.len() > 0 {
        lemma_frame_count_nonneg(s.drop_last());
    }
}

/// A frame with a filled slot has a positive filled-slot count.
proof fn lemma_frame_count_pos(s: Seq<Option<usize>>, i: int)
    requires
        0 <= i < s.len(),
        s[i] is Some,
    ensures
        frame_count(s) > 0,
    decreases s.len(),
{
    if i == s.len() - 1 {
        lemma_frame_count_nonneg(s.drop_last());
    } else {
        assert(s.drop_last()[i] == s[i]);
        lemma_frame_count_pos(s.drop_last(), i);
    }
}

} // verus!
