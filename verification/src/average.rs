//! The averager: a ring buffer of samples and their mean.

use crate::arith::{add_samples, div_samples, sample_from_size, zero_sample};
use crate::model::{lemma_sums_to_push, sums_to, Window};
use num_traits::Float;
use vstd::prelude::*;

verus! {

/// Why a window size was refused.
#[derive(Clone, Copy, Debug, PartialEq, Eq, Structural)]
pub enum InvalidSize {
    /// The size is zero: there would be nothing to average over.
    Zero,
    /// The sample type cannot represent the size.
    NotRepresentable,
}

/// Computes a moving average over a ring buffer of numbers.
pub struct MovingAverage<T> {
    /// Current history of numbers.
    hist: Vec<T>,
    /// Size of the history, as `T`.
    size: T,
    /// Index in the history to replace next.
    pos: usize,
    /// The additive identity of `T`.
    zero: T,
}

impl<T> View for MovingAverage<T> {
    type V = Window<T>;

    closed spec fn view(&self) -> Window<T> {
        Window { slots: self.hist@, cursor: self.pos as nat, zero: self.zero, divisor: self.size }
    }
}

impl<T: Copy> MovingAverage<T> {
    /// Builds an averager over `size` numbers from the value that fills the
    /// history and starts every sum, and from the size as a `T`, if `T` has it.
    ///
    /// A size of zero is refused first; a positive size is refused where
    /// `divisor` is `None`.
    pub fn from_parts(size: usize, zero: T, divisor: Option<T>) -> (r: Result<Self, InvalidSize>)
        ensures
            match r {
                Ok(ma) => size > 0 && divisor is Some && ma@ == Window::fresh(
                    size as nat,
                    zero,
                    divisor->Some_0,
                ),
                Err(InvalidSize::Zero) => size == 0,
                Err(InvalidSize::NotRepresentable) => size > 0 && divisor is None,
            },
    {
        if size == 0 {
            return Err(InvalidSize::Zero);
        }
        match divisor {
            None => Err(InvalidSize::NotRepresentable),
            Some(size_as_t) => {
                let mut hist: Vec<T> = Vec::new();
                while hist.len() < size
                    invariant
                        hist.len() <= size,
                        forall|i: int| 0 <= i < hist.len() ==> hist[i] == zero,
                    decreases size - hist.len(),
                {
                    hist.push(zero);
                }
                Ok(MovingAverage { hist, size: size_as_t, pos: 0, zero })
            },
        }
    }
}

impl<T: Float> MovingAverage<T> {
    /// Create a new `MovingAverage` that averages over the given amount of numbers.
    ///
    /// The history starts out filled with the zero of `T`. A size of zero is
    /// refused, and so is one that `T` cannot represent: whether it can is for
    /// `T` to say, and [`MovingAverage::from_parts`] states what follows from
    /// either answer.
    pub fn new(size: usize) -> (r: Result<Self, InvalidSize>)
        ensures
            match r {
                Ok(ma) => size > 0 && ma@ == Window::fresh(size as nat, ma@.zero, ma@.divisor),
                Err(InvalidSize::Zero) => size == 0,
                Err(InvalidSize::NotRepresentable) => size > 0,
            },
    {
        Self::from_parts(size, zero_sample(), sample_from_size(size))
    }

    /// Add the given number to the history, overwriting the oldest number, and return the
    /// resulting moving average: the mean of the whole history, numbers not yet
    /// overwritten included.
    pub fn feed(&mut self, num: T) -> (mean: T)
        requires
            old(self)@.wf(),
        ensures
            final(self)@ == old(self)@.fed(num),
            final(self)@.wf(),
            final(self)@.has_mean(mean),
    {
        let len = self.hist.len();
        self.hist.set(self.pos, num);
        self.pos = (self.pos + 1) % len;
        self.avg()
    }

    /// Calculate moving average based on the current history: the sum of all
    /// its numbers, taken from the zero in index order, divided by the size.
    pub fn avg(&self) -> (mean: T)
        ensures
            self@.has_mean(mean),
    {
        let mut sum = self.zero;
        let mut i: usize = 0;
        while i < self.hist.len()
            invariant
                i <= self.hist.len(),
                sums_to(self.zero, self.hist@.take(i as int), sum),
            decreases self.hist.len() - i,
        {
            let ghost partial = sum;
            sum = add_samples(sum, self.hist[i]);
            proof {
                let summed = self.hist@.take(i as int);
                lemma_sums_to_push(self.zero, summed, partial, self.hist@[i as int], sum);
                assert(summed.push(self.hist@[i as int]) == self.hist@.take(i + 1));
            }
            i += 1;
        }
        proof {
            assert(self.hist@.take(i as int) == self.hist@);
        }
        div_samples(sum, self.size)
    }
}

} // verus!
