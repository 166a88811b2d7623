//! The mathematical model of an averaging window.

use vstd::prelude::*;
use vstd::std_specs::ops::{add_ensures, div_ensures};

verus! {

/// `total` is an outcome of adding `items` to `start` one by one, in index
/// order: `((start + items[0]) + items[1]) + ...`.
///
/// Sums of samples are described by vstd's relation between the operands and
/// the result of `+`, which leaves the arithmetic of the sample type open.
pub open spec fn sums_to<T>(start: T, items: Seq<T>, total: T) -> bool
    decreases items.len(),
{
    if items.len() == 0 {
        total == start
    } else {
        exists|partial: T|
            sums_to(start, items.drop_last(), partial) && #[trigger] add_ensures::<T>(
                partial,
                items.last(),
                total,
            )
    }
}

/// `mean` is an outcome of summing `items` from `start` in index order and
/// dividing the total by `divisor`.
pub open spec fn is_mean<T>(start: T, items: Seq<T>, divisor: T, mean: T) -> bool {
    exists|total: T|
        sums_to(start, items, total) && #[trigger] div_ensures::<T>(total, divisor, mean)
}

/// The `+` and the `/` of `T` are functions of their operands: the same
/// operands never give two results.
pub open spec fn arithmetic_is_deterministic<T>() -> bool {
    &&& forall|a: T, b: T, r1: T, r2: T|
        #![trigger add_ensures::<T>(a, b, r1), add_ensures::<T>(a, b, r2)]
        add_ensures::<T>(a, b, r1) && add_ensures::<T>(a, b, r2) ==> r1 == r2
    &&& forall|a: T, b: T, r1: T, r2: T|
        #![trigger div_ensures::<T>(a, b, r1), div_ensures::<T>(a, b, r2)]
        div_ensures::<T>(a, b, r1) && div_ensures::<T>(a, b, r2) ==> r1 == r2
}

/// Adding one more item to a sum extends it by that item.
pub proof fn lemma_sums_to_push<T>(start: T, items: Seq<T>, partial: T, item: T, total: T)
    requires
        sums_to(start, items, partial),
        add_ensures::<T>(partial, item, total),
    ensures
        sums_to(start, items.push(item), total),
{
    let longer = items.push(item);
    assert(longer.drop_last() == items);
    assert(add_ensures::<T>(partial, longer.last(), total));
}

/// The state of a moving average: a ring of samples and the place of the next
/// write.
#[verifier::ext_equal]
pub struct Window<T> {
    /// The retained samples by slot; the length is the window size.
    pub slots: Seq<T>,
    /// The slot that the next sample overwrites.
    pub cursor: nat,
    /// The sample that untouched slots hold and that every sum starts from.
    pub zero: T,
    /// The window size as a sample, by which every sum is divided.
    pub divisor: T,
}

impl<T> Window<T> {
    /// The number of samples that the window averages over.
    pub open spec fn size(self) -> nat {
        self.slots.len()
    }

    /// The window holds at least one slot and the cursor points at one.
    pub open spec fn wf(self) -> bool {
        0 < self.slots.len() && self.cursor < self.slots.len()
    }

    /// The window of `size` slots before any sample was fed.
    pub open spec fn fresh(size: nat, zero: T, divisor: T) -> Self {
        Window { slots: Seq::new(size, |i: int| zero), cursor: 0, zero, divisor }
    }

    /// The slot that is written `steps` feeds from now: the cursor moved on by
    /// `steps`, going round the ring.
    pub open spec fn slot_after(self, steps: int) -> int {
        (self.cursor + steps) % (self.slots.len() as int)
    }

    /// The window after `sample` was fed: the slot under the cursor holds it,
    /// and the cursor has moved on by one, back to the first slot after the last.
    pub open spec fn fed(self, sample: T) -> Self {
        Window {
            slots: self.slots.update(self.cursor as int, sample),
            cursor: (self.cursor + 1) % self.slots.len(),
            zero: self.zero,
            divisor: self.divisor,
        }
    }

    /// The window after each of `samples` was fed, first to last.
    pub open spec fn fed_all(self, samples: Seq<T>) -> Self
        decreases samples.len(),
    {
        if samples.len() == 0 {
            self
        } else {
            self.fed_all(samples.drop_last()).fed(samples.last())
        }
    }

    /// `mean` is an outcome of averaging all slots, fed or not: their sum from
    /// `zero` in slot order, divided by `divisor`.
    pub open spec fn has_mean(self, mean: T) -> bool {
        is_mean(self.zero, self.slots, self.divisor, mean)
    }
}

} // verus!
