//! Laws of the averaging window: what it holds after any run of feeds.

use crate::model::{arithmetic_is_deterministic, sums_to, Window};
use vstd::arithmetic::div_mod::{
    lemma_add_mod_noop_right, lemma_mod_bound, lemma_mod_equivalence, lemma_small_mod,
};
use vstd::prelude::*;
use vstd::std_specs::ops::{add_ensures, div_ensures};

verus! {

/// Every step round the ring lands on a slot of the window.
proof fn lemma_slot_after_in_range<T>(w: Window<T>, steps: int)
    requires
        w.wf(),
    ensures
        0 <= w.slot_after(steps) < w.size(),
{
    lemma_mod_bound(w.cursor + steps, w.size() as int);
}

/// Two feeds less than a window size apart land on different slots.
proof fn lemma_slot_after_distinct<T>(w: Window<T>, earlier: int, later: int)
    requires
        w.wf(),
        0 < later - earlier < w.size(),
    ensures
        w.slot_after(earlier) != w.slot_after(later),
{
    let n = w.size() as int;
    lemma_mod_equivalence(w.cursor + later, w.cursor + earlier, n);
    lemma_small_mod((later - earlier) as nat, n as nat);
}

/// Among any `size` feeds in a row, one lands on the given slot.
proof fn lemma_slot_after_onto<T>(w: Window<T>, first: int, slot: int) -> (steps: int)
    requires
        w.wf(),
        0 <= slot < w.size(),
    ensures
        first <= steps < first + w.size(),
        w.slot_after(steps) == slot,
{
    let n = w.size() as int;
    let offset = (slot - w.cursor - first) % n;
    lemma_mod_bound(slot - w.cursor - first, n);
    lemma_add_mod_noop_right(w.cursor + first, slot - w.cursor - first, n);
    lemma_small_mod(slot as nat, n as nat);
    first + offset
}

/// Feeding never resizes the window: after any run of feeds it has the slots
/// it started with, the cursor points at one of them, having moved on by one
/// per sample round the ring, and the zero and the divisor are what they were.
pub proof fn lemma_fed_all_shape<T>(w: Window<T>, samples: Seq<T>)
    requires
        w.wf(),
    ensures
        w.fed_all(samples).wf(),
        w.fed_all(samples).size() == w.size(),
        w.fed_all(samples).cursor == w.slot_after(samples.len() as int),
        w.fed_all(samples).zero == w.zero,
        w.fed_all(samples).divisor == w.divisor,
    decreases samples.len(),
{
    let n = w.size() as int;
    let k = samples.len() as int;
    if k == 0 {
        lemma_small_mod(w.cursor, w.size());
    } else {
        lemma_fed_all_shape(w, samples.drop_last());
        lemma_mod_bound(w.cursor + k, n);
        lemma_add_mod_noop_right(1, w.cursor + k - 1, n);
    }
}

/// The window holds exactly the latest samples: after any run of feeds, each
/// of the last `size` samples (all of them, if fewer were fed) stands in the
/// slot it was written to, and a slot that the run has not reached holds what
/// it held before.
pub proof fn lemma_fed_all_slots<T>(w: Window<T>, samples: Seq<T>)
    requires
        w.wf(),
    ensures
        forall|j: int|
            #![trigger samples[j]]
            0 <= j < samples.len() && samples.len() - w.size() <= j
                ==> w.fed_all(samples).slots[w.slot_after(j)] == samples[j],
        forall|d: int|
            samples.len() <= d < w.size()
                ==> w.fed_all(samples).slots[#[trigger] w.slot_after(d)]
                    == w.slots[w.slot_after(d)],
    decreases samples.len(),
{
    let n = w.size() as int;
    let k = samples.len() as int;
    if k > 0 {
        let earlier = samples.drop_last();
        let before = w.fed_all(earlier);
        let after = w.fed_all(samples);
        lemma_fed_all_shape(w, earlier);
        lemma_fed_all_slots(w, earlier);
        lemma_slot_after_in_range(w, k - 1);
        assert forall|j: int| 0 <= j < k && k - n <= j implies after.slots[w.slot_after(j)]
            == samples[j] by {
            lemma_slot_after_in_range(w, j);
            if j < k - 1 {
                lemma_slot_after_distinct(w, j, k - 1);
                assert(earlier[j] == samples[j]);
            }
        }
        assert forall|d: int| k <= d < n implies after.slots[#[trigger] w.slot_after(d)]
            == w.slots[w.slot_after(d)] by {
            lemma_slot_after_in_range(w, d);
            lemma_slot_after_distinct(w, k - 1, d);
        }
    }
}

/// A run of one sample that starts at the first slot and is no longer than
/// the window overwrites the slots before `count` and leaves the others.
proof fn lemma_run_from_first_slot<T>(w: Window<T>, sample: T, count: nat)
    requires
        w.wf(),
        w.cursor == 0,
        count <= w.size(),
    ensures
        w.fed_all(Seq::new(count, |i: int| sample)) == (Window {
            slots: Seq::new(w.size(), |i: int| if i < count { sample } else { w.slots[i] }),
            cursor: count % w.size(),
            zero: w.zero,
            divisor: w.divisor,
        }),
{
    let run = Seq::new(count, |i: int| sample);
    let after = w.fed_all(run);
    lemma_fed_all_shape(w, run);
    lemma_fed_all_slots(w, run);
    assert forall|i: int| 0 <= i < w.size() implies after.slots[i] == (if i < count {
        sample
    } else {
        w.slots[i]
    }) by {
        lemma_small_mod(i as nat, w.size());
        assert(w.slot_after(i) == i);
        if i < count {
            assert(run[i] == sample);
        }
    }
    assert(after.slots =~= Seq::new(
        w.size(),
        |i: int| if i < count { sample } else { w.slots[i] },
    ));
}

/// Filling a fresh window: after `count` feeds of one sample, `count` being
/// at most the window size, the first `count` slots hold the sample and the
/// rest still hold the zero. Each of these feeds so returns a mean of `count`
/// copies of the sample and `size - count` zeros: the average climbs to the
/// sample as the window fills.
pub proof fn lemma_fill_ramp<T>(size: nat, zero: T, divisor: T, sample: T, count: nat)
    requires
        0 < size,
        count <= size,
    ensures
        Window::fresh(size, zero, divisor).fed_all(Seq::new(count, |i: int| sample)) == (Window {
            slots: Seq::new(size, |i: int| if i < count { sample } else { zero }),
            cursor: count % size,
            zero,
            divisor,
        }),
{
    let w = Window::fresh(size, zero, divisor);
    lemma_run_from_first_slot(w, sample, count);
    assert(Seq::new(size, |i: int| if i < count { sample } else { w.slots[i] }) =~= Seq::new(
        size,
        |i: int| if i < count { sample } else { zero },
    ));
}

/// Draining a full window: once a fresh window was filled with `high`, after
/// `count` feeds of `low`, `count` being at most the window size, the first
/// `count` slots hold `low` and the rest still hold `high`. Each of these
/// feeds so returns a mean of `count` copies of `low` and `size - count`
/// copies of `high`: the average falls to `low` as the window drains.
pub proof fn lemma_drain_ramp<T>(size: nat, zero: T, divisor: T, high: T, low: T, count: nat)
    requires
        0 < size,
        count <= size,
    ensures
        Window::fresh(size, zero, divisor).fed_all(Seq::new(size, |i: int| high)).fed_all(
            Seq::new(count, |i: int| low),
        ) == (Window {
            slots: Seq::new(size, |i: int| if i < count { low } else { high }),
            cursor: count % size,
            zero,
            divisor,
        }),
{
    lemma_fill_ramp(size, zero, divisor, high, size);
    let full = Window::fresh(size, zero, divisor).fed_all(Seq::new(size, |i: int| high));
    lemma_run_from_first_slot(full, low, count);
    assert(Seq::new(size, |i: int| if i < count { low } else { full.slots[i] }) =~= Seq::new(
        size,
        |i: int| if i < count { low } else { high },
    ));
}

/// Steady state: after at least `size` feeds of one sample, whatever the
/// window held before, every slot holds that sample, and so it stays for as
/// long as the same sample is fed. Each further feed returns a mean of `size`
/// copies of the sample.
pub proof fn lemma_steady_state<T>(w: Window<T>, sample: T, count: nat)
    requires
        w.wf(),
        count >= w.size(),
    ensures
        w.fed_all(Seq::new(count, |i: int| sample)).slots == Seq::new(w.size(), |i: int| sample),
        w.fed_all(Seq::new(count, |i: int| sample)).zero == w.zero,
        w.fed_all(Seq::new(count, |i: int| sample)).divisor == w.divisor,
{
    let run = Seq::new(count, |i: int| sample);
    let after = w.fed_all(run);
    lemma_fed_all_shape(w, run);
    lemma_fed_all_slots(w, run);
    assert forall|i: int| 0 <= i < w.size() implies after.slots[i] == sample by {
        let j = lemma_slot_after_onto(w, count - w.size(), i);
        assert(run[j] == sample);
    }
    assert(after.slots =~= Seq::new(w.size(), |i: int| sample));
}

/// The cursor wraps: after exactly `size` feeds into a fresh window the
/// slots hold the samples in the order fed and the cursor is back at the
/// first slot, so the next feed overwrites the oldest sample and no other.
pub proof fn lemma_cursor_wraps<T>(size: nat, zero: T, divisor: T, samples: Seq<T>, next: T)
    requires
        0 < size,
        samples.len() == size,
    ensures
        Window::fresh(size, zero, divisor).fed_all(samples).slots == samples,
        Window::fresh(size, zero, divisor).fed_all(samples).cursor == 0,
        Window::fresh(size, zero, divisor).fed_all(samples).fed(next).slots == samples.update(
            0,
            next,
        ),
{
    let w = Window::fresh(size, zero, divisor);
    let full = w.fed_all(samples);
    lemma_fed_all_shape(w, samples);
    lemma_fed_all_slots(w, samples);
    assert forall|i: int| 0 <= i < size implies full.slots[i] == samples[i] by {
        lemma_small_mod(i as nat, size);
        assert(w.slot_after(i) == i);
    }
    assert(full.slots =~= samples);
}

/// Where sums are functions of their operands, a sequence has one sum only.
proof fn lemma_sum_is_unique<T>(start: T, items: Seq<T>, first: T, second: T)
    requires
        arithmetic_is_deterministic::<T>(),
        sums_to(start, items, first),
        sums_to(start, items, second),
    ensures
        first == second,
    decreases items.len(),
{
    if items.len() > 0 {
        let p1 = choose|p: T|
            sums_to(start, items.drop_last(), p) && #[trigger] add_ensures::<T>(
                p,
                items.last(),
                first,
            );
        let p2 = choose|p: T|
            sums_to(start, items.drop_last(), p) && #[trigger] add_ensures::<T>(
                p,
                items.last(),
                second,
            );
        lemma_sum_is_unique(start, items.drop_last(), p1, p2);
    }
}

/// Reading twice: where the `+` and the `/` of the sample type are functions
/// of their operands, a window has one mean only, so two reads with no feed
/// between them return the same value.
pub proof fn lemma_read_is_repeatable<T>(w: Window<T>, first: T, second: T)
    requires
        arithmetic_is_deterministic::<T>(),
        w.has_mean(first),
        w.has_mean(second),
    ensures
        first == second,
{
    let t1 = choose|t: T|
        sums_to(w.zero, w.slots, t) && #[trigger] div_ensures::<T>(t, w.divisor, first);
    let t2 = choose|t: T|
        sums_to(w.zero, w.slots, t) && #[trigger] div_ensures::<T>(t, w.divisor, second);
    lemma_sum_is_unique(w.zero, w.slots, t1, t2);
}

} // verus!
