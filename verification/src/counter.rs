//! A cyclic counter with a mutable upper bound.
//!
//! `Counter` backs every selection index in the crate: which record of a
//! list is selected and which field of a record is selected. Its value
//! always lies in `[0, length)`; stepping past either end wraps around.

use vstd::prelude::*;

verus! {

/// The value that follows `v` when stepping forward through `[0, len)`.
pub open spec fn step_up(v: nat, len: nat) -> nat {
    if v + 1 >= len {
        0
    } else {
        v + 1
    }
}

/// The value that follows `v` when stepping backward through `[0, len)`.
pub open spec fn step_down(v: nat, len: nat) -> nat {
    if v == 0 {
        (len - 1) as nat
    } else {
        (v - 1) as nat
    }
}

/// The value reached from `v` after `n` forward steps through `[0, len)`.
pub open spec fn step_up_n(v: nat, len: nat, n: nat) -> nat
    decreases n,
{
    if n == 0 {
        v
    } else {
        step_up(step_up_n(v, len, (n - 1) as nat), len)
    }
}

/// The value reached from `v` after `n` backward steps through `[0, len)`.
pub open spec fn step_down_n(v: nat, len: nat, n: nat) -> nat
    decreases n,
{
    if n == 0 {
        v
    } else {
        step_down(step_down_n(v, len, (n - 1) as nat), len)
    }
}

#[derive(Debug, PartialEq, Eq, Structural, Clone, Copy)]
pub struct Counter {
    value: u32,
    length: u32,
}

impl Counter {
    /// The current position.
    pub closed spec fn spec_value(&self) -> u32 {
        self.value
    }

    /// The exclusive upper bound of the position.
    pub closed spec fn spec_length(&self) -> u32 {
        self.length
    }

    /// The position is valid for the current bound.
    pub open spec fn well_formed(&self) -> bool {
        self.spec_value() < self.spec_length()
    }

    pub fn new(length: u32) -> (r: Counter)
        requires
            length >= 1,
        ensures
            r.spec_value() == 0,
            r.spec_length() == length,
            r.well_formed(),
    {
        Counter { value: 0, length }
    }

    pub fn get_value(&self) -> (r: u32)
        ensures
            r == self.spec_value(),
    {
        self.value
    }

    pub fn get_length(&self) -> (r: u32)
        ensures
            r == self.spec_length(),
    {
        self.length
    }

    pub fn reset(&mut self)
        ensures
            final(self).spec_value() == 0,
            final(self).spec_length() == old(self).spec_length(),
    {
        self.value = 0;
    }

    /// Change the bound; a position that is now out of range is clamped
    /// to the last valid one.
    pub fn update_length(&mut self, length: u32)
        requires
            length >= 1,
        ensures
            final(self).spec_length() == length,
            final(self).spec_value() == if old(self).spec_value() >= length {
                (length - 1) as u32
            } else {
                old(self).spec_value()
            },
            final(self).well_formed(),
    {
        self.length = length;
        if self.value >= self.length {
            self.value = self.length - 1;
        }
    }

    /// Step forward, wrapping to `0` at `length`.
    pub fn increment(&mut self)
        requires
            old(self).well_formed(),
        ensures
            final(self).spec_length() == old(self).spec_length(),
            final(self).spec_value() as nat == step_up(
                old(self).spec_value() as nat,
                old(self).spec_length() as nat,
            ),
            final(self).well_formed(),
    {
        self.value = self.value + 1;
        if self.value >= self.length {
            self.value = 0;
        }
    }

    /// Step backward, wrapping to `length - 1` at `0`.
    pub fn decrement(&mut self)
        requires
            old(self).well_formed(),
        ensures
            final(self).spec_length() == old(self).spec_length(),
            final(self).spec_value() as nat == step_down(
                old(self).spec_value() as nat,
                old(self).spec_length() as nat,
            ),
            final(self).well_formed(),
    {
        if self.value == 0 {
            self.value = self.length;
        }
        self.value = self.value - 1;
    }
}

/// Where `n` forward steps from `v` land, in closed form: positions move
/// linearly and fold back once they pass the bound.
pub proof fn lemma_step_up_n_closed_form(v: nat, len: nat, n: nat)
    requires
        v < len,
        n <= len,
    ensures
        step_up_n(v, len, n) == if v + n < len {
            v + n
        } else {
            (v + n - len) as nat
        },
    decreases n,
{
    if n > 0 {
        lemma_step_up_n_closed_form(v, len, (n - 1) as nat);
    }
}

/// Where `n` backward steps from `v` land, in closed form.
pub proof fn lemma_step_down_n_closed_form(v: nat, len: nat, n: nat)
    requires
        v < len,
        n <= len,
    ensures
        step_down_n(v, len, n) == if v >= n {
            (v - n) as nat
        } else {
            (v + len - n) as nat
        },
    decreases n,
{
    if n > 0 {
        lemma_step_down_n_closed_form(v, len, (n - 1) as nat);
    }
}

/// Forward stepping cycles through `[0, len)`: every position stays in
/// range, and the walk first returns to its start after exactly `len`
/// steps.
pub proof fn lemma_increment_cycles(v: nat, len: nat)
    requires
        v < len,
    ensures
        forall|n: nat| n <= len ==> #[trigger] step_up_n(v, len, n) < len,
        step_up_n(v, len, len) == v,
        forall|n: nat| 0 < n < len ==> #[trigger] step_up_n(v, len, n) != v,
{
    assert forall|n: nat| n <= len implies #[trigger] step_up_n(v, len, n) < len by {
        lemma_step_up_n_closed_form(v, len, n);
    }
    lemma_step_up_n_closed_form(v, len, len);
    assert forall|n: nat| 0 < n < len implies #[trigger] step_up_n(v, len, n) != v by {
        lemma_step_up_n_closed_form(v, len, n);
    }
}

/// Every position of `[0, len)` is reached within `len` forward steps.
pub proof fn lemma_increment_reaches(v: nat, len: nat, t: nat)
    requires
        v < len,
        t < len,
    ensures
        exists|n: nat| n < len && step_up_n(v, len, n) == t,
{
    let n: nat = if t >= v {
        (t - v) as nat
    } else {
        (t + len - v) as nat
    };
    lemma_step_up_n_closed_form(v, len, n);
    assert(n < len && step_up_n(v, len, n) == t);
}

/// Backward stepping cycles through `[0, len)` in the same way.
pub proof fn lemma_decrement_cycles(v: nat, len: nat)
    requires
        v < len,
    ensures
        forall|n: nat| n <= len ==> #[trigger] step_down_n(v, len, n) < len,
        step_down_n(v, len, len) == v,
        forall|n: nat| 0 < n < len ==> #[trigger] step_down_n(v, len, n) != v,
{
    assert forall|n: nat| n <= len implies #[trigger] step_down_n(v, len, n) < len by {
        lemma_step_down_n_closed_form(v, len, n);
    }
    lemma_step_down_n_closed_form(v, len, len);
    assert forall|n: nat| 0 < n < len implies #[trigger] step_down_n(v, len, n) != v by {
        lemma_step_down_n_closed_form(v, len, n);
    }
}

/// Every position of `[0, len)` is reached within `len` backward steps.
pub proof fn lemma_decrement_reaches(v: nat, len: nat, t: nat)
    requires
        v < len,
        t < len,
    ensures
        exists|n: nat| n < len && step_down_n(v, len, n) == t,
{
    let n: nat = if v >= t {
        (v - t) as nat
    } else {
        (v + len - t) as nat
    };
    lemma_step_down_n_closed_form(v, len, n);
    assert(n < len && step_down_n(v, len, n) == t);
}

} // verus!
