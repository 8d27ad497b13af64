//! Random draws handed in by the host.
//!
//! The games draw uniform numbers from the host page. Each draw arrives as a
//! `u32` read as the fraction `r / 2^32` of the unit interval, so that scaling
//! a draw to `n` outcomes is `floor(r * n / 2^32)`: the host's value in
//! `[0, 1)` times `n`, rounded down.

use vstd::prelude::*;

verus! {

/// Number of distinct draw values: draws are fractions of this.
pub open spec fn draw_span() -> nat {
    0x1_0000_0000
}

/// The outcome in `0..n` that a draw selects.
pub open spec fn scaled(r: u32, n: nat) -> nat {
    ((r as nat) * n) / draw_span()
}

/// A draw scaled to `n > 0` outcomes selects one of them.
pub proof fn lemma_scaled_below(r: u32, n: nat)
    requires
        n > 0,
    ensures
        scaled(r, n) < n,
{
    assert((r as nat) * n < draw_span() * n) by (nonlinear_arith)
        requires
            r < draw_span(),
            n > 0,
    ;
    assert(((r as nat) * n) / draw_span() < n) by (nonlinear_arith)
        requires
            (r as nat) * n < draw_span() * n,
            draw_span() > 0,
    ;
}

/// A queue of pending host draws, consumed front to back.
pub struct Draws {
    values: Vec<u32>,
    next: usize,
}

impl Draws {
    #[verifier::type_invariant]
    spec fn cursor_in_range(&self) -> bool {
        self.next <= self.values.len()
    }

    /// Builds a queue holding `values` in order.
    pub fn new(values: Vec<u32>) -> (d: Draws)
        ensures
            d@ == values@,
    {
        let d = Draws { values, next: 0 };
        assert(d.values@.skip(0) =~= d.values@);
        d
    }

    /// Number of draws left.
    pub fn remaining(&self) -> (n: usize)
        ensures
            n == self@.len(),
    {
        proof {
            use_type_invariant(self);
        }
        self.values.len() - self.next
    }

    /// Takes the front draw.
    pub fn take(&mut self) -> (r: u32)
        requires
            old(self)@.len() >= 1,
        ensures
            r == old(self)@[0],
            final(self)@ == old(self)@.drop_first(),
    {
        proof {
            use_type_invariant(&*self);
        }
        let r = self.values[self.next];
        self.next = self.next + 1;
        assert(self.values@.skip(self.next as int) =~= old(self)@.drop_first());
        r
    }
}

impl View for Draws {
    type V = Seq<u32>;

    closed spec fn view(&self) -> Seq<u32> {
        self.values@.skip(self.next as int)
    }
}

/// Scales a draw to one of `n` outcomes.
pub fn scale_draw(r: u32, n: u32) -> (k: u32)
    ensures
        k == scaled(r, n as nat),
        n > 0 ==> k < n,
{
    assert((r as nat) * (n as nat) <= 0xffff_ffff * 0xffff_ffff) by (nonlinear_arith)
        requires
            r <= 0xffff_ffff,
            n <= 0xffff_ffff,
    ;
    let wide: u64 = (r as u64) * (n as u64);
    let k = wide >> 32u64;
    assert(k == wide / 0x1_0000_0000) by (bit_vector)
        requires
            k == wide >> 32u64,
    ;
    assert((r as nat) * (n as nat) < 0x1_0000_0000 * (n as nat) || n == 0) by (nonlinear_arith)
        requires
            r < 0x1_0000_0000,
    ;
    assert(n > 0 ==> wide / 0x1_0000_0000 < n) by (nonlinear_arith)
        requires
            wide == (r as nat) * (n as nat),
            (r as nat) * (n as nat) < 0x1_0000_0000 * (n as nat) || n == 0,
    ;
    k as u32
}

} // verus!
