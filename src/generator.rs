//! C-like sequential numbering of discriminants, with explicit resets.
use crate::repr::Repr;
use vstd::prelude::*;

verus! {

/// An explicit discriminant as written on a variant.
#[derive(Clone, Copy, Debug, PartialEq, Eq, Structural)]
pub enum Explicit {
    /// A plain integer literal.
    Literal(u128),
    /// Any other expression (a named constant, `10 + 10`, a negation),
    /// given by the bit pattern of the value it evaluates to.
    Expr(u128),
}

/// A resolved discriminant.
#[derive(Clone, Copy, Debug, PartialEq, Eq, Structural)]
pub enum Disc {
    /// A literal, taken with wraparound where it passes the range.
    Literal(u128),
    /// A symbolic base plus an offset, added with wraparound.
    Offset { base: u128, offset: u128 },
}

impl Disc {
    /// The bit pattern that the discriminant stands for.
    pub open spec fn value(self, repr: Repr) -> int {
        match self {
            Disc::Literal(v) => repr.wrap(v as int),
            Disc::Offset { base, offset } => repr.wrap(base + offset),
        }
    }

    /// Evaluates the discriminant.
    pub fn realize(&self, repr: Repr) -> (r: u128)
        ensures
            r == self.value(repr),
    {
        match *self {
            Disc::Literal(v) => repr.wrapping_add(v, 0),
            Disc::Offset { base, offset } => repr.wrapping_add(base, offset),
        }
    }

    /// Whether the discriminant rests on a symbolic base.
    pub fn have_base(&self) -> (r: bool)
        ensures
            r == (*self is Offset),
    {
        match self {
            Disc::Literal(_) => false,
            Disc::Offset { .. } => true,
        }
    }
}

/// Hands out the discriminants of the normal variants, left to right.
///
/// With no base the next discriminant is the literal `v`; with a base `b`
/// it is `b + v` with wraparound.
#[derive(Clone, Copy, Debug, PartialEq, Eq, Structural)]
pub struct Generator {
    pub repr: Repr,
    pub base: Option<u128>,
    pub v: u128,
}

impl Generator {
    /// The discriminant of a variant without an explicit value, and the
    /// state after it.
    pub open spec fn next_spec(self) -> (Disc, Generator) {
        let d = match self.base {
            None => Disc::Literal(self.v),
            Some(b) => Disc::Offset { base: b, offset: self.v },
        };
        (d, Generator { v: (self.v + 1) as u128, ..self })
    }

    /// Whether an explicit value is folded into a plain literal: only a
    /// literal in the range of a computable representation is.
    pub open spec fn folds(self, e: Explicit) -> bool {
        e matches Explicit::Literal(k) && self.repr.computable() && k <= self.repr.max_value()
    }

    /// The discriminant of a variant with the explicit value `e`, and the
    /// state after it. A folded literal `k` restarts plain numbering at
    /// `k + 1`; any other value becomes the base.
    pub open spec fn reset_spec(self, e: Explicit) -> (Disc, Generator) {
        let x = match e {
            Explicit::Literal(k) => k,
            Explicit::Expr(x) => x,
        };
        if self.folds(e) {
            (Disc::Literal(x), Generator { base: None, v: (x + 1) as u128, ..self })
        } else {
            (Disc::Offset { base: x, offset: 0 }, Generator { base: Some(x), v: 1, ..self })
        }
    }

    pub fn new(repr: Repr) -> (r: Generator)
        ensures
            r == (Generator { repr, base: None, v: 0 }),
    {
        Generator { repr, base: None, v: 0 }
    }

    pub fn next(&mut self) -> (r: Disc)
        requires
            old(self).v < u128::MAX,
        ensures
            (r, *final(self)) == old(self).next_spec(),
    {
        let d = match self.base {
            None => Disc::Literal(self.v),
            Some(b) => Disc::Offset { base: b, offset: self.v },
        };
        self.v = self.v + 1;
        d
    }

    pub fn reset(&mut self, e: Explicit) -> (r: Disc)
        ensures
            (r, *final(self)) == old(self).reset_spec(e),
    {
        match e {
            Explicit::Literal(k) => {
                if self.repr.is_computable() && k <= self.repr.max() {
                    proof {
                        lemma_computable_max(self.repr);
                    }
                    self.base = None;
                    self.v = k + 1;
                    return Disc::Literal(k);
                }
                self.base = Some(k);
                self.v = 1;
                Disc::Offset { base: k, offset: 0 }
            },
            Explicit::Expr(x) => {
                self.base = Some(x);
                self.v = 1;
                Disc::Offset { base: x, offset: 0 }
            },
        }
    }
}

/// The state after `n` variants in a row without an explicit value.
pub open spec fn run_next(g: Generator, n: nat) -> Generator
    decreases n,
{
    if n == 0 {
        g
    } else {
        run_next(g, (n - 1) as nat).next_spec().1
    }
}

/// Over a run of variants without an explicit value the base stays and the
/// counter moves on by one per variant: the variant after `n` of them takes
/// the literal `v + n`, or the base plus `v + n`.
pub proof fn lemma_run_next(g: Generator, n: nat)
    requires
        g.v + n < u128::MAX,
    ensures
        run_next(g, n) == (Generator { v: (g.v + n) as u128, ..g }),
        run_next(g, n).next_spec().0 == match g.base {
            None => Disc::Literal((g.v + n) as u128),
            Some(b) => Disc::Offset { base: b, offset: (g.v + n) as u128 },
        },
    decreases n,
{
    if n > 0 {
        lemma_run_next(g, (n - 1) as nat);
    }
}

/// A fresh generator hands out the literals 0, 1, 2, ... in call order.
pub proof fn lemma_fresh_numbering(repr: Repr, k: nat)
    requires
        k < u128::MAX,
    ensures
        ({
            let g = run_next(Generator { repr, base: None, v: 0 }, k);
            &&& g.v == k
            &&& g.next_spec().0 == Disc::Literal(k as u128)
            &&& g.next_spec().0.value(repr) == repr.wrap(k as int)
        }),
{
    lemma_run_next(Generator { repr, base: None, v: 0 }, k);
}

/// On a computable representation an explicit literal `k` that fits gives
/// the literal `k`; the `j`-th variant after it without an explicit value
/// gets the literal `k + j`.
pub proof fn lemma_literal_reset(g: Generator, k: u128, j: nat)
    requires
        g.repr.computable(),
        k <= g.repr.max_value(),
        1 <= j,
        k + j < u128::MAX,
    ensures
        ({
            let (d, h) = g.reset_spec(Explicit::Literal(k));
            &&& d == Disc::Literal(k)
            &&& run_next(h, (j - 1) as nat).next_spec().0 == Disc::Literal((k + j) as u128)
            &&& run_next(h, (j - 1) as nat).next_spec().0.value(g.repr) == g.repr.wrap(k + j)
        }),
{
    lemma_computable_max(g.repr);
    lemma_run_next(g.reset_spec(Explicit::Literal(k)).1, (j - 1) as nat);
}

/// An explicit value that is not folded (an expression, a literal out of
/// range, or any literal on a representation that is not computable)
/// becomes the base: the variant takes the base itself, and the `j`-th
/// variant after it without an explicit value takes the base plus `j`,
/// with wraparound.
pub proof fn lemma_symbolic_reset(g: Generator, e: Explicit, j: nat)
    requires
        !g.folds(e),
        1 <= j,
        j < u128::MAX,
    ensures
        ({
            let b = match e {
                Explicit::Expr(x) => x,
                Explicit::Literal(k) => k,
            };
            let (d, h) = g.reset_spec(e);
            &&& d == Disc::Offset { base: b, offset: 0 }
            &&& d.value(g.repr) == g.repr.wrap(b as int)
            &&& run_next(h, (j - 1) as nat).next_spec().0 == Disc::Offset { base: b, offset: j as u128 }
            &&& run_next(h, (j - 1) as nat).next_spec().0.value(g.repr) == g.repr.wrap(b + j)
        }),
{
    lemma_run_next(g.reset_spec(e).1, (j - 1) as nat);
}

/// A reset leaves no trace in a later one: two explicit values in a row act
/// as the second alone.
pub proof fn lemma_reset_forgets(g: Generator, a: Explicit, b: Explicit)
    ensures
        g.reset_spec(a).1.reset_spec(b) == g.reset_spec(b),
{
}

/// A literal of a computable representation is below two to the 63.
pub proof fn lemma_computable_max(repr: Repr)
    requires
        repr.computable(),
    ensures
        repr.max_value() < 0x8000_0000_0000_0000,
{
    crate::repr::lemma_pow2_values();
}

} // verus!
