//! The progress tracker: how much of a run is done, as an exact fraction.
//!
//! Steps may be fractions of a unit of work, so the current value is kept as a
//! numerator over a denominator, and the percentage is handed out the same
//! way. A step that 64 bits cannot hold is dropped: the signal is for display
//! only, and a dropped step never makes it go back.

use vstd::prelude::*;

verus! {

/// A fraction `num / den` of natural numbers.
pub struct Fraction {
    pub num: nat,
    pub den: nat,
}

/// `a <= b`, for fractions with positive denominators.
pub open spec fn fraction_le(a: Fraction, b: Fraction) -> bool {
    a.num * b.den <= b.num * a.den
}

/// `a == b` as numbers.
pub open spec fn fraction_eq(a: Fraction, b: Fraction) -> bool {
    a.num * b.den == b.num * a.den
}

/// `a + b`.
pub open spec fn fraction_sum(a: Fraction, b: Fraction) -> Fraction {
    Fraction { num: a.num * b.den + b.num * a.den, den: a.den * b.den }
}

/// The state of a tracker: the value before the current stage, the value
/// reached within it as `current_num / current_den`, and the value at which
/// the run is complete.
pub struct ProgressView {
    pub current_num: nat,
    pub current_den: nat,
    pub start_offset: nat,
    pub max: nat,
}

impl ProgressView {
    /// Both divisors are positive.
    pub open spec fn wf(self) -> bool {
        self.current_den > 0 && self.max > 0
    }

    /// The value reached within the current stage.
    pub open spec fn current(self) -> Fraction {
        Fraction { num: self.current_num, den: self.current_den }
    }

    /// `(start_offset + current) / max * 100`.
    pub open spec fn percentage(self) -> Fraction {
        Fraction {
            num: 100 * (self.start_offset * self.current_den + self.current_num),
            den: self.current_den * self.max,
        }
    }

    /// The state after a step of `num / den`. Where the denominator of the
    /// step divides that of the state, the state keeps its denominator;
    /// otherwise both are brought to the product of the two. A step over zero,
    /// or one whose result does not fit 64 bits, changes nothing.
    pub open spec fn advance(self, num: nat, den: nat) -> ProgressView {
        if den == 0 {
            self
        } else if self.current_den % den == 0 {
            if self.current_num + num * (self.current_den / den) <= u64::MAX {
                ProgressView {
                    current_num: self.current_num + num * (self.current_den / den),
                    ..self
                }
            } else {
                self
            }
        } else if self.current_num * den + num * self.current_den <= u64::MAX && self.current_den
            * den <= u64::MAX {
            ProgressView {
                current_num: self.current_num * den + num * self.current_den,
                current_den: self.current_den * den,
                ..self
            }
        } else {
            self
        }
    }

    /// The state after the steps of `steps`, in order.
    pub open spec fn advance_all(self, steps: Seq<(nat, nat)>) -> ProgressView
        decreases steps.len(),
    {
        if steps.len() == 0 {
            self
        } else {
            self.advance_all(steps.drop_last()).advance(steps.last().0, steps.last().1)
        }
    }
}

/// A percentage as an exact fraction; `denominator` is positive.
#[derive(Clone, Copy, Debug, PartialEq, Eq, Structural)]
pub struct Percentage {
    pub numerator: u128,
    pub denominator: u128,
}

impl View for Percentage {
    type V = Fraction;

    open spec fn view(&self) -> Fraction {
        Fraction { num: self.numerator as nat, den: self.denominator as nat }
    }
}

/// The shared counter of one run.
pub struct ProgressState {
    current_num: u64,
    current_den: u64,
    start_offset: u32,
    max: u32,
}

impl View for ProgressState {
    type V = ProgressView;

    closed spec fn view(&self) -> ProgressView {
        ProgressView {
            current_num: self.current_num as nat,
            current_den: self.current_den as nat,
            start_offset: self.start_offset as nat,
            max: self.max as nat,
        }
    }
}

impl ProgressState {
    /// Both divisors of the state are positive.
    pub open spec fn wf(&self) -> bool {
        self@.wf()
    }

    /// A tracker at the start of a stage: `start_offset` is done, out of
    /// `max`. There is none for a `max` of zero.
    pub fn new(start_offset: u32, max: u32) -> (p: Option<ProgressState>)
        ensures
            p is Some <==> max > 0,
            p matches Some(s) ==> s.wf() && s@ == (ProgressView {
                current_num: 0,
                current_den: 1,
                start_offset: start_offset as nat,
                max: max as nat,
            }),
    {
        if max == 0 {
            None
        } else {
            Some(ProgressState { current_num: 0, current_den: 1, start_offset, max })
        }
    }

    /// Adds a step of `num / den` to the current value. Tells whether the
    /// state changed. The percentage never goes back.
    pub fn advance(&mut self, num: u64, den: u64) -> (changed: bool)
        requires
            old(self).wf(),
        ensures
            final(self).wf(),
            final(self)@ == old(self)@.advance(num as nat, den as nat),
            changed == (final(self)@ != old(self)@),
            fraction_le(old(self)@.percentage(), final(self)@.percentage()),
    {
        proof {
            lemma_advance_never_decreases(self@, num as nat, den as nat);
        }
        if den == 0 {
            return false;
        }
        if self.current_den % den == 0 {
            let factor = self.current_den / den;
            let added = match num.checked_mul(factor) {
                Some(added) => added,
                None => {
                    return false;
                },
            };
            match self.current_num.checked_add(added) {
                Some(sum) => {
                    self.current_num = sum;
                    added > 0
                },
                None => false,
            }
        } else {
            let scaled = self.current_num.checked_mul(den);
            let added = num.checked_mul(self.current_den);
            let new_den = self.current_den.checked_mul(den);
            match (scaled, added, new_den) {
                (Some(scaled), Some(added), Some(new_den)) => match scaled.checked_add(added) {
                    Some(sum) => {
                        assert(den > 1);
                        assert(new_den > self.current_den) by (nonlinear_arith)
                            requires
                                new_den == self.current_den * den,
                                self.current_den > 0,
                                den > 1,
                        ;
                        self.current_num = sum;
                        self.current_den = new_den;
                        true
                    },
                    None => false,
                },
                _ => false,
            }
        }
    }

    /// The percentage of the run that is done.
    pub fn read_percentage(&self) -> (p: Percentage)
        requires
            self.wf(),
        ensures
            p@ == self@.percentage(),
            p@.den > 0,
    {
        assert(self.start_offset * self.current_den <= 0xffff_ffff * 0xffff_ffff_ffff_ffff)
            by (nonlinear_arith)
            requires
                self.start_offset <= 0xffff_ffff,
                self.current_den <= 0xffff_ffff_ffff_ffff,
        ;
        assert(self.current_den * self.max <= 0xffff_ffff_ffff_ffff * 0xffff_ffff)
            by (nonlinear_arith)
            requires
                self.max <= 0xffff_ffff,
                self.current_den <= 0xffff_ffff_ffff_ffff,
        ;
        assert(self.current_den * self.max > 0) by (nonlinear_arith)
            requires
                self.max > 0,
                self.current_den > 0,
        ;
        let whole: u128 = (self.start_offset as u128) * (self.current_den as u128);
        let done: u128 = whole + (self.current_num as u128);
        Percentage {
            numerator: 100u128 * done,
            denominator: (self.current_den as u128) * (self.max as u128),
        }
    }
}

/// Counts one whole unit of work as done and hands out the new percentage,
/// which is no less than the one before.
pub fn increase_progress(progress: &mut ProgressState) -> (p: Percentage)
    requires
        old(progress).wf(),
    ensures
        final(progress).wf(),
        final(progress)@ == old(progress)@.advance(1, 1),
        p@ == final(progress)@.percentage(),
        p@.den > 0,
        fraction_le(old(progress)@.percentage(), p@),
{
    progress.advance(1, 1);
    progress.read_percentage()
}

/// A step keeps the state well-formed, leaves the stage's start and the
/// run's maximum alone, and either changes nothing or adds exactly the step
/// to the current value.
pub proof fn lemma_advance_adds_step(v: ProgressView, num: nat, den: nat)
    requires
        v.wf(),
    ensures
        v.advance(num, den).wf(),
        v.advance(num, den).start_offset == v.start_offset,
        v.advance(num, den).max == v.max,
        v.advance(num, den) == v || fraction_eq(
            v.advance(num, den).current(),
            fraction_sum(v.current(), Fraction { num, den }),
        ),
{
    let w = v.advance(num, den);
    let n = v.current_num as int;
    let d = v.current_den as int;
    let a = num as int;
    let b = den as int;
    if den == 0 {
    } else if v.current_den % den == 0 {
        let k = d / b;
        assert(k * b == d) by (nonlinear_arith)
            requires
                b > 0,
                d % b == 0,
                k == d / b,
        ;
        assert((n + a * k) * (d * b) == (n * b + a * d) * d) by (nonlinear_arith)
            requires
                k * b == d,
        ;
    } else {
        assert(d * b > 0) by (nonlinear_arith)
            requires
                d > 0,
                b > 0,
        ;
    }
}

/// A step never lowers the percentage.
pub proof fn lemma_advance_never_decreases(v: ProgressView, num: nat, den: nat)
    requires
        v.wf(),
    ensures
        v.advance(num, den).wf(),
        fraction_le(v.percentage(), v.advance(num, den).percentage()),
{
    lemma_advance_adds_step(v, num, den);
    let w = v.advance(num, den);
    let n = v.current_num as int;
    let d = v.current_den as int;
    let s = v.start_offset as int;
    let m = v.max as int;
    let a = num as int;
    let b = den as int;
    if w == v {
    } else if v.current_den % den == 0 {
        let k = d / b;
        assert(k >= 0) by (nonlinear_arith)
            requires
                b > 0,
                d > 0,
                k == d / b,
        ;
        assert((100 * (s * d + n)) * (d * m) <= (100 * (s * d + (n + a * k))) * (d * m))
            by (nonlinear_arith)
            requires
                a >= 0,
                k >= 0,
                d > 0,
                m > 0,
                s >= 0,
                n >= 0,
        ;
    } else {
        assert((100 * (s * d + n)) * ((d * b) * m) <= (100 * (s * (d * b) + (n * b + a * d))) * (d
            * m)) by (nonlinear_arith)
            requires
                a >= 0,
                b > 0,
                d > 0,
                m > 0,
                s >= 0,
                n >= 0,
        ;
    }
}

/// `<=` on fractions with positive denominators is transitive.
pub proof fn lemma_fraction_le_transitive(a: Fraction, b: Fraction, c: Fraction)
    requires
        a.den > 0,
        b.den > 0,
        c.den > 0,
        fraction_le(a, b),
        fraction_le(b, c),
    ensures
        fraction_le(a, c),
{
    let (an, ad) = (a.num as int, a.den as int);
    let (bn, bd) = (b.num as int, b.den as int);
    let (cn, cd) = (c.num as int, c.den as int);
    assert(an * bd * cd <= bn * ad * cd) by (nonlinear_arith)
        requires
            an * bd <= bn * ad,
            cd > 0,
    ;
    assert(bn * cd * ad <= cn * bd * ad) by (nonlinear_arith)
        requires
            bn * cd <= cn * bd,
            ad > 0,
    ;
    assert(an * cd <= cn * ad) by (nonlinear_arith)
        requires
            an * bd * cd <= bn * ad * cd,
            bn * cd * ad <= cn * bd * ad,
            bd > 0,
    ;
}

/// Any number of steps keeps the state well-formed.
pub proof fn lemma_advance_all_wf(v: ProgressView, steps: Seq<(nat, nat)>)
    requires
        v.wf(),
    ensures
        v.advance_all(steps).wf(),
    decreases steps.len(),
{
    if steps.len() > 0 {
        lemma_advance_all_wf(v, steps.drop_last());
        lemma_advance_adds_step(v.advance_all(steps.drop_last()), steps.last().0, steps.last().1);
    }
}

/// Progress never goes back: over any sequence of steps, the percentage
/// after the first `i` of them is at most the percentage after the first `j`,
/// for `i <= j`.
pub proof fn lemma_progress_monotone(v: ProgressView, steps: Seq<(nat, nat)>, i: int, j: int)
    requires
        v.wf(),
        0 <= i <= j <= steps.len(),
    ensures
        fraction_le(
            v.advance_all(steps.take(i)).percentage(),
            v.advance_all(steps.take(j)).percentage(),
        ),
    decreases j - i,
{
    if i < j {
        lemma_progress_monotone(v, steps, i, j - 1);
        let early = v.advance_all(steps.take(i));
        let before = v.advance_all(steps.take(j - 1));
        let after = v.advance_all(steps.take(j));
        assert(steps.take(j).drop_last() =~= steps.take(j - 1));
        assert(after == before.advance(steps[j - 1].0, steps[j - 1].1));
        lemma_advance_all_wf(v, steps.take(i));
        lemma_advance_all_wf(v, steps.take(j - 1));
        lemma_advance_never_decreases(before, steps[j - 1].0, steps[j - 1].1);
        lemma_percentage_den_positive(early);
        lemma_percentage_den_positive(before);
        lemma_percentage_den_positive(after);
        lemma_fraction_le_transitive(early.percentage(), before.percentage(), after.percentage());
    }
}

/// The percentage of a well-formed state has a positive denominator.
pub proof fn lemma_percentage_den_positive(v: ProgressView)
    requires
        v.wf(),
    ensures
        v.percentage().den > 0,
{
    assert(v.current_den * v.max > 0) by (nonlinear_arith)
        requires
            v.current_den > 0,
            v.max > 0,
    ;
}

} // verus!
