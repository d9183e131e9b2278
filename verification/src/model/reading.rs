//! Measured quantities, kept as exact fractions.
//!
//! A round trip is a whole number of nanoseconds, a mean is a sum over a
//! count, and a loss share is so many lost out of so many sent. Nothing is
//! rounded before it is shown.

use crate::number;
use crate::wide::Balance;
use vstd::prelude::*;

verus! {

/// A time in milliseconds: a number of nanoseconds shared over a count. A tool
/// whose clock was set back reports a negative one.
#[derive(Debug, Clone, Copy)]
pub struct Millis {
    minus: bool,
    nanos: u128,
    over: u64,
}

impl Millis {
    #[verifier::type_invariant]
    spec fn inv(self) -> bool {
        self.over > 0 && (self.minus ==> self.nanos > 0)
    }

    /// The nanoseconds that are shared.
    pub closed spec fn total(self) -> int {
        if self.minus {
            -self.nanos
        } else {
            self.nanos as int
        }
    }

    /// The count over which they are shared.
    pub closed spec fn count(self) -> nat {
        self.over as nat
    }

    /// `total` nanoseconds shared over `count`.
    pub closed spec fn of(total: int, count: nat) -> Millis {
        Millis { minus: total < 0, nanos: number::size(total) as u128, over: count as u64 }
    }

    /// What a time is made of.
    pub proof fn lemma_of(total: int, count: nat)
        requires
            -u128::MAX <= total <= u128::MAX,
            count <= u64::MAX,
        ensures
            Millis::of(total, count).total() == total,
            Millis::of(total, count).count() == count,
    {
    }

    /// The denominator of the value in milliseconds.
    pub open spec fn unit(self) -> nat {
        self.count() * 1_000_000
    }

    /// The value is at least `ms` milliseconds.
    pub open spec fn reaches(self, ms: nat) -> bool {
        self.total() >= ms * self.unit()
    }

    /// The value is more than `ms` milliseconds.
    pub open spec fn exceeds(self, ms: nat) -> bool {
        self.total() > ms * self.unit()
    }

    /// `nanos` nanoseconds.
    pub fn from_nanos(nanos: i64) -> (r: Millis)
        ensures
            r == Millis::of(nanos as int, 1),
            r.total() == nanos,
            r.count() == 1,
    {
        Millis::signed_mean(nanos as i128, 1)
    }

    /// The mean of `count` times that add up to `total` nanoseconds.
    pub fn mean(total: u128, count: u64) -> (r: Millis)
        requires
            count > 0,
        ensures
            r == Millis::of(total as int, count as nat),
            r.total() == total,
            r.count() == count,
    {
        Millis { minus: false, nanos: total, over: count }
    }

    /// The mean of `count` times, some of which may be negative.
    pub fn signed_mean(total: i128, count: u64) -> (r: Millis)
        requires
            count > 0,
            total > i128::MIN,
        ensures
            r == Millis::of(total as int, count as nat),
            r.total() == total,
            r.count() == count,
    {
        if total < 0 {
            Millis { minus: true, nanos: (-total) as u128, over: count }
        } else {
            Millis { minus: false, nanos: total as u128, over: count }
        }
    }

    /// How many nanoseconds are shared, whatever their sign.
    pub fn nanos(&self) -> (r: u128)
        ensures
            r == number::size(self.total()),
    {
        self.nanos
    }

    /// Whether the value is negative.
    pub fn is_negative(&self) -> (r: bool)
        ensures
            r == (self.total() < 0),
    {
        proof {
            use_type_invariant(self);
        }
        self.minus
    }

    /// The count over which they are shared.
    pub fn over(&self) -> (r: u64)
        ensures
            r == self.count(),
            r > 0,
    {
        proof {
            use_type_invariant(self);
        }
        self.over
    }

    fn denominator(&self) -> (r: u128)
        ensures
            r == self.unit(),
            0 < r <= 0xf_ffff_ffff_ffff_ffff_ffff,
            r >= 1_000_000,
    {
        proof {
            use_type_invariant(self);
        }
        self.over as u128 * 1_000_000
    }

    /// Whether the value is at least `ms` milliseconds.
    pub fn at_least(&self, ms: u32) -> (r: bool)
        ensures
            r == self.reaches(ms as nat),
    {
        let d = self.denominator();
        assert(0 <= ms * d <= 0xffff_ffff * 0xf_ffff_ffff_ffff_ffff_ffff) by (nonlinear_arith)
            requires
                ms <= 0xffff_ffff,
                d <= 0xf_ffff_ffff_ffff_ffff_ffff,
        ;
        !self.is_negative() && self.nanos >= ms as u128 * d
    }

    /// Whether the value is more than `ms` milliseconds.
    pub fn more_than(&self, ms: u32) -> (r: bool)
        ensures
            r == self.exceeds(ms as nat),
    {
        let d = self.denominator();
        assert(0 <= ms * d <= 0xffff_ffff * 0xf_ffff_ffff_ffff_ffff_ffff) by (nonlinear_arith)
            requires
                ms <= 0xffff_ffff,
                d <= 0xf_ffff_ffff_ffff_ffff_ffff,
        ;
        !self.is_negative() && self.nanos > ms as u128 * d
    }

    /// The value to no decimal places.
    pub open spec fn whole(self) -> Seq<char> {
        number::whole(self.total(), self.unit())
    }

    /// The value to one decimal place.
    pub open spec fn tenths(self) -> Seq<char> {
        number::tenths(self.total(), self.unit())
    }

    /// The value to seventeen significant digits, as many as tell one 64-bit
    /// number from the next.
    pub open spec fn numeral(self) -> Seq<char> {
        number::sign(self.total()) + number::scientific(number::size(self.total()), self.unit())
    }

    /// Writes the value to seventeen significant digits.
    pub fn numeral_text(&self) -> (r: String)
        ensures
            r@ == self.numeral(),
    {
        let mut s = number::sign_of(self.is_negative());
        s.append(number::scientific_of(self.nanos, self.denominator()).as_str());
        s
    }

    /// The value is less than another.
    pub open spec fn below(self, other: Millis) -> bool {
        self.total() * other.count() < other.total() * self.count()
    }

    /// Whether the value is less than another.
    pub fn less_than(&self, other: &Millis) -> (r: bool)
        ensures
            r == self.below(*other),
    {
        let a = Balance::of(self.minus, self.nanos).times(other.over);
        let b = Balance::of(other.minus, other.nanos).times(self.over);
        !a.at_least(&b)
    }

    /// Writes the value to no decimal places.
    pub fn whole_text(&self) -> (r: String)
        ensures
            r@ == self.whole(),
    {
        let mut s = number::sign_of(self.is_negative());
        let rounded: u128 = number::round_ratio(self.nanos, self.denominator());
        s.append(number::decimal_of(rounded).as_str());
        s
    }

    /// Writes the value to one decimal place.
    pub fn tenths_text(&self) -> (r: String)
        ensures
            r@ == self.tenths(),
    {
        let d = self.denominator();
        let q: u128 = self.nanos / d;
        let m: u128 = self.nanos % d;
        proof {
            number::lemma_round_tenfold(self.nanos as nat, d as nat);
            assert(q <= self.nanos / 1_000_000) by (nonlinear_arith)
                requires
                    q == self.nanos / d,
                    d >= 1_000_000,
                    self.nanos >= 0,
            ;
        }
        let t: u128 = 10 * q + number::round_ratio(10 * m, d);
        let mut s = number::sign_of(self.is_negative());
        s.append(number::decimal_of(t / 10).as_str());
        s.push('.');
        s.append(number::decimal_of(t % 10).as_str());
        assert(s@ =~= self.tenths());
        s
    }
}

/// A share of samples that never came back.
#[derive(Debug, Clone, Copy)]
pub struct Loss {
    lost: u32,
    sent: u32,
}

impl Loss {
    #[verifier::type_invariant]
    spec fn inv(self) -> bool {
        self.sent > 0
    }

    /// How many were lost.
    pub closed spec fn missing(self) -> nat {
        self.lost as nat
    }

    /// Out of how many.
    pub closed spec fn out_of(self) -> nat {
        self.sent as nat
    }

    /// `lost` out of `sent`.
    pub closed spec fn of(lost: nat, sent: nat) -> Loss {
        Loss { lost: lost as u32, sent: sent as u32 }
    }

    /// What a share is made of.
    pub proof fn lemma_of(lost: nat, sent: nat)
        requires
            lost <= u32::MAX,
            sent <= u32::MAX,
        ensures
            Loss::of(lost, sent).missing() == lost,
            Loss::of(lost, sent).out_of() == sent,
    {
    }

    /// `lost` out of `sent`.
    pub fn new(lost: u32, sent: u32) -> (r: Loss)
        requires
            sent > 0,
        ensures
            r == Loss::of(lost as nat, sent as nat),
            r.missing() == lost,
            r.out_of() == sent,
    {
        Loss { lost, sent }
    }

    /// The share is at least `pct` percent.
    pub open spec fn reaches(self, pct: nat) -> bool {
        100 * self.missing() >= pct * self.out_of()
    }

    /// Whether the share is at least `pct` percent.
    pub fn at_least(&self, pct: u32) -> (r: bool)
        ensures
            r == self.reaches(pct as nat),
    {
        assert(pct * self.sent <= 0xffff_ffff * 0xffff_ffff) by (nonlinear_arith)
            requires
                pct <= 0xffff_ffff,
                self.sent <= 0xffff_ffff,
        ;
        100 * self.lost as u64 >= pct as u64 * self.sent as u64
    }

    /// The share in percent, to no decimal places.
    pub open spec fn percent(self) -> Seq<char> {
        number::whole(100 * self.missing() as int, self.out_of())
    }

    /// Writes the share in percent, to no decimal places.
    pub fn percent_text(&self) -> (r: String)
        ensures
            r@ == self.percent(),
    {
        proof {
            use_type_invariant(self);
        }
        let r = number::decimal_of(
            number::round_ratio(100 * self.lost as u128, self.sent as u128),
        );
        assert(r@ =~= self.percent());
        r
    }

    /// How many were lost.
    pub fn lost(&self) -> (r: u32)
        ensures
            r == self.missing(),
    {
        self.lost
    }

    /// Out of how many.
    pub fn sent(&self) -> (r: u32)
        ensures
            r == self.out_of(),
            r > 0,
    {
        proof {
            use_type_invariant(self);
        }
        self.sent
    }
}

/// A shorter time is less than a longer one, whatever counts they are shared
/// over: never the other way about, and never less than itself.
pub proof fn times_are_ordered(a: Millis, b: Millis, c: Millis)
    requires
        a.count() > 0,
        b.count() > 0,
        c.count() > 0,
    ensures
        !a.below(a),
        a.below(b) ==> !b.below(a),
        a.below(b) && b.below(c) ==> a.below(c),
        a.count() == b.count() ==> (a.below(b) <==> a.total() < b.total()),
{
    let (x, m) = (a.total(), a.count() as int);
    let (y, n) = (b.total(), b.count() as int);
    let (z, k) = (c.total(), c.count() as int);
    if a.below(b) && b.below(c) {
        assert(x * k < z * m) by (nonlinear_arith)
            requires
                x * n < y * m,
                y * k < z * n,
                m > 0,
                n > 0,
                k > 0,
        {
            assert((x * n) * k < (y * m) * k);
            assert((y * k) * m < (z * n) * m);
            assert((x * n) * k == (x * k) * n);
            assert((y * m) * k == (y * k) * m);
            assert((z * n) * m == (z * m) * n);
            assert((x * k) * n < (z * m) * n);
        }
    }
    if m == n {
        assert(x * m < y * m <==> x < y) by (nonlinear_arith)
            requires
                m > 0,
        ;
    }
}

/// A time is more than a limit only where it reaches it, and a longer one does
/// both wherever a shorter one does.
pub proof fn limits_are_met_upwards(total: int, longer: int, count: nat, ms: nat)
    requires
        -u128::MAX <= total <= longer <= u128::MAX,
        0 < count <= u64::MAX,
    ensures
        Millis::of(total, count).exceeds(ms) ==> Millis::of(total, count).reaches(ms),
        Millis::of(total, count).exceeds(ms) ==> Millis::of(longer, count).exceeds(ms),
        Millis::of(total, count).reaches(ms) ==> Millis::of(longer, count).reaches(ms),
        Millis::of((ms * 1_000_000) as int, 1).reaches(ms) || ms * 1_000_000 > u128::MAX,
        !Millis::of((ms * 1_000_000) as int, 1).exceeds(ms) || ms * 1_000_000 > u128::MAX,
{
    Millis::lemma_of(total, count);
    Millis::lemma_of(longer, count);
    if ms * 1_000_000 <= u128::MAX {
        Millis::lemma_of((ms * 1_000_000) as int, 1);
    }
}

} // verus!
