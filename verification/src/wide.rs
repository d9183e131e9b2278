//! Numbers wider than any machine word, for comparing fractions exactly.

use vstd::prelude::*;

verus! {

/// What a limb counts up to.
pub open spec fn limb_size() -> nat {
    0x1_0000_0000_0000_0000
}

/// The weight of limb `i`.
pub open spec fn weight(i: nat) -> nat
    decreases i,
{
    if i == 0 {
        1
    } else {
        limb_size() * weight((i - 1) as nat)
    }
}

/// Limb `i`; past the last they are all zero.
pub open spec fn limb(s: Seq<u64>, i: int) -> nat {
    if 0 <= i < s.len() {
        s[i] as nat
    } else {
        0
    }
}

/// What the first `n` limbs come to, the lowest first.
pub open spec fn sum(s: Seq<u64>, n: nat) -> nat
    decreases n,
{
    if n == 0 {
        0
    } else {
        sum(s, (n - 1) as nat) + limb(s, n - 1) * weight((n - 1) as nat)
    }
}

/// A natural number of any size.
pub struct Wide {
    limbs: Vec<u64>,
}

impl View for Wide {
    type V = nat;

    closed spec fn view(&self) -> nat {
        sum(self.limbs@, self.limbs@.len())
    }
}

/// Limbs past the last add nothing.
proof fn lemma_sum_past(s: Seq<u64>, n: nat)
    requires
        n >= s.len(),
    ensures
        sum(s, n) == sum(s, s.len()),
    decreases n,
{
    if n > s.len() {
        lemma_sum_past(s, (n - 1) as nat);
        assert(0 * weight((n - 1) as nat) == 0) by (nonlinear_arith);
    }
}

/// A further limb leaves those below it as they are.
proof fn lemma_sum_push(s: Seq<u64>, x: u64, n: nat)
    requires
        n <= s.len(),
    ensures
        sum(s.push(x), n) == sum(s, n),
    decreases n,
{
    if n > 0 {
        lemma_sum_push(s, x, (n - 1) as nat);
    }
}

/// What a further limb adds.
proof fn lemma_push(s: Seq<u64>, x: u64)
    ensures
        sum(s.push(x), s.len() + 1) == sum(s, s.len()) + x * weight(s.len()),
{
    lemma_sum_push(s, x, s.len());
}

/// Lower limbs never come to the weight of the next.
proof fn lemma_sum_below(s: Seq<u64>, n: nat)
    ensures
        sum(s, n) < weight(n),
    decreases n,
{
    if n > 0 {
        let m = (n - 1) as nat;
        lemma_sum_below(s, m);
        let w = weight(m);
        let x = limb(s, m as int);
        assert(x * w + w <= limb_size() * w) by (nonlinear_arith)
            requires
                x < limb_size(),
        ;
    }
}

/// One step of a multiplication.
proof fn lemma_times_step(a: nat, x: nat, m: nat, w: nat, out: nat, carry: nat, low: nat, high: nat)
    requires
        out + carry * w == a * m,
        x * m + carry == low + high * limb_size(),
    ensures
        (out + low * w) + high * (limb_size() * w) == (a + x * w) * m,
{
    assert((out + low * w) + high * (limb_size() * w) == (a + x * w) * m) by (nonlinear_arith)
        requires
            out + carry * w == a * m,
            x * m + carry == low + high * limb_size(),
    ;
}

/// One step of an addition.
proof fn lemma_plus_step(
    a: nat,
    b: nat,
    x: nat,
    y: nat,
    w: nat,
    out: nat,
    carry: nat,
    low: nat,
    high: nat,
)
    requires
        out + carry * w == a + b,
        x + y + carry == low + high * limb_size(),
    ensures
        (out + low * w) + high * (limb_size() * w) == (a + x * w) + (b + y * w),
{
    assert((out + low * w) + high * (limb_size() * w) == (a + x * w) + (b + y * w))
        by (nonlinear_arith)
        requires
            out + carry * w == a + b,
            x + y + carry == low + high * limb_size(),
    ;
}

/// A higher limb decides a comparison.
proof fn lemma_compare_step(a: nat, b: nat, x: nat, y: nat, w: nat)
    requires
        a < w,
        b < w,
    ensures
        x > y ==> a + x * w > b + y * w,
        x < y ==> a + x * w < b + y * w,
{
    if x > y {
        assert(x * w >= y * w + w) by (nonlinear_arith)
            requires
                x >= y + 1,
        ;
    }
    if x < y {
        assert(y * w >= x * w + w) by (nonlinear_arith)
            requires
                y >= x + 1,
        ;
    }
}

fn limb_at(v: &Vec<u64>, i: usize) -> (r: u64)
    ensures
        r == limb(v@, i as int),
{
    if i < v.len() {
        v[i]
    } else {
        0
    }
}

impl Wide {
    /// A number of one machine word.
    pub fn of(n: u128) -> (r: Wide)
        ensures
            r@ == n,
    {
        let low: u64 = (n % 0x1_0000_0000_0000_0000) as u64;
        let high: u64 = (n / 0x1_0000_0000_0000_0000) as u64;
        let mut limbs: Vec<u64> = Vec::new();
        limbs.push(low);
        limbs.push(high);
        proof {
            let none = Seq::<u64>::empty();
            lemma_push(none, low);
            lemma_push(none.push(low), high);
            assert(limbs@ =~= none.push(low).push(high));
            assert(weight(0) == 1);
            assert(weight(1) == limb_size() * weight(0));
            assert(sum(none, 0) == 0);
            assert(low * weight(0) == low) by (nonlinear_arith)
                requires
                    weight(0) == 1,
            ;
            assert(high * weight(1) == high * 0x1_0000_0000_0000_0000) by (nonlinear_arith)
                requires
                    weight(1) == 0x1_0000_0000_0000_0000,
            ;
        }
        Wide { limbs }
    }

    /// The product with a machine word.
    pub fn times(&self, m: u64) -> (r: Wide)
        ensures
            r@ == self@ * m,
    {
        let mut out: Vec<u64> = Vec::new();
        let mut carry: u64 = 0;
        let mut i: usize = 0;
        let ghost s = self.limbs@;
        proof {
            assert(0 * weight(0) == 0);
            assert(0 * (m as nat) == 0) by (nonlinear_arith);
        }
        while i < self.limbs.len()
            invariant
                i <= s.len(),
                s == self.limbs@,
                out@.len() == i,
                sum(out@, i as nat) + carry as nat * weight(i as nat) == sum(s, i as nat)
                    * m as nat,
            decreases s.len() - i,
        {
            let x: u64 = self.limbs[i];
            assert(x * m + carry <= 0xffff_ffff_ffff_ffff * 0xffff_ffff_ffff_ffff
                + 0xffff_ffff_ffff_ffff) by (nonlinear_arith)
                requires
                    x <= 0xffff_ffff_ffff_ffff,
                    m <= 0xffff_ffff_ffff_ffff,
                    carry <= 0xffff_ffff_ffff_ffff,
            ;
            let w: u128 = x as u128 * m as u128 + carry as u128;
            let low: u64 = (w % 0x1_0000_0000_0000_0000) as u64;
            let high: u64 = (w / 0x1_0000_0000_0000_0000) as u64;
            proof {
                lemma_push(out@, low);
                lemma_times_step(
                    sum(s, i as nat),
                    x as nat,
                    m as nat,
                    weight(i as nat),
                    sum(out@, i as nat),
                    carry as nat,
                    low as nat,
                    high as nat,
                );
            }
            out.push(low);
            carry = high;
            i += 1;
        }
        proof {
            lemma_push(out@, carry);
        }
        out.push(carry);
        Wide { limbs: out }
    }

    /// The sum with another.
    pub fn plus(&self, other: &Wide) -> (r: Wide)
        ensures
            r@ == self@ + other@,
    {
        let n: usize = if self.limbs.len() > other.limbs.len() {
            self.limbs.len()
        } else {
            other.limbs.len()
        };
        let mut out: Vec<u64> = Vec::new();
        let mut carry: u64 = 0;
        let mut i: usize = 0;
        let ghost a = self.limbs@;
        let ghost b = other.limbs@;
        proof {
            assert(0 * weight(0) == 0);
        }
        while i < n
            invariant
                i <= n,
                a == self.limbs@,
                b == other.limbs@,
                carry <= 1,
                out@.len() == i,
                sum(out@, i as nat) + carry as nat * weight(i as nat) == sum(a, i as nat) + sum(
                    b,
                    i as nat,
                ),
            decreases n - i,
        {
            let x: u64 = limb_at(&self.limbs, i);
            let y: u64 = limb_at(&other.limbs, i);
            let w: u128 = x as u128 + y as u128 + carry as u128;
            let low: u64 = (w % 0x1_0000_0000_0000_0000) as u64;
            let high: u64 = (w / 0x1_0000_0000_0000_0000) as u64;
            proof {
                lemma_push(out@, low);
                lemma_plus_step(
                    sum(a, i as nat),
                    sum(b, i as nat),
                    x as nat,
                    y as nat,
                    weight(i as nat),
                    sum(out@, i as nat),
                    carry as nat,
                    low as nat,
                    high as nat,
                );
            }
            out.push(low);
            carry = high;
            i += 1;
        }
        proof {
            lemma_push(out@, carry);
            lemma_sum_past(a, n as nat);
            lemma_sum_past(b, n as nat);
        }
        out.push(carry);
        Wide { limbs: out }
    }

    /// Whether this is no less than another.
    pub fn at_least(&self, other: &Wide) -> (r: bool)
        ensures
            r == (self@ >= other@),
    {
        let n: usize = if self.limbs.len() > other.limbs.len() {
            self.limbs.len()
        } else {
            other.limbs.len()
        };
        let ghost a = self.limbs@;
        let ghost b = other.limbs@;
        let mut r = true;
        let mut i: usize = 0;
        while i < n
            invariant
                i <= n,
                a == self.limbs@,
                b == other.limbs@,
                r == (sum(a, i as nat) >= sum(b, i as nat)),
            decreases n - i,
        {
            let x: u64 = limb_at(&self.limbs, i);
            let y: u64 = limb_at(&other.limbs, i);
            proof {
                lemma_sum_below(a, i as nat);
                lemma_sum_below(b, i as nat);
                lemma_compare_step(
                    sum(a, i as nat),
                    sum(b, i as nat),
                    x as nat,
                    y as nat,
                    weight(i as nat),
                );
            }
            if x > y {
                r = true;
            } else if x < y {
                r = false;
            }
            i += 1;
        }
        proof {
            lemma_sum_past(a, n as nat);
            lemma_sum_past(b, n as nat);
        }
        r
    }
}

/// An integer of any size: what is counted up, less what is counted down.
pub struct Balance {
    up: Wide,
    down: Wide,
}

impl View for Balance {
    type V = int;

    closed spec fn view(&self) -> int {
        self.up@ - self.down@
    }
}

impl Balance {
    /// A number of one machine word, or its negative.
    pub fn of(minus: bool, n: u128) -> (r: Balance)
        ensures
            r@ == (if minus {
                -n
            } else {
                n as int
            }),
    {
        if minus {
            Balance { up: Wide::of(0), down: Wide::of(n) }
        } else {
            Balance { up: Wide::of(n), down: Wide::of(0) }
        }
    }

    /// The product with a machine word.
    pub fn times(&self, m: u64) -> (r: Balance)
        ensures
            r@ == self@ * m,
    {
        let r = Balance { up: self.up.times(m), down: self.down.times(m) };
        assert(self.up@ * m - self.down@ * m == (self.up@ - self.down@) * m) by (nonlinear_arith);
        r
    }

    /// The sum with another.
    pub fn plus(&self, other: &Balance) -> (r: Balance)
        ensures
            r@ == self@ + other@,
    {
        Balance { up: self.up.plus(&other.up), down: self.down.plus(&other.down) }
    }

    /// Whether this is no less than another.
    pub fn at_least(&self, other: &Balance) -> (r: bool)
        ensures
            r == (self@ >= other@),
    {
        self.up.plus(&other.down).at_least(&other.up.plus(&self.down))
    }
}

} // verus!
