//! Numbers as text: numerals in and out, and fractions rounded for display.

use crate::text;
use vstd::prelude::*;
use vstd::slice::slice_subrange;

verus! {

broadcast use vstd::string::group_string_axioms;

// ---- writing ----

/// The digit for a value below sixteen.
pub open spec fn digit(d: nat) -> char {
    if d < 10 {
        (48 + d) as char
    } else {
        (87 + d) as char
    }
}

/// The numeral of `n` in base `radix`, without leading zeros, in lower case.
pub open spec fn numeral(n: nat, radix: nat) -> Seq<char>
    decreases n,
{
    if radix < 2 || n < radix {
        seq![digit(n)]
    } else {
        proof {
            assert(n / radix < n) by (nonlinear_arith)
                requires
                    n >= radix,
                    radix >= 2,
            ;
        }
        numeral(n / radix, radix).push(digit(n % radix))
    }
}

/// The decimal numeral of `n`.
pub open spec fn decimal(n: nat) -> Seq<char> {
    numeral(n, 10)
}

/// The decimal numeral of an integer that may be negative.
pub open spec fn signed_decimal(n: int) -> Seq<char> {
    if n < 0 {
        seq!['-'] + decimal((-n) as nat)
    } else {
        decimal(n as nat)
    }
}

/// The digit for a value below sixteen.
pub fn digit_char(d: u8) -> (c: char)
    requires
        d < 16,
    ensures
        c == digit(d as nat),
{
    if d < 10 {
        (48 + d) as char
    } else {
        (87 + d) as char
    }
}

/// Appends the numeral of `n` in base `radix`.
pub fn push_numeral(out: &mut String, n: u128, radix: u8)
    requires
        2 <= radix <= 16,
    ensures
        final(out)@ == old(out)@ + numeral(n as nat, radix as nat),
    decreases n,
{
    let r: u128 = radix as u128;
    if n < r {
        out.push(digit_char(n as u8));
        assert(out@ == old(out)@ + seq![digit(n as nat)]);
    } else {
        assert(n / r < n) by (nonlinear_arith)
            requires
                n >= r,
                r >= 2,
        ;
        push_numeral(out, n / r, radix);
        let ghost mid = out@;
        let low: u128 = n % r;
        out.push(digit_char(low as u8));
        assert(out@ == old(out)@ + numeral(n as nat, radix as nat)) by {
            assert(mid.push(digit(low as nat)) == old(out)@ + numeral((n / r) as nat, radix as nat).push(
                digit(low as nat),
            ));
        }
    }
}

/// The decimal numeral of `n`.
pub fn decimal_of(n: u128) -> (r: String)
    ensures
        r@ == decimal(n as nat),
{
    let mut s: String = String::new();
    push_numeral(&mut s, n, 10);
    assert(s@ == decimal(n as nat));
    s
}

/// The decimal numeral of a signed number.
pub fn signed_of(n: i64) -> (r: String)
    ensures
        r@ == signed_decimal(n as int),
{
    if n < 0 {
        let mut s: String = String::new();
        s.push('-');
        let m: u128 = (-(n as i128)) as u128;
        push_numeral(&mut s, m, 10);
        assert(s@ == signed_decimal(n as int));
        s
    } else {
        decimal_of(n as u128)
    }
}

/// `digits` with zeros in front, `width` long at least.
pub open spec fn zero_padded(digits: Seq<char>, width: nat) -> Seq<char> {
    if digits.len() < width {
        Seq::new((width - digits.len()) as nat, |i: int| '0') + digits
    } else {
        digits
    }
}

/// Puts zeros in front of `digits`.
pub fn pad_zeros(digits: &str, width: usize) -> (r: String)
    ensures
        r@ == zero_padded(digits@, width as nat),
{
    let len: usize = text::chars_of(digits).len();
    let mut padded: String = String::new();
    let mut i: usize = len;
    while i < width
        invariant
            len == digits@.len(),
            len <= i,
            i <= width || i == len,
            padded@ == Seq::new((i - len) as nat, |k: int| '0'),
        decreases width - i,
    {
        padded.push('0');
        i += 1;
        assert(padded@ =~= Seq::new((i - len) as nat, |k: int| '0'));
    }
    padded.append(digits);
    assert(padded@ =~= zero_padded(digits@, width as nat));
    padded
}

// ---- rounding ----

/// `n / d` rounded to the nearest whole number, halves to the even one.
pub open spec fn rounded(n: nat, d: nat) -> nat {
    let q = n / d;
    let r = n % d;
    if 2 * r < d || (2 * r == d && q % 2 == 0) {
        q
    } else {
        q + 1
    }
}

/// `n / d` rounded to the nearest whole number, halves to the even one.
pub fn round_ratio(n: u128, d: u128) -> (r: u128)
    requires
        0 < d <= 0x4000_0000_0000_0000_0000_0000_0000_0000,
    ensures
        r == rounded(n as nat, d as nat),
{
    let q: u128 = n / d;
    let m: u128 = n % d;
    if 2 * m < d || (2 * m == d && q % 2 == 0) {
        q
    } else {
        if d == 1 {
            assert(m == 0);
        }
        assert(q <= n / 2) by (nonlinear_arith)
            requires
                q == n / d,
                d >= 2,
                n >= 0,
        ;
        q + 1
    }
}

/// Dividing ten times a number: the whole part tenfold, and the rest.
proof fn lemma_divide_tenfold(n: nat, d: nat)
    requires
        d > 0,
    ensures
        (10 * n) / d == 10 * (n / d) + (10 * (n % d)) / d,
        (10 * n) % d == (10 * (n % d)) % d,
{
    let q = n / d;
    let m = n % d;
    let a = (10 * m) / d;
    let b = (10 * m) % d;
    vstd::arithmetic::div_mod::lemma_fundamental_div_mod(n as int, d as int);
    vstd::arithmetic::div_mod::lemma_fundamental_div_mod((10 * m) as int, d as int);
    assert(10 * n == (10 * q + a) * d + b) by (nonlinear_arith)
        requires
            n == d * q + m,
            10 * m == d * a + b,
    ;
    vstd::arithmetic::div_mod::lemma_fundamental_div_mod_converse(
        (10 * n) as int,
        d as int,
        (10 * q + a) as int,
        b as int,
    );
}

/// Rounding ten times a quotient: the whole part tenfold, and the rest.
pub proof fn lemma_round_tenfold(n: nat, d: nat)
    requires
        d > 0,
    ensures
        rounded(10 * n, d) == 10 * (n / d) + rounded(10 * (n % d), d),
{
    lemma_divide_tenfold(n, d);
    let q: nat = n / d;
    let a: nat = (10 * (n % d)) / d;
    let whole: nat = (10 * n) / d;
    assert(whole == 10 * q + a);
    assert(whole % 2 == a % 2);
}

/// The sign of a negative number; others have none.
pub open spec fn sign(n: int) -> Seq<char> {
    if n < 0 {
        seq!['-']
    } else {
        seq![]
    }
}

/// How large a number is, whatever its sign.
pub open spec fn size(n: int) -> nat {
    if n < 0 {
        (-n) as nat
    } else {
        n as nat
    }
}

/// `n / d` to no decimal places.
pub open spec fn whole(n: int, d: nat) -> Seq<char> {
    sign(n) + decimal(rounded(size(n), d))
}

/// `n / d` to one decimal place.
pub open spec fn tenths(n: int, d: nat) -> Seq<char> {
    let t = rounded(10 * size(n), d);
    sign(n) + decimal(t / 10) + seq!['.'] + decimal(t % 10)
}

/// Writes a sign, or none.
pub fn sign_of(minus: bool) -> (r: String)
    ensures
        r@ == (if minus {
            seq!['-']
        } else {
            seq![]
        }),
{
    let mut s: String = String::new();
    if minus {
        s.push('-');
    }
    assert(s@ =~= if minus {
        seq!['-']
    } else {
        seq![]
    });
    s
}

/// Writes `n / d` to no decimal places.
pub fn whole_of(n: i64, d: u32) -> (r: String)
    requires
        d > 0,
    ensures
        r@ == whole(n as int, d as nat),
{
    let minus = n < 0;
    let m: u128 = if minus {
        (-(n as i128)) as u128
    } else {
        n as u128
    };
    let mut s = sign_of(minus);
    s.append(decimal_of(round_ratio(m, d as u128)).as_str());
    s
}

/// A power of ten.
pub open spec fn ten_to(k: nat) -> nat
    decreases k,
{
    if k == 0 {
        1
    } else {
        10 * ten_to((k - 1) as nat)
    }
}

/// The whole part of `n / d` with its point moved right by `k` places.
pub open spec fn scaled(n: nat, d: nat, k: int) -> nat {
    if k >= 0 {
        n * ten_to(k as nat) / d
    } else {
        n / (d * ten_to((-k) as nat))
    }
}

/// Moved by `k` places, `n / d` has seventeen digits in front of its point.
pub open spec fn seventeen_digits(n: nat, d: nat, k: int) -> bool {
    10_000_000_000_000_000 <= scaled(n, d, k) < 100_000_000_000_000_000
}

/// `n / d` in scientific notation, cut off after seventeen significant digits.
pub open spec fn scientific(n: nat, d: nat) -> Seq<char> {
    if n == 0 {
        "0e0"@
    } else {
        let k = choose|k: int| seventeen_digits(n, d, k);
        decimal(scaled(n, d, k)) + "e"@ + signed_decimal(-k)
    }
}

proof fn lemma_unmoved(n: nat, d: nat)
    ensures
        n * ten_to(0) == n,
        scaled(n, d, 0) == n / d,
{
    assert(n * 1 == n) by (nonlinear_arith);
}

/// One more place makes the whole part at least ten times as large.
proof fn lemma_scaled_grows(n: nat, d: nat, k: int)
    requires
        d > 0,
    ensures
        scaled(n, d, k + 1) >= 10 * scaled(n, d, k),
{
    if k >= 0 {
        let t = ten_to(k as nat);
        assert(ten_to((k + 1) as nat) == 10 * t);
        let a = n * t;
        assert(n * (10 * t) == 10 * a) by (nonlinear_arith)
            requires
                a == n * t,
        ;
        assert((10 * a) / d >= 10 * (a / d)) by (nonlinear_arith)
            requires
                d > 0,
        ;
    } else {
        let t = ten_to((-k - 1) as nat);
        assert(ten_to((-k) as nat) == 10 * t);
        lemma_ten_to_positive((-k - 1) as nat);
        let e = d * t;
        assert(e > 0) by (nonlinear_arith)
            requires
                e == d * t,
                d > 0,
                t > 0,
        ;
        assert(d * (10 * t) == 10 * e) by (nonlinear_arith)
            requires
                e == d * t,
        ;
        assert(n / e >= 10 * (n / (10 * e))) by (nonlinear_arith)
            requires
                e > 0,
        ;
        if k == -1 {
            lemma_unmoved(n, d);
            assert(e == d) by (nonlinear_arith)
                requires
                    e == d * t,
                    t == 1,
            ;
        }
    }
}

proof fn lemma_ten_to_positive(k: nat)
    ensures
        ten_to(k) > 0,
    decreases k,
{
    if k > 0 {
        lemma_ten_to_positive((k - 1) as nat);
    }
}

proof fn lemma_scaled_grows_far(n: nat, d: nat, k: int, j: int)
    requires
        d > 0,
        k < j,
        scaled(n, d, k) > 0,
    ensures
        scaled(n, d, j) >= 10 * scaled(n, d, k),
    decreases j - k,
{
    lemma_scaled_grows(n, d, j - 1);
    if k < j - 1 {
        lemma_scaled_grows_far(n, d, k, j - 1);
    }
}

/// There is one way at most to have seventeen digits.
proof fn lemma_seventeen_digits(n: nat, d: nat, k: int)
    requires
        d > 0,
        seventeen_digits(n, d, k),
    ensures
        (choose|j: int| seventeen_digits(n, d, j)) == k,
{
    let j = choose|j: int| seventeen_digits(n, d, j);
    assert(seventeen_digits(n, d, j));
    if j < k {
        lemma_scaled_grows_far(n, d, j, k);
    }
    if k < j {
        lemma_scaled_grows_far(n, d, k, j);
    }
}

/// Past enough places there are seventeen digits.
proof fn lemma_enough_places(n: nat, d: nat, k: nat)
    requires
        n > 0,
        0 < d <= 100_000_000_000_000_000_000_000_000,
        k >= 42,
    ensures
        n * ten_to(k) / d >= 10_000_000_000_000_000,
    decreases k,
{
    let t = ten_to(k);
    if k == 42 {
        reveal_with_fuel(ten_to, 43);
        assert(t == 1_000_000_000_000_000_000_000_000_000_000_000_000_000_000nat);
        assert(n * t / d >= 10_000_000_000_000_000) by (nonlinear_arith)
            requires
                n > 0,
                0 < d <= 100_000_000_000_000_000_000_000_000,
                t == 1_000_000_000_000_000_000_000_000_000_000_000_000_000_000nat,
        ;
    } else {
        lemma_enough_places(n, d, (k - 1) as nat);
        lemma_scaled_grows(n, d, k - 1);
    }
}

/// One step of long division.
proof fn lemma_next_digit(a: nat, q: nat, r: nat, d: nat)
    requires
        d > 0,
        q == a / d,
        r == a % d,
    ensures
        (10 * a) / d == 10 * q + (10 * r) / d,
        (10 * a) % d == (10 * r) % d,
        (10 * r) / d <= 9,
{
    vstd::arithmetic::div_mod::lemma_fundamental_div_mod(a as int, d as int);
    assert(10 * a == 10 * r + (10 * q) * d) by (nonlinear_arith)
        requires
            a == d * q + r,
    ;
    vstd::arithmetic::div_mod::lemma_hoist_over_denominator(10 * r as int, 10 * q as int, d);
    assert(10 * a == d * (10 * q) + 10 * r) by (nonlinear_arith)
        requires
            a == d * q + r,
    ;
    vstd::arithmetic::div_mod::lemma_mod_multiples_vanish(10 * q as int, 10 * r as int, d as int);
    assert((10 * r) / d <= 9) by (nonlinear_arith)
        requires
            0 <= r < d,
    ;
}

/// One place fewer leaves the last digit out, and a number of 128 bits has not
/// many to leave out.
proof fn lemma_fewer_digits(n: nat, d: nat, k: int)
    requires
        d > 0,
        k <= 0,
        n <= u128::MAX,
        scaled(n, d, k) >= 100_000_000_000_000_000,
    ensures
        scaled(n, d, k - 1) == scaled(n, d, k) / 10,
        k > -22,
{
    let t = ten_to((-k) as nat);
    let e = d * t;
    let q = scaled(n, d, k);
    lemma_ten_to_positive((-k) as nat);
    assert(e >= t && e > 0) by (nonlinear_arith)
        requires
            e == d * t,
            d > 0,
            t > 0,
    ;
    if k == 0 {
        lemma_unmoved(n, d);
        assert(t == 1);
        assert(e == d) by (nonlinear_arith)
            requires
                e == d * t,
                t == 1,
        ;
    }
    assert(q == n / e);
    assert(ten_to((-k + 1) as nat) == 10 * t);
    assert(d * (10 * t) == e * 10) by (nonlinear_arith)
        requires
            e == d * t,
    ;
    vstd::arithmetic::div_mod::lemma_div_denominator(n as int, e as int, 10);
    if k <= -22 {
        lemma_many_places((-k) as nat);
        assert(n / e < 100_000_000_000_000_000) by (nonlinear_arith)
            requires
                n <= u128::MAX,
                e >= 10_000_000_000_000_000_000_000,
        ;
    }
}

proof fn lemma_many_places(k: nat)
    requires
        k >= 22,
    ensures
        ten_to(k) >= 10_000_000_000_000_000_000_000,
    decreases k,
{
    if k == 22 {
        reveal_with_fuel(ten_to, 23);
    } else {
        lemma_many_places((k - 1) as nat);
    }
}

/// The seventeen significant digits of `n / d`, and by how many places its point
/// is moved for them.
fn significant(n: u128, d: u128) -> (r: (u128, i64))
    requires
        n > 0,
        0 < d <= 100_000_000_000_000_000_000_000_000,
    ensures
        seventeen_digits(n as nat, d as nat, r.1 as int),
        r.0 == scaled(n as nat, d as nat, r.1 as int),
        -22 <= r.1 <= 42,
{
    let mut q: u128 = n / d;
    let mut k: i64 = 0;
    proof {
        lemma_unmoved(n as nat, d as nat);
    }
    if q >= 10_000_000_000_000_000 {
        while q >= 100_000_000_000_000_000
            invariant
                d > 0,
                -22 <= k <= 0,
                q == scaled(n as nat, d as nat, k as int),
                q >= 10_000_000_000_000_000,
            decreases q,
        {
            proof {
                lemma_fewer_digits(n as nat, d as nat, k as int);
            }
            q = q / 10;
            k -= 1;
        }
        return (q, k);
    }
    let mut r: u128 = n % d;
    while q < 10_000_000_000_000_000
        invariant
            n > 0,
            0 < d <= 100_000_000_000_000_000_000_000_000,
            0 <= k <= 42,
            q < 100_000_000_000_000_000,
            q == n as nat * ten_to(k as nat) / (d as nat),
            r == n as nat * ten_to(k as nat) % (d as nat),
        decreases 42 - k,
    {
        let ghost t = ten_to(k as nat);
        proof {
            if k >= 42 {
                lemma_enough_places(n as nat, d as nat, k as nat);
            }
            lemma_next_digit(n as nat * t, q as nat, r as nat, d as nat);
            assert(ten_to((k + 1) as nat) == 10 * t);
            assert(n as nat * (10 * t) == 10 * (n as nat * t)) by (nonlinear_arith);
        }
        q = 10 * q + (10 * r) / d;
        r = (10 * r) % d;
        k += 1;
    }
    (q, k)
}

/// Writes `n / d` in scientific notation.
pub fn scientific_of(n: u128, d: u128) -> (r: String)
    requires
        0 < d <= 100_000_000_000_000_000_000_000_000,
    ensures
        r@ == scientific(n as nat, d as nat),
{
    if n == 0 {
        return "0e0".to_string();
    }
    let (digits, places) = significant(n, d);
    proof {
        lemma_seventeen_digits(n as nat, d as nat, places as int);
    }
    text::cat3(decimal_of(digits).as_str(), "e", signed_of(-places).as_str())
}

// ---- reading ----

/// The value of a digit in base `radix`.
pub open spec fn digit_value(c: char, radix: nat) -> Option<nat> {
    let v: int = if '0' <= c <= '9' {
        c as int - 48
    } else if 'a' <= c <= 'z' {
        c as int - 87
    } else if 'A' <= c <= 'Z' {
        c as int - 55
    } else {
        36
    };
    if v < radix {
        Some(v as nat)
    } else {
        None
    }
}

/// The value of a run of digits, the empty run being zero; `None` when a
/// character is no digit.
pub open spec fn digits_value(s: Seq<char>, radix: nat) -> Option<nat>
    decreases s.len(),
{
    if s.len() == 0 {
        Some(0)
    } else {
        match (digits_value(s.drop_last(), radix), digit_value(s.last(), radix)) {
            (Some(v), Some(d)) => Some(v * radix + d),
            _ => None,
        }
    }
}

/// A nonempty run of digits with a value of at most `max`.
pub open spec fn bounded_digits(s: Seq<char>, radix: nat, max: nat) -> Option<nat> {
    match digits_value(s, radix) {
        Some(v) if s.len() > 0 && v <= max => Some(v),
        _ => None,
    }
}

/// An unsigned number: an optional `+`, then digits, at most `max`.
pub open spec fn unsigned_value(s: Seq<char>, radix: nat, max: nat) -> Option<nat> {
    if s.len() > 0 && s[0] == '+' {
        bounded_digits(s.skip(1), radix, max)
    } else {
        bounded_digits(s, radix, max)
    }
}

/// A signed decimal number in the range of `i32`.
pub open spec fn i32_value(s: Seq<char>) -> Option<i32> {
    if s.len() > 0 && s[0] == '-' {
        match bounded_digits(s.skip(1), 10, 0x8000_0000) {
            Some(v) => Some((-(v as int)) as i32),
            None => None,
        }
    } else {
        match unsigned_value(s, 10, 0x7fff_ffff) {
            Some(v) => Some(v as i32),
            None => None,
        }
    }
}

/// An unsigned decimal number in the range of `u32`.
pub open spec fn u32_value(s: Seq<char>) -> Option<u32> {
    match unsigned_value(s, 10, u32::MAX as nat) {
        Some(v) => Some(v as u32),
        None => None,
    }
}

/// The digits in front of a point that stands behind the first `k` of `d`, made
/// up with zeros where there are fewer.
pub open spec fn up_to_point(d: Seq<char>, k: int) -> Seq<char> {
    if k <= 0 {
        seq!['0']
    } else if k <= d.len() {
        d.take(k)
    } else {
        d + Seq::new((k - d.len()) as nat, |i: int| '0')
    }
}

/// A nonempty run of decimal digits.
pub open spec fn magnitude(s: Seq<char>) -> Option<nat> {
    if s.len() > 0 {
        digits_value(s, 10)
    } else {
        None
    }
}

/// An exponent: an optional sign, then digits.
pub open spec fn exponent_value(s: Seq<char>) -> Option<int> {
    if s.len() > 0 && s[0] == '-' {
        match magnitude(s.skip(1)) {
            Some(v) => Some(-(v as int)),
            None => None,
        }
    } else if s.len() > 0 && s[0] == '+' {
        match magnitude(s.skip(1)) {
            Some(v) => Some(v as int),
            None => None,
        }
    } else {
        match magnitude(s) {
            Some(v) => Some(v as int),
            None => None,
        }
    }
}

/// Where the exponent of a number in scientific notation begins, or the length.
pub open spec fn exponent_at(s: Seq<char>) -> int {
    let small = text::index_of(s, 'e');
    let large = text::index_of(s, 'E');
    if small < large {
        small
    } else {
        large
    }
}

/// The exponent of a number, none being zero.
pub open spec fn exponent_of(s: Seq<char>) -> Option<int> {
    if exponent_at(s) < s.len() {
        exponent_value(s.skip(exponent_at(s) + 1))
    } else {
        Some(0)
    }
}

/// The digits of a decimal fraction, without its point.
pub open spec fn without_point(s: Seq<char>) -> Seq<char> {
    let i = text::index_of(s, '.');
    if i < s.len() {
        s.take(i) + s.skip(i + 1)
    } else {
        s
    }
}

/// How far a number may go on either side of zero and still fit 64 bits.
pub open spec fn farthest(minus: bool) -> nat {
    if minus {
        0x8000_0000_0000_0000
    } else {
        0x7fff_ffff_ffff_ffff
    }
}

/// A number in decimal or scientific notation, in whole millionths: what stands
/// in front of the point once that has moved by the exponent and six more
/// places. What does not fit 64 bits is no such number, nor is a number that is
/// infinite or none at all.
pub open spec fn millionths_value(s: Seq<char>) -> Option<i64> {
    let minus = s.len() > 0 && s[0] == '-';
    let body = if s.len() > 0 && (s[0] == '+' || s[0] == '-') {
        s.skip(1)
    } else {
        s
    };
    let mantissa = body.take(exponent_at(body));
    let d = without_point(mantissa);
    match (exponent_of(body), magnitude(d)) {
        (Some(e), Some(_)) => match bounded_digits(
            up_to_point(d, text::index_of(mantissa, '.') + e + 6),
            10,
            farthest(minus),
        ) {
            Some(v) => Some(
                (if minus {
                    -v
                } else {
                    v as int
                }) as i64,
            ),
            None => None,
        },
        _ => None,
    }
}

/// An optional number as an optional mathematical one.
pub open spec fn num_view(o: Option<u32>) -> Option<nat> {
    match o {
        Some(n) => Some(n as nat),
        None => None,
    }
}

fn value_of_digit(c: char, radix: u8) -> (r: Option<u8>)
    requires
        2 <= radix <= 16,
    ensures
        match r {
            Some(d) => digit_value(c, radix as nat) == Some(d as nat) && d < radix,
            None => digit_value(c, radix as nat) is None,
        },
{
    let v: u32 = if '0' <= c && c <= '9' {
        c as u32 - 48
    } else if 'a' <= c && c <= 'z' {
        c as u32 - 87
    } else if 'A' <= c && c <= 'Z' {
        c as u32 - 55
    } else {
        36
    };
    if v < radix as u32 {
        Some(v as u8)
    } else {
        None
    }
}

/// More digits never make a smaller number.
proof fn lemma_digits_grow(s: Seq<char>, n: int, radix: nat)
    requires
        0 <= n <= s.len(),
        radix >= 1,
        digits_value(s, radix) is Some,
    ensures
        digits_value(s.take(n), radix) is Some,
        digits_value(s.take(n), radix)->0 <= digits_value(s, radix)->0,
    decreases s.len() - n,
{
    if n == s.len() {
        assert(s.take(n) == s);
    } else {
        lemma_digits_grow(s, n + 1, radix);
        assert(s.take(n + 1).drop_last() == s.take(n));
        let v = digits_value(s.take(n), radix)->0;
        assert(v * radix >= v) by (nonlinear_arith)
            requires
                radix >= 1,
        ;
    }
}

/// Reads a nonempty run of digits with a value of at most `max`.
pub fn read_long(s: &[char], radix: u8, max: u64) -> (r: Option<u64>)
    requires
        2 <= radix <= 16,
    ensures
        match r {
            Some(v) => bounded_digits(s@, radix as nat, max as nat) == Some(v as nat),
            None => bounded_digits(s@, radix as nat, max as nat) is None,
        },
{
    if s.len() == 0 {
        return None;
    }
    let mut v: u128 = 0;
    let mut i: usize = 0;
    while i < s.len()
        invariant
            2 <= radix <= 16,
            i <= s@.len(),
            v <= max,
            digits_value(s@.take(i as int), radix as nat) == Some(v as nat),
        decreases s@.len() - i,
    {
        assert(s@.take(i + 1).drop_last() == s@.take(i as int));
        match value_of_digit(s[i], radix) {
            Some(d) => {
                assert(v * radix <= 0xffff_ffff_ffff_ffff * 16) by (nonlinear_arith)
                    requires
                        v <= 0xffff_ffff_ffff_ffff,
                        radix <= 16,
                ;
                let w: u128 = v * (radix as u128) + d as u128;
                if w > max as u128 {
                    proof {
                        if digits_value(s@, radix as nat) is Some {
                            lemma_digits_grow(s@, i + 1, radix as nat);
                        }
                    }
                    return None;
                }
                v = w;
            },
            None => {
                proof {
                    if digits_value(s@, radix as nat) is Some {
                        lemma_digits_grow(s@, i + 1, radix as nat);
                    }
                }
                return None;
            },
        }
        i += 1;
    }
    assert(s@.take(i as int) == s@);
    Some(v as u64)
}

/// Reads a nonempty run of digits with a value of at most `max`.
pub fn read_digits(s: &[char], radix: u8, max: u32) -> (r: Option<u32>)
    requires
        2 <= radix <= 16,
    ensures
        num_view(r) == bounded_digits(s@, radix as nat, max as nat),
{
    match read_long(s, radix, max as u64) {
        Some(v) => Some(v as u32),
        None => None,
    }
}

/// Reads an unsigned number of at most `max`.
pub fn read_unsigned(s: &[char], radix: u8, max: u32) -> (r: Option<u32>)
    requires
        2 <= radix <= 16,
    ensures
        num_view(r) == unsigned_value(s@, radix as nat, max as nat),
{
    if s.len() > 0 && s[0] == '+' {
        let body = slice_subrange(s, 1, s.len());
        assert(body@ == s@.skip(1));
        read_digits(body, radix, max)
    } else {
        read_digits(s, radix, max)
    }
}

/// Reads an unsigned decimal number.
pub fn read_u32(s: &[char]) -> (r: Option<u32>)
    ensures
        r == u32_value(s@),
{
    read_unsigned(s, 10, u32::MAX)
}

/// Reads a signed decimal number.
pub fn read_i32(s: &[char]) -> (r: Option<i32>)
    ensures
        r == i32_value(s@),
{
    if s.len() > 0 && s[0] == '-' {
        let body = slice_subrange(s, 1, s.len());
        assert(body@ == s@.skip(1));
        match read_digits(body, 10, 0x8000_0000) {
            Some(v) => Some((-(v as i64)) as i32),
            None => None,
        }
    } else {
        match read_unsigned(s, 10, 0x7fff_ffff) {
            Some(v) => Some(v as i32),
            None => None,
        }
    }
}

/// Whether every character is a digit.
fn all_digits(s: &[char]) -> (r: bool)
    ensures
        r == (digits_value(s@, 10) is Some),
{
    let mut i: usize = 0;
    while i < s.len()
        invariant
            i <= s@.len(),
            digits_value(s@.take(i as int), 10) is Some,
        decreases s@.len() - i,
    {
        assert(s@.take(i + 1).drop_last() == s@.take(i as int));
        if value_of_digit(s[i], 10).is_none() {
            proof {
                if digits_value(s@, 10) is Some {
                    lemma_digits_grow(s@, i + 1, 10);
                }
            }
            return false;
        }
        i += 1;
    }
    assert(s@.take(i as int) == s@);
    true
}

/// More than any text is long.
const FAR: u128 = 0x1_0000_0000_0000_0000_0000_0000;

/// Reads a nonempty run of decimal digits, up to [`FAR`].
fn read_magnitude(s: &[char]) -> (r: Option<u128>)
    ensures
        match r {
            Some(v) => magnitude(s@) is Some && v == (if magnitude(s@)->0 < FAR {
                magnitude(s@)->0
            } else {
                FAR as nat
            }),
            None => magnitude(s@) is None,
        },
{
    if s.len() == 0 || !all_digits(s) {
        return None;
    }
    let mut v: u128 = 0;
    let mut i: usize = 0;
    while i < s.len()
        invariant
            i <= s@.len(),
            v <= FAR,
            digits_value(s@, 10) is Some,
            digits_value(s@.take(i as int), 10) is Some,
            v == (if digits_value(s@.take(i as int), 10)->0 < FAR {
                digits_value(s@.take(i as int), 10)->0
            } else {
                FAR as nat
            }),
        decreases s@.len() - i,
    {
        proof {
            lemma_digits_grow(s@, i + 1, 10);
            assert(s@.take(i + 1).drop_last() == s@.take(i as int));
        }
        if let Some(d) = value_of_digit(s[i], 10) {
            let w: u128 = v * 10 + d as u128;
            v = if w < FAR {
                w
            } else {
                FAR
            };
        }
        i += 1;
    }
    assert(s@.take(i as int) == s@);
    Some(v)
}

/// Reads an exponent, as far as [`FAR`] either way.
fn read_exponent(s: &[char]) -> (r: Option<i128>)
    ensures
        match r {
            Some(v) => exponent_value(s@) is Some && v == (if exponent_value(s@)->0 > FAR {
                FAR as int
            } else if exponent_value(s@)->0 < -FAR {
                -FAR
            } else {
                exponent_value(s@)->0
            }),
            None => exponent_value(s@) is None,
        },
{
    if s.len() > 0 && (s[0] == '-' || s[0] == '+') {
        let minus = s[0] == '-';
        let rest = slice_subrange(s, 1, s.len());
        assert(rest@ == s@.skip(1));
        match read_magnitude(rest) {
            Some(v) => Some(
                if minus {
                    -(v as i128)
                } else {
                    v as i128
                },
            ),
            None => None,
        }
    } else {
        match read_magnitude(s) {
            Some(v) => Some(v as i128),
            None => None,
        }
    }
}

/// Zeros behind a zero leave it one.
proof fn lemma_still_zero(s: Seq<char>, n: int)
    requires
        0 <= n <= s.len(),
        digits_value(s.take(n), 10) == Some(0nat),
        forall|i: int| n <= i < s.len() ==> s[i] == '0',
    ensures
        digits_value(s, 10) == Some(0nat),
    decreases s.len() - n,
{
    if n < s.len() {
        assert(s.take(n + 1).drop_last() == s.take(n));
        assert(s.take(n + 1).last() == '0');
        lemma_still_zero(s, n + 1);
    } else {
        assert(s.take(n) == s);
    }
}

/// Reads the first `k` of some digits, made up with zeros; `k` may fall short of
/// a place that is [`FAR`] off.
fn read_up_to_point(d: &[char], k: i128, Ghost(place): Ghost<int>) -> (r: Option<u64>)
    requires
        digits_value(d@, 10) is Some,
        k == place || (place > k >= FAR) || (place < k <= 0),
    ensures
        match r {
            Some(v) => bounded_digits(up_to_point(d@, place), 10, u64::MAX as nat) == Some(v as nat),
            None => bounded_digits(up_to_point(d@, place), 10, u64::MAX as nat) is None,
        },
{
    let ghost full = up_to_point(d@, place);
    if k <= 0 {
        proof {
            assert(full.take(0) =~= Seq::<char>::empty());
            lemma_still_zero(full, 0);
        }
        return Some(0);
    }
    let n: usize = d.len();
    let mut v: u128 = 0;
    let mut i: i128 = 0;
    while i < k
        invariant
            0 <= i <= k,
            n == d@.len(),
            k == place || (place > k >= FAR),
            full == up_to_point(d@, place),
            place > 0,
            full.len() == place,
            digits_value(d@, 10) is Some,
            digits_value(full.take(i as int), 10) == Some(v as nat),
            v <= u64::MAX,
            i > d@.len() ==> v > i - d@.len(),
        decreases k - i,
    {
        let ghost now = full.take(i + 1);
        assert(now.drop_last() == full.take(i as int));
        assert(now.last() == full[i as int]);
        let digit: u128 = if i < n as i128 {
            let at: usize = i as usize;
            proof {
                assert(full[i as int] == d@[i as int]);
                lemma_digits_grow(d@, i + 1, 10);
                assert(d@.take(i + 1).last() == d@[i as int]);
            }
            match value_of_digit(d[at], 10) {
                Some(x) => x as u128,
                None => 0,
            }
        } else {
            if v == 0 {
                proof {
                    lemma_still_zero(full, i as int);
                }
                return Some(0);
            }
            0
        };
        let w: u128 = v * 10 + digit;
        if w > u64::MAX as u128 {
            proof {
                assert(digits_value(now, 10) == Some(w as nat));
                if digits_value(full, 10) is Some {
                    lemma_digits_grow(full, i + 1, 10);
                }
            }
            return None;
        }
        v = w;
        i += 1;
    }
    assert(k == place) by {
        if k != place {
            assert(v > i - n);
        }
    }
    assert(full.take(i as int) == full);
    Some(v as u64)
}

/// The position of the exponent, or the length.
fn position_of_exponent(s: &[char]) -> (r: usize)
    ensures
        r == exponent_at(s@),
        r <= s@.len(),
{
    let small: usize = text::position(s, 'e');
    let large: usize = text::position(s, 'E');
    if small < large {
        small
    } else {
        large
    }
}

/// Leaves the point out.
fn drop_point(s: &[char], at: usize) -> (r: Vec<char>)
    requires
        at == text::index_of(s@, '.'),
        at <= s@.len(),
    ensures
        r@ == without_point(s@),
{
    let mut out: Vec<char> = Vec::new();
    let mut k: usize = 0;
    while k < s.len()
        invariant
            k <= s@.len(),
            at <= s@.len(),
            k <= at ==> out@ == s@.take(k as int),
            k > at ==> out@ == s@.take(at as int) + s@.subrange(at + 1, k as int),
        decreases s@.len() - k,
    {
        if k != at {
            out.push(s[k]);
        }
        k += 1;
        if k <= at {
            assert(out@ =~= s@.take(k as int));
        } else {
            assert(out@ =~= s@.take(at as int) + s@.subrange(at + 1, k as int));
        }
    }
    assert(out@ =~= without_point(s@));
    out
}

/// Reads a number in decimal or scientific notation, in whole millionths.
pub fn read_millionths(s: &[char]) -> (r: Option<i64>)
    ensures
        r == millionths_value(s@),
{
    let minus = s.len() > 0 && s[0] == '-';
    let body = if s.len() > 0 && (s[0] == '+' || s[0] == '-') {
        slice_subrange(s, 1, s.len())
    } else {
        s
    };
    assert(s@.len() > 0 && (s@[0] == '+' || s@[0] == '-') ==> body@ == s@.skip(1));
    let at: usize = position_of_exponent(body);
    let mantissa = slice_subrange(body, 0, at);
    assert(mantissa@ == body@.take(at as int));
    let exponent: i128 = if at < body.len() {
        let rest = slice_subrange(body, at + 1, body.len());
        assert(rest@ == body@.skip(at + 1));
        match read_exponent(rest) {
            Some(e) => e,
            None => {
                return None;
            },
        }
    } else {
        0
    };
    let point: usize = text::position(mantissa, '.');
    let digits = drop_point(mantissa, point);
    if digits.len() == 0 || !all_digits(digits.as_slice()) {
        return None;
    }
    let read = read_up_to_point(
        digits.as_slice(),
        point as i128 + exponent + 6,
        Ghost(point + exponent_of(body@)->0 + 6),
    );
    match read {
        Some(v) => if minus {
            if v <= 0x8000_0000_0000_0000 {
                Some((-(v as i128)) as i64)
            } else {
                None
            }
        } else {
            if v <= 0x7fff_ffff_ffff_ffff {
                Some(v as i64)
            } else {
                None
            }
        },
        None => None,
    }
}

// ---- laws ----

/// A character that a numeral may hold.
pub open spec fn is_digit(c: char) -> bool {
    '0' <= c <= '9' || 'a' <= c <= 'f'
}

/// A digit stands for its value.
proof fn lemma_digit(d: nat, radix: nat)
    requires
        d < radix <= 16,
    ensures
        digit_value(digit(d), radix) == Some(d),
        is_digit(digit(d)),
        d > 0 ==> digit(d) != '0',
{
}

/// A number reads back from its numeral, which holds digits alone and no
/// leading zero.
pub proof fn a_numeral_reads_back(n: nat, radix: nat)
    requires
        2 <= radix <= 16,
    ensures
        digits_value(numeral(n, radix), radix) == Some(n),
        numeral(n, radix).len() > 0,
        n > 0 ==> numeral(n, radix)[0] != '0',
        n < radix ==> numeral(n, radix).len() == 1,
        forall|i: int| 0 <= i < numeral(n, radix).len() ==> is_digit(#[trigger] numeral(n, radix)[i]),
    decreases n,
{
    let s = numeral(n, radix);
    if n < radix {
        lemma_digit(n, radix);
        assert(s.drop_last() =~= Seq::<char>::empty());
        assert(digits_value(s.drop_last(), radix) == Some(0nat));
        assert(s.last() == digit(n));
        assert(0 * radix == 0) by (nonlinear_arith);
    } else {
        let q = n / radix;
        let r = n % radix;
        assert(0 < q < n && n == q * radix + r && r < radix) by (nonlinear_arith)
            requires
                n >= radix,
                radix >= 2,
                q == n / radix,
                r == n % radix,
        ;
        a_numeral_reads_back(q, radix);
        lemma_digit(r, radix);
        assert(s.drop_last() == numeral(q, radix));
        assert(s.last() == digit(r));
    }
}

/// A number below a power of the radix has no more digits than the power.
pub proof fn lemma_numeral_len(n: nat, radix: nat, width: nat)
    requires
        2 <= radix <= 16,
        width > 0,
        n < vstd::arithmetic::power::pow(radix as int, width),
    ensures
        numeral(n, radix).len() <= width,
    decreases width,
{
    reveal(vstd::arithmetic::power::pow);
    if n >= radix {
        let below = vstd::arithmetic::power::pow(radix as int, (width - 1) as nat);
        if width == 1 {
            assert(vstd::arithmetic::power::pow(radix as int, 0) == 1);
        } else {
            let q = n / radix;
            assert(q < below) by (nonlinear_arith)
                requires
                    n < radix * below,
                    q == n / radix,
                    radix >= 2,
            ;
            lemma_numeral_len(q, radix, (width - 1) as nat);
        }
    }
}

/// A signed number reads back from its numeral.
pub proof fn a_signed_numeral_reads_back(n: i32)
    ensures
        i32_value(signed_decimal(n as int)) == Some(n),
{
    let s = signed_decimal(n as int);
    if n < 0 {
        a_numeral_reads_back((-n) as nat, 10);
        assert(s.skip(1) =~= decimal((-n) as nat));
    } else {
        a_numeral_reads_back(n as nat, 10);
        assert(is_digit(s[0]));
    }
}

/// What has a value in base ten holds decimal digits alone.
proof fn lemma_decimal_digits(s: Seq<char>)
    requires
        digits_value(s, 10) is Some,
    ensures
        forall|i: int| 0 <= i < s.len() ==> '0' <= #[trigger] s[i] <= '9',
    decreases s.len(),
{
    if s.len() > 0 {
        lemma_decimal_digits(s.drop_last());
        assert forall|i: int| 0 <= i < s.len() implies '0' <= #[trigger] s[i] <= '9' by {
            if i < s.len() - 1 {
                assert(s.drop_last()[i] == s[i]);
            }
        }
    }
}

/// Each zero behind a run of digits makes it ten times as much.
proof fn lemma_zeros_behind(d: Seq<char>, k: nat)
    requires
        digits_value(d, 10) is Some,
    ensures
        digits_value(d + Seq::new(k, |i: int| '0'), 10) == Some(digits_value(d, 10)->0 * ten_to(k)),
    decreases k,
{
    let s = d + Seq::new(k, |i: int| '0');
    let v = digits_value(d, 10)->0;
    if k == 0 {
        assert(s =~= d);
        assert(ten_to(0) == 1);
        assert(v * 1 == v) by (nonlinear_arith);
    } else {
        let t = ten_to((k - 1) as nat);
        lemma_zeros_behind(d, (k - 1) as nat);
        assert(s.drop_last() =~= d + Seq::new((k - 1) as nat, |i: int| '0'));
        assert(s.last() == '0');
        assert(v * t * 10 == v * (10 * t)) by (nonlinear_arith);
    }
}

/// A whole number reads back from its numeral as a million times as many
/// millionths.
pub proof fn a_whole_number_reads_in_millionths(n: i32)
    ensures
        millionths_value(signed_decimal(n as int)) == Some((n * 1_000_000) as i64),
{
    let s = signed_decimal(n as int);
    let d = decimal(size(n as int));
    a_numeral_reads_back(size(n as int), 10);
    lemma_decimal_digits(d);
    if n < 0 {
        assert(s.skip(1) =~= d);
    } else {
        assert('0' <= s[0] <= '9');
    }
    text::lemma_index_of(d, 'e', d.len() as int);
    text::lemma_index_of(d, 'E', d.len() as int);
    text::lemma_index_of(d, '.', d.len() as int);
    assert(d.take(d.len() as int) =~= d);
    lemma_zeros_behind(d, 6);
    assert(ten_to(6) == 1_000_000) by {
        reveal_with_fuel(ten_to, 7);
    }
    assert(up_to_point(d, d.len() as int + 6) == d + Seq::new(6, |i: int| '0'));
}

/// An unsigned number reads back from its numeral.
pub proof fn an_unsigned_numeral_reads_back(n: u32)
    ensures
        u32_value(decimal(n as nat)) == Some(n),
{
    a_numeral_reads_back(n as nat, 10);
    assert(is_digit(decimal(n as nat)[0]));
}

/// A rounded quotient is as near as any whole number can be, and where two are
/// equally near it is the even one.
pub proof fn rounding_goes_to_the_nearest(n: nat, d: nat)
    requires
        d > 0,
    ensures
        2 * n <= 2 * (rounded(n, d) * d) + d,
        2 * (rounded(n, d) * d) <= 2 * n + d,
        2 * n == 2 * (rounded(n, d) * d) + d || 2 * (rounded(n, d) * d) == 2 * n + d ==> rounded(
            n,
            d,
        ) % 2 == 0,
{
    let q = n / d;
    let r = n % d;
    vstd::arithmetic::div_mod::lemma_fundamental_div_mod(n as int, d as int);
    assert(n == q * d + r) by (nonlinear_arith)
        requires
            n == d * q + r,
    ;
    assert((q + 1) * d == q * d + d) by (nonlinear_arith);
}

/// A whole number that is less than a half away is what rounding gives.
proof fn lemma_nearest(n: nat, d: nat, t: nat)
    requires
        d > 0,
        2 * n < 2 * (t * d) + d,
        2 * (t * d) < 2 * n + d,
    ensures
        rounded(n, d) == t,
{
    let r = rounded(n, d);
    rounding_goes_to_the_nearest(n, d);
    assert(r == t) by (nonlinear_arith)
        requires
            d > 0,
            2 * n < 2 * (t * d) + d,
            2 * (t * d) < 2 * n + d,
            2 * n <= 2 * (r * d) + d,
            2 * (r * d) <= 2 * n + d,
    {
        assert(r >= t + 1 ==> r * d >= t * d + d);
        assert(t >= r + 1 ==> t * d >= r * d + d);
    }
}

/// A number shown to one decimal place is the nearest number of tenths, with its
/// sign, a point and one digit.
pub proof fn tenths_are_the_nearest_ones(n: int, d: nat, t: nat)
    requires
        d > 0,
        20 * size(n) < 2 * (t * d) + d,
        2 * (t * d) < 20 * size(n) + d,
    ensures
        tenths(n, d) == (if n < 0 {
            seq!['-']
        } else {
            seq![]
        }) + decimal(t / 10) + seq!['.'] + decimal(t % 10),
{
    lemma_nearest(10 * size(n), d, t);
}

/// A number shown to no decimal places is the nearest whole one, with its sign.
pub proof fn wholes_are_the_nearest_ones(n: int, d: nat, t: nat)
    requires
        d > 0,
        2 * size(n) < 2 * (t * d) + d,
        2 * (t * d) < 2 * size(n) + d,
    ensures
        whole(n, d) == (if n < 0 {
            seq!['-']
        } else {
            seq![]
        }) + decimal(t),
{
    lemma_nearest(size(n), d, t);
}

/// A zero in front changes nothing of what digits stand for.
pub proof fn lemma_zero_in_front(s: Seq<char>)
    ensures
        digits_value(seq!['0'] + s, 10) == digits_value(s, 10),
    decreases s.len(),
{
    let t = seq!['0'] + s;
    if s.len() == 0 {
        assert(t.drop_last() =~= Seq::<char>::empty());
        assert(digits_value(t.drop_last(), 10) == Some(0nat));
        assert(t.last() == '0');
    } else {
        assert(t.drop_last() =~= seq!['0'] + s.drop_last());
        assert(t.last() == s.last());
        lemma_zero_in_front(s.drop_last());
    }
}

} // verus!
