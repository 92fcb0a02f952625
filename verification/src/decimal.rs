//! Exact decimal numbers for coordinates.
//!
//! A coordinate is held as the publisher wrote it: a sign, its significant
//! digits and the power of ten of the last of them, so nothing is lost to
//! binary rounding and the number of places written stays visible.
//!
//! Every spelling that Rust's `f64` reader accepts is read: an optional sign,
//! then digits with at most one point and an optional exponent (`e` or `E`, an
//! optional sign, digits), or `inf`, `infinity` or `nan` in any case. A value
//! is kept exactly from 10^-324 up to below 10^309 in magnitude, a range that
//! takes in every finite non-zero binary float; below it a float reading gives
//! zero and above it an infinity, and so does this one.

use vstd::prelude::*;

use crate::text::{digit, digit_char, push_char};

verus! {

/// Ten to the power `n`.
pub open spec fn pow10(n: nat) -> int
    decreases n,
{
    if n == 0 { 1 } else { 10 * pow10((n - 1) as nat) }
}

pub proof fn lemma_pow10_positive(n: nat)
    ensures
        pow10(n) >= 1,
    decreases n,
{
    if n > 0 {
        lemma_pow10_positive((n - 1) as nat);
    }
}

pub proof fn lemma_pow10_add(a: nat, b: nat)
    ensures
        pow10(a + b) == pow10(a) * pow10(b),
    decreases a,
{
    if a > 0 {
        lemma_pow10_add((a - 1) as nat, b);
        assert(pow10(a + b) == 10 * pow10((a + b - 1) as nat));
        assert((a - 1) as nat + b == (a + b - 1) as nat);
        assert(10 * (pow10((a - 1) as nat) * pow10(b)) == (10 * pow10((a - 1) as nat)) * pow10(b))
            by (nonlinear_arith);
    }
}

/// What kind of number a [`Decimal`] is.
#[derive(Debug, Clone, Copy, PartialEq, Eq, Structural)]
pub enum Kind {
    Finite,
    Infinite,
    NotANumber,
}

/// The value of a [`Decimal`]: its kind, its sign, its significant digits
/// (most significant first, none of them a leading zero) and the power of
/// ten of the last one. A finite number is `±digits × 10^exp`; zero has no
/// digits.
pub struct DecimalV {
    pub kind: Kind,
    pub negative: bool,
    pub digits: Seq<u8>,
    pub exp: int,
}

/// A decimal number, exactly as written (see the module documentation).
#[derive(Debug)]
pub struct Decimal {
    kind: Kind,
    negative: bool,
    digits: Vec<u8>,
    exp: i128,
}

/// The shape every [`Decimal`] keeps: digits below ten with no leading zero,
/// no digits but for a finite number, and a finite number within the range
/// a binary float holds.
pub open spec fn decimal_shaped(d: DecimalV) -> bool {
    &&& forall|i: int| 0 <= i < d.digits.len() ==> d.digits[i] < 10
    &&& (d.kind != Kind::Finite ==> d.digits.len() == 0)
    &&& (d.digits.len() == 0 ==> d.exp == 0)
    &&& (d.digits.len() > 0 ==> d.digits[0] != 0 && -324 < d.digits.len() + d.exp < 310)
}

impl View for Decimal {
    type V = DecimalV;

    closed spec fn view(&self) -> DecimalV {
        DecimalV {
            kind: self.kind,
            negative: self.negative,
            digits: self.digits@,
            exp: self.exp as int,
        }
    }
}

impl Decimal {
    #[verifier::type_invariant]
    spec fn well_formed(self) -> bool {
        decimal_shaped(self@)
    }
}

// ---------------------------------------------------------------------------
// Values.
// ---------------------------------------------------------------------------

/// The integer that a run of digits spells, most significant first.
pub open spec fn digits_value(s: Seq<u8>) -> nat
    decreases s.len(),
{
    if s.len() == 0 {
        0
    } else {
        digits_value(s.drop_last()) * 10 + s.last() as nat
    }
}

/// A finite number in units of 10^e, for an `e` no greater than its `exp`:
/// the number times 10^-e, an integer.
pub open spec fn scaled(d: DecimalV, e: int) -> int {
    let m = digits_value(d.digits) * pow10((d.exp - e) as nat);
    if d.negative {
        -m
    } else {
        m
    }
}

/// The least of three integers.
pub open spec fn lowest(a: int, b: int, c: int) -> int {
    if a <= b && a <= c {
        a
    } else if b <= c {
        b
    } else {
        c
    }
}

/// `c1·a + c2·b + c3·d` for finite numbers, in units of ten to the least of
/// their exponents. Its sign is that of the exact sum.
pub open spec fn lin3(c1: int, a: DecimalV, c2: int, b: DecimalV, c3: int, d: DecimalV) -> int {
    let e = lowest(a.exp, b.exp, d.exp);
    c1 * scaled(a, e) + c2 * scaled(b, e) + c3 * scaled(d, e)
}

/// The sign of an integer: -1, 0 or 1.
pub open spec fn sign_of(x: int) -> int {
    if x > 0 {
        1
    } else if x < 0 {
        -1
    } else {
        0
    }
}

/// Zero.
pub open spec fn zero_value() -> DecimalV {
    DecimalV { kind: Kind::Finite, negative: false, digits: Seq::empty(), exp: 0 }
}

/// Ninety.
pub open spec fn ninety_value() -> DecimalV {
    DecimalV { kind: Kind::Finite, negative: false, digits: seq![9u8, 0u8], exp: 0 }
}

/// One hundred and eighty.
pub open spec fn one_eighty_value() -> DecimalV {
    DecimalV { kind: Kind::Finite, negative: false, digits: seq![1u8, 8u8, 0u8], exp: 0 }
}

/// Whether `a >= b` as binary floats compare: nothing is comparable with a
/// NaN, an infinity lies beyond every finite number, and finite numbers
/// compare exactly.
pub open spec fn at_least(a: DecimalV, b: DecimalV) -> bool {
    if a.kind == Kind::NotANumber || b.kind == Kind::NotANumber {
        false
    } else if a.kind == Kind::Infinite && !a.negative {
        true
    } else if b.kind == Kind::Infinite && b.negative {
        true
    } else if a.kind == Kind::Infinite || b.kind == Kind::Infinite {
        false
    } else {
        lin3(1, a, -1, b, 0, zero_value()) >= 0
    }
}

/// Whether a number is finite and lies in `-limit..=limit`.
pub open spec fn within(x: DecimalV, limit: DecimalV) -> bool {
    &&& x.kind == Kind::Finite
    &&& lin3(1, x, 1, limit, 0, zero_value()) >= 0
    &&& lin3(1, limit, -1, x, 0, zero_value()) >= 0
}

/// Whether a number is finite and greater than zero.
pub open spec fn finite_positive(x: DecimalV) -> bool {
    x.kind == Kind::Finite && lin3(1, x, 0, zero_value(), 0, zero_value()) > 0
}

/// The digit of `d` at the power of ten `j`.
pub open spec fn digit_at(d: DecimalV, j: int) -> int {
    if d.exp <= j < d.exp + d.digits.len() {
        d.digits[d.exp + d.digits.len() - 1 - j] as int
    } else {
        0
    }
}

/// The digits of `d` from the power `e` up to below the power `j`, in units
/// of 10^e.
pub open spec fn partial(d: DecimalV, e: int, j: int) -> int
    decreases j - e,
{
    if j <= e {
        0
    } else {
        partial(d, e, j - 1) + digit_at(d, j - 1) * pow10((j - 1 - e) as nat)
    }
}

/// Signed by the number's sign.
pub open spec fn signed(d: DecimalV, x: int) -> int {
    if d.negative {
        -x
    } else {
        x
    }
}

proof fn lemma_value_prepend(a: u8, t: Seq<u8>)
    ensures
        digits_value(seq![a] + t) == a as int * pow10(t.len()) + digits_value(t),
    decreases t.len(),
{
    let s = seq![a] + t;
    if t.len() == 0 {
        assert(s =~= seq![a]);
        assert(s.drop_last() =~= Seq::<u8>::empty());
        assert(digits_value(Seq::<u8>::empty()) == 0);
        assert(s.last() == a);
        assert(digits_value(s) == digits_value(s.drop_last()) * 10 + a as nat);
        assert(pow10(0) == 1);
        assert(digits_value(t) == 0);
    } else {
        assert(s.drop_last() =~= seq![a] + t.drop_last());
        assert(s.last() == t.last());
        lemma_value_prepend(a, t.drop_last());
        let p = pow10((t.len() - 1) as nat);
        assert(pow10(t.len()) == 10 * p);
        let x = digits_value(t.drop_last()) as int;
        let l = t.last() as int;
        assert(digits_value(s) == digits_value(s.drop_last()) * 10 + l);
        assert(digits_value(s.drop_last()) == a as int * p + x);
        assert(digits_value(t) == x * 10 + l);
        assert((a as int * p + x) * 10 + l == a as int * (10 * p) + (x * 10 + l)) by (nonlinear_arith);
    }
}

proof fn lemma_partial_below(d: DecimalV, e: int, j: int)
    requires
        j <= d.exp,
    ensures
        partial(d, e, j) == 0,
    decreases j - e,
{
    if j > e {
        lemma_partial_below(d, e, j - 1);
    }
}

proof fn lemma_partial_digits(d: DecimalV, e: int, k: int)
    requires
        e <= d.exp,
        0 <= k <= d.digits.len(),
    ensures
        partial(d, e, d.exp + k) == digits_value(
            d.digits.subrange(d.digits.len() - k, d.digits.len() as int),
        ) * pow10((d.exp - e) as nat),
    decreases k,
{
    let n = d.digits.len() as int;
    let p = pow10((d.exp - e) as nat);
    if k == 0 {
        lemma_partial_below(d, e, d.exp);
        assert(d.digits.subrange(n, n) =~= Seq::<u8>::empty());
        assert(digits_value(d.digits.subrange(n, n)) == 0);
    } else {
        lemma_partial_digits(d, e, k - 1);
        let j = d.exp + k;
        let suf = d.digits.subrange(n - k, n);
        let suf1 = d.digits.subrange(n - k + 1, n);
        assert(d.digits.subrange(n - (k - 1), n) == suf1);
        assert(partial(d, e, j - 1) == digits_value(suf1) * p);
        assert(partial(d, e, j) == partial(d, e, j - 1) + digit_at(d, j - 1) * pow10(
            (j - 1 - e) as nat,
        ));
        assert(suf =~= seq![d.digits[n - k]] + suf1);
        lemma_value_prepend(d.digits[n - k], suf1);
        lemma_pow10_add((k - 1) as nat, (d.exp - e) as nat);
        assert((k - 1) as nat + (d.exp - e) as nat == (j - 1 - e) as nat);
        assert(digit_at(d, j - 1) == d.digits[n - k] as int);
        let q = pow10((k - 1) as nat);
        let v1 = digits_value(suf1) as int;
        let g = d.digits[n - k] as int;
        assert(suf1.len() == k - 1);
        assert(digits_value(suf) == g * q + v1);
        assert(pow10((j - 1 - e) as nat) == q * p);
        assert(v1 * p + g * (q * p) == (g * q + v1) * p) by (nonlinear_arith);
    }
}

proof fn lemma_partial_whole(d: DecimalV, e: int, j: int)
    requires
        e <= d.exp,
        d.exp + d.digits.len() <= j,
    ensures
        partial(d, e, j) == digits_value(d.digits) * pow10((d.exp - e) as nat),
    decreases j - d.exp - d.digits.len(),
{
    if j > d.exp + d.digits.len() {
        lemma_partial_whole(d, e, j - 1);
    } else {
        lemma_partial_digits(d, e, d.digits.len() as int);
        assert(d.digits.subrange(0, d.digits.len() as int) =~= d.digits);
    }
}

impl Decimal {
    /// The digit at the power of ten `j`.
    fn digit_at(&self, j: i128) -> (r: i64)
        ensures
            r == digit_at(self@, j as int),
            0 <= r <= 9,
    {
        proof {
            use_type_invariant(self);
        }
        let n = self.digits.len() as i128;
        if self.exp <= j && j < self.exp + n {
            let i = (self.exp + n - 1 - j) as usize;
            self.digits[i] as i64
        } else {
            0
        }
    }

    /// The power of ten just above the leading digit (the exponent, for zero).
    fn top(&self) -> (t: i128)
        ensures
            t == self@.exp + self@.digits.len(),
            self@.exp <= t,
    {
        proof {
            use_type_invariant(self);
        }
        self.exp + self.digits.len() as i128
    }
}

/// The sign of `c1·a + c2·b + c3·d`, computed exactly for finite numbers.
///
/// The digits are added column by column from the least significant one,
/// keeping only the carry and whether any column came out non-zero, so no
/// number is ever spelled out at a common scale.
pub fn sign3(c1: i8, a: &Decimal, c2: i8, b: &Decimal, c3: i8, d: &Decimal) -> (r: i8)
    requires
        -2 <= c1 <= 2,
        -2 <= c2 <= 2,
        -2 <= c3 <= 2,
    ensures
        r == sign_of(lin3(c1 as int, a@, c2 as int, b@, c3 as int, d@)),
{
    proof {
        use_type_invariant(a);
        use_type_invariant(b);
        use_type_invariant(d);
    }
    let e = if a.exp <= b.exp && a.exp <= d.exp {
        a.exp
    } else if b.exp <= d.exp {
        b.exp
    } else {
        d.exp
    };
    let ta = a.top();
    let tb = b.top();
    let td = d.top();
    let top = if ta >= tb && ta >= td {
        ta
    } else if tb >= td {
        tb
    } else {
        td
    };
    let ghost va = a@;
    let ghost vb = b@;
    let ghost vd = d@;
    let ghost k1 = c1 as int;
    let ghost k2 = c2 as int;
    let ghost k3 = c3 as int;
    let mut j: i128 = e;
    let mut carry: i64 = 0;
    let mut nonzero = false;
    let ghost mut rest: int = 0;
    while j < top
        invariant
            e <= j <= top,
            e == lowest(va.exp, vb.exp, vd.exp),
            va == a@,
            vb == b@,
            vd == d@,
            k1 == c1,
            k2 == c2,
            k3 == c3,
            -2 <= c1 <= 2,
            -2 <= c2 <= 2,
            -2 <= c3 <= 2,
            -6 <= carry <= 5,
            k1 * signed(va, partial(va, e as int, j as int)) + k2 * signed(
                vb,
                partial(vb, e as int, j as int),
            ) + k3 * signed(vd, partial(vd, e as int, j as int)) == rest + carry * pow10(
                (j - e) as nat,
            ),
            0 <= rest < pow10((j - e) as nat),
            nonzero == (rest != 0),
        decreases top - j,
    {
        let da = a.digit_at(j);
        let db = b.digit_at(j);
        let dd = d.digit_at(j);
        let sa: i64 = if a.negative {
            -da
        } else {
            da
        };
        let sb: i64 = if b.negative {
            -db
        } else {
            db
        };
        let sd: i64 = if d.negative {
            -dd
        } else {
            dd
        };
        assert(-18 <= (c1 as i64) * sa <= 18) by (nonlinear_arith)
            requires -2 <= c1 <= 2, -9 <= sa <= 9;
        assert(-18 <= (c2 as i64) * sb <= 18) by (nonlinear_arith)
            requires -2 <= c2 <= 2, -9 <= sb <= 9;
        assert(-18 <= (c3 as i64) * sd <= 18) by (nonlinear_arith)
            requires -2 <= c3 <= 2, -9 <= sd <= 9;
        let t = (c1 as i64) * sa + (c2 as i64) * sb + (c3 as i64) * sd;
        let x = t + carry + 60;
        let r = x % 10;
        let q = x / 10 - 6;
        proof {
            let p = pow10((j - e) as nat);
            lemma_pow10_positive((j - e) as nat);
            assert(pow10((j + 1 - e) as nat) == 10 * p);
            assert(partial(va, e as int, j + 1) == partial(va, e as int, j as int) + digit_at(va, j as int) * p);
            assert(partial(vb, e as int, j + 1) == partial(vb, e as int, j as int) + digit_at(vb, j as int) * p);
            assert(partial(vd, e as int, j + 1) == partial(vd, e as int, j as int) + digit_at(vd, j as int) * p);
            let pa = partial(va, e as int, j as int);
            let pb = partial(vb, e as int, j as int);
            let pd = partial(vd, e as int, j as int);
            assert(signed(va, pa + da * p) == signed(va, pa) + sa * p) by (nonlinear_arith)
                requires
                    sa == (if va.negative { -da } else { da as int }),
                    signed(va, pa) == (if va.negative { -pa } else { pa }),
                    signed(va, pa + da * p) == (if va.negative { -(pa + da * p) } else { pa + da * p }),
            ;
            assert(signed(vb, pb + db * p) == signed(vb, pb) + sb * p) by (nonlinear_arith)
                requires
                    sb == (if vb.negative { -db } else { db as int }),
                    signed(vb, pb) == (if vb.negative { -pb } else { pb }),
                    signed(vb, pb + db * p) == (if vb.negative { -(pb + db * p) } else { pb + db * p }),
            ;
            assert(signed(vd, pd + dd * p) == signed(vd, pd) + sd * p) by (nonlinear_arith)
                requires
                    sd == (if vd.negative { -dd } else { dd as int }),
                    signed(vd, pd) == (if vd.negative { -pd } else { pd }),
                    signed(vd, pd + dd * p) == (if vd.negative { -(pd + dd * p) } else { pd + dd * p }),
            ;
            let s0 = k1 * signed(va, pa) + k2 * signed(vb, pb) + k3 * signed(vd, pd);
            let ua = k1 * sa;
            let ub = k2 * sb;
            let ud = k3 * sd;
            assert(k1 * (signed(va, pa) + sa * p) == k1 * signed(va, pa) + ua * p) by (nonlinear_arith)
                requires ua == k1 * sa;
            assert(k2 * (signed(vb, pb) + sb * p) == k2 * signed(vb, pb) + ub * p) by (nonlinear_arith)
                requires ub == k2 * sb;
            assert(k3 * (signed(vd, pd) + sd * p) == k3 * signed(vd, pd) + ud * p) by (nonlinear_arith)
                requires ud == k3 * sd;
            assert(t == ua + ub + ud);
            assert(t * p == ua * p + ub * p + ud * p) by (nonlinear_arith)
                requires t == ua + ub + ud;
            assert(x - 60 == 10 * q + r);
            assert(s0 + t * p == (rest + r * p) + q * (10 * p)) by (nonlinear_arith)
                requires
                    s0 == rest + carry * p,
                    t + carry == 10 * q + r,
            ;
            assert(0 <= rest + r * p < 10 * p) by (nonlinear_arith)
                requires
                    0 <= rest < p,
                    0 <= r <= 9,
            ;
            assert((rest + r * p != 0) == (rest != 0 || r != 0)) by (nonlinear_arith)
                requires
                    0 <= rest,
                    0 <= r,
                    p >= 1,
            ;
            rest = rest + r * p;
        }
        nonzero = nonzero || r != 0;
        carry = q;
        j = j + 1;
    }
    proof {
        lemma_partial_whole(va, e as int, top as int);
        lemma_partial_whole(vb, e as int, top as int);
        lemma_partial_whole(vd, e as int, top as int);
        let p = pow10((top - e) as nat);
        lemma_pow10_positive((top - e) as nat);
        let s = lin3(c1 as int, va, c2 as int, vb, c3 as int, vd);
        assert(s == rest + carry * p);
        if carry > 0 {
            assert(rest + carry * p > 0) by (nonlinear_arith)
                requires
                    carry >= 1,
                    p >= 1,
                    rest >= 0,
            ;
        } else if carry < 0 {
            assert(rest + carry * p < 0) by (nonlinear_arith)
                requires
                    carry <= -1,
                    rest < p,
                    p >= 1,
            ;
        }
    }
    if carry > 0 {
        1
    } else if carry < 0 {
        -1
    } else if nonzero {
        1
    } else {
        0
    }
}

impl Clone for Decimal {
    fn clone(&self) -> (d: Decimal)
        ensures
            d@ == self@,
    {
        self.duplicate()
    }
}

impl Decimal {
    /// Zero.
    pub fn zero() -> (d: Decimal)
        ensures
            d@ == zero_value(),
    {
        Decimal { kind: Kind::Finite, negative: false, digits: Vec::new(), exp: 0 }
    }

    /// Ninety.
    pub fn ninety() -> (d: Decimal)
        ensures
            d@ == ninety_value(),
    {
        let mut digits: Vec<u8> = Vec::new();
        digits.push(9);
        digits.push(0);
        assert(digits@ =~= seq![9u8, 0u8]);
        Decimal { kind: Kind::Finite, negative: false, digits, exp: 0 }
    }

    /// One hundred and eighty.
    pub fn one_eighty() -> (d: Decimal)
        ensures
            d@ == one_eighty_value(),
    {
        let mut digits: Vec<u8> = Vec::new();
        digits.push(1);
        digits.push(8);
        digits.push(0);
        assert(digits@ =~= seq![1u8, 8u8, 0u8]);
        Decimal { kind: Kind::Finite, negative: false, digits, exp: 0 }
    }

    /// A copy of this number.
    pub fn duplicate(&self) -> (d: Decimal)
        ensures
            d@ == self@,
    {
        proof {
            use_type_invariant(self);
        }
        Decimal { kind: self.kind, negative: self.negative, digits: self.digits.clone(), exp: self.exp }
    }

    /// What kind of number this is.
    pub fn kind(&self) -> (k: Kind)
        ensures
            k == self@.kind,
    {
        self.kind
    }

    /// Whether this number carries a minus sign.
    pub fn is_negative(&self) -> (b: bool)
        ensures
            b == self@.negative,
    {
        self.negative
    }

    /// `self >= other`, as binary floats compare: see [`at_least`].
    pub fn at_least(&self, other: &Decimal) -> (b: bool)
        ensures
            b == at_least(self@, other@),
    {
        if self.kind == Kind::NotANumber || other.kind == Kind::NotANumber {
            false
        } else if self.kind == Kind::Infinite && !self.negative {
            true
        } else if other.kind == Kind::Infinite && other.negative {
            true
        } else if self.kind == Kind::Infinite || other.kind == Kind::Infinite {
            false
        } else {
            let z = Decimal::zero();
            sign3(1, self, -1, other, 0, &z) >= 0
        }
    }

    /// Whether this number is finite and lies in `-limit..=limit`.
    pub fn within(&self, limit: &Decimal) -> (b: bool)
        ensures
            b == within(self@, limit@),
    {
        if self.kind != Kind::Finite {
            return false;
        }
        let z = Decimal::zero();
        sign3(1, self, 1, limit, 0, &z) >= 0 && sign3(1, limit, -1, self, 0, &z) >= 0
    }

    /// Whether this number is finite and greater than zero.
    pub fn is_finite_positive(&self) -> (b: bool)
        ensures
            b == finite_positive(self@),
    {
        if self.kind != Kind::Finite {
            return false;
        }
        let z = Decimal::zero();
        sign3(1, self, 0, &z, 0, &z) > 0
    }
}

// ---------------------------------------------------------------------------
// Text.
// ---------------------------------------------------------------------------

/// The characters of a run of digits.
pub open spec fn digit_text(s: Seq<u8>) -> Seq<char> {
    Seq::new(s.len(), |i: int| digit_char(s[i] as nat))
}

/// `n` zero digits.
pub open spec fn zero_digits(n: nat) -> Seq<u8> {
    Seq::new(n, |i: int| 0u8)
}

/// `s` without the zeros at its end.
pub open spec fn strip_trailing_zeros(s: Seq<char>) -> Seq<char>
    decreases s.len(),
{
    if s.len() > 0 && s.last() == '0' {
        strip_trailing_zeros(s.drop_last())
    } else {
        s
    }
}

/// The digits of a finite magnitude written out: the integer part (`0` when
/// there is none), then a point and the fraction without trailing zeros when
/// there is a fraction.
pub open spec fn magnitude_text(digits: Seq<u8>, exp: int) -> Seq<char> {
    if digits.len() == 0 {
        seq!['0']
    } else if exp >= 0 {
        digit_text(digits + zero_digits(exp as nat))
    } else {
        let p = digits.len() + exp;
        let whole = if p > 0 {
            digit_text(digits.take(p))
        } else {
            seq!['0']
        };
        let frac = strip_trailing_zeros(
            if p > 0 {
                digit_text(digits.skip(p))
            } else {
                digit_text(zero_digits((-p) as nat) + digits)
            },
        );
        whole + if frac.len() == 0 {
            Seq::empty()
        } else {
            seq!['.'] + frac
        }
    }
}

/// How a number is written out: `NaN`, `inf` or `-inf`, or a minus sign for
/// a negative number (zero included) followed by [`magnitude_text`].
pub open spec fn decimal_text(d: DecimalV) -> Seq<char> {
    match d.kind {
        Kind::NotANumber => seq!['N', 'a', 'N'],
        Kind::Infinite => if d.negative {
            seq!['-', 'i', 'n', 'f']
        } else {
            seq!['i', 'n', 'f']
        },
        Kind::Finite => (if d.negative {
            seq!['-']
        } else {
            Seq::empty()
        }) + magnitude_text(d.digits, d.exp),
    }
}

/// Appends the digits `v[from..to]` to `s`.
fn push_digits(s: &mut String, v: &Vec<u8>, from: usize, to: usize)
    requires
        from <= to <= v@.len(),
        forall|i: int| 0 <= i < v@.len() ==> v@[i] < 10,
    ensures
        final(s)@ == old(s)@ + digit_text(v@.subrange(from as int, to as int)),
{
    let ghost start = s@;
    let mut i = from;
    while i < to
        invariant
            from <= i <= to <= v@.len(),
            forall|k: int| 0 <= k < v@.len() ==> v@[k] < 10,
            s@ == start + digit_text(v@.subrange(from as int, i as int)),
        decreases to - i,
    {
        push_char(s, digit(v[i] as u64));
        assert(digit_text(v@.subrange(from as int, i + 1)) =~= digit_text(
            v@.subrange(from as int, i as int),
        ).push(digit_char(v@[i as int] as nat)));
        i = i + 1;
    }
}

impl Decimal {
    /// The text of this number: see [`decimal_text`].
    pub fn to_text(&self) -> (s: String)
        ensures
            s@ == decimal_text(self@),
    {
        proof {
            use_type_invariant(self);
        }
        let mut s = String::new();
        match self.kind {
            Kind::NotANumber => {
                push_char(&mut s, 'N');
                push_char(&mut s, 'a');
                push_char(&mut s, 'N');
                assert(s@ =~= decimal_text(self@));
                return s;
            },
            Kind::Infinite => {
                if self.negative {
                    push_char(&mut s, '-');
                }
                push_char(&mut s, 'i');
                push_char(&mut s, 'n');
                push_char(&mut s, 'f');
                assert(s@ =~= decimal_text(self@));
                return s;
            },
            Kind::Finite => {},
        }
        if self.negative {
            push_char(&mut s, '-');
        }
        let m = magnitude(&self.digits, self.exp);
        s.append(m.as_str());
        assert(s@ =~= decimal_text(self@));
        s
    }
}

/// The text of a finite magnitude: see [`magnitude_text`].
#[verifier::rlimit(60)]
fn magnitude(digits: &Vec<u8>, exp: i128) -> (s: String)
    requires
        forall|i: int| 0 <= i < digits@.len() ==> digits@[i] < 10,
        digits@.len() == 0 ==> exp == 0,
        digits@.len() > 0 ==> -324 < digits@.len() + exp < 310,
    ensures
        s@ == magnitude_text(digits@, exp as int),
{
    let mut s = String::new();
    let n = digits.len();
    if n == 0 {
        push_char(&mut s, '0');
        assert(s@ =~= magnitude_text(digits@, exp as int));
        return s;
    }
    if exp >= 0 {
        push_digits(&mut s, digits, 0, n);
        let z = exp as usize;
        let mut k: usize = 0;
        while k < z
            invariant
                k <= z,
                z == exp,
                n == digits@.len(),
                s@ == digit_text(digits@.subrange(0, n as int)) + digit_text(zero_digits(k as nat)),
            decreases z - k,
        {
            push_char(&mut s, '0');
            assert(digit_text(zero_digits((k + 1) as nat)) =~= digit_text(zero_digits(k as nat)).push(
                '0',
            ));
            k = k + 1;
        }
        assert(digits@.subrange(0, n as int) =~= digits@);
        assert(digit_text(digits@ + zero_digits(z as nat)) =~= digit_text(digits@) + digit_text(
            zero_digits(z as nat),
        ));
        assert(s@ =~= magnitude_text(digits@, exp as int));
        return s;
    }
    let p = n as i128 + exp;
    let mut frac: Vec<u8> = Vec::new();
    if p > 0 {
        let pu = p as usize;
        push_digits(&mut s, digits, 0, pu);
        let mut i = pu;
        while i < n
            invariant
                pu <= i <= n,
                n == digits@.len(),
                frac@ =~= digits@.subrange(pu as int, i as int),
            decreases n - i,
        {
            frac.push(digits[i]);
            i = i + 1;
        }
        assert(digits@.subrange(0, pu as int) =~= digits@.take(pu as int));
        assert(frac@ =~= digits@.skip(pu as int));
    } else {
        push_char(&mut s, '0');
        let z = (-p) as usize;
        let mut k: usize = 0;
        while k < z
            invariant
                k <= z,
                frac@ =~= zero_digits(k as nat),
            decreases z - k,
        {
            frac.push(0);
            k = k + 1;
        }
        let mut i: usize = 0;
        while i < n
            invariant
                i <= n,
                n == digits@.len(),
                frac@ =~= zero_digits(z as nat) + digits@.take(i as int),
            decreases n - i,
        {
            frac.push(digits[i]);
            i = i + 1;
        }
        assert(digits@.take(n as int) =~= digits@);
    }
    strip_and_push(&mut s, &frac);
    assert(s@ =~= magnitude_text(digits@, exp as int));
    s
}

/// Appends a point and the digits of `frac` without its trailing zeros, or
/// nothing when no digit is left.
fn strip_and_push(s: &mut String, frac: &Vec<u8>)
    requires
        forall|i: int| 0 <= i < frac@.len() ==> frac@[i] < 10,
    ensures
        final(s)@ == old(s)@ + ({
            let f = strip_trailing_zeros(digit_text(frac@));
            if f.len() == 0 {
                Seq::empty()
            } else {
                seq!['.'] + f
            }
        }),
{
    let ghost fc = digit_text(frac@);
    let mut end = frac.len();
    assert(fc.take(end as int) =~= fc);
    while end > 0 && frac[end - 1] == 0
        invariant
            end <= frac@.len(),
            fc == digit_text(frac@),
            strip_trailing_zeros(fc) == strip_trailing_zeros(fc.take(end as int)),
        decreases end,
    {
        assert(fc.take(end as int).drop_last() =~= fc.take(end - 1));
        end = end - 1;
    }
    proof {
        if end > 0 {
            assert(fc.take(end as int).last() == digit_char(frac@[end - 1] as nat));
        }
    }
    if end > 0 {
        push_char(s, '.');
        push_digits(s, frac, 0, end);
        assert(digit_text(frac@.subrange(0, end as int)) =~= fc.take(end as int));
    }
}

// ---------------------------------------------------------------------------
// Reading text.
// ---------------------------------------------------------------------------

/// Whether `c` is an ASCII digit.
pub open spec fn is_digit(c: char) -> bool {
    '0' <= c && c <= '9'
}

/// The value of an ASCII digit.
pub open spec fn digit_value(c: char) -> nat {
    ((c as u32) - ('0' as u32)) as nat
}

/// What a left-to-right reading of a number (after its sign) has found.
/// `phase` is 0 in the digits, 1 just after the exponent mark, 2 after the
/// exponent's sign, 3 in the exponent's digits, and 4 once the text cannot be
/// a number. `digits` are the digits read, without leading zeros; `count` is
/// how many digits were read, `places` how many followed the point.
pub struct ScanV {
    pub digits: Seq<u8>,
    pub count: nat,
    pub places: nat,
    pub point: bool,
    pub phase: nat,
    pub exp_negative: bool,
    pub exponent: nat,
}

/// The reading before any character.
pub open spec fn scan_start() -> ScanV {
    ScanV {
        digits: Seq::empty(),
        count: 0,
        places: 0,
        point: false,
        phase: 0,
        exp_negative: false,
        exponent: 0,
    }
}

/// The reading once the text cannot be a number.
pub open spec fn scan_failed() -> ScanV {
    ScanV {
        digits: Seq::empty(),
        count: 0,
        places: 0,
        point: false,
        phase: 4,
        exp_negative: false,
        exponent: 0,
    }
}

/// The reading after one more character.
pub open spec fn scan_step(s: ScanV, c: char) -> ScanV {
    if s.phase == 0 {
        if c == '.' {
            if s.point {
                scan_failed()
            } else {
                ScanV { point: true, ..s }
            }
        } else if is_digit(c) {
            let d = digit_value(c) as u8;
            ScanV {
                digits: if s.digits.len() == 0 && d == 0 {
                    s.digits
                } else {
                    s.digits.push(d)
                },
                count: s.count + 1,
                places: if s.point {
                    s.places + 1
                } else {
                    s.places
                },
                ..s
            }
        } else if (c == 'e' || c == 'E') && s.count > 0 {
            ScanV { phase: 1, ..s }
        } else {
            scan_failed()
        }
    } else if s.phase == 1 {
        if c == '+' || c == '-' {
            ScanV { phase: 2, exp_negative: c == '-', ..s }
        } else if is_digit(c) {
            ScanV { phase: 3, exponent: digit_value(c), ..s }
        } else {
            scan_failed()
        }
    } else if s.phase == 2 {
        if is_digit(c) {
            ScanV { phase: 3, exponent: digit_value(c), ..s }
        } else {
            scan_failed()
        }
    } else if s.phase == 3 {
        if is_digit(c) {
            ScanV { exponent: s.exponent * 10 + digit_value(c), ..s }
        } else {
            scan_failed()
        }
    } else {
        scan_failed()
    }
}

/// The reading of a whole text.
pub open spec fn scan(b: Seq<char>) -> ScanV
    decreases b.len(),
{
    if b.len() == 0 {
        scan_start()
    } else {
        scan_step(scan(b.drop_last()), b.last())
    }
}

/// Whether the text starts with a sign.
pub open spec fn has_sign(s: Seq<char>) -> bool {
    s.len() > 0 && (s[0] == '+' || s[0] == '-')
}

/// Whether `c` is the letter `w`, in either case.
pub open spec fn same_letter(c: char, w: char) -> bool {
    c == w || ('A' <= c && c <= 'Z' && (c as u32) + 32 == (w as u32))
}

/// Whether `s` spells the lower-case word `w`, in any mix of cases.
pub open spec fn spells(s: Seq<char>, w: Seq<char>) -> bool {
    s.len() == w.len() && forall|i: int| 0 <= i < s.len() ==> same_letter(s[i], w[i])
}

/// An infinity.
pub open spec fn infinity_value(negative: bool) -> DecimalV {
    DecimalV { kind: Kind::Infinite, negative, digits: Seq::empty(), exp: 0 }
}

/// Not a number.
pub open spec fn nan_value() -> DecimalV {
    DecimalV { kind: Kind::NotANumber, negative: false, digits: Seq::empty(), exp: 0 }
}

/// The number `±digits × 10^exp` as a [`Decimal`] holds it: exactly when its
/// magnitude lies from 10^-324 to below 10^309, otherwise zero (below) or an
/// infinity (above), as a binary float reads it there. `digits` has no
/// leading zero, so `digits.len() + exp` is the power of ten just above the
/// leading digit.
pub open spec fn held(negative: bool, digits: Seq<u8>, exp: int) -> DecimalV {
    if digits.len() == 0 || digits.len() + exp <= -324 {
        DecimalV { kind: Kind::Finite, negative, digits: Seq::empty(), exp: 0 }
    } else if digits.len() + exp >= 310 {
        infinity_value(negative)
    } else {
        DecimalV { kind: Kind::Finite, negative, digits, exp }
    }
}

/// The number a text denotes, in the grammar of Rust's `f64` reader, or
/// `None` when the text is not a number.
pub open spec fn text_value(s: Seq<char>) -> Option<DecimalV> {
    let body = if has_sign(s) {
        s.drop_first()
    } else {
        s
    };
    let negative = has_sign(s) && s[0] == '-';
    if spells(body, seq!['i', 'n', 'f']) || spells(body, seq!['i', 'n', 'f', 'i', 'n', 'i', 't', 'y']) {
        Some(infinity_value(negative))
    } else if spells(body, seq!['n', 'a', 'n']) {
        Some(nan_value())
    } else {
        let st = scan(body);
        if st.phase == 0 && st.count > 0 {
            Some(held(negative, st.digits, 0 - st.places))
        } else if st.phase == 3 {
            Some(
                held(
                    negative,
                    st.digits,
                    (if st.exp_negative {
                        -st.exponent
                    } else {
                        st.exponent as int
                    }) - st.places,
                ),
            )
        } else {
            None
        }
    }
}

/// Whether `text[start..]` spells the lower-case word `w` in any case.
fn spells_from(text: &str, start: usize, w: &Vec<char>) -> (r: bool)
    requires
        start <= text@.len(),
    ensures
        r == spells(text@.subrange(start as int, text@.len() as int), w@),
{
    let ghost body = text@.subrange(start as int, text@.len() as int);
    let n = text.unicode_len();
    if n - start != w.len() {
        return false;
    }
    let mut i: usize = 0;
    while i < w.len()
        invariant
            n == text@.len(),
            start <= n,
            n - start == w@.len(),
            body == text@.subrange(start as int, n as int),
            i <= w@.len(),
            forall|k: int| 0 <= k < i ==> same_letter(body[k], w@[k]),
        decreases w@.len() - i,
    {
        let c = text.get_char(start + i);
        let l = w[i];
        if !(c == l || ('A' <= c && c <= 'Z' && (c as u32) + 32 == (l as u32))) {
            assert(!same_letter(body[i as int], w@[i as int]));
            return false;
        }
        i = i + 1;
    }
    true
}

proof fn lemma_scan_stays_failed(b: Seq<char>, i: int, j: int)
    requires
        0 <= i <= j <= b.len(),
        scan(b.take(i)).phase == 4,
    ensures
        scan(b.take(j)).phase == 4,
    decreases j - i,
{
    if j > i {
        lemma_scan_stays_failed(b, i, j - 1);
        assert(b.take(j).drop_last() =~= b.take(j - 1));
    }
}

/// The bound past which an exponent is no longer tracked: any exponent at
/// least this large puts a non-zero number far outside a float's range.
pub open spec fn exponent_cap() -> int {
    1000000000000000000000000000000
}

/// A reading in progress, as [`Decimal::parse`] keeps it.
struct Scanner {
    digits: Vec<u8>,
    count: usize,
    places: usize,
    point: bool,
    phase: u8,
    exp_negative: bool,
    exponent: u128,
    big: bool,
}

/// Whether the scanner holds the reading `v`, its exponent exactly while it
/// stays below [`exponent_cap`].
spec fn tracks(s: Scanner, v: ScanV) -> bool {
    &&& v.digits == s.digits@
    &&& v.count == s.count
    &&& v.places == s.places
    &&& v.point == s.point
    &&& v.phase == s.phase
    &&& v.exp_negative == s.exp_negative
    &&& s.phase < 4
    &&& s.places <= s.count
    &&& s.exponent < exponent_cap()
    &&& (!s.big ==> v.exponent == s.exponent)
    &&& (s.big ==> v.exponent >= exponent_cap())
    &&& forall|k: int| 0 <= k < s.digits@.len() ==> s.digits@[k] < 10
    &&& (s.digits@.len() > 0 ==> s.digits@[0] != 0)
    &&& s.digits@.len() <= s.count
}

/// Reads one character; `true` when the text can no longer be a number.
fn scan_char(s: &mut Scanner, c: char, Ghost(v): Ghost<ScanV>) -> (fail: bool)
    requires
        tracks(*old(s), v),
        old(s).count < usize::MAX,
    ensures
        fail ==> scan_step(v, c).phase == 4,
        !fail ==> tracks(*final(s), scan_step(v, c)),
        final(s).count <= old(s).count + 1,
{
    let is_digit = '0' <= c && c <= '9';
    if s.phase == 0 {
        if c == '.' {
            if s.point {
                true
            } else {
                s.point = true;
                false
            }
        } else if is_digit {
            let d = (c as u32 - '0' as u32) as u8;
            if !(s.digits.len() == 0 && d == 0) {
                s.digits.push(d);
            }
            s.count = s.count + 1;
            if s.point {
                s.places = s.places + 1;
            }
            false
        } else if (c == 'e' || c == 'E') && s.count > 0 {
            s.phase = 1;
            false
        } else {
            true
        }
    } else if s.phase == 1 {
        if c == '+' || c == '-' {
            s.phase = 2;
            s.exp_negative = c == '-';
            false
        } else if is_digit {
            s.phase = 3;
            s.exponent = (c as u32 - '0' as u32) as u128;
            s.big = false;
            false
        } else {
            true
        }
    } else if s.phase == 2 {
        if is_digit {
            s.phase = 3;
            s.exponent = (c as u32 - '0' as u32) as u128;
            s.big = false;
            false
        } else {
            true
        }
    } else {
        if is_digit {
            let d = (c as u32 - '0' as u32) as u128;
            if !s.big {
                if s.exponent < 100000000000000000000000000000u128 {
                    s.exponent = s.exponent * 10 + d;
                } else {
                    s.big = true;
                }
            }
            false
        } else {
            true
        }
    }
}

impl Decimal {
    /// Reads a number in the grammar of Rust's `f64` reader; `None` when the
    /// text is not a number. See [`text_value`] and [`held`].
    pub fn parse(text: &str) -> (r: Option<Decimal>)
        ensures
            match text_value(text@) {
                Some(v) => r matches Some(d) && d@ == v,
                None => r is None,
            },
    {
        let n = text.unicode_len();
        let mut start: usize = 0;
        let mut negative = false;
        if n > 0 {
            let c = text.get_char(0);
            if c == '+' || c == '-' {
                start = 1;
                negative = c == '-';
            }
        }
        let ghost body = if has_sign(text@) {
            text@.drop_first()
        } else {
            text@
        };
        proof {
            assert(body =~= text@.subrange(start as int, n as int));
        }
        let mut inf: Vec<char> = Vec::new();
        inf.push('i');
        inf.push('n');
        inf.push('f');
        let mut infinity: Vec<char> = Vec::new();
        infinity.push('i');
        infinity.push('n');
        infinity.push('f');
        infinity.push('i');
        infinity.push('n');
        infinity.push('i');
        infinity.push('t');
        infinity.push('y');
        let mut nan: Vec<char> = Vec::new();
        nan.push('n');
        nan.push('a');
        nan.push('n');
        assert(inf@ =~= seq!['i', 'n', 'f']);
        assert(infinity@ =~= seq!['i', 'n', 'f', 'i', 'n', 'i', 't', 'y']);
        assert(nan@ =~= seq!['n', 'a', 'n']);
        let ghost neg_spec = has_sign(text@) && text@[0] == '-';
        assert(negative == neg_spec);
        if spells_from(text, start, &inf) || spells_from(text, start, &infinity) {
            assert(text_value(text@) == Some(infinity_value(negative)));
            return Some(Decimal { kind: Kind::Infinite, negative, digits: Vec::new(), exp: 0 });
        }
        if spells_from(text, start, &nan) {
            assert(text_value(text@) == Some(nan_value()));
            return Some(Decimal { kind: Kind::NotANumber, negative: false, digits: Vec::new(), exp: 0 });
        }
        let mut sc = Scanner {
            digits: Vec::new(),
            count: 0,
            places: 0,
            point: false,
            phase: 0,
            exp_negative: false,
            exponent: 0,
            big: false,
        };
        let mut i: usize = start;
        assert(body.take(0) =~= Seq::<char>::empty());
        while i < n
            invariant
                n == text@.len(),
                start <= i <= n,
                body == text@.subrange(start as int, n as int),
                body == (if has_sign(text@) {
                    text@.drop_first()
                } else {
                    text@
                }),
                !spells(body, seq!['i', 'n', 'f']),
                !spells(body, seq!['i', 'n', 'f', 'i', 'n', 'i', 't', 'y']),
                !spells(body, seq!['n', 'a', 'n']),
                sc.count <= i - start,
                tracks(sc, scan(body.take(i - start))),
            decreases n - i,
        {
            let c = text.get_char(i);
            let ghost prefix = body.take(i - start);
            proof {
                assert(body.take(i + 1 - start).drop_last() =~= prefix);
                assert(body.take(i + 1 - start).last() == c);
            }
            let fail = scan_char(&mut sc, c, Ghost(scan(prefix)));
            if fail {
                proof {
                    assert(scan(body.take(i + 1 - start)).phase == 4);
                    lemma_scan_stays_failed(body, i + 1 - start, body.len() as int);
                    assert(body.take(body.len() as int) =~= body);
                    assert(text_value(text@) is None);
                }
                return None;
            }
            i = i + 1;
        }
        proof {
            assert(body.take(n - start) =~= body);
        }
        Decimal::finish(sc, negative, Ghost(scan(body)))
    }

    /// The number a finished reading denotes, or `None` when the reading did
    /// not end in a number.
    #[verifier::rlimit(50)]
    fn finish(sc: Scanner, negative: bool, Ghost(v): Ghost<ScanV>) -> (r: Option<Decimal>)
        requires
            tracks(sc, v),
        ensures
            (v.phase == 0 && v.count > 0) ==> (r matches Some(d) && d@ == held(
                negative,
                v.digits,
                0 - v.places,
            )),
            v.phase == 3 ==> (r matches Some(d) && d@ == held(
                negative,
                v.digits,
                (if v.exp_negative {
                    -v.exponent
                } else {
                    v.exponent as int
                }) - v.places,
            )),
            !((v.phase == 0 && v.count > 0) || v.phase == 3) ==> r is None,
    {
        if !((sc.phase == 0 && sc.count > 0) || sc.phase == 3) {
            return None;
        }
        let len = sc.digits.len();
        if len == 0 {
            return Some(Decimal { kind: Kind::Finite, negative, digits: Vec::new(), exp: 0 });
        }
        if sc.phase == 3 && sc.big {
            if sc.exp_negative {
                return Some(Decimal { kind: Kind::Finite, negative, digits: Vec::new(), exp: 0 });
            } else {
                return Some(Decimal { kind: Kind::Infinite, negative, digits: Vec::new(), exp: 0 });
            }
        }
        let written: i128 = if sc.phase == 3 {
            if sc.exp_negative {
                -(sc.exponent as i128)
            } else {
                sc.exponent as i128
            }
        } else {
            0
        };
        let exp = written - sc.places as i128;
        let top = len as i128 + exp;
        if top <= -324 {
            Some(Decimal { kind: Kind::Finite, negative, digits: Vec::new(), exp: 0 })
        } else if top >= 310 {
            Some(Decimal { kind: Kind::Infinite, negative, digits: Vec::new(), exp: 0 })
        } else {
            Some(Decimal { kind: Kind::Finite, negative, digits: sc.digits, exp })
        }
    }
}

// ---------------------------------------------------------------------------
// Precision.
// ---------------------------------------------------------------------------

/// How many ASCII digits follow the first point, and whether a point has been
/// met, in a left-to-right reading of `s`.
pub open spec fn places_scan(s: Seq<char>) -> (nat, bool)
    decreases s.len(),
{
    if s.len() == 0 {
        (0, false)
    } else {
        let (k, seen) = places_scan(s.drop_last());
        let c = s.last();
        if seen {
            (if '0' <= c && c <= '9' { k + 1 } else { k }, true)
        } else {
            (k, c == '.')
        }
    }
}

/// The number of ASCII digits after the first point of `s` (none without a
/// point).
pub open spec fn decimal_places(s: Seq<char>) -> nat {
    places_scan(s).0
}

/// Ten to the power `-k`, as a [`Decimal`] holds it: exactly down to
/// 10^-324, zero beyond.
pub open spec fn tenth_power(k: nat) -> DecimalV {
    held(false, seq![1u8], -k)
}

/// Of two powers of ten held as [`tenth_power`], the one [`at_least`] the
/// other is the one with fewer places.
pub proof fn lemma_tenth_power_order(a: nat, b: nat)
    ensures
        (if at_least(tenth_power(a), tenth_power(b)) {
            tenth_power(a)
        } else {
            tenth_power(b)
        }) == tenth_power(if a <= b { a } else { b }),
{
    let one = seq![1u8];
    assert(one.drop_last() =~= Seq::<u8>::empty());
    assert(digits_value(Seq::<u8>::empty()) == 0);
    assert(digits_value(one) == digits_value(one.drop_last()) * 10 + 1);
    assert(digits_value(one) == 1);
    let ta = tenth_power(a);
    let tb = tenth_power(b);
    let z = zero_value();
    let e = lowest(ta.exp, tb.exp, z.exp);
    lemma_pow10_positive((ta.exp - e) as nat);
    lemma_pow10_positive((tb.exp - e) as nat);
    assert(digits_value(z.digits) == 0);
    assert(scaled(z, e) == 0);
    if a < 325 {
        assert(ta.digits == one && ta.exp == -(a as int) && ta.kind == Kind::Finite && !ta.negative);
        assert(digits_value(ta.digits) == 1);
        assert(scaled(ta, e) == pow10((ta.exp - e) as nat));
    } else {
        assert(ta.digits.len() == 0 && ta.exp == 0 && ta.kind == Kind::Finite);
        assert(scaled(ta, e) == 0);
    }
    if b < 325 {
        assert(tb.digits == one && tb.exp == -(b as int) && tb.kind == Kind::Finite && !tb.negative);
        assert(digits_value(tb.digits) == 1);
        assert(scaled(tb, e) == pow10((tb.exp - e) as nat));
    } else {
        assert(tb.digits.len() == 0 && tb.exp == 0 && tb.kind == Kind::Finite);
        assert(scaled(tb, e) == 0);
    }
    if a < 325 && b < 325 {
        if a > b {
            assert(e == -(a as int));
            assert(scaled(ta, e) == 1);
            let n = (a - b) as nat;
            assert(pow10(n) == 10 * pow10((n - 1) as nat));
            lemma_pow10_positive((n - 1) as nat);
            assert((tb.exp - e) as nat == n);
            assert(scaled(tb, e) == pow10(n));
            assert(lin3(1, ta, -1, tb, 0, z) < 0);
        } else {
            assert(e == -(b as int));
            assert(scaled(tb, e) == 1);
            assert(lin3(1, ta, -1, tb, 0, z) >= 0);
        }
    } else if a < 325 {
        assert(lin3(1, ta, -1, tb, 0, z) > 0);
    } else if b < 325 {
        assert(lin3(1, ta, -1, tb, 0, z) < 0);
    } else {
        assert(lin3(1, ta, -1, tb, 0, z) == 0);
        assert(ta == tb);
    }
}

/// Ten to the power of minus the number of digits after the point in `text`:
/// the precision the text commits to.
pub fn resolution_from_decimals(text: &str) -> (r: Decimal)
    ensures
        r@ == tenth_power(decimal_places(text@)),
{
    let n = text.unicode_len();
    let mut count: u32 = 0;
    let mut seen = false;
    let mut i: usize = 0;
    while i < n
        invariant
            n == text@.len(),
            i <= n,
            places_scan(text@.take(i as int)).1 == seen,
            count <= 324 ==> places_scan(text@.take(i as int)).0 == count,
            count == 325 ==> places_scan(text@.take(i as int)).0 >= 325,
            count <= 325,
        decreases n - i,
    {
        let c = text.get_char(i);
        proof {
            assert(text@.take(i + 1).drop_last() =~= text@.take(i as int));
        }
        if seen {
            if '0' <= c && c <= '9' && count <= 324 {
                count = count + 1;
            }
            assert(places_scan(text@.take(i + 1)).0 >= places_scan(text@.take(i as int)).0);
        } else {
            seen = c == '.';
        }
        i = i + 1;
    }
    proof {
        assert(text@.take(n as int) =~= text@);
    }
    if count >= 325 {
        Decimal { kind: Kind::Finite, negative: false, digits: Vec::new(), exp: 0 }
    } else {
        let mut digits: Vec<u8> = Vec::new();
        digits.push(1);
        assert(digits@ =~= seq![1u8]);
        Decimal { kind: Kind::Finite, negative: false, digits, exp: -(count as i128) }
    }
}

} // verus!
