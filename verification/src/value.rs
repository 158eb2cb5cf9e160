//! The numeric value kind of the language.
//!
//! Numbers are exact signed rationals held as a sign flag, a numerator and a
//! positive denominator, extended with two signed infinities and a
//! not-a-number value so that division by zero and overflow behave in the
//! familiar IEEE style (`x / 0` is an infinity, `0 / 0` is `NaN`, `NaN`
//! compares unequal to everything, `-0` equals `0`). Every operation reduces
//! its result to lowest terms; a reduced numerator that does not fit in 64
//! bits overflows to an infinity, and a reduced denominator that does not
//! fit underflows to zero. Exponents must be whole numbers; a fractional or
//! transfinite exponent yields `NaN`.

use vstd::prelude::*;

verus! {

use crate::text::push_char;
use vstd::string::StringExecFns;

/// The greatest common divisor, by Euclid's rule; `gcd(a, 0) == a`.
pub open spec fn gcd(a: nat, b: nat) -> nat
    decreases b,
{
    if b == 0 {
        a
    } else {
        gcd(b, a % b)
    }
}

/// A positive second argument bounds the divisor from both sides.
pub proof fn lemma_gcd_bounds(a: nat, b: nat)
    requires
        b >= 1,
    ensures
        1 <= gcd(a, b) <= b,
    decreases b,
{
    if a % b == 0 {
        assert(gcd(a, b) == gcd(b, 0));
    } else {
        lemma_gcd_bounds(b, a % b);
    }
}

/// A number: a signed rational in lowest terms, a signed infinity, or
/// not-a-number.
#[derive(Clone, Copy, PartialEq, Eq, Structural, Debug)]
pub enum Num {
    Rat { neg: bool, num: u64, den: u64 },
    Inf { neg: bool },
    NaN,
}

/// The reduced number with magnitude `n / d` and the given sign: divide both
/// parts by their greatest common divisor, then overflow a too-large
/// numerator to an infinity and underflow a too-large denominator to zero.
pub open spec fn canon(neg: bool, n: nat, d: nat) -> Num
    recommends
        d >= 1,
{
    let g = gcd(n, d);
    let nc = n / g;
    let dc = d / g;
    if nc > u64::MAX {
        Num::Inf { neg }
    } else if dc > u64::MAX {
        Num::Rat { neg, num: 0, den: 1 }
    } else {
        Num::Rat { neg, num: nc as u64, den: dc as u64 }
    }
}

pub proof fn lemma_canon_wf(neg: bool, n: nat, d: nat)
    requires
        d >= 1,
    ensures
        canon(neg, n, d).wf(),
{
    lemma_gcd_bounds(n, d);
    let g = gcd(n, d);
    assert(d / g >= 1) by (nonlinear_arith)
        requires 1 <= g <= d;
}

impl Num {
    /// Denominators are positive; this is the one structural invariant.
    pub open spec fn wf(self) -> bool {
        match self {
            Num::Rat { neg, num, den } => den >= 1,
            _ => true,
        }
    }

    /// Positive zero.
    pub open spec fn zero_s() -> Num {
        Num::Rat { neg: false, num: 0, den: 1 }
    }

    /// One.
    pub open spec fn one_s() -> Num {
        Num::Rat { neg: false, num: 1, den: 1 }
    }

    pub open spec fn is_nan(self) -> bool {
        self is NaN
    }

    /// The whole number `n`.
    pub fn from_u64(n: u64) -> (r: Num)
        ensures
            r == (Num::Rat { neg: false, num: n, den: 1 }),
            r.wf(),
    {
        Num::Rat { neg: false, num: n, den: 1 }
    }
}

/// The sign flip; on `NaN` the identity.
pub open spec fn num_neg(a: Num) -> Num {
    match a {
        Num::Rat { neg, num, den } => Num::Rat { neg: !neg, num, den },
        Num::Inf { neg } => Num::Inf { neg: !neg },
        Num::NaN => Num::NaN,
    }
}

/// The sum. Finite values are added exactly over a common denominator and
/// reduced; opposite infinities give `NaN`; exact cancellation gives
/// positive zero.
pub open spec fn num_add(a: Num, b: Num) -> Num {
    match (a, b) {
        (Num::NaN, _) => Num::NaN,
        (_, Num::NaN) => Num::NaN,
        (Num::Inf { neg: n1 }, Num::Inf { neg: n2 }) => if n1 == n2 {
            Num::Inf { neg: n1 }
        } else {
            Num::NaN
        },
        (Num::Inf { neg: n1 }, _) => Num::Inf { neg: n1 },
        (_, Num::Inf { neg: n2 }) => Num::Inf { neg: n2 },
        (
            Num::Rat { neg: g1, num: n1, den: d1 },
            Num::Rat { neg: g2, num: n2, den: d2 },
        ) => {
            let p1 = (n1 as nat) * (d2 as nat);
            let p2 = (n2 as nat) * (d1 as nat);
            let d = (d1 as nat) * (d2 as nat);
            if g1 == g2 {
                if p1 + p2 > u128::MAX {
                    Num::Inf { neg: g1 }
                } else {
                    canon(g1, p1 + p2, d)
                }
            } else if p1 == p2 {
                Num::zero_s()
            } else if p1 > p2 {
                canon(g1, (p1 - p2) as nat, d)
            } else {
                canon(g2, (p2 - p1) as nat, d)
            }
        },
    }
}

/// The difference: the sum with the right operand's sign flipped.
pub open spec fn num_sub(a: Num, b: Num) -> Num {
    num_add(a, num_neg(b))
}

/// The product. Signs combine by exclusive or; an infinity times zero is
/// `NaN`.
pub open spec fn num_mul(a: Num, b: Num) -> Num {
    match (a, b) {
        (Num::NaN, _) => Num::NaN,
        (_, Num::NaN) => Num::NaN,
        (Num::Inf { neg: n1 }, Num::Inf { neg: n2 }) => Num::Inf { neg: n1 != n2 },
        (Num::Inf { neg: n1 }, Num::Rat { neg: g2, num: n2, den: d2 }) => if n2 == 0 {
            Num::NaN
        } else {
            Num::Inf { neg: n1 != g2 }
        },
        (Num::Rat { neg: g1, num: n1, den: d1 }, Num::Inf { neg: n2 }) => if n1 == 0 {
            Num::NaN
        } else {
            Num::Inf { neg: g1 != n2 }
        },
        (
            Num::Rat { neg: g1, num: n1, den: d1 },
            Num::Rat { neg: g2, num: n2, den: d2 },
        ) => canon(g1 != g2, (n1 as nat) * (n2 as nat), (d1 as nat) * (d2 as nat)),
    }
}

/// The quotient. Division by zero gives a signed infinity, except that zero
/// over zero is `NaN`; a finite value over an infinity is a signed zero.
pub open spec fn num_div(a: Num, b: Num) -> Num {
    match (a, b) {
        (Num::NaN, _) => Num::NaN,
        (_, Num::NaN) => Num::NaN,
        (Num::Inf { neg: n1 }, Num::Inf { neg: n2 }) => Num::NaN,
        (Num::Inf { neg: n1 }, Num::Rat { neg: g2, num: n2, den: d2 }) => Num::Inf {
            neg: n1 != g2,
        },
        (Num::Rat { neg: g1, num: n1, den: d1 }, Num::Inf { neg: n2 }) => Num::Rat {
            neg: g1 != n2,
            num: 0,
            den: 1,
        },
        (
            Num::Rat { neg: g1, num: n1, den: d1 },
            Num::Rat { neg: g2, num: n2, den: d2 },
        ) => {
            if n2 == 0 {
                if n1 == 0 {
                    Num::NaN
                } else {
                    Num::Inf { neg: g1 != g2 }
                }
            } else {
                canon(g1 != g2, (n1 as nat) * (d2 as nat), (d1 as nat) * (n2 as nat))
            }
        },
    }
}

/// Value equality: `NaN` equals nothing, `-0` equals `0`, finite values
/// compare by cross multiplication.
pub open spec fn num_eq(a: Num, b: Num) -> bool {
    match (a, b) {
        (Num::NaN, _) => false,
        (_, Num::NaN) => false,
        (Num::Inf { neg: n1 }, Num::Inf { neg: n2 }) => n1 == n2,
        (Num::Inf { .. }, Num::Rat { .. }) => false,
        (Num::Rat { .. }, Num::Inf { .. }) => false,
        (
            Num::Rat { neg: g1, num: n1, den: d1 },
            Num::Rat { neg: g2, num: n2, den: d2 },
        ) => (n1 == 0 && n2 == 0) || (g1 == g2 && (n1 as nat) * (d2 as nat) == (n2 as nat)
            * (d1 as nat)),
    }
}

/// Strict order: `NaN` is below nothing and above nothing, the negative
/// infinity is below everything else, finite values compare by sign and
/// cross multiplication.
pub open spec fn num_lt(a: Num, b: Num) -> bool {
    match (a, b) {
        (Num::NaN, _) => false,
        (_, Num::NaN) => false,
        (Num::Inf { neg: n1 }, Num::Inf { neg: n2 }) => n1 && !n2,
        (Num::Inf { neg: n1 }, Num::Rat { .. }) => n1,
        (Num::Rat { .. }, Num::Inf { neg: n2 }) => !n2,
        (
            Num::Rat { neg: g1, num: n1, den: d1 },
            Num::Rat { neg: g2, num: n2, den: d2 },
        ) => {
            let p1 = (n1 as nat) * (d2 as nat);
            let p2 = (n2 as nat) * (d1 as nat);
            if !g1 && !g2 {
                p1 < p2
            } else if g1 && g2 {
                p2 < p1
            } else if g1 && !g2 {
                !(n1 == 0 && n2 == 0)
            } else {
                false
            }
        },
    }
}

/// Non-strict order; false whenever `NaN` is involved.
pub open spec fn num_le(a: Num, b: Num) -> bool {
    num_lt(a, b) || num_eq(a, b)
}

/// Left-folded whole-number power: `pow_n(b, e)` is `b` multiplied into one,
/// `e` times.
pub open spec fn pow_n(b: Num, e: nat) -> Num
    decreases e,
{
    if e == 0 {
        Num::one_s()
    } else {
        num_mul(pow_n(b, (e - 1) as nat), b)
    }
}

/// The power. A zero exponent gives one whatever the base; a whole exponent
/// gives the repeated product, with a negative exponent taking the
/// reciprocal; any other exponent gives `NaN`.
pub open spec fn num_pow(a: Num, b: Num) -> Num {
    match b {
        Num::Rat { neg, num, den } => if num == 0 {
            Num::one_s()
        } else if den == 1 {
            if neg {
                num_div(Num::one_s(), pow_n(a, num as nat))
            } else {
                pow_n(a, num as nat)
            }
        } else {
            Num::NaN
        },
        _ => Num::NaN,
    }
}

/// Whether `c` is one of the ten decimal digit characters.
pub open spec fn is_digit_char(c: char) -> bool {
    48 <= c as u32 && c as u32 <= 57
}

/// The value of a digit character; zero on anything else.
pub open spec fn char_digit(c: char) -> nat {
    if is_digit_char(c) {
        (c as u32 - 48) as nat
    } else {
        0
    }
}

/// The value of a string of digit characters, most significant first.
pub open spec fn digits_val(s: Seq<char>) -> nat
    decreases s.len(),
{
    if s.len() == 0 {
        0
    } else {
        digits_val(s.drop_last()) * 10 + char_digit(s.last())
    }
}

pub proof fn lemma_digits_val_push(s: Seq<char>, c: char)
    ensures
        digits_val(s.push(c)) == digits_val(s) * 10 + char_digit(c),
{
    assert(s.push(c).drop_last() =~= s);
    assert(s.push(c).last() == c);
}

/// The power of ten `10^e`.
pub open spec fn pow10(e: nat) -> nat
    decreases e,
{
    if e == 0 {
        1
    } else {
        pow10((e - 1) as nat) * 10
    }
}

pub proof fn lemma_pow10_mono(a: nat, b: nat)
    requires
        a <= b,
    ensures
        1 <= pow10(a) <= pow10(b),
    decreases b,
{
    if b == 0 {
    } else if a == b {
        lemma_pow10_mono((b - 1) as nat, (b - 1) as nat);
    } else {
        lemma_pow10_mono(a, (b - 1) as nat);
    }
}

/// The digit character for a value below ten.
pub open spec fn digit_char(d: nat) -> char {
    if d == 0 {
        '0'
    } else if d == 1 {
        '1'
    } else if d == 2 {
        '2'
    } else if d == 3 {
        '3'
    } else if d == 4 {
        '4'
    } else if d == 5 {
        '5'
    } else if d == 6 {
        '6'
    } else if d == 7 {
        '7'
    } else if d == 8 {
        '8'
    } else {
        '9'
    }
}

/// The decimal digit string of `n`, without a sign.
pub open spec fn dec_str(n: nat) -> Seq<char>
    decreases n,
{
    if n < 10 {
        seq![digit_char(n)]
    } else {
        dec_str(n / 10).push(digit_char(n % 10))
    }
}

/// The number a literal with integer digits `ds` and fraction digits `fs`
/// stands for: the exact value of `ds.fs`, reduced. Only the first nineteen
/// fraction digits count; an integer part beyond the 128-bit range
/// overflows to the positive infinity.
pub open spec fn num_of_digits(ds: Seq<char>, fs: Seq<char>) -> Num {
    let flen = if fs.len() <= 19 { fs.len() } else { 19nat };
    let fsv = digits_val(fs.take(flen as int));
    let v = digits_val(ds) * pow10(flen) + fsv;
    if v > u128::MAX {
        Num::Inf { neg: false }
    } else {
        canon(false, v, pow10(flen))
    }
}

/// Euclid's algorithm.
fn gcd_u128(a0: u128, b0: u128) -> (g: u128)
    requires
        b0 >= 1,
    ensures
        g as nat == gcd(a0 as nat, b0 as nat),
        1 <= g <= b0,
{
    proof {
        lemma_gcd_bounds(a0 as nat, b0 as nat);
    }
    let mut a: u128 = a0;
    let mut b: u128 = b0;
    while b != 0
        invariant
            gcd(a as nat, b as nat) == gcd(a0 as nat, b0 as nat),
            a >= 1 || b >= 1,
        decreases b,
    {
        let t: u128 = a % b;
        a = b;
        b = t;
    }
    a
}

/// The reduced number with magnitude `n / d` and the given sign.
fn canon_u128(neg: bool, n: u128, d: u128) -> (r: Num)
    requires
        d >= 1,
    ensures
        r == canon(neg, n as nat, d as nat),
        r.wf(),
{
    proof {
        lemma_canon_wf(neg, n as nat, d as nat);
    }
    let g = gcd_u128(n, d);
    let nc = n / g;
    let dc = d / g;
    if nc > u64::MAX as u128 {
        Num::Inf { neg }
    } else if dc > u64::MAX as u128 {
        Num::Rat { neg, num: 0, den: 1 }
    } else {
        Num::Rat { neg, num: nc as u64, den: dc as u64 }
    }
}

proof fn lemma_u64_products_fit(x: nat, y: nat)
    requires
        x <= u64::MAX,
        y <= u64::MAX,
    ensures
        x * y <= u128::MAX,
        x >= 1 && y >= 1 ==> x * y >= 1,
{
    assert(x * y <= u128::MAX && (x >= 1 && y >= 1 ==> x * y >= 1)) by (nonlinear_arith)
        requires
            x <= u64::MAX,
            y <= u64::MAX,
    ;
}

impl Num {
    /// The sign flip.
    pub fn neg(self) -> (r: Num)
        requires
            self.wf(),
        ensures
            r == num_neg(self),
            r.wf(),
    {
        match self {
            Num::Rat { neg, num, den } => Num::Rat { neg: !neg, num, den },
            Num::Inf { neg } => Num::Inf { neg: !neg },
            Num::NaN => Num::NaN,
        }
    }

    /// The sum.
    pub fn add_num(self, other: Num) -> (r: Num)
        requires
            self.wf(),
            other.wf(),
        ensures
            r == num_add(self, other),
            r.wf(),
    {
        match (self, other) {
            (Num::NaN, _) => Num::NaN,
            (_, Num::NaN) => Num::NaN,
            (Num::Inf { neg: n1 }, Num::Inf { neg: n2 }) => if n1 == n2 {
                Num::Inf { neg: n1 }
            } else {
                Num::NaN
            },
            (Num::Inf { neg: n1 }, _) => Num::Inf { neg: n1 },
            (_, Num::Inf { neg: n2 }) => Num::Inf { neg: n2 },
            (
                Num::Rat { neg: g1, num: n1, den: d1 },
                Num::Rat { neg: g2, num: n2, den: d2 },
            ) => {
                proof {
                    lemma_u64_products_fit(n1 as nat, d2 as nat);
                    lemma_u64_products_fit(n2 as nat, d1 as nat);
                    lemma_u64_products_fit(d1 as nat, d2 as nat);
                }
                let p1 = (n1 as u128) * (d2 as u128);
                let p2 = (n2 as u128) * (d1 as u128);
                let d = (d1 as u128) * (d2 as u128);
                if g1 == g2 {
                    match p1.checked_add(p2) {
                        Some(s) => canon_u128(g1, s, d),
                        None => Num::Inf { neg: g1 },
                    }
                } else if p1 == p2 {
                    Num::Rat { neg: false, num: 0, den: 1 }
                } else if p1 > p2 {
                    canon_u128(g1, p1 - p2, d)
                } else {
                    canon_u128(g2, p2 - p1, d)
                }
            },
        }
    }

    /// The difference.
    pub fn sub_num(self, other: Num) -> (r: Num)
        requires
            self.wf(),
            other.wf(),
        ensures
            r == num_sub(self, other),
            r.wf(),
    {
        self.add_num(other.neg())
    }

    /// The product.
    pub fn mul_num(self, other: Num) -> (r: Num)
        requires
            self.wf(),
            other.wf(),
        ensures
            r == num_mul(self, other),
            r.wf(),
    {
        match (self, other) {
            (Num::NaN, _) => Num::NaN,
            (_, Num::NaN) => Num::NaN,
            (Num::Inf { neg: n1 }, Num::Inf { neg: n2 }) => Num::Inf { neg: n1 != n2 },
            (Num::Inf { neg: n1 }, Num::Rat { neg: g2, num: n2, den: d2 }) => if n2 == 0 {
                Num::NaN
            } else {
                Num::Inf { neg: n1 != g2 }
            },
            (Num::Rat { neg: g1, num: n1, den: d1 }, Num::Inf { neg: n2 }) => if n1 == 0 {
                Num::NaN
            } else {
                Num::Inf { neg: g1 != n2 }
            },
            (
                Num::Rat { neg: g1, num: n1, den: d1 },
                Num::Rat { neg: g2, num: n2, den: d2 },
            ) => {
                proof {
                    lemma_u64_products_fit(n1 as nat, n2 as nat);
                    lemma_u64_products_fit(d1 as nat, d2 as nat);
                }
                canon_u128(g1 != g2, (n1 as u128) * (n2 as u128), (d1 as u128) * (d2 as u128))
            },
        }
    }

    /// The quotient.
    pub fn div_num(self, other: Num) -> (r: Num)
        requires
            self.wf(),
            other.wf(),
        ensures
            r == num_div(self, other),
            r.wf(),
    {
        match (self, other) {
            (Num::NaN, _) => Num::NaN,
            (_, Num::NaN) => Num::NaN,
            (Num::Inf { neg: n1 }, Num::Inf { neg: n2 }) => Num::NaN,
            (Num::Inf { neg: n1 }, Num::Rat { neg: g2, num: n2, den: d2 }) => Num::Inf {
                neg: n1 != g2,
            },
            (Num::Rat { neg: g1, num: n1, den: d1 }, Num::Inf { neg: n2 }) => Num::Rat {
                neg: g1 != n2,
                num: 0,
                den: 1,
            },
            (
                Num::Rat { neg: g1, num: n1, den: d1 },
                Num::Rat { neg: g2, num: n2, den: d2 },
            ) => {
                if n2 == 0 {
                    if n1 == 0 {
                        Num::NaN
                    } else {
                        Num::Inf { neg: g1 != g2 }
                    }
                } else {
                    proof {
                        lemma_u64_products_fit(n1 as nat, d2 as nat);
                        lemma_u64_products_fit(d1 as nat, n2 as nat);
                    }
                    canon_u128(g1 != g2, (n1 as u128) * (d2 as u128), (d1 as u128) * (n2 as u128))
                }
            },
        }
    }

    /// Value equality of two numbers.
    pub fn eq_num(self, other: Num) -> (r: bool)
        requires
            self.wf(),
            other.wf(),
        ensures
            r == num_eq(self, other),
    {
        match (self, other) {
            (Num::NaN, _) => false,
            (_, Num::NaN) => false,
            (Num::Inf { neg: n1 }, Num::Inf { neg: n2 }) => n1 == n2,
            (Num::Inf { .. }, Num::Rat { .. }) => false,
            (Num::Rat { .. }, Num::Inf { .. }) => false,
            (
                Num::Rat { neg: g1, num: n1, den: d1 },
                Num::Rat { neg: g2, num: n2, den: d2 },
            ) => {
                proof {
                    lemma_u64_products_fit(n1 as nat, d2 as nat);
                    lemma_u64_products_fit(n2 as nat, d1 as nat);
                }
                (n1 == 0 && n2 == 0) || (g1 == g2 && (n1 as u128) * (d2 as u128) == (n2 as u128)
                    * (d1 as u128))
            },
        }
    }

    /// Strict order of two numbers.
    pub fn lt_num(self, other: Num) -> (r: bool)
        requires
            self.wf(),
            other.wf(),
        ensures
            r == num_lt(self, other),
    {
        match (self, other) {
            (Num::NaN, _) => false,
            (_, Num::NaN) => false,
            (Num::Inf { neg: n1 }, Num::Inf { neg: n2 }) => n1 && !n2,
            (Num::Inf { neg: n1 }, Num::Rat { .. }) => n1,
            (Num::Rat { .. }, Num::Inf { neg: n2 }) => !n2,
            (
                Num::Rat { neg: g1, num: n1, den: d1 },
                Num::Rat { neg: g2, num: n2, den: d2 },
            ) => {
                proof {
                    lemma_u64_products_fit(n1 as nat, d2 as nat);
                    lemma_u64_products_fit(n2 as nat, d1 as nat);
                }
                let p1 = (n1 as u128) * (d2 as u128);
                let p2 = (n2 as u128) * (d1 as u128);
                if !g1 && !g2 {
                    p1 < p2
                } else if g1 && g2 {
                    p2 < p1
                } else if g1 && !g2 {
                    !(n1 == 0 && n2 == 0)
                } else {
                    false
                }
            },
        }
    }

    /// Non-strict order of two numbers.
    pub fn le_num(self, other: Num) -> (r: bool)
        requires
            self.wf(),
            other.wf(),
        ensures
            r == num_le(self, other),
    {
        self.lt_num(other) || self.eq_num(other)
    }

    /// The power, for a whole-number exponent; see `num_pow`.
    pub fn pow_num(self, other: Num) -> (r: Num)
        requires
            self.wf(),
            other.wf(),
        ensures
            r == num_pow(self, other),
            r.wf(),
    {
        match other {
            Num::Rat { neg, num, den } => {
                if num == 0 {
                    Num::Rat { neg: false, num: 1, den: 1 }
                } else if den == 1 {
                    let p = self.pow_whole(num);
                    if neg {
                        Num::Rat { neg: false, num: 1, den: 1 }.div_num(p)
                    } else {
                        p
                    }
                } else {
                    Num::NaN
                }
            },
            _ => Num::NaN,
        }
    }

    /// The printed form of a number: `NaN`, `inf` or `-inf`, or the sign
    /// and the reduced numerator, with `/` and the denominator when the
    /// value is not whole.
    pub open spec fn display_seq(self) -> Seq<char> {
        match self {
            Num::NaN => "NaN"@,
            Num::Inf { neg } => if neg {
                "-inf"@
            } else {
                "inf"@
            },
            Num::Rat { neg, num, den } => (if neg {
                seq!['-']
            } else {
                Seq::<char>::empty()
            }) + dec_str(num as nat) + (if den == 1 {
                Seq::<char>::empty()
            } else {
                seq!['/'] + dec_str(den as nat)
            }),
        }
    }

    /// The annotated form used when listing tokens: as `display_seq`, but a
    /// whole number carries a trailing `.0`.
    pub open spec fn debug_seq(self) -> Seq<char> {
        match self {
            Num::Rat { neg, num, den } => if den == 1 {
                (if neg {
                    seq!['-']
                } else {
                    Seq::<char>::empty()
                }) + dec_str(num as nat) + ".0"@
            } else {
                self.display_seq()
            },
            _ => self.display_seq(),
        }
    }

    /// The printed form of this number.
    pub fn display_string(self) -> (s: String)
        requires
            self.wf(),
        ensures
            s@ == self.display_seq(),
    {
        let mut s = String::new();
        match self {
            Num::NaN => {
                s.append("NaN");
            },
            Num::Inf { neg } => {
                if neg {
                    s.append("-inf");
                } else {
                    s.append("inf");
                }
            },
            Num::Rat { neg, num, den } => {
                if neg {
                    push_char(&mut s, '-');
                }
                push_dec(&mut s, num);
                if den != 1 {
                    push_char(&mut s, '/');
                    push_dec(&mut s, den);
                }
            },
        }
        proof {
            assert(s@ =~= self.display_seq());
        }
        s
    }

    /// The annotated form used when listing tokens.
    pub fn debug_string(self) -> (s: String)
        requires
            self.wf(),
        ensures
            s@ == self.debug_seq(),
    {
        match self {
            Num::Rat { neg, num, den } => {
                if den == 1 {
                    let mut s = String::new();
                    if neg {
                        push_char(&mut s, '-');
                    }
                    push_dec(&mut s, num);
                    s.append(".0");
                    proof {
                        assert(s@ =~= self.debug_seq());
                    }
                    s
                } else {
                    self.display_string()
                }
            },
            _ => self.display_string(),
        }
    }

    /// The repeated product `pow_n(self, e)`.
    fn pow_whole(self, e: u64) -> (r: Num)
        requires
            self.wf(),
        ensures
            r == pow_n(self, e as nat),
            r.wf(),
    {
        let mut acc = Num::Rat { neg: false, num: 1, den: 1 };
        let mut i: u64 = 0;
        while i < e
            invariant
                self.wf(),
                acc.wf(),
                i <= e,
                acc == pow_n(self, i as nat),
            decreases e - i,
    {
            acc = acc.mul_num(self);
            i = i + 1;
        }
        acc
    }
}

/// A digit string's value is below the power of ten of its length.
pub proof fn lemma_digits_val_bound(s: Seq<char>)
    ensures
        digits_val(s) < pow10(s.len()),
    decreases s.len(),
{
    if s.len() == 0 {
    } else {
        lemma_digits_val_bound(s.drop_last());
    }
}

/// The digit character for `d`.
fn digit_char_u64(d: u64) -> (c: char)
    requires
        d < 10,
    ensures
        c == digit_char(d as nat),
{
    if d == 0 {
        '0'
    } else if d == 1 {
        '1'
    } else if d == 2 {
        '2'
    } else if d == 3 {
        '3'
    } else if d == 4 {
        '4'
    } else if d == 5 {
        '5'
    } else if d == 6 {
        '6'
    } else if d == 7 {
        '7'
    } else if d == 8 {
        '8'
    } else {
        '9'
    }
}

/// Appends the decimal digits of `n`.
pub(crate) fn push_dec(s: &mut String, n: u64)
    ensures
        final(s)@ == old(s)@ + dec_str(n as nat),
    decreases n,
{
    if n < 10 {
        push_char(s, digit_char_u64(n));
        proof {
            assert(final(s)@ =~= old(s)@ + dec_str(n as nat));
        }
    } else {
        push_dec(s, n / 10);
        push_char(s, digit_char_u64(n % 10));
        proof {
            assert(final(s)@ =~= old(s)@ + dec_str(n as nat));
        }
    }
}

/// The numeric value of a digit character.
pub(crate) fn char_digit_u64(c: char) -> (d: u64)
    requires
        is_digit_char(c),
    ensures
        d as nat == char_digit(c),
        d < 10,
{
    ((c as u32) - 48) as u64
}

/// One step of reading an integer part left to right: multiply the
/// accumulator by ten and add the digit, tracking overflow of the 128-bit
/// range.
pub(crate) fn acc_digit(acc: u128, ovf: bool, c: char) -> (res: (u128, bool))
    requires
        is_digit_char(c),
    ensures
        res.1 == (ovf || acc * 10 + char_digit(c) > u128::MAX),
        !res.1 ==> res.0 as nat == acc * 10 + char_digit(c),
{
    if ovf {
        (0, true)
    } else {
        let d = char_digit_u64(c);
        match acc.checked_mul(10) {
            Some(t) => match t.checked_add(d as u128) {
                Some(v) => (v, false),
                None => (0, true),
            },
            None => (0, true),
        }
    }
}

/// The number a scanned literal stands for, from the accumulated integer
/// part (with its overflow flag) and the accumulated fraction part; see
/// `num_of_digits` for the meaning of the arguments.
pub(crate) fn build_num(
    iacc: u128,
    iovf: bool,
    facc: u64,
    den: u64,
    ds: Ghost<Seq<char>>,
    fs: Ghost<Seq<char>>,
) -> (r: Num)
    requires
        !iovf ==> iacc as nat == digits_val(ds@),
        iovf ==> digits_val(ds@) > u128::MAX,
        ({
            let flen = if fs@.len() <= 19 { fs@.len() } else { 19nat };
            den as nat == pow10(flen) && facc as nat == digits_val(fs@.take(flen as int))
        }),
    ensures
        r == num_of_digits(ds@, fs@),
        r.wf(),
{
    let ghost flen: nat = if fs@.len() <= 19 { fs@.len() } else { 19nat };
    proof {
        lemma_pow10_mono(0, flen);
        if iovf {
            assert(digits_val(ds@) * pow10(flen) >= digits_val(ds@)) by (nonlinear_arith)
                requires
                    pow10(flen) >= 1,
                    digits_val(ds@) >= 0,
            ;
        }
    }
    if iovf {
        Num::Inf { neg: false }
    } else {
        match iacc.checked_mul(den as u128) {
            None => Num::Inf { neg: false },
            Some(t) => match t.checked_add(facc as u128) {
                None => Num::Inf { neg: false },
                Some(v) => canon_u128(false, v, den as u128),
            },
        }
    }
}

} // verus!
