use bigdecimal::num_bigint::BigInt;
use bigdecimal::BigDecimal;
use bigdecimal::ToPrimitive;
use std::cmp::Ordering;
use std::str::FromStr;
use vstd::prelude::*;
use vstd::std_specs::convert::FromSpecImpl;
use vstd::std_specs::cmp::PartialEqSpecImpl;
use vstd::std_specs::cmp::PartialOrdSpecImpl;

verus! {

/// Ten to the power `n`.
pub open spec fn pow10(n: nat) -> nat
    decreases n,
{
    if n == 0 {
        1
    } else {
        10 * pow10((n - 1) as nat)
    }
}

/// The `Ordering` that stands for the sign of a difference.
pub open spec fn ordering_of(d: int) -> Ordering {
    if d < 0 {
        Ordering::Less
    } else if d == 0 {
        Ordering::Equal
    } else {
        Ordering::Greater
    }
}

/// A decimal number `digits * 10^(-scale)`.
///
/// Two prices with different scales may denote the same number; comparison
/// (`==`, `<`, `<=`, ...) is by the number denoted, never by the fields.
#[derive(Clone, Copy, Debug)]
pub struct Price {
    /// The unscaled integer value.
    pub digits: i128,
    /// How many of the digits stand behind the decimal point.
    pub scale: i64,
}

impl Price {
    /// The difference `self - other`, both brought to the larger of the two
    /// scales: its sign orders the two numbers.
    pub open spec fn diff(self, other: Price) -> int {
        if self.scale >= other.scale {
            self.digits - other.digits * pow10((self.scale - other.scale) as nat)
        } else {
            self.digits * pow10((other.scale - self.scale) as nat) - other.digits
        }
    }

    /// `self` denotes a smaller number than `other`.
    pub open spec fn below(self, other: Price) -> bool {
        self.diff(other) < 0
    }

    /// `self` denotes a number no larger than `other`.
    pub open spec fn at_most(self, other: Price) -> bool {
        self.diff(other) <= 0
    }

    /// `self` and `other` denote the same number.
    pub open spec fn same(self, other: Price) -> bool {
        self.diff(other) == 0
    }

    /// The number `self` brought to scale `s`, for `s >= self.scale`.
    pub open spec fn at_scale(self, s: int) -> int {
        self.digits * pow10((s - self.scale) as nat)
    }

    pub fn new(digits: i128, scale: i64) -> (p: Price)
        ensures
            p.digits == digits,
            p.scale == scale,
    {
        Price { digits, scale }
    }

    /// The price zero, with scale zero.
    pub fn zero() -> (p: Price)
        ensures
            p.digits == 0,
            p.scale == 0,
    {
        Price { digits: 0, scale: 0 }
    }

    /// Whether the number is below zero.
    pub fn is_negative(&self) -> (r: bool)
        ensures
            r == (self.digits < 0),
    {
        self.digits < 0
    }
}

/// Compares two decimals with `bigdecimal`'s `Ord::cmp` for `BigDecimal`,
/// each built by `BigDecimal::new` from its unscaled digits and scale.
///
/// Trusted: the result is the numeric order of `a.digits * 10^(-a.scale)` and
/// `b.digits * 10^(-b.scale)`, which is the sign of `a.diff(b)`.
#[verifier::external_body]
fn decimal_ordering(a: &Price, b: &Price) -> (o: Ordering)
    ensures
        o == ordering_of(a.diff(*b)),
{
    BigDecimal::new(BigInt::from(a.digits), a.scale).cmp(
        &BigDecimal::new(BigInt::from(b.digits), b.scale),
    )
}

/// The text that `bigdecimal` writes for the decimal `digits * 10^(-scale)`.
pub uninterp spec fn decimal_text(digits: i128, scale: i64) -> Seq<char>;

/// The unscaled digits and the scale that `bigdecimal` reads from `text`;
/// `None` where it reads no decimal or the digits do not fit 128 bits.
pub uninterp spec fn parsed_decimal(text: Seq<char>) -> Option<(i128, i64)>;

/// Writes a decimal with `bigdecimal`'s `Display` for `BigDecimal` (its
/// `to_string`), the decimal built by `BigDecimal::new`.
///
/// Trusted: the text depends on the digits and the scale alone. Which of
/// the plain and the exponent notations is used is fixed when `bigdecimal`
/// is built.
#[verifier::external_body]
fn write_decimal(p: &Price) -> (s: String)
    ensures
        s@ == decimal_text(p.digits, p.scale),
{
    BigDecimal::new(BigInt::from(p.digits), p.scale).to_string()
}

/// Reads a decimal with `bigdecimal`'s `FromStr` for `BigDecimal` and takes
/// it apart with `into_bigint_and_exponent`; the digits are narrowed with
/// `to_i128`.
///
/// Trusted: the result depends on the text alone.
#[verifier::external_body]
fn read_decimal(s: &str) -> (r: Option<(i128, i64)>)
    ensures
        r == parsed_decimal(s@),
{
    match BigDecimal::from_str(s) {
        Ok(d) => {
            let (digits, scale) = d.into_bigint_and_exponent();
            match digits.to_i128() {
                Some(n) => Some((n, scale)),
                None => None,
            }
        },
        Err(_) => None,
    }
}

impl Price {
    /// The price that `text` writes, if it writes one.
    pub open spec fn read(text: Seq<char>) -> Option<Price> {
        match parsed_decimal(text) {
            Some((digits, scale)) => Some(Price { digits: digits, scale: scale }),
            None => None,
        }
    }

    /// The text of the price.
    pub open spec fn text(self) -> Seq<char> {
        decimal_text(self.digits, self.scale)
    }

    /// Writes the price as a decimal.
    pub fn to_string(&self) -> (s: String)
        ensures
            s@ == self.text(),
    {
        write_decimal(self)
    }

    /// Reads a price from a decimal text.
    pub fn from_str(s: &str) -> (r: Option<Price>)
        ensures
            r == Self::read(s@),
    {
        match read_decimal(s) {
            Some((digits, scale)) => Some(Price { digits, scale }),
            None => None,
        }
    }
}

impl PartialEq for Price {
    fn eq(&self, other: &Price) -> (r: bool) {
        match decimal_ordering(self, other) {
            Ordering::Equal => true,
            _ => false,
        }
    }
}

impl Eq for Price {

}

impl PartialEqSpecImpl for Price {
    open spec fn obeys_eq_spec() -> bool {
        true
    }

    open spec fn eq_spec(&self, other: &Price) -> bool {
        self.diff(*other) == 0
    }
}

impl PartialOrd for Price {
    fn partial_cmp(&self, other: &Price) -> (r: Option<Ordering>) {
        Some(decimal_ordering(self, other))
    }
}

impl PartialOrdSpecImpl for Price {
    open spec fn obeys_partial_cmp_spec() -> bool {
        true
    }

    open spec fn partial_cmp_spec(&self, other: &Price) -> Option<Ordering> {
        Some(ordering_of(self.diff(*other)))
    }
}

impl From<i64> for Price {
    /// The whole number `n`, with scale zero.
    fn from(n: i64) -> (p: Price) {
        Price { digits: n as i128, scale: 0 }
    }
}

impl FromSpecImpl<i64> for Price {
    open spec fn obeys_from_spec() -> bool {
        true
    }

    open spec fn from_spec(n: i64) -> Price {
        Price { digits: n as i128, scale: 0 }
    }
}

impl Price {
    /// The order of the two numbers, as `Ord::cmp` would give it.
    pub fn compare(&self, other: &Price) -> (o: Ordering)
        ensures
            o == ordering_of(self.diff(*other)),
    {
        decimal_ordering(self, other)
    }
}

/// Powers of ten are positive.
pub proof fn lemma_pow10_positive(n: nat)
    ensures
        pow10(n) > 0,
    decreases n,
{
    if n > 0 {
        lemma_pow10_positive((n - 1) as nat);
    }
}

/// `10^(m + n) == 10^m * 10^n`.
pub proof fn lemma_pow10_adds(m: nat, n: nat)
    ensures
        pow10(m + n) == pow10(m) * pow10(n),
    decreases m,
{
    if m == 0 {
        assert(pow10(0) == 1);
        assert(pow10(m + n) == 1 * pow10(n));
    } else {
        let k = (m - 1) as nat;
        lemma_pow10_adds(k, n);
        assert(pow10(m + n) == 10 * pow10(k + n));
        assert(pow10(m) == 10 * pow10(k));
        assert(10 * (pow10(k) * pow10(n)) == (10 * pow10(k)) * pow10(n)) by (nonlinear_arith);
    }
}

/// At any scale `s` that both prices reach, the difference of the two scaled
/// numbers is `diff` times a positive power of ten.
pub proof fn lemma_diff_at_scale(a: Price, b: Price, s: int)
    requires
        s >= a.scale,
        s >= b.scale,
    ensures
        a.at_scale(s) - b.at_scale(s) == a.diff(b) * pow10(
            (s - if a.scale >= b.scale {
                a.scale
            } else {
                b.scale
            }) as nat,
        ),
{
    if a.scale >= b.scale {
        let up = (s - a.scale) as nat;
        let gap = (a.scale - b.scale) as nat;
        lemma_pow10_adds(gap, up);
        assert((s - b.scale) as nat == gap + up);
        assert(a.digits * pow10(up) - b.digits * (pow10(gap) * pow10(up)) == (a.digits - b.digits
            * pow10(gap)) * pow10(up)) by (nonlinear_arith);
    } else {
        let up = (s - b.scale) as nat;
        let gap = (b.scale - a.scale) as nat;
        lemma_pow10_adds(gap, up);
        assert((s - a.scale) as nat == gap + up);
        assert(a.digits * (pow10(gap) * pow10(up)) - b.digits * pow10(up) == (a.digits * pow10(gap)
            - b.digits) * pow10(up)) by (nonlinear_arith);
    }
}

/// The sign of `diff` is the sign of the difference at any common scale.
pub proof fn lemma_diff_sign(a: Price, b: Price, s: int)
    requires
        s >= a.scale,
        s >= b.scale,
    ensures
        a.diff(b) < 0 <==> a.at_scale(s) < b.at_scale(s),
        a.diff(b) == 0 <==> a.at_scale(s) == b.at_scale(s),
        a.diff(b) > 0 <==> a.at_scale(s) > b.at_scale(s),
{
    let top = if a.scale >= b.scale {
        a.scale
    } else {
        b.scale
    };
    let p = pow10((s - top) as nat);
    let d = a.diff(b);
    lemma_diff_at_scale(a, b, s);
    lemma_pow10_positive((s - top) as nat);
    assert(p > 0 ==> ((d < 0 <==> d * p < 0) && (d == 0 <==> d * p == 0) && (d > 0 <==> d * p > 0)))
        by (nonlinear_arith);
}

/// Comparing the other way round flips the sign.
pub proof fn lemma_diff_flips(a: Price, b: Price)
    ensures
        a.diff(b) < 0 <==> b.diff(a) > 0,
        a.diff(b) == 0 <==> b.diff(a) == 0,
        a.diff(a) == 0,
{
    let s: int = if a.scale >= b.scale {
        a.scale as int
    } else {
        b.scale as int
    };
    lemma_diff_sign(a, b, s);
    lemma_diff_sign(b, a, s);
    lemma_diff_sign(a, a, a.scale as int);
}

/// The order of prices is transitive, and strict as soon as one step is.
pub proof fn lemma_order_transitive(a: Price, b: Price, c: Price)
    requires
        a.at_most(b),
        b.at_most(c),
    ensures
        a.at_most(c),
        a.below(b) || b.below(c) ==> a.below(c),
        a.same(b) && b.same(c) ==> a.same(c),
{
    let ab = if a.scale >= b.scale {
        a.scale
    } else {
        b.scale
    };
    let s: int = if ab >= c.scale {
        ab as int
    } else {
        c.scale as int
    };
    lemma_diff_sign(a, b, s);
    lemma_diff_sign(b, c, s);
    lemma_diff_sign(a, c, s);
}

} // verus!
