//! Parameter values and the expansion of parameterized command templates.
//!
//! A parameter is bound to text or to a number; a number is an integer or a
//! decimal. A decimal is a mantissa with a decimal scale: `mantissa / 10^scale`,
//! the scale at most 18 so that every alignment fits signed 64-bit arithmetic.
//! Templates are expanded over the cartesian product of all parameter axes,
//! with `{name}` tokens substituted by each bound value's text.

use crate::units::{dec_digits, padded_digits, u64_to_padded_string, u64_to_string};
use vstd::prelude::*;

verus! {

/// Largest admissible decimal scale: `10^18` still fits a signed 64-bit word.
pub const MAX_DECIMAL_SCALE: u32 = 18;

/// `10^n`.
pub open spec fn pow10(n: nat) -> int
    decreases n,
{
    if n == 0 {
        1
    } else {
        10 * pow10((n - 1) as nat)
    }
}

/// Powers of ten are positive.
pub proof fn lemma_pow10_pos(n: nat)
    ensures
        pow10(n) >= 1,
    decreases n,
{
    if n > 0 {
        lemma_pow10_pos((n - 1) as nat);
    }
}

/// Powers of ten grow with the exponent.
pub proof fn lemma_pow10_mono(a: nat, b: nat)
    requires
        a <= b,
    ensures
        pow10(a) <= pow10(b),
    decreases b,
{
    if a < b {
        lemma_pow10_mono(a, (b - 1) as nat);
        lemma_pow10_pos((b - 1) as nat);
    }
}

/// Powers of ten multiply by adding exponents.
pub proof fn lemma_pow10_add(a: nat, b: nat)
    ensures
        pow10(a) * pow10(b) == pow10(a + b),
    decreases a,
{
    if a == 0 {
    } else {
        lemma_pow10_add((a - 1) as nat, b);
        assert(10 * pow10((a - 1) as nat) * pow10(b) == 10 * (pow10((a - 1) as nat) * pow10(b)))
            by (nonlinear_arith);
    }
}

/// The eighteenth power of ten, spelled out.
pub proof fn lemma_pow10_18()
    ensures
        pow10(18) == 1_000_000_000_000_000_000,
{
    reveal_with_fuel(pow10, 20);
}

/// `10^n` for `n` up to the largest admissible scale.
pub fn pow10_i64(n: u32) -> (r: i64)
    requires
        n <= MAX_DECIMAL_SCALE,
    ensures
        r == pow10(n as nat),
        1 <= r <= 1_000_000_000_000_000_000,
    decreases n,
{
    proof {
        lemma_pow10_pos(n as nat);
        lemma_pow10_mono(n as nat, 18);
        lemma_pow10_18();
    }
    if n == 0 {
        1
    } else {
        let p = pow10_i64(n - 1);
        proof {
            lemma_pow10_mono((n - 1) as nat, 17);
            assert(pow10(17) * 10 == pow10(18));
        }
        p * 10
    }
}

/// A decimal number: `mantissa / 10^scale`.
#[derive(Debug, Clone, Copy, PartialEq, Eq, Structural)]
pub struct Decimal {
    /// The digits, with the sign.
    pub mantissa: i64,
    /// How many of the digits lie right of the decimal point.
    pub scale: u32,
}

impl Decimal {
    /// The scale stays within what 64-bit alignment supports.
    pub open spec fn wf(self) -> bool {
        self.scale <= MAX_DECIMAL_SCALE
    }

    /// The value, scaled to eighteen fraction digits.
    pub open spec fn val_e18(self) -> int
        recommends
            self.wf(),
    {
        self.mantissa * pow10((MAX_DECIMAL_SCALE - self.scale) as nat)
    }

    /// A decimal out of a mantissa and a scale; refused above the largest
    /// admissible scale.
    pub fn new(mantissa: i64, scale: u32) -> (r: Option<Decimal>)
        ensures
            r matches Some(d) ==> d.wf() && d.mantissa == mantissa && d.scale == scale,
            r is None <==> scale > MAX_DECIMAL_SCALE,
    {
        if scale > MAX_DECIMAL_SCALE {
            None
        } else {
            Some(Decimal { mantissa, scale })
        }
    }

    /// Whether `self <= other`, by value.
    pub fn le(&self, other: &Decimal) -> (r: bool)
        requires
            self.wf(),
            other.wf(),
        ensures
            r == (self.val_e18() <= other.val_e18()),
    {
        let pa = pow10_i64(MAX_DECIMAL_SCALE - self.scale);
        let pb = pow10_i64(MAX_DECIMAL_SCALE - other.scale);
        proof {
            lemma_aligned_fits(self.mantissa as int, pa as int);
            lemma_aligned_fits(other.mantissa as int, pb as int);
        }
        (self.mantissa as i128) * (pa as i128) <= (other.mantissa as i128) * (pb as i128)
    }

    /// The sum of two decimals, at the finer of the two scales; `None` when
    /// the aligned sum leaves the 64-bit mantissa range.
    pub fn checked_add(&self, other: &Decimal) -> (r: Option<Decimal>)
        requires
            self.wf(),
            other.wf(),
        ensures
            r matches Some(c) ==> c.wf() && c.scale == scale_max(self.scale, other.scale)
                && c.val_e18() == self.val_e18() + other.val_e18(),
            r is None <==> !fits_i64(
                aligned_mantissa(*self, scale_max(self.scale, other.scale)) + aligned_mantissa(
                    *other,
                    scale_max(self.scale, other.scale),
                ),
            ),
    {
        let scale = if self.scale >= other.scale {
            self.scale
        } else {
            other.scale
        };
        let pa = pow10_i64(scale - self.scale);
        let pb = pow10_i64(scale - other.scale);
        proof {
            lemma_aligned_fits(self.mantissa as int, pa as int);
            lemma_aligned_fits(other.mantissa as int, pb as int);
        }
        let ma: i128 = (self.mantissa as i128) * (pa as i128);
        let mb: i128 = (other.mantissa as i128) * (pb as i128);
        let sum: i128 = ma + mb;
        if sum < i64::MIN as i128 || sum > i64::MAX as i128 {
            return None;
        }
        let c = Decimal { mantissa: sum as i64, scale };
        proof {
            lemma_alignment_keeps_value(*self, scale);
            lemma_alignment_keeps_value(*other, scale);
            assert((ma + mb) * pow10((MAX_DECIMAL_SCALE - scale) as nat) == ma * pow10(
                (MAX_DECIMAL_SCALE - scale) as nat,
            ) + mb * pow10((MAX_DECIMAL_SCALE - scale) as nat)) by (nonlinear_arith);
        }
        Some(c)
    }

    /// The value truncated toward zero, refused for negative values and
    /// values over `u64::MAX`.
    pub fn to_u64(&self) -> (r: Option<u64>)
        requires
            self.wf(),
        ensures
            r matches Some(v) ==> self.mantissa >= 0 && v == self.mantissa as int / pow10(
                self.scale as nat,
            ),
            r is None <==> self.mantissa < 0,
    {
        if self.mantissa < 0 {
            return None;
        }
        let p = pow10_i64(self.scale);
        proof {
            vstd::arithmetic::div_mod::lemma_div_nonincreasing(self.mantissa as int, p as int);
            vstd::arithmetic::div_mod::lemma_div_pos_is_pos(self.mantissa as int, p as int);
        }
        Some((self.mantissa / p) as u64)
    }

    /// The value as text: an optional sign, the whole digits, and, for a
    /// positive scale, a point followed by exactly `scale` fraction digits.
    pub fn to_text(&self) -> (r: String)
        requires
            self.wf(),
        ensures
            r@ == decimal_text(*self),
    {
        let negative = self.mantissa < 0;
        let a: u64 = if self.mantissa >= 0 {
            self.mantissa as u64
        } else {
            (-(self.mantissa as i128)) as u64
        };
        let body: String = if self.scale == 0 {
            u64_to_string(a)
        } else {
            let p = pow10_i64(self.scale);
            proof {
                vstd::arithmetic::div_mod::lemma_div_nonincreasing(a as int, p as int);
                vstd::arithmetic::div_mod::lemma_div_pos_is_pos(a as int, p as int);
                vstd::arithmetic::div_mod::lemma_remainder_lower(a as int, p as int);
                vstd::arithmetic::div_mod::lemma_remainder_upper(a as int, p as int);
            }
            let whole = u64_to_string(a / (p as u64));
            let frac = u64_to_padded_string(a % (p as u64), self.scale as u64);
            proof {
                reveal_strlit(".");
            }
            whole.concat(".").concat(frac.as_str())
        };
        let r: String = if negative {
            proof {
                reveal_strlit("-");
            }
            String::from_str("-").concat(body.as_str())
        } else {
            body
        };
        proof {
            assert(r@ =~= decimal_text(*self));
        }
        r
    }
}

/// The larger of two scales.
pub open spec fn scale_max(a: u32, b: u32) -> u32 {
    if a >= b {
        a
    } else {
        b
    }
}

/// The mantissa of `d` re-expressed at the coarser-to-finer target scale.
pub open spec fn aligned_mantissa(d: Decimal, scale: u32) -> int
    recommends
        d.scale <= scale,
{
    d.mantissa * pow10((scale - d.scale) as nat)
}

/// Whether `v` fits a signed 64-bit word.
pub open spec fn fits_i64(v: int) -> bool {
    i64::MIN <= v <= i64::MAX
}

/// An aligned mantissa stays inside 127 bits.
proof fn lemma_aligned_fits(m: int, p: int)
    requires
        i64::MIN <= m <= i64::MAX,
        1 <= p <= 1_000_000_000_000_000_000,
    ensures
        -0x8000_0000_0000_0000 * 1_000_000_000_000_000_000 <= m * p <= 0x8000_0000_0000_0000
            * 1_000_000_000_000_000_000,
        m >= 0 ==> m * p >= 0,
        m < 0 ==> m * p < 0,
{
    assert((-0x8000_0000_0000_0000 * 1_000_000_000_000_000_000 <= m * p <= 0x8000_0000_0000_0000
        * 1_000_000_000_000_000_000) && (m >= 0 ==> m * p >= 0) && (m < 0 ==> m * p < 0))
        by (nonlinear_arith)
        requires
            -0x8000_0000_0000_0000 <= m <= 0x7fff_ffff_ffff_ffff,
            1 <= p <= 1_000_000_000_000_000_000,
    ;
}

/// Re-expressing a mantissa at a finer scale keeps the value.
proof fn lemma_alignment_keeps_value(d: Decimal, scale: u32)
    requires
        d.wf(),
        d.scale <= scale <= MAX_DECIMAL_SCALE,
    ensures
        aligned_mantissa(d, scale) * pow10((MAX_DECIMAL_SCALE - scale) as nat) == d.val_e18(),
{
    lemma_pow10_add((scale - d.scale) as nat, (MAX_DECIMAL_SCALE - scale) as nat);
    assert(d.mantissa * pow10((scale - d.scale) as nat) * pow10((MAX_DECIMAL_SCALE - scale) as nat)
        == d.mantissa * (pow10((scale - d.scale) as nat) * pow10(
        (MAX_DECIMAL_SCALE - scale) as nat,
    ))) by (nonlinear_arith);
}

/// The text of a decimal: an optional sign, the whole digits, and, for a
/// positive scale, a point followed by exactly `scale` fraction digits.
pub open spec fn decimal_text(d: Decimal) -> Seq<char>
    recommends
        d.wf(),
{
    let a = if d.mantissa >= 0 {
        d.mantissa as int
    } else {
        -d.mantissa as int
    };
    let body = if d.scale == 0 {
        dec_digits(a as nat)
    } else {
        dec_digits((a / pow10(d.scale as nat)) as nat) + seq!['.'] + padded_digits(
            (a % pow10(d.scale as nat)) as nat,
            d.scale as nat,
        )
    };
    if d.mantissa < 0 {
        seq!['-'] + body
    } else {
        body
    }
}

/// An integer or a decimal parameter value.
#[derive(Debug, Clone, Copy, PartialEq, Eq, Structural)]
pub enum NumericType {
    Int(i32),
    Decimal(Decimal),
}

/// The decimal number is well formed.
pub open spec fn numeric_wf(n: NumericType) -> bool {
    match n {
        NumericType::Int(_) => true,
        NumericType::Decimal(d) => d.wf(),
    }
}

/// The text of an integer: an optional sign and the decimal digits.
pub open spec fn int_text(i: int) -> Seq<char> {
    if i < 0 {
        seq!['-'] + dec_digits((-i) as nat)
    } else {
        dec_digits(i as nat)
    }
}

/// The text of a numeric value.
pub open spec fn numeric_text(n: NumericType) -> Seq<char> {
    match n {
        NumericType::Int(i) => int_text(i as int),
        NumericType::Decimal(d) => decimal_text(d),
    }
}

/// An integer as text.
pub fn int_to_string(v: i64) -> (r: String)
    ensures
        r@ == int_text(v as int),
{
    if v >= 0 {
        u64_to_string(v as u64)
    } else {
        let a: u64 = (-(v as i128)) as u64;
        proof {
            reveal_strlit("-");
        }
        let r = String::from_str("-").concat(u64_to_string(a).as_str());
        proof {
            assert(r@ =~= int_text(v as int));
        }
        r
    }
}

impl NumericType {
    /// The value as text.
    pub fn to_text(&self) -> (r: String)
        requires
            numeric_wf(*self),
        ensures
            r@ == numeric_text(*self),
    {
        match *self {
            NumericType::Int(i) => int_to_string(i as i64),
            NumericType::Decimal(d) => d.to_text(),
        }
    }

    /// The value truncated toward zero as a `usize`; refused for negative
    /// values and values that do not fit.
    pub fn to_usize(&self) -> (r: Option<usize>)
        requires
            numeric_wf(*self),
        ensures
            r == match *self {
                NumericType::Int(i) => if 0 <= i <= usize::MAX {
                    Some(i as usize)
                } else {
                    None::<usize>
                },
                NumericType::Decimal(d) => if d.mantissa >= 0 && d.mantissa as int / pow10(
                    d.scale as nat,
                ) <= usize::MAX {
                    Some((d.mantissa as int / pow10(d.scale as nat)) as usize)
                } else {
                    None::<usize>
                },
            },
    {
        match *self {
            NumericType::Int(i) => {
                if i >= 0 {
                    Some(i as usize)
                } else {
                    None
                }
            },
            NumericType::Decimal(d) => {
                match d.to_u64() {
                    Some(v) => {
                        if v as u128 <= usize::MAX as u128 {
                            Some(v as usize)
                        } else {
                            None
                        }
                    },
                    None => None,
                }
            },
        }
    }
}

/// A parameter value: text, or a number.
#[derive(Debug, Clone, PartialEq, Eq)]
pub enum ParameterValue {
    Text(String),
    Numeric(NumericType),
}

/// The number inside a parameter value is well formed.
pub open spec fn value_wf(v: ParameterValue) -> bool {
    match v {
        ParameterValue::Text(_) => true,
        ParameterValue::Numeric(n) => numeric_wf(n),
    }
}

/// The text a parameter value substitutes into a template.
pub open spec fn value_text(v: ParameterValue) -> Seq<char> {
    match v {
        ParameterValue::Text(s) => s@,
        ParameterValue::Numeric(n) => numeric_text(n),
    }
}

impl ParameterValue {
    /// The text this value substitutes into a template.
    pub fn to_text(&self) -> (r: String)
        requires
            value_wf(*self),
        ensures
            r@ == value_text(*self),
    {
        match self {
            ParameterValue::Text(s) => {
                let r = String::from_str(s.as_str());
                r
            },
            ParameterValue::Numeric(n) => n.to_text(),
        }
    }

    /// A copy whose text is the same.
    pub fn duplicate(&self) -> (r: ParameterValue)
        requires
            value_wf(*self),
        ensures
            value_wf(r),
            value_text(r) == value_text(*self),
            r is Text <==> self is Text,
            r matches ParameterValue::Numeric(n) ==> *self == ParameterValue::Numeric(n),
    {
        match self {
            ParameterValue::Text(s) => ParameterValue::Text(String::from_str(s.as_str())),
            ParameterValue::Numeric(n) => ParameterValue::Numeric(*n),
        }
    }
}

} // verus!

use crate::command::{binding_pairs, Command};
use vstd::arithmetic::div_mod::{
    lemma_div_is_ordered, lemma_div_multiples_vanish, lemma_fundamental_div_mod_converse,
};

verus! {

/// Why a numeric scan could not be built.
#[derive(Debug, Clone, Copy, PartialEq, Eq, Structural)]
pub enum ParameterScanError {
    /// The lower bound lies above the upper bound.
    EmptyRange,
    /// The step is zero or negative.
    ZeroStep,
    /// The bounds and the step do not agree on integer versus decimal.
    MixedNumericTypes,
    /// A decimal step left the 64-bit mantissa range.
    Overflow,
}

/// What an integer scan returns: a zero or negative step and an empty
/// range are refused; otherwise every value from `min` to `max` in steps of
/// `step`, ascending.
pub open spec fn int_scan_post(
    r: Result<Vec<NumericType>, ParameterScanError>,
    min: i32,
    max: i32,
    step: i32,
) -> bool {
    &&& (step <= 0 ==> r == Err::<Vec<NumericType>, _>(ParameterScanError::ZeroStep))
    &&& (step > 0 && min > max ==> r == Err::<Vec<NumericType>, _>(
        ParameterScanError::EmptyRange,
    ))
    &&& (r is Ok <==> step > 0 && min <= max)
    &&& (r matches Ok(vs) ==> {
        &&& vs@.len() == (max - min) / step as int + 1
        &&& forall|k: int|
            0 <= k < vs@.len() ==> #[trigger] vs@[k] == NumericType::Int((min + k * step) as i32)
    })
}

/// The values of an integer scan: every value from `min` to `max` in steps
/// of `step`, ascending.
pub fn int_scan(min: i32, max: i32, step: i32) -> (r: Result<
    Vec<NumericType>,
    ParameterScanError,
>)
    ensures
        int_scan_post(r, min, max, step),
{
    if step <= 0 {
        return Err(ParameterScanError::ZeroStep);
    }
    if min > max {
        return Err(ParameterScanError::EmptyRange);
    }
    let mut values: Vec<NumericType> = Vec::new();
    let mut cur: i64 = min as i64;
    proof {
        assert(values@.len() * step == 0) by (nonlinear_arith)
            requires
                values@.len() == 0,
        ;
    }
    while cur <= max as i64
        invariant
            step > 0,
            min <= max,
            cur == min + values@.len() * step,
            min <= cur <= max as int + step,
            forall|k: int|
                0 <= k < values@.len() ==> #[trigger] values@[k] == NumericType::Int(
                    (min + k * step) as i32,
                ),
        decreases max as int + step - cur,
    {
        proof {
            assert((min + values@.len() * step) as i32 == cur as i32);
            assert(min + (values@.len() + 1) * step == min + values@.len() * step + step)
                by (nonlinear_arith);
        }
        values.push(NumericType::Int(cur as i32));
        cur = cur + step as i64;
    }
    proof {
        let n = values@.len() as int;
        assert(max - min == (n - 1) * step + (max as int - (cur - step))) by (nonlinear_arith)
            requires
                cur == min + n * step,
        ;
        lemma_fundamental_div_mod_converse(
            max - min,
            step as int,
            n - 1,
            max as int - (cur - step),
        );
    }
    Ok(values)
}

/// The common scale every addition of a decimal scan happens at.
pub open spec fn scan_scale(min: Decimal, step: Decimal) -> u32 {
    scale_max(min.scale, step.scale)
}

/// Whether a value (scaled to eighteen fraction digits) can be written as a
/// 64-bit mantissa at the given scale.
pub open spec fn fits_at(v_e18: int, scale: u32) -> bool
    recommends
        scale <= MAX_DECIMAL_SCALE,
{
    fits_i64(v_e18 / pow10((MAX_DECIMAL_SCALE - scale) as nat))
}

/// How many values a decimal scan from `min` to `max` in steps of `step`
/// yields: the smallest count whose next value lies above `max`.
pub open spec fn scan_steps(min: Decimal, max: Decimal, step: Decimal) -> int
    recommends
        step.val_e18() > 0,
        min.val_e18() <= max.val_e18(),
{
    (max.val_e18() - min.val_e18()) / step.val_e18() + 1
}

/// Every addition of the scan stays inside the 64-bit mantissa range. The
/// scan's sums climb from `min + step` to `min + scan_steps * step`, so all
/// of them fit exactly when those two ends can be written at the scan's
/// scale.
pub open spec fn scan_sums_fit(min: Decimal, max: Decimal, step: Decimal) -> bool
    recommends
        step.val_e18() > 0,
        min.val_e18() <= max.val_e18(),
{
    &&& fits_at(min.val_e18() + step.val_e18(), scan_scale(min, step))
    &&& fits_at(min.val_e18() + scan_steps(min, max, step) * step.val_e18(), scan_scale(min, step))
}

/// What a decimal scan returns: a zero or negative step and an empty range
/// are refused; a scan whose aligned additions leave the mantissa range is
/// refused as an overflow, which cannot happen when both `min + step` and
/// `max + step` can be written at the scan's scale; otherwise every value
/// from `min` to `max` in steps of `step`, ascending.
pub open spec fn dec_scan_post(
    r: Result<Vec<NumericType>, ParameterScanError>,
    min: Decimal,
    max: Decimal,
    step: Decimal,
) -> bool {
    &&& (step.val_e18() <= 0 ==> r == Err::<Vec<NumericType>, _>(ParameterScanError::ZeroStep))
    &&& (step.val_e18() > 0 && min.val_e18() > max.val_e18() ==> r == Err::<
        Vec<NumericType>,
        _,
    >(ParameterScanError::EmptyRange))
    &&& (r is Ok <==> step.val_e18() > 0 && min.val_e18() <= max.val_e18() && scan_sums_fit(
        min,
        max,
        step,
    ))
    &&& (r == Err::<Vec<NumericType>, _>(ParameterScanError::Overflow) <==> step.val_e18() > 0
        && min.val_e18() <= max.val_e18() && !scan_sums_fit(min, max, step))
    &&& (r matches Ok(vs) ==> {
        &&& vs@.len() >= 1
        &&& forall|k: int|
            0 <= k < vs@.len() ==> ((#[trigger] vs@[k]) matches NumericType::Decimal(d) && d.wf()
                && d.val_e18() == min.val_e18() + k * step.val_e18())
        &&& min.val_e18() + (vs@.len() - 1) * step.val_e18() <= max.val_e18()
        &&& min.val_e18() + vs@.len() * step.val_e18() > max.val_e18()
    })
}

/// The values of a decimal scan: every value from `min` to `max` in steps
/// of `step`, ascending.
pub fn dec_scan(min: Decimal, max: Decimal, step: Decimal) -> (r: Result<
    Vec<NumericType>,
    ParameterScanError,
>)
    requires
        min.wf(),
        max.wf(),
        step.wf(),
    ensures
        dec_scan_post(r, min, max, step),
{
    let zero = Decimal { mantissa: 0, scale: 0 };
    if step.le(&zero) {
        return Err(ParameterScanError::ZeroStep);
    }
    if !min.le(&max) {
        return Err(ParameterScanError::EmptyRange);
    }
    let ghost s = scan_scale(min, step);
    let mut values: Vec<NumericType> = Vec::new();
    let mut cur: Decimal = min;
    let mut done = false;
    proof {
        assert(values@.len() * step.val_e18() == 0) by (nonlinear_arith)
            requires
                values@.len() == 0,
        ;
    }
    while !done
        invariant
            min.wf(),
            max.wf(),
            step.wf(),
            step.val_e18() > 0,
            min.val_e18() <= max.val_e18(),
            s == scan_scale(min, step),
            !done ==> {
                &&& cur.wf()
                &&& scale_max(cur.scale, step.scale) == s
                &&& cur.val_e18() == min.val_e18() + values@.len() * step.val_e18()
                &&& cur.val_e18() <= max.val_e18()
            },
            done ==> {
                &&& values@.len() >= 1
                &&& min.val_e18() + (values@.len() - 1) * step.val_e18() <= max.val_e18()
                &&& min.val_e18() + values@.len() * step.val_e18() > max.val_e18()
            },
            forall|k: int|
                0 <= k < values@.len() ==> ((#[trigger] values@[k]) matches NumericType::Decimal(
                    d,
                ) && d.wf() && d.val_e18() == min.val_e18() + k * step.val_e18()),
            forall|k: int|
                1 <= k <= values@.len() ==> fits_at(
                    min.val_e18() + #[trigger] (k * step.val_e18()),
                    s,
                ),
        decreases max.val_e18() + step.val_e18() - cur.val_e18(), (if done { 0int } else { 1int }),
    {
        let ghost n = values@.len() as int;
        values.push(NumericType::Decimal(cur));
        proof {
            assert(min.val_e18() + (n + 1) * step.val_e18() == min.val_e18() + n * step.val_e18()
                + step.val_e18()) by (nonlinear_arith);
            lemma_aligned_sum_value(cur, step, s);
        }
        match cur.checked_add(&step) {
            None => {
                proof {
                    lemma_scan_overflow_refutes_fit(min, max, step, n);
                }
                return Err(ParameterScanError::Overflow);
            },
            Some(next) => {
                proof {
                    assert(scale_max(next.scale, step.scale) == s);
                    assert(fits_at(min.val_e18() + (n + 1) * step.val_e18(), s));
                }
                if next.le(&max) {
                    cur = next;
                } else {
                    done = true;
                    proof {
                        assert(min.val_e18() + (values@.len() as int) * step.val_e18()
                            > max.val_e18());
                    }
                }
            },
        }
    }
    proof {
        lemma_scan_completion_fits(min, max, step, values@.len() as int);
    }
    Ok(values)
}

/// A sum the scan could not write at its scale refutes both end sums
/// fitting: it lies between them.
proof fn lemma_scan_overflow_refutes_fit(min: Decimal, max: Decimal, step: Decimal, n: int)
    requires
        min.wf(),
        max.wf(),
        step.wf(),
        step.val_e18() > 0,
        min.val_e18() <= max.val_e18(),
        n >= 0,
        min.val_e18() + n * step.val_e18() <= max.val_e18(),
        !fits_at(min.val_e18() + (n + 1) * step.val_e18(), scan_scale(min, step)),
    ensures
        !scan_sums_fit(min, max, step),
{
    let s = scan_scale(min, step);
    let sv = step.val_e18();
    let d = max.val_e18() - min.val_e18();
    let count = scan_steps(min, max, step);
    if scan_sums_fit(min, max, step) {
        lemma_div_is_ordered(n * sv, d, sv);
        assert((n * sv) / sv == n) by {
            lemma_div_multiples_vanish(n, sv);
            assert(n * sv == sv * n) by (nonlinear_arith);
        }
        assert(n + 1 <= count);
        assert(min.val_e18() + 1 * sv <= min.val_e18() + (n + 1) * sv <= min.val_e18() + count
            * sv) by (nonlinear_arith)
            requires
                sv > 0,
                0 <= n,
                n + 1 <= count,
        ;
        lemma_fits_between(
            min.val_e18() + sv,
            min.val_e18() + (n + 1) * sv,
            min.val_e18() + count * sv,
            s,
        );
        assert(min.val_e18() + 1 * sv == min.val_e18() + sv);
    }
}

/// A scan that ran to completion wrote both end sums at its scale.
proof fn lemma_scan_completion_fits(min: Decimal, max: Decimal, step: Decimal, n: int)
    requires
        min.wf(),
        max.wf(),
        step.wf(),
        step.val_e18() > 0,
        min.val_e18() <= max.val_e18(),
        n >= 1,
        min.val_e18() + (n - 1) * step.val_e18() <= max.val_e18(),
        min.val_e18() + n * step.val_e18() > max.val_e18(),
        forall|k: int|
            1 <= k <= n ==> fits_at(
                min.val_e18() + #[trigger] (k * step.val_e18()),
                scan_scale(min, step),
            ),
    ensures
        scan_sums_fit(min, max, step),
        n == scan_steps(min, max, step),
{
    let sv = step.val_e18();
    let d = max.val_e18() - min.val_e18();
    assert(n * sv == (n - 1) * sv + sv) by (nonlinear_arith);
    lemma_fundamental_div_mod_converse(d, sv, n - 1, d - (n - 1) * sv);
    assert(scan_steps(min, max, step) == n);
    assert(fits_at(min.val_e18() + 1 * sv, scan_scale(min, step)));
    assert(1 * sv == sv);
    assert(fits_at(min.val_e18() + n * sv, scan_scale(min, step)));
}

/// The mantissa an addition of the scan computes is the summed value,
/// written at the scan's scale.
proof fn lemma_aligned_sum_value(cur: Decimal, step: Decimal, s: u32)
    requires
        cur.wf(),
        step.wf(),
        s <= MAX_DECIMAL_SCALE,
        scale_max(cur.scale, step.scale) == s,
    ensures
        aligned_mantissa(cur, s) + aligned_mantissa(step, s) == (cur.val_e18() + step.val_e18())
            / pow10((MAX_DECIMAL_SCALE - s) as nat),
{
    let p = pow10((MAX_DECIMAL_SCALE - s) as nat);
    lemma_pow10_pos((MAX_DECIMAL_SCALE - s) as nat);
    lemma_alignment_keeps_value(cur, s);
    lemma_alignment_keeps_value(step, s);
    let am = aligned_mantissa(cur, s) + aligned_mantissa(step, s);
    assert(p * am == cur.val_e18() + step.val_e18()) by (nonlinear_arith)
        requires
            am == aligned_mantissa(cur, s) + aligned_mantissa(step, s),
            aligned_mantissa(cur, s) * p == cur.val_e18(),
            aligned_mantissa(step, s) * p == step.val_e18(),
    ;
    lemma_div_multiples_vanish(am, p);
}

/// A value between two values that can be written at a scale can be written
/// at that scale as well.
proof fn lemma_fits_between(lo: int, v: int, hi: int, s: u32)
    requires
        s <= MAX_DECIMAL_SCALE,
        lo <= v <= hi,
        fits_at(lo, s),
        fits_at(hi, s),
    ensures
        fits_at(v, s),
{
    let p = pow10((MAX_DECIMAL_SCALE - s) as nat);
    lemma_pow10_pos((MAX_DECIMAL_SCALE - s) as nat);
    lemma_div_is_ordered(lo, v, p);
    lemma_div_is_ordered(v, hi, p);
}

} // verus!

verus! {

/// One parameter axis: a name and the ordered values it ranges over.
#[derive(Debug)]
pub struct ParameterAxis {
    /// The parameter name, as it appears inside `{...}` tokens.
    pub name: String,
    /// The values, in declaration order.
    pub values: Vec<ParameterValue>,
}

impl ParameterAxis {
    /// Every value of the axis is well formed.
    pub open spec fn wf(self) -> bool {
        forall|i: int| 0 <= i < self.values@.len() ==> value_wf(#[trigger] self.values@[i])
    }
}

/// The axis names, as character sequences.
pub open spec fn axis_names(axes: Seq<ParameterAxis>) -> Seq<Seq<char>> {
    axes.map_values(|a: ParameterAxis| a.name@)
}

/// Name `j` already occurred among the names before it.
pub open spec fn has_earlier(names: Seq<Seq<char>>, j: int) -> bool {
    exists|i: int| 0 <= i < j && names[i] == names[j]
}

/// The repeated names among the first `j`, listed once each, in the order
/// of their first repetition.
pub open spec fn dups_up_to(names: Seq<Seq<char>>, j: int) -> Seq<Seq<char>>
    recommends
        0 <= j <= names.len(),
    decreases j,
{
    if j <= 0 {
        Seq::<Seq<char>>::empty()
    } else {
        let prev = dups_up_to(names, j - 1);
        if has_earlier(names, j - 1) && !prev.contains(names[j - 1]) {
            prev.push(names[j - 1])
        } else {
            prev
        }
    }
}

/// The repeated names, listed once each.
pub open spec fn duplicate_names(names: Seq<Seq<char>>) -> Seq<Seq<char>> {
    dups_up_to(names, names.len() as int)
}

/// The views of a list of strings.
pub open spec fn string_views(ss: Seq<String>) -> Seq<Seq<char>> {
    ss.map_values(|s: String| s@)
}

/// An axis, reduced to what expansion reads: its name and its values' texts.
pub open spec fn axis_pairs_views(axes: Seq<ParameterAxis>) -> Seq<(Seq<char>, Seq<Seq<char>>)> {
    axes.map_values(
        |a: ParameterAxis| (a.name@, a.values@.map_values(|v: ParameterValue| value_text(v))),
    )
}

/// The cartesian product of the axes, one binding list per combination:
/// the first axis varies slowest and the last fastest, each axis in
/// declaration order.
pub open spec fn combos_pairs(avs: Seq<(Seq<char>, Seq<Seq<char>>)>) -> Seq<
    Seq<(Seq<char>, Seq<char>)>,
>
    decreases avs.len(),
{
    if avs.len() == 0 {
        seq![Seq::<(Seq<char>, Seq<char>)>::empty()]
    } else {
        let front = combos_pairs(avs.drop_last());
        let nm = avs.last().0;
        let vals = avs.last().1;
        if vals.len() == 0 {
            Seq::<Seq<(Seq<char>, Seq<char>)>>::empty()
        } else {
            Seq::new(
                front.len() * vals.len(),
                |k: int| front[k / vals.len() as int].push((nm, vals[k % vals.len() as int])),
            )
        }
    }
}

/// The binding lists of a combination list, reduced to names and texts.
pub open spec fn combo_views(cs: Seq<Vec<(String, ParameterValue)>>) -> Seq<
    Seq<(Seq<char>, Seq<char>)>,
> {
    cs.map_values(|v: Vec<(String, ParameterValue)>| binding_pairs(v@))
}

/// Duplicate parameter names across the axes of one invocation are a
/// configuration error, reported before anything runs.
#[derive(Debug)]
pub enum ExpansionError {
    /// The repeated names, listed once each.
    DuplicateParameterNames(Vec<String>),
}

/// A copy of a binding list whose names and value texts are the same.
fn duplicate_bindings(v: &Vec<(String, ParameterValue)>) -> (r: Vec<(String, ParameterValue)>)
    requires
        forall|i: int| 0 <= i < v@.len() ==> value_wf((#[trigger] v@[i]).1),
    ensures
        binding_pairs(r@) == binding_pairs(v@),
        forall|i: int| 0 <= i < r@.len() ==> value_wf((#[trigger] r@[i]).1),
{
    let mut r: Vec<(String, ParameterValue)> = Vec::new();
    let mut i: usize = 0;
    proof {
        assert(binding_pairs(r@) =~= binding_pairs(v@.take(0)));
    }
    while i < v.len()
        invariant
            0 <= i <= v@.len(),
            forall|k: int| 0 <= k < v@.len() ==> value_wf((#[trigger] v@[k]).1),
            binding_pairs(r@) == binding_pairs(v@.take(i as int)),
            forall|k: int| 0 <= k < r@.len() ==> value_wf((#[trigger] r@[k]).1),
        decreases v@.len() - i,
    {
        let pair = &v[i];
        let name = String::from_str(pair.0.as_str());
        let value = pair.1.duplicate();
        r.push((name, value));
        proof {
            assert(binding_pairs(v@.take(i + 1)) =~= binding_pairs(v@.take(i as int)).push(
                (v@[i as int].0@, value_text(v@[i as int].1)),
            ));
            assert(binding_pairs(r@) =~= binding_pairs(v@.take(i + 1)));
        }
        i = i + 1;
    }
    proof {
        assert(v@.take(v@.len() as int) =~= v@);
    }
    r
}

/// The values of a numeric scan, preserving the numeric kind of the
/// bounds: integer bounds and step give integers, decimal bounds and step
/// give decimals, and a mixture is refused.
pub fn numeric_scan(min: NumericType, max: NumericType, step: NumericType) -> (r: Result<
    Vec<NumericType>,
    ParameterScanError,
>)
    requires
        numeric_wf(min),
        numeric_wf(max),
        numeric_wf(step),
    ensures
        min is Int && max is Int && step is Int ==> int_scan_post(
            r,
            min->Int_0,
            max->Int_0,
            step->Int_0,
        ),
        min is Decimal && max is Decimal && step is Decimal ==> dec_scan_post(
            r,
            min->Decimal_0,
            max->Decimal_0,
            step->Decimal_0,
        ),
        !(min is Int && max is Int && step is Int) && !(min is Decimal && max is Decimal
            && step is Decimal) ==> r == Err::<Vec<NumericType>, _>(
            ParameterScanError::MixedNumericTypes,
        ),
{
    match (min, max, step) {
        (NumericType::Int(a), NumericType::Int(b), NumericType::Int(c)) => int_scan(a, b, c),
        (NumericType::Decimal(a), NumericType::Decimal(b), NumericType::Decimal(c)) => dec_scan(
            a,
            b,
            c,
        ),
        _ => Err(ParameterScanError::MixedNumericTypes),
    }
}

/// The repeated axis names, listed once each, and whether there is any.
fn find_duplicate_names(axes: &Vec<ParameterAxis>) -> (r: (Vec<String>, bool))
    ensures
        string_views(r.0@) == duplicate_names(axis_names(axes@)),
        r.1 == exists|i: int, j: int|
            0 <= i < j < axes@.len() && axis_names(axes@)[i] == axis_names(axes@)[j],
{
    let ghost names = axis_names(axes@);
    let mut dup_list: Vec<String> = Vec::new();
    let mut any_dup = false;
    let mut j: usize = 0;
    proof {
        assert(string_views(dup_list@) =~= dups_up_to(names, 0));
    }
    while j < axes.len()
        invariant
            0 <= j <= axes@.len(),
            names == axis_names(axes@),
            string_views(dup_list@) == dups_up_to(names, j as int),
            any_dup == exists|i: int, j2: int| 0 <= i < j2 < j && names[i] == names[j2],
        decreases axes@.len() - j,
    {
        let mut has_e = false;
        let mut i: usize = 0;
        while i < j
            invariant
                0 <= i <= j < axes@.len(),
                names == axis_names(axes@),
                has_e == exists|i2: int| 0 <= i2 < i && names[i2] == names[j as int],
            decreases j - i,
        {
            proof {
                assert(names[i as int] == axes@[i as int].name@);
                assert(names[j as int] == axes@[j as int].name@);
            }
            if axes[i].name.eq(&axes[j].name) {
                has_e = true;
            }
            i = i + 1;
        }
        if has_e {
            let mut listed = false;
            let mut t: usize = 0;
            while t < dup_list.len()
                invariant
                    0 <= t <= dup_list@.len(),
                    j < axes@.len(),
                    names == axis_names(axes@),
                    listed == exists|t2: int|
                        0 <= t2 < t && string_views(dup_list@)[t2] == names[j as int],
                decreases dup_list@.len() - t,
            {
                proof {
                    assert(string_views(dup_list@)[t as int] == dup_list@[t as int]@);
                    assert(names[j as int] == axes@[j as int].name@);
                }
                if dup_list[t].eq(&axes[j].name) {
                    listed = true;
                }
                t = t + 1;
            }
            proof {
                assert(listed == dups_up_to(names, j as int).contains(names[j as int]));
            }
            if !listed {
                dup_list.push(String::from_str(axes[j].name.as_str()));
                proof {
                    assert(string_views(dup_list@) =~= dups_up_to(names, j + 1));
                }
            }
        }
        any_dup = any_dup || has_e;
        j = j + 1;
        proof {
            assert(string_views(dup_list@) =~= dups_up_to(names, j as int));
        }
    }
    (dup_list, any_dup)
}

/// One expansion step: every combination extended by every value of one
/// axis, the values varying fastest.
#[verifier::rlimit(30)]
fn expand_one_axis(
    combos: &Vec<Vec<(String, ParameterValue)>>,
    axis: &ParameterAxis,
) -> (r: Vec<Vec<(String, ParameterValue)>>)
    requires
        axis.wf(),
        forall|c: int, i: int|
            0 <= c < combos@.len() && 0 <= i < (#[trigger] combos@[c])@.len() ==> value_wf(
                (#[trigger] combos@[c]@[i]).1,
            ),
    ensures
        r@.len() == combos@.len() * axis.values@.len(),
        forall|k: int|
            0 <= k < r@.len() ==> binding_pairs((#[trigger] r@[k])@) == combo_views(combos@)[k
                / axis.values@.len() as int].push(
                (
                    axis.name@,
                    axis.values@.map_values(|v: ParameterValue| value_text(v))[k
                        % axis.values@.len() as int],
                ),
            ),
        forall|c: int, i: int|
            0 <= c < r@.len() && 0 <= i < (#[trigger] r@[c])@.len() ==> value_wf(
                (#[trigger] r@[c]@[i]).1,
            ),
{
    let ghost front = combo_views(combos@);
    let ghost nm = axis.name@;
    let ghost vals = axis.values@.map_values(|v: ParameterValue| value_text(v));
    let axis_len = axis.values.len();
    let mut new_combos: Vec<Vec<(String, ParameterValue)>> = Vec::new();
    let mut c: usize = 0;
    proof {
        assert(0int * axis_len == 0) by (nonlinear_arith);
    }
    while c < combos.len()
        invariant
            0 <= c <= combos@.len(),
            axis.wf(),
            front == combo_views(combos@),
            nm == axis.name@,
            vals == axis.values@.map_values(|v: ParameterValue| value_text(v)),
            axis_len == vals.len(),
            forall|c2: int, i: int|
                0 <= c2 < combos@.len() && 0 <= i < (#[trigger] combos@[c2])@.len() ==> value_wf(
                    (#[trigger] combos@[c2]@[i]).1,
                ),
            new_combos@.len() == c * axis_len,
            forall|k: int|
                0 <= k < new_combos@.len() ==> binding_pairs((#[trigger] new_combos@[k])@)
                    == front[k / axis_len as int].push((nm, vals[k % axis_len as int])),
            forall|c2: int, i: int|
                0 <= c2 < new_combos@.len() && 0 <= i < (#[trigger] new_combos@[c2])@.len()
                    ==> value_wf((#[trigger] new_combos@[c2]@[i]).1),
        decreases combos@.len() - c,
    {
        let mut v: usize = 0;
        while v < axis_len
            invariant
                0 <= v <= axis_len,
                0 <= c < combos@.len(),
                axis.wf(),
                front == combo_views(combos@),
                nm == axis.name@,
                vals == axis.values@.map_values(|v2: ParameterValue| value_text(v2)),
                axis_len == vals.len(),
                forall|c2: int, i: int|
                    0 <= c2 < combos@.len() && 0 <= i < (#[trigger] combos@[c2])@.len()
                        ==> value_wf((#[trigger] combos@[c2]@[i]).1),
                new_combos@.len() == c * axis_len + v,
                forall|k: int|
                    0 <= k < new_combos@.len() ==> binding_pairs((#[trigger] new_combos@[k])@)
                        == front[k / axis_len as int].push((nm, vals[k % axis_len as int])),
                forall|c2: int, i: int|
                    0 <= c2 < new_combos@.len() && 0 <= i < (#[trigger] new_combos@[c2])@.len()
                        ==> value_wf((#[trigger] new_combos@[c2]@[i]).1),
            decreases axis_len - v,
        {
            let mut copy = duplicate_bindings(&combos[c]);
            let bound_name = String::from_str(axis.name.as_str());
            let bound_value = axis.values[v].duplicate();
            proof {
                assert(vals[v as int] == value_text(axis.values@[v as int]));
            }
            copy.push((bound_name, bound_value));
            proof {
                let k = new_combos@.len() as int;
                lemma_fundamental_div_mod_converse(k, axis_len as int, c as int, v as int);
                assert(binding_pairs(copy@) =~= binding_pairs(combos@[c as int]@).push(
                    (nm, vals[v as int]),
                ));
                assert(combo_views(combos@)[c as int] == binding_pairs(combos@[c as int]@));
            }
            new_combos.push(copy);
            proof {
                assert(c * axis_len + (v + 1) == c * axis_len + v + 1) by (nonlinear_arith);
            }
            v = v + 1;
        }
        c = c + 1;
        proof {
            assert(c * axis_len == (c - 1) * axis_len + axis_len) by (nonlinear_arith);
        }
    }
    new_combos
}

/// The cartesian product of all axes, one binding list per combination.
fn build_combinations(axes: &Vec<ParameterAxis>) -> (r: Vec<Vec<(String, ParameterValue)>>)
    requires
        forall|i: int| 0 <= i < axes@.len() ==> (#[trigger] axes@[i]).wf(),
    ensures
        combo_views(r@) == combos_pairs(axis_pairs_views(axes@)),
        forall|c: int, i: int|
            0 <= c < r@.len() && 0 <= i < (#[trigger] r@[c])@.len() ==> value_wf(
                (#[trigger] r@[c]@[i]).1,
            ),
{
    let mut combos: Vec<Vec<(String, ParameterValue)>> = Vec::new();
    combos.push(Vec::new());
    let mut a: usize = 0;
    proof {
        assert(binding_pairs(combos@[0]@) =~= Seq::<(Seq<char>, Seq<char>)>::empty());
        assert(combo_views(combos@) =~= combos_pairs(axis_pairs_views(axes@).take(0)));
    }
    while a < axes.len()
        invariant
            0 <= a <= axes@.len(),
            forall|i: int| 0 <= i < axes@.len() ==> (#[trigger] axes@[i]).wf(),
            combo_views(combos@) == combos_pairs(axis_pairs_views(axes@).take(a as int)),
            forall|c: int, i: int|
                0 <= c < combos@.len() && 0 <= i < (#[trigger] combos@[c])@.len() ==> value_wf(
                    (#[trigger] combos@[c]@[i]).1,
                ),
        decreases axes@.len() - a,
    {
        let ghost nm = axes@[a as int].name@;
        let ghost vals = axes@[a as int].values@.map_values(|v: ParameterValue| value_text(v));
        let new_combos = expand_one_axis(&combos, &axes[a]);
        combos = new_combos;
        proof {
            assert(axis_pairs_views(axes@).take(a + 1).drop_last() =~= axis_pairs_views(
                axes@,
            ).take(a as int));
            assert(axis_pairs_views(axes@).take(a + 1).last() == (nm, vals));
            assert(combo_views(combos@) =~= combos_pairs(axis_pairs_views(axes@).take(a + 1)));
        }
        a = a + 1;
    }
    proof {
        assert(axis_pairs_views(axes@).take(axes@.len() as int) =~= axis_pairs_views(axes@));
    }
    combos
}

/// Expand the command templates over the cartesian product of the axes.
/// Repeated parameter names are refused before anything is expanded; the
/// error lists each repeated name once. Each template yields one command
/// per combination, templates outermost, the last axis varying fastest;
/// every command keeps its template's display name and records its
/// combination's bindings.
#[verifier::rlimit(30)]
pub fn expand_commands(
    templates: &Vec<(Option<String>, String)>,
    axes: &Vec<ParameterAxis>,
) -> (r: Result<Vec<Command>, ExpansionError>)
    requires
        forall|i: int| 0 <= i < axes@.len() ==> (#[trigger] axes@[i]).wf(),
    ensures
        r is Err <==> exists|i: int, j: int|
            0 <= i < j < axes@.len() && axis_names(axes@)[i] == axis_names(axes@)[j],
        r matches Err(ExpansionError::DuplicateParameterNames(ns)) ==> string_views(ns@)
            == duplicate_names(axis_names(axes@)),
        r matches Ok(cmds) ==> {
            let combos = combos_pairs(axis_pairs_views(axes@));
            &&& cmds@.len() == templates@.len() * combos.len()
            &&& forall|k: int|
                0 <= k < cmds@.len() ==> {
                    let t = k / combos.len() as int;
                    let c = k % combos.len() as int;
                    &&& (#[trigger] cmds@[k]).wf()
                    &&& cmds@[k].cmd@ == templates@[t].1@
                    &&& (cmds@[k].name is Some <==> templates@[t].0 is Some)
                    &&& (cmds@[k].name matches Some(n) ==> templates@[t].0 matches Some(m) && n@
                        == m@)
                    &&& binding_pairs(cmds@[k].parameters@) == combos[c]
                }
        },
{
    let (dup_list, any_dup) = find_duplicate_names(axes);
    if any_dup {
        return Err(ExpansionError::DuplicateParameterNames(dup_list));
    }
    let combos = build_combinations(axes);
    let ghost all_combos = combos_pairs(axis_pairs_views(axes@));
    let combo_count = combos.len();
    let mut cmds: Vec<Command> = Vec::new();
    let mut t: usize = 0;
    proof {
        assert(0int * combo_count == 0) by (nonlinear_arith);
    }
    while t < templates.len()
        invariant
            0 <= t <= templates@.len(),
            combo_count == combos@.len(),
            combo_views(combos@) == all_combos,
            forall|c2: int, i: int|
                0 <= c2 < combos@.len() && 0 <= i < (#[trigger] combos@[c2])@.len() ==> value_wf(
                    (#[trigger] combos@[c2]@[i]).1,
                ),
            cmds@.len() == t * combo_count,
            forall|k: int|
                0 <= k < cmds@.len() ==> {
                    let t2 = k / combo_count as int;
                    let c2 = k % combo_count as int;
                    &&& (#[trigger] cmds@[k]).wf()
                    &&& cmds@[k].cmd@ == templates@[t2].1@
                    &&& (cmds@[k].name is Some <==> templates@[t2].0 is Some)
                    &&& (cmds@[k].name matches Some(n) ==> templates@[t2].0 matches Some(m) && n@
                        == m@)
                    &&& binding_pairs(cmds@[k].parameters@) == all_combos[c2]
                },
        decreases templates@.len() - t,
    {
        let mut c: usize = 0;
        while c < combo_count
            invariant
                0 <= c <= combo_count,
                0 <= t < templates@.len(),
                combo_count == combos@.len(),
                combo_views(combos@) == all_combos,
                forall|c2: int, i: int|
                    0 <= c2 < combos@.len() && 0 <= i < (#[trigger] combos@[c2])@.len()
                        ==> value_wf((#[trigger] combos@[c2]@[i]).1),
                cmds@.len() == t * combo_count + c,
                forall|k: int|
                    0 <= k < cmds@.len() ==> {
                        let t2 = k / combo_count as int;
                        let c2 = k % combo_count as int;
                        &&& (#[trigger] cmds@[k]).wf()
                        &&& cmds@[k].cmd@ == templates@[t2].1@
                        &&& (cmds@[k].name is Some <==> templates@[t2].0 is Some)
                        &&& (cmds@[k].name matches Some(n) ==> templates@[t2].0 matches Some(m)
                            && n@ == m@)
                        &&& binding_pairs(cmds@[k].parameters@) == all_combos[c2]
                    },
            decreases combo_count - c,
        {
            let template = &templates[t];
            let display_name: Option<String> = match &template.0 {
                Some(n) => Some(String::from_str(n.as_str())),
                None => None,
            };
            let shell_text = String::from_str(template.1.as_str());
            let bindings = duplicate_bindings(&combos[c]);
            let cmd = Command::new_parametrized(display_name, shell_text, bindings);
            proof {
                let k = cmds@.len() as int;
                lemma_fundamental_div_mod_converse(k, combo_count as int, t as int, c as int);
                assert(combo_views(combos@)[c as int] == binding_pairs(combos@[c as int]@));
            }
            cmds.push(cmd);
            proof {
                assert(t * combo_count + (c + 1) == t * combo_count + c + 1) by (nonlinear_arith);
            }
            c = c + 1;
        }
        t = t + 1;
        proof {
            assert(t * combo_count == (t - 1) * combo_count + combo_count) by (nonlinear_arith);
        }
    }
    Ok(cmds)
}

} // verus!
