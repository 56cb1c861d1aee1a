//! Parsing formatted durations back into microseconds.
//!
//! A formatted duration is digits, a point, and a fixed number of fraction
//! digits. Parsing inverts the formatter exactly at the displayed precision:
//! rendering a microsecond count in some unit and parsing the text back
//! yields the count rounded to that unit's precision, so the two agree to
//! within half a display step. That round trip is proved below.

use crate::parameter::{lemma_pow10_pos, pow10};
use crate::units::{dec_digits, digit_char, format_unit_spec, padded_digits, Unit};
use vstd::arithmetic::div_mod::{
    lemma_div_pos_is_pos, lemma_fundamental_div_mod, lemma_remainder_lower, lemma_remainder_upper,
};
use vstd::prelude::*;

verus! {

/// A decimal digit character.
pub open spec fn is_digit_char(c: char) -> bool {
    '0' <= c && c <= '9'
}

/// The value of a decimal digit character.
pub open spec fn digit_val(c: char) -> int {
    (c as u32) as int - ('0' as u32) as int
}

/// Every character is a decimal digit.
pub open spec fn all_digits(s: Seq<char>) -> bool {
    forall|i: int| 0 <= i < s.len() ==> is_digit_char(#[trigger] s[i])
}

/// The number a digit string denotes.
pub open spec fn digits_val(s: Seq<char>) -> int
    decreases s.len(),
{
    if s.len() == 0 {
        0
    } else {
        digits_val(s.drop_last()) * 10 + digit_val(s.last())
    }
}

/// The digit characters denote their values.
pub proof fn lemma_digit_char_val(d: int)
    requires
        0 <= d < 10,
    ensures
        is_digit_char(digit_char(d)),
        digit_val(digit_char(d)) == d,
{
}

/// A digit string denotes a non-negative number, and extending it can only
/// grow the number.
pub proof fn lemma_digits_val_bounds(s: Seq<char>)
    requires
        all_digits(s),
    ensures
        digits_val(s) >= 0,
        s.len() > 0 ==> digits_val(s) >= digits_val(s.drop_last()),
    decreases s.len(),
{
    if s.len() > 0 {
        assert(forall|i: int| 0 <= i < s.drop_last().len() ==> is_digit_char(
            #[trigger] s.drop_last()[i],
        ));
        lemma_digits_val_bounds(s.drop_last());
        assert(is_digit_char(s.last()));
        assert(digits_val(s.drop_last()) * 10 >= digits_val(s.drop_last())) by (nonlinear_arith)
            requires
                digits_val(s.drop_last()) >= 0,
        ;
    }
}

/// Along a digit string, every prefix denotes at most what any longer
/// prefix denotes.
pub proof fn lemma_digits_val_prefix(s: Seq<char>, i: int, j: int)
    requires
        all_digits(s),
        0 <= i <= j <= s.len(),
    ensures
        digits_val(s.take(i)) <= digits_val(s.take(j)),
    decreases j - i,
{
    if i < j {
        lemma_digits_val_prefix(s, i, j - 1);
        let t = s.take(j);
        assert(forall|k: int| 0 <= k < t.len() ==> is_digit_char(#[trigger] t[k]));
        lemma_digits_val_bounds(t);
        assert(t.drop_last() =~= s.take(j - 1));
    }
}

/// The rendering of a number denotes that number.
pub proof fn lemma_dec_digits_val(n: nat)
    ensures
        all_digits(dec_digits(n)),
        digits_val(dec_digits(n)) == n,
        dec_digits(n).len() >= 1,
    decreases n,
{
    if n < 10 {
        lemma_digit_char_val(n as int);
        assert(dec_digits(n).drop_last() =~= Seq::<char>::empty());
        assert(digits_val(Seq::<char>::empty()) == 0);
        assert(dec_digits(n).last() == digit_char(n as int));
        assert(digits_val(dec_digits(n)) == 0 * 10 + digit_val(digit_char(n as int)));
    } else {
        lemma_dec_digits_val(n / 10);
        lemma_digit_char_val((n % 10) as int);
        assert(dec_digits(n).drop_last() =~= dec_digits(n / 10));
        assert(dec_digits(n).last() == digit_char((n % 10) as int));
        vstd::arithmetic::div_mod::lemma_fundamental_div_mod(n as int, 10);
    }
}

/// The zero-padded rendering of a number below `10^width` denotes that
/// number, in exactly `width` digits.
pub proof fn lemma_padded_digits_val(n: nat, width: nat)
    requires
        n < pow10(width),
    ensures
        all_digits(padded_digits(n, width)),
        digits_val(padded_digits(n, width)) == n,
        padded_digits(n, width).len() == width,
    decreases width,
{
    if width == 0 {
    } else {
        assert(n / 10 < pow10((width - 1) as nat)) by (nonlinear_arith)
            requires
                n < pow10(width),
                pow10(width) == 10 * pow10((width - 1) as nat),
                n >= 0,
        ;
        lemma_padded_digits_val(n / 10, (width - 1) as nat);
        lemma_digit_char_val((n % 10) as int);
        assert(padded_digits(n, width).drop_last() =~= padded_digits(n / 10, (width - 1) as nat));
        assert(padded_digits(n, width).last() == digit_char((n % 10) as int));
    }
}

/// The shape of a fixed-point duration: at least one whole digit, a point,
/// and exactly `frac_width` fraction digits.
pub open spec fn fixed_shape(s: Seq<char>, frac_width: nat) -> bool {
    &&& s.len() >= frac_width + 2
    &&& all_digits(s.take(s.len() - frac_width - 1))
    &&& s[s.len() - frac_width - 1] == '.'
    &&& all_digits(s.skip(s.len() - frac_width))
}

/// The number of display steps a fixed-point duration denotes: the whole
/// part in whole display units, scaled, plus the fraction.
pub open spec fn fixed_value(s: Seq<char>, frac_width: nat) -> int
    recommends
        fixed_shape(s, frac_width),
{
    digits_val(s.take(s.len() - frac_width - 1)) * pow10(frac_width) + digits_val(
        s.skip(s.len() - frac_width),
    )
}

/// The displayed precision of a unit, in microseconds per display step.
pub open spec fn step_of(unit: Unit) -> nat {
    match unit {
        Unit::Second => 1000,
        Unit::MilliSecond => 100,
    }
}

/// How many fraction digits a unit displays.
pub open spec fn frac_width_of(unit: Unit) -> nat {
    match unit {
        Unit::Second => 3,
        Unit::MilliSecond => 1,
    }
}

/// Ten to the third and the first, spelled out.
proof fn lemma_small_pow10()
    ensures
        pow10(3) == 1000,
        pow10(1) == 10,
{
    reveal_with_fuel(pow10, 5);
}

/// Rendering a microsecond count in a unit yields a well-formed fixed-point
/// duration that denotes the count rounded half up at the unit's precision;
/// undoing the scaling lands within half a display step of the original
/// count. This is the exact sense in which formatting loses no more than
/// the displayed precision.
pub proof fn lemma_format_parse_round_trip(micros: u64, unit: Unit)
    ensures
        fixed_shape(format_unit_spec(micros, unit), frac_width_of(unit)),
        fixed_value(format_unit_spec(micros, unit), frac_width_of(unit)) == (micros + step_of(unit)
            / 2) as int / step_of(unit) as int,
        fixed_value(format_unit_spec(micros, unit), frac_width_of(unit)) * step_of(unit) as int
            - micros <= step_of(unit) as int / 2,
        fixed_value(format_unit_spec(micros, unit), frac_width_of(unit)) * step_of(unit) as int
            - micros >= 1 - step_of(unit) as int / 2,
{
    lemma_small_pow10();
    let step = step_of(unit) as int;
    let w = frac_width_of(unit);
    let split = pow10(w);
    let scaled = (micros + step / 2) / step;
    lemma_div_pos_is_pos(micros + step / 2, step);
    let s = format_unit_spec(micros, unit);
    assert(s == dec_digits((scaled / split) as nat) + seq!['.'] + padded_digits(
        (scaled % split) as nat,
        w,
    ));
    lemma_div_pos_is_pos(scaled, split);
    lemma_remainder_lower(scaled, split);
    lemma_remainder_upper(scaled, split);
    lemma_dec_digits_val((scaled / split) as nat);
    lemma_padded_digits_val((scaled % split) as nat, w);
    let whole = dec_digits((scaled / split) as nat);
    let frac = padded_digits((scaled % split) as nat, w);
    assert(s.len() == whole.len() + 1 + w);
    assert(s.take(s.len() - w - 1) =~= whole);
    assert(s[s.len() - w - 1] == '.');
    assert(s.skip(s.len() - w) =~= frac);
    assert(fixed_shape(s, w));
    lemma_fundamental_div_mod(scaled, split);
    assert(fixed_value(s, w) == (scaled / split) * split + scaled % split);
    assert((scaled / split) * split + scaled % split == scaled) by (nonlinear_arith)
        requires
            scaled == split * (scaled / split) + scaled % split,
    ;
    lemma_fundamental_div_mod(micros + step / 2, step);
    lemma_remainder_lower(micros + step / 2, step);
    lemma_remainder_upper(micros + step / 2, step);
    assert(scaled * step == micros + step / 2 - ((micros + step / 2) % step))
        by (nonlinear_arith)
        requires
            micros + step / 2 == step * scaled + (micros + step / 2) % step,
    ;
}

/// The value of one decimal digit character.
fn digit_of(c: char) -> (r: Option<u64>)
    ensures
        r is Some <==> is_digit_char(c),
        r matches Some(d) ==> d == digit_val(c) && d < 10,
{
    if c >= '0' && c <= '9' {
        Some((c as u32 - '0' as u32) as u64)
    } else {
        None
    }
}

/// The number a digit run denotes, or `None` when a character is no digit
/// or the number leaves the 64-bit range.
fn parse_digit_run(s: &str, s_len: usize, from: usize, to: usize) -> (r: Option<u64>)
    requires
        s_len == s@.len(),
        0 <= from <= to <= s_len,
    ensures
        r is Some <==> all_digits(s@.subrange(from as int, to as int)) && digits_val(
            s@.subrange(from as int, to as int),
        ) <= u64::MAX,
        r matches Some(v) ==> v == digits_val(s@.subrange(from as int, to as int)),
{
    let ghost run = s@.subrange(from as int, to as int);
    let mut val: u64 = 0;
    let mut i: usize = from;
    while i < to
        invariant
            from <= i <= to <= s_len,
            s_len == s@.len(),
            run == s@.subrange(from as int, to as int),
            all_digits(run.take(i - from)),
            val == digits_val(run.take(i - from)),
        decreases to - i,
    {
        let c = s.get_char(i);
        proof {
            assert(run[i - from] == s@[i as int]);
        }
        let d = match digit_of(c) {
            Some(d) => d,
            None => {
                proof {
                    assert(!is_digit_char(run[i - from]));
                }
                return None;
            },
        };
        proof {
            assert(run.take(i - from + 1).drop_last() =~= run.take(i - from));
            assert(run.take(i - from + 1).last() == run[i - from]);
        }
        if val > (u64::MAX - d) / 10 {
            proof {
                assert(digits_val(run.take(i - from + 1)) == val * 10 + d);
                assert(val * 10 + d > u64::MAX) by (nonlinear_arith)
                    requires
                        val > (0xffff_ffff_ffff_ffffu64 - d) / 10,
                        0 <= d < 10,
                        val >= 0,
                ;
                assert(forall|k: int| 0 <= k < run.take(i - from + 1).len() ==> is_digit_char(
                    #[trigger] run.take(i - from + 1)[k],
                ));
                if all_digits(run) {
                    lemma_digits_val_prefix(run, i - from + 1, run.len() as int);
                    assert(run.take(run.len() as int) =~= run);
                }
            }
            return None;
        }
        proof {
            assert(val * 10 + d <= u64::MAX) by (nonlinear_arith)
                requires
                    val <= (0xffff_ffff_ffff_ffffu64 - d) / 10,
                    0 <= d < 10,
                    val >= 0,
            ;
        }
        val = val * 10 + d;
        i = i + 1;
    }
    proof {
        assert(run.take(run.len() as int) =~= run);
    }
    Some(val)
}

/// The display steps a fixed-point duration denotes: `None` for text that
/// is not digits, a point, and exactly `frac_width` fraction digits, and
/// for a value over `u64::MAX`.
pub fn parse_fixed(s: &str, frac_width: u64) -> (r: Option<u64>)
    requires
        frac_width <= 3,
    ensures
        r is Some <==> fixed_shape(s@, frac_width as nat) && fixed_value(s@, frac_width as nat)
            <= u64::MAX,
        r matches Some(v) ==> v == fixed_value(s@, frac_width as nat),
{
    proof {
        reveal_with_fuel(pow10, 5);
    }
    let s_len = s.unicode_len();
    if s_len < frac_width as usize + 2 {
        return None;
    }
    let dot_pos = s_len - frac_width as usize - 1;
    if s.get_char(dot_pos) != '.' {
        return None;
    }
    let whole = match parse_digit_run(s, s_len, 0, dot_pos) {
        Some(v) => v,
        None => {
            proof {
                assert(s@.subrange(0, dot_pos as int) =~= s@.take(
                    s@.len() - frac_width as nat - 1,
                ));
                if fixed_shape(s@, frac_width as nat) {
                    lemma_value_needs_whole(s@, frac_width as nat);
                }
            }
            return None;
        },
    };
    let frac = match parse_digit_run(s, s_len, dot_pos + 1, s_len) {
        Some(v) => v,
        None => {
            proof {
                assert(s@.subrange(dot_pos + 1, s_len as int) =~= s@.skip(
                    s@.len() - frac_width as nat,
                ));
                let f = s@.skip(s@.len() - frac_width as nat);
                if all_digits(f) {
                    lemma_digits_val_bounds(f);
                    lemma_frac_small(f, frac_width as nat);
                }
            }
            return None;
        },
    };
    let mut split: u64 = 1;
    let mut k: u64 = 0;
    while k < frac_width
        invariant
            0 <= k <= frac_width <= 3,
            split == pow10(k as nat),
            split <= 1000,
        decreases frac_width - k,
    {
        proof {
            reveal_with_fuel(pow10, 5);
        }
        split = split * 10;
        k = k + 1;
    }
    proof {
        assert(s@.subrange(0, dot_pos as int) =~= s@.take(s@.len() - frac_width as nat - 1));
        assert(s@.subrange(dot_pos + 1, s_len as int) =~= s@.skip(s@.len() - frac_width as nat));
        assert(whole as int * split as int + frac as int <= u128::MAX) by (nonlinear_arith)
            requires
                0 <= whole <= 0xffff_ffff_ffff_ffffu64,
                0 <= split <= 1000,
                0 <= frac <= 0xffff_ffff_ffff_ffffu64,
        ;
    }
    let total: u128 = (whole as u128) * (split as u128) + (frac as u128);
    if total > u64::MAX as u128 {
        return None;
    }
    Some(total as u64)
}

/// Fraction digits denote less than the scale they occupy.
proof fn lemma_frac_small(f: Seq<char>, width: nat)
    requires
        all_digits(f),
        f.len() == width,
    ensures
        digits_val(f) < pow10(width),
    decreases width,
{
    if width == 0 {
    } else {
        assert(forall|i: int| 0 <= i < f.drop_last().len() ==> is_digit_char(
            #[trigger] f.drop_last()[i],
        ));
        lemma_frac_small(f.drop_last(), (width - 1) as nat);
        assert(is_digit_char(f.last()));
        assert(digits_val(f.drop_last()) * 10 + digit_val(f.last()) < 10 * pow10((width - 1) as nat))
            by (nonlinear_arith)
            requires
                digits_val(f.drop_last()) < pow10((width - 1) as nat),
                digit_val(f.last()) < 10,
        ;
    }
}

/// A fixed-point value within the 64-bit range has its whole part within
/// the range too.
proof fn lemma_value_needs_whole(s: Seq<char>, width: nat)
    requires
        fixed_shape(s, width),
        digits_val(s.take(s.len() - width - 1)) > u64::MAX,
    ensures
        fixed_value(s, width) > u64::MAX,
{
    let whole = digits_val(s.take(s.len() - width - 1));
    let frac = digits_val(s.skip(s.len() - width));
    lemma_digits_val_bounds(s.skip(s.len() - width));
    lemma_pow10_pos(width);
    assert(whole * pow10(width) >= whole) by (nonlinear_arith)
        requires
            whole >= 0,
            pow10(width) >= 1,
    ;
}

/// A fixed-point duration in the given unit, scaled back to whole
/// microseconds (one display step per `step_of` microseconds).
pub fn parse_duration(s: &str, unit: Unit) -> (r: Option<u64>)
    ensures
        r is Some <==> fixed_shape(s@, frac_width_of(unit)) && fixed_value(s@, frac_width_of(unit))
            <= u64::MAX && fixed_value(s@, frac_width_of(unit)) * step_of(unit) <= u64::MAX,
        r matches Some(v) ==> v == fixed_value(s@, frac_width_of(unit)) * step_of(unit),
{
    let (width, step): (u64, u64) = match unit {
        Unit::Second => (3, 1000),
        Unit::MilliSecond => (1, 100),
    };
    let steps = match parse_fixed(s, width) {
        Some(v) => v,
        None => {
            return None;
        },
    };
    let micros: u128 = (steps as u128) * (step as u128);
    proof {
        assert(steps as int * step as int <= u128::MAX) by (nonlinear_arith)
            requires
                0 <= steps <= 0xffff_ffff_ffff_ffffu64,
                0 <= step <= 1000,
        ;
    }
    if micros > u64::MAX as u128 {
        return None;
    }
    Some(micros as u64)
}

} // verus!
