//! Time units and fixed-point rendering of microsecond counts.
//!
//! All measurements in this crate are whole microseconds. A [`Unit`] says how
//! a count is rendered: as seconds with three decimal places, or as
//! milliseconds with one decimal place, rounding half away from zero at the
//! displayed precision.

use vstd::prelude::*;

verus! {

/// Supported time units.
#[derive(Debug, Clone, Copy, PartialEq, Eq, Structural)]
pub enum Unit {
    Second,
    MilliSecond,
}

/// The decimal digit character for `d` in `0..10`.
pub open spec fn digit_char(d: int) -> char {
    if d == 0 {
        '0'
    } else if d == 1 {
        '1'
    } else if d == 2 {
        '2'
    } else if d == 3 {
        '3'
    } else if d == 4 {
        '4'
    } else if d == 5 {
        '5'
    } else if d == 6 {
        '6'
    } else if d == 7 {
        '7'
    } else if d == 8 {
        '8'
    } else {
        '9'
    }
}

/// The decimal digits of `n`, most significant first, without leading zeros
/// (a single zero for `n == 0`).
pub open spec fn dec_digits(n: nat) -> Seq<char>
    decreases n,
{
    if n < 10 {
        seq![digit_char(n as int)]
    } else {
        dec_digits(n / 10) + seq![digit_char((n % 10) as int)]
    }
}

/// Exactly `width` decimal digits of `n`, most significant first, zero
/// padded on the left.
pub open spec fn padded_digits(n: nat, width: nat) -> Seq<char>
    decreases width,
{
    if width == 0 {
        Seq::<char>::empty()
    } else {
        padded_digits(n / 10, (width - 1) as nat) + seq![digit_char((n % 10) as int)]
    }
}

/// `micros` rendered at a precision of `step` microseconds per displayed
/// fraction digit unit: the count is rounded half up to a whole number of
/// steps, of which the last `frac_width` digits form the fraction.
pub open spec fn fixed_point(micros: u64, step: nat, split: nat, frac_width: nat) -> Seq<char>
    recommends
        step >= 2,
        split >= 1,
{
    let scaled = ((micros + step / 2) / step as int) as nat;
    dec_digits(scaled / split) + seq!['.'] + padded_digits(scaled % split, frac_width)
}

/// How a microsecond count reads in the given unit: seconds with three
/// decimal places, or milliseconds with one.
pub open spec fn format_unit_spec(micros: u64, unit: Unit) -> Seq<char> {
    match unit {
        Unit::Second => fixed_point(micros, 1000, 1000, 3),
        Unit::MilliSecond => fixed_point(micros, 100, 10, 1),
    }
}

/// The unit a duration is displayed in when none is asked for: milliseconds
/// under one second, seconds otherwise.
pub open spec fn unit_of(micros: u64, unit: Option<Unit>) -> Unit {
    match unit {
        Some(u) => u,
        None => if micros < 1_000_000 {
            Unit::MilliSecond
        } else {
            Unit::Second
        },
    }
}

/// The abbreviation of a unit.
pub open spec fn short_name_spec(unit: Unit) -> Seq<char> {
    match unit {
        Unit::Second => "s"@,
        Unit::MilliSecond => "ms"@,
    }
}

/// The one-character string of a decimal digit.
fn digit_str(d: u64) -> (r: &'static str)
    requires
        d < 10,
    ensures
        r@ == seq![digit_char(d as int)],
{
    proof {
        reveal_strlit("0");
        reveal_strlit("1");
        reveal_strlit("2");
        reveal_strlit("3");
        reveal_strlit("4");
        reveal_strlit("5");
        reveal_strlit("6");
        reveal_strlit("7");
        reveal_strlit("8");
        reveal_strlit("9");
    }
    let r = match d {
        0 => "0",
        1 => "1",
        2 => "2",
        3 => "3",
        4 => "4",
        5 => "5",
        6 => "6",
        7 => "7",
        8 => "8",
        _ => "9",
    };
    proof {
        assert(r@ =~= seq![digit_char(d as int)]);
    }
    r
}

/// The decimal digits of `n`, without leading zeros.
pub fn u64_to_string(n: u64) -> (r: String)
    ensures
        r@ == dec_digits(n as nat),
    decreases n,
{
    if n < 10 {
        String::from_str(digit_str(n))
    } else {
        let s = u64_to_string(n / 10);
        let r = s.concat(digit_str(n % 10));
        proof {
            assert(r@ =~= dec_digits(n as nat));
        }
        r
    }
}

/// Exactly `width` decimal digits of `n`, zero padded on the left.
pub fn u64_to_padded_string(n: u64, width: u64) -> (r: String)
    ensures
        r@ == padded_digits(n as nat, width as nat),
    decreases width,
{
    if width == 0 {
        let r = String::new();
        proof {
            assert(r@ =~= padded_digits(n as nat, 0));
        }
        r
    } else {
        let s = u64_to_padded_string(n / 10, width - 1);
        let r = s.concat(digit_str(n % 10));
        proof {
            assert(r@ =~= padded_digits(n as nat, width as nat));
        }
        r
    }
}

/// `micros` rendered as a whole part, a dot, and `frac_width` fraction
/// digits, rounded half up at a precision of `step` microseconds.
fn format_fixed_point(micros: u64, step: u64, split: u64, frac_width: u64) -> (r: String)
    requires
        step >= 2,
        split >= 1,
    ensures
        r@ == fixed_point(micros, step as nat, split as nat, frac_width as nat),
{
    let scaled128: u128 = (micros as u128 + (step / 2) as u128) / (step as u128);
    proof {
        vstd::arithmetic::div_mod::lemma_div_is_ordered_by_denominator(
            micros as int + (step / 2) as int,
            2,
            step as int,
        );
        assert((micros as int + (step / 2) as int) / 2 <= u64::MAX);
    }
    let scaled: u64 = scaled128 as u64;
    let whole = u64_to_string(scaled / split);
    let frac = u64_to_padded_string(scaled % split, frac_width);
    proof {
        reveal_strlit(".");
    }
    let r = whole.concat(".").concat(frac.as_str());
    proof {
        assert(r@ =~= fixed_point(micros, step as nat, split as nat, frac_width as nat));
    }
    r
}

impl Unit {
    /// The abbreviation of the unit.
    pub fn short_name(&self) -> (name: String)
        ensures
            name@ == short_name_spec(*self),
    {
        match *self {
            Unit::Second => String::from_str("s"),
            Unit::MilliSecond => String::from_str("ms"),
        }
    }

    /// A microsecond count formatted for the unit.
    pub fn format(&self, micros: u64) -> (r: String)
        ensures
            r@ == format_unit_spec(micros, *self),
    {
        match *self {
            Unit::Second => format_fixed_point(micros, 1000, 1000, 3),
            Unit::MilliSecond => format_fixed_point(micros, 100, 10, 1),
        }
    }
}

/// Format a duration in the given unit, or in the unit its size calls for:
/// milliseconds under one second, seconds otherwise. Returns the text and
/// the unit it is in.
pub fn format_duration_unit(micros: u64, unit: Option<Unit>) -> (r: (String, Unit))
    ensures
        r.1 == unit_of(micros, unit),
        r.0@ == format_unit_spec(micros, r.1),
{
    let chosen = match unit {
        Some(u) => u,
        None => if micros < 1_000_000 {
            Unit::MilliSecond
        } else {
            Unit::Second
        },
    };
    (chosen.format(micros), chosen)
}

/// Format a duration in the given unit, or in the unit its size calls for.
pub fn format_duration(micros: u64, unit: Option<Unit>) -> (r: String)
    ensures
        r@ == format_unit_spec(micros, unit_of(micros, unit)),
{
    let (text, _) = format_duration_unit(micros, unit);
    text
}

} // verus!
