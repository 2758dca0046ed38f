//! Fixed-point numbers: the engine's arithmetic without floating point.
use super::{
    averages, counted, floored, functional, is_finite, is_number, less, logarithm, measured,
    minus_one, monotone, no_more, one, ordered, product, quotient, root, rounds_down, within, zero,
    Number,
};
use crate::decimal::{
    decimal_mantissa, decimal_parts, decimal_scale, make_decimal, mantissa_of, scale_of,
};
use crate::text::{copy_text, digit, digit_char, digits, natural_text};
use rust_decimal::Decimal;
use vstd::prelude::*;

verus! {

/// How many units make one.
pub const UNIT: i128 = 1_000_000;

/// The natural logarithm of two, in units.
pub const LN_TWO: i128 = 693_147;

/// A number in millionths. Results that are out of range are brought to its end,
/// results between two numbers to the one nearer to zero.
#[derive(Clone, Copy, Debug, PartialEq, Eq, Structural)]
pub struct Fixed {
    pub units: i64,
}

/// The number of units nearest to a count that may be out of range.
pub open spec fn in_range(units: int) -> Fixed {
    Fixed {
        units: if units > i64::MAX {
            i64::MAX
        } else if units < i64::MIN {
            i64::MIN
        } else {
            units as i64
        },
    }
}

/// A quotient without its fraction; `b` is positive.
pub open spec fn whole(a: int, b: int) -> int {
    if a >= 0 {
        a / b
    } else {
        -((-a) / b)
    }
}

/// The quotient of two numbers; of a number and zero, the end of the range on the
/// number's side.
pub open spec fn divided(a: int, b: int) -> Fixed {
    if b > 0 {
        in_range(whole(a * UNIT, b))
    } else if b < 0 {
        in_range(whole(-a * UNIT, -b))
    } else if a > 0 {
        Fixed { units: i64::MAX }
    } else if a < 0 {
        Fixed { units: i64::MIN }
    } else {
        Fixed { units: 0 }
    }
}

/// Whether `r` is the root of `n` without its fraction.
pub open spec fn is_root(n: int, r: int) -> bool {
    0 <= r && r * r <= n && n < (r + 1) * (r + 1)
}

/// The root of `n` without its fraction.
pub open spec fn whole_root(n: int) -> int {
    choose|r: int| is_root(n, r)
}

/// The root of a number without what is below a unit; zero where it has none.
pub open spec fn root_units(units: int) -> Fixed {
    if units < 0 {
        Fixed { units: 0 }
    } else {
        Fixed { units: whole_root(units * UNIT) as i64 }
    }
}

/// The logarithm of a number from one to two, in units, by the first terms of the
/// series for the inverse hyperbolic tangent.
pub open spec fn log_near_one(units: int) -> int {
    let t = (units - UNIT) * UNIT / (units + UNIT);
    let square = t * t / (UNIT as int);
    let third = t * square / (UNIT as int);
    let fifth = third * square / (UNIT as int);
    let seventh = fifth * square / (UNIT as int);
    2 * (t + third / 3 + fifth / 5 + seventh / 7)
}

/// The logarithm of a number from one up, in units.
pub open spec fn log_large(units: int) -> int
    decreases units,
{
    if units < 2 * UNIT {
        log_near_one(units)
    } else {
        log_large(units / 2) + LN_TWO
    }
}

/// The logarithm of a positive number up to one, in units.
pub open spec fn log_small(units: int) -> int
    decreases 2 * UNIT - units,
{
    if units <= 0 || units >= UNIT {
        log_near_one(units)
    } else {
        log_small(2 * units) - LN_TWO
    }
}

/// The logarithm of a number; the low end of the range where it has none.
pub open spec fn log_of(units: int) -> Fixed {
    if units <= 0 {
        Fixed { units: i64::MIN }
    } else if units >= UNIT {
        in_range(log_large(units))
    } else {
        in_range(log_small(units))
    }
}

/// A power of ten.
pub open spec fn ten_to(n: nat) -> nat
    decreases n,
{
    if n == 0 {
        1
    } else {
        10 * ten_to((n - 1) as nat)
    }
}

/// The amount `mantissa` over a power of ten, in units, where it is in range.
pub open spec fn units_of(mantissa: int, scale: nat) -> Option<Fixed> {
    let units = if scale <= 6 {
        mantissa * ten_to((6 - scale) as nat)
    } else {
        whole(mantissa, ten_to((scale - 6) as nat) as int)
    };
    if i64::MIN <= units <= i64::MAX {
        Some(Fixed { units: units as i64 })
    } else {
        None
    }
}

/// The last `places` digits of a number.
pub open spec fn last_digits(n: nat, places: nat) -> Seq<char>
    decreases places,
{
    if places == 0 {
        Seq::empty()
    } else {
        last_digits(n / 10, (places - 1) as nat).push(digit_char((n % 10) as int))
    }
}

/// A sign, a whole part and, after a point, `places` digits of a fraction.
pub open spec fn point_text(negative: bool, n: nat, places: nat) -> Seq<char> {
    let sign = if negative {
        seq!['-']
    } else {
        Seq::empty()
    };
    if places == 0 {
        sign + digits(n)
    } else {
        sign + digits(n / ten_to(places)) + seq!['.'] + last_digits(n, places)
    }
}

/// A number of millionths without the zeros at its end: the rest, and how many places
/// it has.
pub open spec fn shortest(n: nat, places: nat) -> (nat, nat)
    decreases places,
{
    if places == 0 || n % 10 != 0 {
        (n, places)
    } else {
        shortest(n / 10, (places - 1) as nat)
    }
}

/// A number of millionths rounded to at most six places, halves up.
pub open spec fn rounded(n: nat, places: nat) -> nat {
    (n + ten_to((6 - places) as nat) / 2) / ten_to((6 - places) as nat)
}

/// A magnitude.
pub open spec fn size_of(units: i64) -> nat {
    if units < 0 {
        -units as nat
    } else {
        units as nat
    }
}

/// A number with so many places after the point.
pub open spec fn places_text(units: i64, places: nat) -> Seq<char> {
    if places <= 6 {
        point_text(units < 0, rounded(size_of(units), places), places)
    } else {
        point_text(units < 0, size_of(units), 6) + Seq::new((places - 6) as nat, |i: int| '0')
    }
}

/// A number as short as it can be written.
pub open spec fn short_text(units: i64) -> Seq<char> {
    let (n, places) = shortest(size_of(units), 6);
    point_text(units < 0, n, places)
}

fn saturate(units: i128) -> (r: Fixed)
    ensures
        r == in_range(units as int),
{
    if units > i64::MAX as i128 {
        Fixed { units: i64::MAX }
    } else if units < i64::MIN as i128 {
        Fixed { units: i64::MIN }
    } else {
        Fixed { units: units as i64 }
    }
}

fn whole_part(a: i128, b: i128) -> (r: i128)
    requires
        a > i128::MIN,
        b > 0,
    ensures
        r == whole(a as int, b as int),
{
    if a >= 0 {
        assert(a as int / b as int <= a) by (nonlinear_arith)
            requires
                a >= 0,
                b > 0,
        ;
        a / b
    } else {
        let size: i128 = 0 - a;
        0 - size / b
    }
}

proof fn lemma_one_root(n: int, a: int, b: int)
    requires
        is_root(n, a),
        is_root(n, b),
    ensures
        a == b,
{
    if a < b {
        assert((a + 1) * (a + 1) <= b * b) by (nonlinear_arith)
            requires
                0 <= a,
                a + 1 <= b,
        ;
    } else if b < a {
        assert((b + 1) * (b + 1) <= a * a) by (nonlinear_arith)
            requires
                0 <= b,
                b + 1 <= a,
        ;
    }
}

proof fn lemma_root_units(units: int, r: int)
    requires
        units >= 0,
        is_root(units * UNIT, r),
    ensures
        root_units(units) == (Fixed { units: r as i64 }),
{
    lemma_one_root(units * UNIT, r, whole_root(units * UNIT));
}

fn root_of(n: i128) -> (r: i128)
    requires
        0 <= n < 10_000_000_000_000_000_000_000_000,
    ensures
        is_root(n as int, r as int),
        r < 10_000_000_000_000,
{
    let mut low: i128 = 0;
    let mut high: i128 = 10_000_000_000_000;
    while high - low > 1
        invariant
            0 <= n < 10_000_000_000_000_000_000_000_000,
            0 <= low < high <= 10_000_000_000_000,
            low * low <= n < high * high,
        decreases high - low,
    {
        let middle: i128 = low + (high - low) / 2;
        assert(middle * middle <= 10_000_000_000_000 * 10_000_000_000_000) by (nonlinear_arith)
            requires
                0 <= middle <= 10_000_000_000_000,
        ;
        assert(0 <= middle * middle) by (nonlinear_arith)
            requires
                0 <= middle,
        ;
        if middle * middle <= n {
            low = middle;
        } else {
            high = middle;
        }
    }
    low
}

fn log_of_near_one(units: i128) -> (r: i128)
    requires
        UNIT <= units < 2 * UNIT,
    ensures
        r == log_near_one(units as int),
        0 <= r < 2_000_000,
{
    let t: i128 = (units - UNIT) * UNIT / (units + UNIT);
    assert(0 <= t <= 333_333) by (nonlinear_arith)
        requires
            t == (units - 1_000_000) * 1_000_000 / (units + 1_000_000),
            1_000_000 <= units < 2_000_000,
    ;
    assert(0 <= t * t <= 333_333 * 333_333) by (nonlinear_arith)
        requires
            0 <= t <= 333_333,
    ;
    let square: i128 = t * t / UNIT;
    assert(0 <= t * square <= 333_333 * 333_333) by (nonlinear_arith)
        requires
            0 <= t <= 333_333,
            0 <= square <= 333_333,
    ;
    let third: i128 = t * square / UNIT;
    assert(0 <= third * square <= 333_333 * 333_333) by (nonlinear_arith)
        requires
            0 <= third <= 333_333,
            0 <= square <= 333_333,
    ;
    let fifth: i128 = third * square / UNIT;
    assert(0 <= fifth * square <= 333_333 * 333_333) by (nonlinear_arith)
        requires
            0 <= fifth <= 333_333,
            0 <= square <= 333_333,
    ;
    let seventh: i128 = fifth * square / UNIT;
    2 * (t + third / 3 + fifth / 5 + seventh / 7)
}

fn log_of_large(units: i128) -> (r: i128)
    requires
        UNIT <= units <= i64::MAX,
    ensures
        r == log_large(units as int),
        0 <= r <= 2_000_000 + units,
    decreases units,
{
    if units < 2 * UNIT {
        log_of_near_one(units)
    } else {
        log_of_large(units / 2) + LN_TWO
    }
}

fn log_of_small(units: i128) -> (r: i128)
    requires
        0 < units < 2 * UNIT,
    ensures
        r == log_small(units as int),
        -693_147 * (2_000_000 - units) <= r < 2_000_000,
    decreases 2 * UNIT - units,
{
    if units >= UNIT {
        log_of_near_one(units)
    } else {
        log_of_small(2 * units) - LN_TWO
    }
}

proof fn lemma_ten_to(n: nat)
    ensures
        ten_to(n) > 0,
        n <= 6 ==> ten_to(n) <= 1_000_000,
    decreases n,
{
    reveal_with_fuel(ten_to, 8);
    if n > 0 {
        lemma_ten_to((n - 1) as nat);
    }
}

fn power(n: u32) -> (r: i128)
    requires
        n <= 6,
    ensures
        r == ten_to(n as nat),
        1 <= r <= 1_000_000,
    decreases n,
{
    proof {
        lemma_ten_to(n as nat);
    }
    if n == 0 {
        1
    } else {
        let before: i128 = power(n - 1);
        proof {
            lemma_ten_to((n - 1) as nat);
            reveal_with_fuel(ten_to, 8);
        }
        10 * before
    }
}

fn drop_places(size: i128, places: u32) -> (r: i128)
    requires
        size >= 0,
    ensures
        0 <= r <= size,
        r == size as int / ten_to(places as nat) as int,
    decreases places,
{
    if places == 0 {
        assert(ten_to(0) == 1);
        size
    } else {
        let rest: i128 = drop_places(size / 10, places - 1);
        proof {
            let tens = ten_to((places - 1) as nat) as int;
            lemma_ten_to((places - 1) as nat);
            vstd::arithmetic::div_mod::lemma_div_denominator(size as int, 10, tens);
            assert(ten_to(places as nat) == 10 * tens);
        }
        rest
    }
}

fn digits_at_end(n: u128, places: usize) -> (r: String)
    ensures
        r@ == last_digits(n as nat, places as nat),
    decreases places,
{
    if places == 0 {
        let none = String::new();
        assert(none@ =~= last_digits(n as nat, 0));
        none
    } else {
        let mut text = digits_at_end(n / 10, places - 1);
        text.push(digit((n % 10) as u8));
        text
    }
}

fn write_point(negative: bool, whole_part: u128, n: u128, places: usize) -> (r: String)
    requires
        places > 0 ==> whole_part == n as nat / ten_to(places as nat),
        places == 0 ==> whole_part == n,
    ensures
        r@ == point_text(negative, n as nat, places as nat),
{
    let mut text = if negative {
        copy_text("-")
    } else {
        String::new()
    };
    proof {
        reveal_strlit("-");
        reveal_strlit(".");
    }
    let ghost sign = text@;
    assert(sign =~= if negative {
        seq!['-']
    } else {
        Seq::empty()
    });
    text.append(natural_text(whole_part).as_str());
    if places > 0 {
        text.append(".");
        assert(text@ =~= sign + digits(whole_part as nat) + seq!['.']);
        text.append(digits_at_end(n, places).as_str());
    }
    text
}

impl Number for Fixed {
    open spec fn ratio_spec(num: i64, den: i64) -> Fixed {
        divided(num as int, den as int)
    }

    fn ratio(num: i64, den: i64) -> (r: Fixed)
        ensures
            r == Fixed::ratio_spec(num, den),
    {
        Fixed { units: num }.over(Fixed { units: den })
    }

    open spec fn count_spec(n: usize) -> Fixed {
        in_range(n * UNIT)
    }

    fn count(n: usize) -> (r: Fixed)
        ensures
            r == Fixed::count_spec(n),
    {
        saturate((n as i128) * UNIT)
    }

    open spec fn plus_spec(a: Fixed, b: Fixed) -> Fixed {
        in_range(a.units + b.units)
    }

    fn plus(self, other: Fixed) -> (r: Fixed)
        ensures
            r == Fixed::plus_spec(self, other),
    {
        saturate(self.units as i128 + other.units as i128)
    }

    open spec fn minus_spec(a: Fixed, b: Fixed) -> Fixed {
        in_range(a.units - b.units)
    }

    fn minus(self, other: Fixed) -> (r: Fixed)
        ensures
            r == Fixed::minus_spec(self, other),
    {
        saturate(self.units as i128 - other.units as i128)
    }

    open spec fn times_spec(a: Fixed, b: Fixed) -> Fixed {
        in_range(whole(a.units * b.units, UNIT as int))
    }

    fn times(self, other: Fixed) -> (r: Fixed)
        ensures
            r == Fixed::times_spec(self, other),
    {
        let a: i128 = self.units as i128;
        let b: i128 = other.units as i128;
        assert(-0x4000_0000_0000_0000_0000_0000_0000_0000 <= a * b
            <= 0x4000_0000_0000_0000_0000_0000_0000_0000) by (nonlinear_arith)
            requires
                -0x8000_0000_0000_0000 <= a <= 0x8000_0000_0000_0000,
                -0x8000_0000_0000_0000 <= b <= 0x8000_0000_0000_0000,
        ;
        saturate(whole_part(a * b, UNIT))
    }

    open spec fn over_spec(a: Fixed, b: Fixed) -> Fixed {
        divided(a.units as int, b.units as int)
    }

    fn over(self, other: Fixed) -> (r: Fixed)
        ensures
            r == Fixed::over_spec(self, other),
    {
        let a: i128 = self.units as i128;
        let b: i128 = other.units as i128;
        if b > 0 {
            saturate(whole_part(a * UNIT, b))
        } else if b < 0 {
            saturate(whole_part((0 - a) * UNIT, 0 - b))
        } else if a > 0 {
            Fixed { units: i64::MAX }
        } else if a < 0 {
            Fixed { units: i64::MIN }
        } else {
            Fixed { units: 0 }
        }
    }

    open spec fn below_spec(a: Fixed, b: Fixed) -> bool {
        a.units < b.units
    }

    fn below(self, other: Fixed) -> (r: bool)
        ensures
            r == Fixed::below_spec(self, other),
    {
        self.units < other.units
    }

    open spec fn at_most_spec(a: Fixed, b: Fixed) -> bool {
        a.units <= b.units
    }

    fn at_most(self, other: Fixed) -> (r: bool)
        ensures
            r == Fixed::at_most_spec(self, other),
    {
        self.units <= other.units
    }

    open spec fn floor_spec(a: Fixed) -> Fixed {
        in_range(a.units as int / UNIT as int * UNIT)
    }

    fn floor(self) -> (r: Fixed)
        ensures
            r == Fixed::floor_spec(self),
    {
        let a: i128 = self.units as i128;
        if a >= 0 {
            saturate(a / UNIT * UNIT)
        } else {
            let up: i128 = (0 - a + (UNIT - 1)) / UNIT;
            assert(a as int / UNIT as int == -up);
            saturate((0 - up) * UNIT)
        }
    }

    open spec fn sqrt_spec(a: Fixed) -> Fixed {
        root_units(a.units as int)
    }

    fn sqrt(self) -> (r: Fixed)
        ensures
            r == Fixed::sqrt_spec(self),
    {
        if self.units < 0 {
            return Fixed { units: 0 };
        }
        let r: i128 = root_of(self.units as i128 * UNIT);
        proof {
            lemma_root_units(self.units as int, r as int);
        }
        Fixed { units: r as i64 }
    }

    open spec fn ln_spec(a: Fixed) -> Fixed {
        log_of(a.units as int)
    }

    fn ln(self) -> (r: Fixed)
        ensures
            r == Fixed::ln_spec(self),
    {
        let units: i128 = self.units as i128;
        if units <= 0 {
            Fixed { units: i64::MIN }
        } else if units >= UNIT {
            saturate(log_of_large(units))
        } else {
            saturate(log_of_small(units))
        }
    }

    open spec fn from_decimal_spec(amount: Decimal) -> Option<Fixed> {
        units_of(decimal_mantissa(amount) as int, decimal_scale(amount) as nat)
    }

    fn from_decimal(amount: Decimal) -> (r: Option<Fixed>)
        ensures
            r == Fixed::from_decimal_spec(amount),
    {
        let mantissa: i128 = mantissa_of(amount);
        let scale: u32 = scale_of(amount);
        let units: i128 = if scale <= 6 {
            let factor: i128 = power(6 - scale);
            assert(-79_228_162_514_264_337_593_543_950_336_000_000 <= mantissa * factor
                <= 79_228_162_514_264_337_593_543_950_336_000_000) by (nonlinear_arith)
                requires
                    -79_228_162_514_264_337_593_543_950_336 < mantissa
                        < 79_228_162_514_264_337_593_543_950_336,
                    1 <= factor <= 1_000_000,
            ;
            mantissa * factor
        } else if mantissa >= 0 {
            drop_places(mantissa, scale - 6)
        } else {
            0 - drop_places(0 - mantissa, scale - 6)
        };
        if units > i64::MAX as i128 || units < i64::MIN as i128 {
            None
        } else {
            Some(Fixed { units: units as i64 })
        }
    }

    open spec fn to_decimal_spec(a: Fixed) -> Option<Decimal> {
        Some(decimal_parts(a.units, 6))
    }

    fn to_decimal(self) -> (r: Option<Decimal>)
        ensures
            r == Fixed::to_decimal_spec(self),
            decimal_mantissa(r->0) == self.units,
            decimal_scale(r->0) == 6,
    {
        Some(make_decimal(self.units, 6))
    }

    open spec fn text_spec(a: Fixed) -> Seq<char> {
        short_text(a.units)
    }

    fn text(self) -> (r: String)
        ensures
            r@ == Fixed::text_spec(self),
    {
        let mut n: i128 = size(self.units);
        let ghost all = n as nat;
        let mut places: u32 = 6;
        while places > 0 && n % 10 == 0
            invariant
                0 <= n <= 0x8000_0000_0000_0000,
                places <= 6,
                shortest(all, 6) == shortest(n as nat, places as nat),
            decreases places,
        {
            n = n / 10;
            places = places - 1;
        }
        assert(shortest(n as nat, places as nat) == (n as nat, places as nat));
        let whole = drop_places(n, places);
        assert(ten_to(0) == 1);
        write_point(self.units < 0, whole as u128, n as u128, places as usize)
    }

    open spec fn text_places_spec(a: Fixed, places: usize) -> Seq<char> {
        places_text(a.units, places as nat)
    }

    fn text_places(self, places: usize) -> (r: String)
        ensures
            r@ == Fixed::text_places_spec(self, places),
    {
        let n: i128 = size(self.units);
        if places <= 6 {
            let step: i128 = power(6 - places as u32);
            let near: i128 = (n + step / 2) / step;
            assert(0 <= (n + step / 2) / (step as int) <= n + step / 2) by (nonlinear_arith)
                requires
                    0 <= n,
                    1 <= step,
            ;
            let whole = drop_places(near, places as u32);
            assert(ten_to(0) == 1);
            assert(near as int / 1 == near);
            write_point(self.units < 0, whole as u128, near as u128, places)
        } else {
            let whole = drop_places(n, 6);
            let mut text = write_point(self.units < 0, whole as u128, n as u128, 6);
            let ghost short = text@;
            let mut i: usize = 6;
            while i < places
                invariant
                    6 <= i <= places,
                    text@ == short + Seq::new((i - 6) as nat, |k: int| '0'),
                decreases places - i,
            {
                text.push('0');
                i = i + 1;
                assert(text@ =~= short + Seq::new((i - 6) as nat, |k: int| '0'));
            }
            text
        }
    }
}

fn size(units: i64) -> (r: i128)
    ensures
        r == size_of(units),
{
    if units < 0 {
        0 - units as i128
    } else {
        units as i128
    }
}

/// Every operation on fixed-point numbers is a function of its operands.
pub proof fn law_fixed_is_functional()
    ensures
        functional::<Fixed>(),
{
}

/// The order of fixed-point numbers is one.
pub proof fn law_fixed_is_ordered()
    ensures
        ordered::<Fixed>(),
{
}

proof fn lemma_whole_division(a: int, b: int)
    by (nonlinear_arith)
    requires
        b > 0,
    ensures
        a / b * b <= a,
        a < (a / b + 1) * b,
        a >= 0 ==> a / b >= 0,
        a < 0 ==> a / b < 0,
{
}

/// The whole parts of a fixed-point number: `k` of them, with `k` from the quotient.
proof fn lemma_whole_parts(a: Fixed, b: Fixed)
    requires
        b.units > 0,
    ensures
        ({
            let parts = Fixed::floor_spec(Fixed::over_spec(a, b));
            parts.units >= UNIT ==> exists|k: int|
                {
                    &&& k >= 1
                    &&& parts.units == k * UNIT
                    &&& #[trigger] (k * b.units) <= a.units
                }
        }),
        a.units < 0 ==> Fixed::floor_spec(Fixed::over_spec(a, b)).units < UNIT,
{
    let q = Fixed::over_spec(a, b);
    let parts = Fixed::floor_spec(q);
    let exact = whole(a.units * UNIT, b.units as int);
    if a.units >= 0 {
        assert(a.units * UNIT >= 0) by (nonlinear_arith)
            requires
                a.units >= 0,
                UNIT == 1_000_000,
        ;
        lemma_whole_division(a.units * UNIT, b.units as int);
        assert(exact >= 0);
        assert(q.units <= exact);
        lemma_whole_division(q.units as int, UNIT as int);
        let k = q.units as int / UNIT as int;
        assert(0 <= k * UNIT <= q.units);
        assert(parts.units == k * UNIT);
        if parts.units >= UNIT {
            assert(k * b.units <= a.units) by (nonlinear_arith)
                requires
                    UNIT == 1_000_000,
                    k * UNIT <= q.units,
                    q.units <= exact,
                    exact * b.units <= a.units * UNIT,
                    b.units > 0,
            ;
            assert(k >= 1);
        }
    } else {
        assert(-a.units * UNIT >= 0) by (nonlinear_arith)
            requires
                a.units < 0,
                UNIT == 1_000_000,
        ;
        assert(a.units * UNIT <= 0) by (nonlinear_arith)
            requires
                a.units < 0,
                UNIT == 1_000_000,
        ;
        lemma_whole_division(-(a.units * UNIT), b.units as int);
        assert(exact <= 0);
        assert(q.units <= 0);
        lemma_whole_division(q.units as int, UNIT as int);
        assert(parts.units <= 0);
    }
}

/// As many parts as a number has whole parts of a size are within the number, where they
/// are no larger.
proof fn lemma_parts_within(a: Fixed, b: Fixed, c: Fixed)
    requires
        b.units > 0,
        c.units <= b.units,
        Fixed::floor_spec(Fixed::over_spec(a, b)).units >= UNIT,
    ensures
        Fixed::times_spec(Fixed::floor_spec(Fixed::over_spec(a, b)), c).units <= a.units,
{
    lemma_whole_parts(a, b);
    let parts = Fixed::floor_spec(Fixed::over_spec(a, b));
    let k = choose|k: int| k >= 1 && parts.units == k * UNIT && #[trigger] (k * b.units) <= a.units;
    let made = k * c.units;
    assert(parts.units * c.units == made * UNIT) by (nonlinear_arith)
        requires
            parts.units == k * UNIT,
            made == k * c.units,
    ;
    assert(made <= k * b.units) by (nonlinear_arith)
        requires
            made == k * c.units,
            k >= 1,
            c.units <= b.units,
    ;
    assert(k * b.units > 0) by (nonlinear_arith)
        requires
            k >= 1,
            b.units > 0,
    ;
    assert((made * UNIT) / UNIT as int == made && (-(made * UNIT)) / UNIT as int == -made)
        by (nonlinear_arith)
        requires
            UNIT == 1_000_000,
    ;
}

/// The whole parts of a number are all there are: one more would be more than the number.
pub proof fn lemma_parts_are_all(a: Fixed, b: Fixed)
    requires
        b.units > 0,
        0 <= a.units < i64::MAX,
        Fixed::floor_spec(Fixed::over_spec(a, b)).units + UNIT <= i64::MAX,
    ensures
        ({
            let parts = Fixed::floor_spec(Fixed::over_spec(a, b));
            let more = Fixed::plus_spec(parts, Fixed { units: UNIT as i64 });
            &&& 0 <= parts.units
            &&& a.units < Fixed::times_spec(more, b).units
            &&& Fixed::times_spec(parts, b).units <= a.units
        }),
{
    let q = Fixed::over_spec(a, b);
    let parts = Fixed::floor_spec(q);
    let exact = whole(a.units * UNIT, b.units as int);
    lemma_quotient_not_negative(a, b);
    lemma_whole_division(a.units * UNIT, b.units as int);
    lemma_whole_division(q.units as int, UNIT as int);
    let k = q.units as int / UNIT as int;
    assert(parts.units == k * UNIT);
    assert(q.units == exact);
    assert(a.units < (k + 1) * b.units) by (nonlinear_arith)
        requires
            UNIT == 1_000_000,
            q.units < (k + 1) * UNIT,
            a.units * UNIT < (q.units + 1) * b.units,
            b.units > 0,
    ;
    assert(k * b.units <= a.units) by (nonlinear_arith)
        requires
            UNIT == 1_000_000,
            k * UNIT <= q.units,
            q.units * b.units <= a.units * UNIT,
            b.units > 0,
    ;
    assert(0 <= k * b.units && 0 <= (k + 1) * b.units) by (nonlinear_arith)
        requires
            k >= 0,
            b.units > 0,
    ;
    let more = (k + 1) * b.units;
    let made = k * b.units;
    assert((parts.units + UNIT) * b.units == more * UNIT && parts.units * b.units == made * UNIT)
        by (nonlinear_arith)
        requires
            parts.units == k * UNIT,
            more == (k + 1) * b.units,
            made == k * b.units,
    ;
    assert((more * UNIT) / UNIT as int == more && (made * UNIT) / UNIT as int == made)
        by (nonlinear_arith)
        requires
            UNIT == 1_000_000,
    ;
}

/// A quotient by one or more is no more than what is divided, and its whole parts are a
/// whole number.
pub proof fn lemma_quotient_within(a: Fixed, b: Fixed)
    requires
        0 <= a.units,
        b.units >= UNIT,
    ensures
        0 <= Fixed::over_spec(a, b).units <= a.units,
        0 <= Fixed::floor_spec(Fixed::over_spec(a, b)).units <= a.units,
        Fixed::floor_spec(Fixed::over_spec(a, b)).units as int % UNIT as int == 0,
{
    let q = Fixed::over_spec(a, b);
    lemma_quotient_not_negative(a, b);
    assert(a.units * UNIT / (b.units as int) <= a.units) by (nonlinear_arith)
        requires
            a.units >= 0,
            b.units >= UNIT,
            UNIT == 1_000_000,
    ;
    lemma_whole_division(q.units as int, UNIT as int);
}

/// A number times one is the number.
pub proof fn lemma_times_one(a: Fixed)
    ensures
        Fixed::times_spec(Fixed { units: UNIT as i64 }, a) == a,
{
    let made = UNIT * a.units;
    assert(made / (UNIT as int) == a.units && (-made) / (UNIT as int) == -a.units)
        by (nonlinear_arith)
        requires
            made == UNIT * a.units,
            UNIT == 1_000_000,
    ;
}

/// Fewer parts than a number has whole parts of a size are within the number, where they
/// are no larger.
proof fn lemma_fewer_parts(a: Fixed, b: Fixed, c: Fixed, q: Fixed)
    requires
        0 < c.units <= b.units,
        Fixed::floor_spec(Fixed::over_spec(a, b)).units >= UNIT,
        q.units < Fixed::floor_spec(Fixed::over_spec(a, b)).units,
    ensures
        Fixed::times_spec(q, c).units <= a.units,
{
    lemma_whole_parts(a, b);
    let parts = Fixed::floor_spec(Fixed::over_spec(a, b));
    let k = choose|k: int| k >= 1 && parts.units == k * UNIT && #[trigger] (k * b.units) <= a.units;
    let made = q.units * c.units;
    assert(k * b.units >= 0) by (nonlinear_arith)
        requires
            k >= 1,
            b.units > 0,
    ;
    if q.units >= 0 {
        assert(made >= 0) by (nonlinear_arith)
            requires
                made == q.units * c.units,
                q.units >= 0,
                c.units > 0,
        ;
        assert(made <= k * UNIT * c.units) by (nonlinear_arith)
            requires
                made == q.units * c.units,
                q.units < k * UNIT,
                c.units > 0,
        ;
        assert(k * UNIT * c.units <= k * b.units * UNIT) by (nonlinear_arith)
            requires
                k >= 1,
                c.units <= b.units,
                UNIT == 1_000_000,
        ;
        assert(made / (UNIT as int) <= k * b.units) by (nonlinear_arith)
            requires
                made <= k * b.units * UNIT,
                UNIT == 1_000_000,
        ;
    } else {
        assert(made < 0) by (nonlinear_arith)
            requires
                made == q.units * c.units,
                q.units < 0,
                c.units > 0,
        ;
        lemma_whole_division(-made, UNIT as int);
    }
}

/// As many parts as a fixed-point number has whole parts are within the number; and
/// parts that together exceed a number are no fewer than its whole parts.
pub proof fn law_fixed_rounds_down()
    ensures
        rounds_down::<Fixed>(),
{
    assert forall|a: Fixed, b: Fixed, c: Fixed|
        less(zero::<Fixed>(), b) && !less(floored(quotient(a, b)), one::<Fixed>()) && (c == b
            || less(c, b)) implies !less(
        a,
        #[trigger] product(floored(quotient(a, b)), c),
    ) by {
        lemma_parts_within(a, b, c);
    }
    assert forall|a: Fixed, b: Fixed, c: Fixed, q: Fixed|
        less(zero::<Fixed>(), c) && (c == b || less(c, b)) && !less(
            floored(quotient(a, b)),
            one::<Fixed>(),
        ) && less(a, #[trigger] product(q, c)) implies !(#[trigger] less(
        q,
        floored(quotient(a, b)),
    )) by {
        if less(q, floored(quotient(a, b))) {
            lemma_fewer_parts(a, b, c, q);
        }
    }
    assert forall|a: Fixed, b: Fixed|
        less(zero::<Fixed>(), b) && !less(
            #[trigger] floored(quotient(a, b)),
            one::<Fixed>(),
        ) implies less(zero::<Fixed>(), a) by {
        lemma_whole_parts(a, b);
        let parts = floored(quotient(a, b));
        let k = choose|k: int|
            k >= 1 && parts.units == k * UNIT && #[trigger] (k * b.units) <= a.units;
        assert(k * b.units > 0) by (nonlinear_arith)
            requires
                k >= 1,
                b.units > 0,
        ;
    }
    assert forall|a: Fixed, b: Fixed, p: Fixed|
        less(zero::<Fixed>(), b) && less(zero::<Fixed>(), #[trigger] product(b, p))
            && #[trigger] less(p, quotient(a, b)) implies less(product(b, p), a) by {
        lemma_share(a.units as int, b.units as int, p.units as int);
    }
}

proof fn lemma_share(a: int, b: int, p: int)
    requires
        b > 0,
        whole(b * p, UNIT as int) > 0,
        p < divided(a, b).units,
        i64::MIN <= p <= i64::MAX,
        i64::MIN <= a <= i64::MAX,
    ensures
        whole(b * p, UNIT as int) < a,
{
    if p < 0 {
        assert(b * p < 0) by (nonlinear_arith)
            requires
                b > 0,
                p < 0,
        ;
        lemma_whole_division(-(b * p), UNIT as int);
    }
    assert(b * p >= 0) by (nonlinear_arith)
        requires
            b > 0,
            p >= 0,
    ;
    let exact = whole(a * UNIT, b);
    if a < 0 {
        assert(a * UNIT < 0) by (nonlinear_arith)
            requires
                a < 0,
                UNIT == 1_000_000,
        ;
        lemma_whole_division(-(a * UNIT), b);
    }
    assert(a * UNIT >= 0) by (nonlinear_arith)
        requires
            a >= 0,
            UNIT == 1_000_000,
    ;
    lemma_whole_division(a * UNIT, b);
    assert(p < exact);
    assert((p + 1) * b <= a * UNIT) by (nonlinear_arith)
        requires
            exact * b <= a * UNIT,
            p + 1 <= exact,
            b > 0,
    ;
    lemma_whole_division(b * p, UNIT as int);
    assert(b * p / (UNIT as int) < a) by (nonlinear_arith)
        requires
            (p + 1) * b <= a * UNIT,
            b > 0,
            UNIT == 1_000_000,
            b * p / (UNIT as int) * (UNIT as int) <= b * p,
    ;
}

/// The arithmetic of fixed-point numbers fits their order.
pub proof fn law_fixed_is_measured()
    ensures
        measured::<Fixed>(),
{
    assert forall|a: Fixed, b: Fixed|
        no_more(zero::<Fixed>(), a) && less(zero::<Fixed>(), b) && (is_finite(a) || is_finite(
            b,
        )) implies no_more(zero::<Fixed>(), #[trigger] quotient(a, b)) by {
        lemma_quotient_not_negative(a, b);
    }
    assert forall|n: usize| n > 0 implies #[trigger] quotient(
        zero::<Fixed>(),
        counted::<Fixed>(n),
    ) == zero::<Fixed>() by {
        let b = counted::<Fixed>(n);
        assert(0int / (b.units as int) == 0) by (nonlinear_arith)
            requires
                b.units > 0,
        ;
    }
    assert forall|a: Fixed, n: usize| n > 0 && no_more(zero::<Fixed>(), a) implies no_more(
        zero::<Fixed>(),
        #[trigger] quotient(a, counted::<Fixed>(n)),
    ) by {
        lemma_quotient_not_negative(a, counted::<Fixed>(n));
    }
    assert forall|a: Fixed, d: Fixed|
        is_finite(a) && no_more(zero::<Fixed>(), a) && no_more(one::<Fixed>(), d) implies no_more(
        zero::<Fixed>(),
        #[trigger] quotient(a, d),
    ) && no_more(quotient(a, d), a) by {
        lemma_quotient_not_negative(a, d);
        assert(a.units * UNIT / (d.units as int) <= a.units) by (nonlinear_arith)
            requires
                a.units >= 0,
                d.units >= UNIT,
                UNIT == 1_000_000,
        ;
    }
}

/// The arithmetic of fixed-point numbers keeps their order.
pub proof fn law_fixed_is_monotone()
    ensures
        monotone::<Fixed>(),
{
    reveal(monotone);
    let nothing = zero::<Fixed>();
    assert forall|a: Fixed, c: Fixed|
        less(nothing, c) && no_more(nothing, a) && is_number(product(a, c)) implies no_more(
        nothing,
        #[trigger] product(a, c),
    ) by {
        assert(a.units * c.units >= 0) by (nonlinear_arith)
            requires
                a.units >= 0,
                c.units > 0,
        ;
        lemma_whole_order(0, a.units * c.units, UNIT as int);
    }
    assert forall|a: Fixed, b: Fixed, c: Fixed|
        less(nothing, c) && no_more(a, b) && is_number(product(a, c)) && is_number(
            product(b, c),
        ) implies no_more(#[trigger] product(a, c), #[trigger] product(b, c)) by {
        assert(a.units * c.units <= b.units * c.units) by (nonlinear_arith)
            requires
                a.units <= b.units,
                c.units > 0,
        ;
        lemma_whole_order(a.units * c.units, b.units * c.units, UNIT as int);
    }
    assert forall|d: Fixed| less(nothing, d) implies #[trigger] quotient(nothing, d) == nothing by {
        assert(0int / (d.units as int) == 0) by (nonlinear_arith)
            requires
                d.units > 0,
        ;
    }
    assert forall|d: Fixed| less(nothing, d) && is_finite(d) implies #[trigger] quotient(d, d)
        == one::<Fixed>() by {
        assert(d.units * UNIT / (d.units as int) == UNIT && d.units * UNIT >= 0)
            by (nonlinear_arith)
            requires
                d.units > 0,
                UNIT == 1_000_000,
        ;
    }
    assert forall|a: Fixed, d: Fixed|
        less(nothing, d) && less(nothing, #[trigger] quotient(a, d)) implies less(nothing, a) by {
        lemma_whole_order(a.units * UNIT, 0, d.units as int);
        assert(a.units <= 0 ==> a.units * UNIT <= 0) by (nonlinear_arith)
            requires
                UNIT == 1_000_000,
        ;
    }
    assert forall|a: Fixed, d: Fixed|
        less(nothing, d) && less(#[trigger] quotient(a, d), nothing) implies less(a, nothing) by {
        lemma_whole_order(0, a.units * UNIT, d.units as int);
        assert(a.units >= 0 ==> a.units * UNIT >= 0) by (nonlinear_arith)
            requires
                UNIT == 1_000_000,
        ;
    }
    assert forall|a: Fixed, b: Fixed, d: Fixed|
        less(nothing, d) && no_more(a, b) && is_number(quotient(a, d)) && is_number(
            quotient(b, d),
        ) implies no_more(#[trigger] quotient(a, d), #[trigger] quotient(b, d)) by {
        assert(a.units * UNIT <= b.units * UNIT) by (nonlinear_arith)
            requires
                a.units <= b.units,
                UNIT == 1_000_000,
        ;
        lemma_whole_order(a.units * UNIT, b.units * UNIT, d.units as int);
    }
}

/// The root of nothing is nothing.
pub proof fn lemma_no_root()
    ensures
        root(zero::<Fixed>()) == zero::<Fixed>(),
{
    lemma_root_units(0, 0);
}

/// The logarithm of one is nothing.
pub proof fn lemma_no_log()
    ensures
        logarithm(one::<Fixed>()) == zero::<Fixed>(),
{
    assert(log_near_one(UNIT as int) == 0);
}

/// A mean of numbers within one lies within one, and turns its sign with their sum.
pub proof fn lemma_mean_in_range(t: int, size: int, n: int)
    requires
        n > 0,
        size == n * UNIT,
        -size <= t <= size,
    ensures
        -UNIT <= whole(t * UNIT, size) <= UNIT,
        whole(-(t * UNIT), size) == -whole(t * UNIT, size),
{
    assert(size > 0) by (nonlinear_arith)
        requires
            n > 0,
            size == n * UNIT,
            UNIT == 1_000_000,
    ;
    if t >= 0 {
        assert(t * UNIT >= 0 && 0 <= t * UNIT / size <= UNIT) by (nonlinear_arith)
            requires
                0 <= t <= size,
                size > 0,
                UNIT == 1_000_000,
        ;
    } else {
        assert(t * UNIT < 0 && 0 <= (-(t * UNIT)) / size <= UNIT) by (nonlinear_arith)
            requires
                -size <= t < 0,
                size > 0,
                UNIT == 1_000_000,
        ;
    }
    lemma_whole_order(0, 0, size);
}

/// Quotients without their fraction go by what is divided.
proof fn lemma_whole_order(a: int, b: int, d: int)
    requires
        d > 0,
    ensures
        a <= b ==> whole(a, d) <= whole(b, d),
        whole(0, d) == 0,
{
    assert(0int / d == 0) by (nonlinear_arith)
        requires
            d > 0,
    ;
    lemma_whole_division(a, d);
    lemma_whole_division(b, d);
    lemma_whole_division(-a, d);
    lemma_whole_division(-b, d);
    if a <= b {
        if a >= 0 {
            assert(a / d <= b / d) by (nonlinear_arith)
                requires
                    0 <= a <= b,
                    d > 0,
            ;
        } else if b < 0 {
            assert((-b) / d <= (-a) / d) by (nonlinear_arith)
                requires
                    a <= b < 0,
                    d > 0,
            ;
        }
    }
}

/// Weights of fixed-point numbers have a mean between minus one and one.
pub proof fn law_fixed_averages()
    ensures
        averages::<Fixed>(),
{
    assert forall|x: Fixed, n: usize| 0 < n <= 1000 && #[trigger] within(x, n) implies no_more(
        minus_one::<Fixed>(),
        quotient(x, counted::<Fixed>(n)),
    ) && no_more(quotient(x, counted::<Fixed>(n)), one::<Fixed>()) by {
        let size = n * UNIT;
        assert(counted::<Fixed>(n).units == size);
        lemma_whole_division(x.units * UNIT, size);
        lemma_whole_division(-(x.units * UNIT), size);
        if x.units >= 0 {
            assert(0 <= x.units * UNIT / size <= UNIT) by (nonlinear_arith)
                requires
                    0 <= x.units <= size,
                    size > 0,
                    UNIT == 1_000_000,
            ;
        } else {
            assert(0 <= (-(x.units * UNIT)) / size <= UNIT) by (nonlinear_arith)
                requires
                    -size <= x.units < 0,
                    size > 0,
                    UNIT == 1_000_000,
            ;
        }
    }
}

proof fn lemma_quotient_not_negative(a: Fixed, b: Fixed)
    requires
        a.units >= 0,
        b.units > 0,
    ensures
        quotient(a, b).units >= 0,
        a.units * UNIT >= 0,
{
    assert(a.units * UNIT >= 0 && a.units * UNIT / (b.units as int) >= 0) by (nonlinear_arith)
        requires
            a.units >= 0,
            b.units > 0,
            UNIT == 1_000_000,
    ;
}

/// An amount that a number becomes is worth that number.
pub proof fn law_amounts_keep_their_value(units: i64)
    ensures
        units_of(units as int, 6) == Some(Fixed { units }),
{
    let factor = ten_to((6 - 6) as nat);
    assert(units * factor == units) by (nonlinear_arith)
        requires
            factor == 1,
    ;
}

pub proof fn lemma_whole_scaled(t: int, n: int)
    requires
        n > 0,
    ensures
        whole(t * UNIT, n * UNIT) == whole(t, n),
{
    let size = if t >= 0 { t } else { -t };
    assert((size * UNIT) / (n * UNIT) == size / n) by {
        vstd::arithmetic::div_mod::lemma_div_multiples_vanish_quotient(UNIT as int, size, n);
        assert(UNIT * size == size * UNIT && UNIT * n == n * UNIT) by (nonlinear_arith);
    }
}

proof fn lemma_some_root(n: int)
    requires
        n >= 0,
    ensures
        exists|r: int| is_root(n, r),
    decreases n,
{
    if n == 0 {
        assert(is_root(0, 0));
    } else {
        let before = n - 1;
        lemma_some_root(before);
        let r = choose|r: int| is_root(before, r);
        assert(is_root(n, r) || is_root(n, r + 1)) by (nonlinear_arith)
            requires
                is_root(before, r),
                before == n - 1,
        ;
    }
}

/// The root of a number that is not negative is its root without what is below a unit.
pub proof fn lemma_root_is_root(a: Fixed)
    requires
        0 <= a.units <= 1_000_000_000_000,
    ensures
        is_root(a.units * UNIT, root(a).units as int),
{
    let n = a.units * UNIT;
    lemma_some_root(n);
    let r = choose|r: int| is_root(n, r);
    assert(0 <= r <= 1_000_000_000) by (nonlinear_arith)
        requires
            0 <= r,
            r * r <= a.units * UNIT,
            a.units <= 1_000_000_000_000,
            UNIT == 1_000_000,
    ;
    lemma_root_units(a.units as int, r);
}

} // verus!
