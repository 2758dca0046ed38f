//! The numbers that signals, thresholds and risk figures are computed with.
//!
//! The engine does not fix its arithmetic: it is written against [`Number`],
//! whose operations the embedding program supplies, as a rule with hardware
//! floating point. Contracts speak of the results of those operations by name
//! (`sum`, `quotient`, `less`, ...), so they say which operation is applied to
//! which operands in which order.
use crate::decimal::{decimal_one, make_decimal};
use rust_decimal::Decimal;
use vstd::prelude::*;

pub mod fixed;

verus! {

/// Arithmetic on the engine's real-valued quantities.
///
/// Beside each operation stands a spec function for its result. A number type may say
/// there what the operation gives; one that does not leaves it open.
pub trait Number: Copy {
    /// What `ratio` gives.
    open spec fn ratio_spec(num: i64, den: i64) -> Self {
        choose|r: Self| call_ensures(Self::ratio, (num, den), r)
    }

    /// The number `num / den`, for a literal in the rules; `den` is positive.
    fn ratio(num: i64, den: i64) -> Self;

    /// What `count` gives.
    open spec fn count_spec(n: usize) -> Self {
        choose|r: Self| call_ensures(Self::count, (n,), r)
    }

    /// A count of things as a number.
    fn count(n: usize) -> Self;

    /// What `plus` gives.
    open spec fn plus_spec(a: Self, b: Self) -> Self {
        choose|r: Self| call_ensures(Self::plus, (a, b), r)
    }

    /// Addition.
    fn plus(self, other: Self) -> Self;

    /// What `minus` gives.
    open spec fn minus_spec(a: Self, b: Self) -> Self {
        choose|r: Self| call_ensures(Self::minus, (a, b), r)
    }

    /// Subtraction.
    fn minus(self, other: Self) -> Self;

    /// What `times` gives.
    open spec fn times_spec(a: Self, b: Self) -> Self {
        choose|r: Self| call_ensures(Self::times, (a, b), r)
    }

    /// Multiplication.
    fn times(self, other: Self) -> Self;

    /// What `over` gives.
    open spec fn over_spec(a: Self, b: Self) -> Self {
        choose|r: Self| call_ensures(Self::over, (a, b), r)
    }

    /// Division.
    fn over(self, other: Self) -> Self;

    /// What `below` gives.
    open spec fn below_spec(a: Self, b: Self) -> bool {
        choose|r: bool| call_ensures(Self::below, (a, b), r)
    }

    /// Whether `self < other`.
    fn below(self, other: Self) -> bool;

    /// What `at_most` gives.
    open spec fn at_most_spec(a: Self, b: Self) -> bool {
        choose|r: bool| call_ensures(Self::at_most, (a, b), r)
    }

    /// Whether `self <= other`.
    fn at_most(self, other: Self) -> bool;

    /// What `floor` gives.
    open spec fn floor_spec(a: Self) -> Self {
        choose|r: Self| call_ensures(Self::floor, (a,), r)
    }

    /// The greatest whole number that is no greater than `self`.
    fn floor(self) -> Self;

    /// What `sqrt` gives.
    open spec fn sqrt_spec(a: Self) -> Self {
        choose|r: Self| call_ensures(Self::sqrt, (a,), r)
    }

    /// The square root.
    fn sqrt(self) -> Self;

    /// What `ln` gives.
    open spec fn ln_spec(a: Self) -> Self {
        choose|r: Self| call_ensures(Self::ln, (a,), r)
    }

    /// The natural logarithm.
    fn ln(self) -> Self;

    /// What `from_decimal` gives.
    open spec fn from_decimal_spec(amount: Decimal) -> Option<Self> {
        choose|r: Option<Self>| call_ensures(Self::from_decimal, (amount,), r)
    }

    /// The number nearest to an amount, where there is one.
    fn from_decimal(amount: Decimal) -> Option<Self>;

    /// What `to_decimal` gives.
    open spec fn to_decimal_spec(a: Self) -> Option<Decimal> {
        choose|r: Option<Decimal>| call_ensures(Self::to_decimal, (a,), r)
    }

    /// The amount that equals the number, where there is one.
    fn to_decimal(self) -> Option<Decimal>;

    /// What `text` gives.
    open spec fn text_spec(a: Self) -> Seq<char> {
        (choose|r: String| call_ensures(Self::text, (a,), r))@
    }

    /// The number in decimal notation, as short as it can be written.
    fn text(self) -> String;

    /// What `text_places` gives.
    open spec fn text_places_spec(a: Self, places: usize) -> Seq<char> {
        (choose|r: String| call_ensures(Self::text_places, (a, places), r))@
    }

    /// The number in decimal notation, rounded to `places` decimal places.
    fn text_places(self, places: usize) -> String;
}

/// The number that `Number::ratio` gives for `num / den`.
pub open spec fn lit<N: Number>(num: i64, den: i64) -> N {
    N::ratio_spec(num, den)
}

/// The number that `Number::count` gives for `n`.
pub open spec fn counted<N: Number>(n: usize) -> N {
    N::count_spec(n)
}

/// The result of `Number::plus`.
pub open spec fn sum<N: Number>(a: N, b: N) -> N {
    N::plus_spec(a, b)
}

/// The result of `Number::minus`.
pub open spec fn difference<N: Number>(a: N, b: N) -> N {
    N::minus_spec(a, b)
}

/// The result of `Number::times`.
pub open spec fn product<N: Number>(a: N, b: N) -> N {
    N::times_spec(a, b)
}

/// The result of `Number::over`.
pub open spec fn quotient<N: Number>(a: N, b: N) -> N {
    N::over_spec(a, b)
}

/// The result of `Number::below`: `a < b`.
pub open spec fn less<N: Number>(a: N, b: N) -> bool {
    N::below_spec(a, b)
}

/// The result of `Number::at_most`: `a <= b`.
pub open spec fn no_more<N: Number>(a: N, b: N) -> bool {
    N::at_most_spec(a, b)
}

/// The result of `Number::floor`.
pub open spec fn floored<N: Number>(a: N) -> N {
    N::floor_spec(a)
}

/// The result of `Number::sqrt`.
pub open spec fn root<N: Number>(a: N) -> N {
    N::sqrt_spec(a)
}

/// The result of `Number::ln`.
pub open spec fn logarithm<N: Number>(a: N) -> N {
    N::ln_spec(a)
}

/// The result of `Number::from_decimal`.
pub open spec fn decimal_value<N: Number>(amount: Decimal) -> Option<N> {
    N::from_decimal_spec(amount)
}

/// The result of `Number::to_decimal`.
pub open spec fn as_decimal<N: Number>(a: N) -> Option<Decimal> {
    N::to_decimal_spec(a)
}

/// What `Number::text` writes.
pub open spec fn shown<N: Number>(a: N) -> Seq<char> {
    N::text_spec(a)
}

/// What `Number::text_places` writes.
pub open spec fn shown_places<N: Number>(a: N, places: usize) -> Seq<char> {
    N::text_places_spec(a, places)
}

/// Every operation of the number type gives one result for the same operands,
/// whenever it is called. This is all that the engine asks of its arithmetic.
pub open spec fn functional<N: Number>() -> bool {
    &&& forall|n: i64, d: i64, r: N|
        #[trigger] call_ensures(N::ratio, (n, d), r) ==> r == lit::<N>(n, d)
    &&& forall|n: usize, r: N| #[trigger] call_ensures(N::count, (n,), r) ==> r == counted::<N>(n)
    &&& forall|a: N, b: N, r: N| #[trigger] call_ensures(N::plus, (a, b), r) ==> r == sum(a, b)
    &&& forall|a: N, b: N, r: N|
        #[trigger] call_ensures(N::minus, (a, b), r) ==> r == difference(a, b)
    &&& forall|a: N, b: N, r: N| #[trigger] call_ensures(N::times, (a, b), r) ==> r == product(a, b)
    &&& forall|a: N, b: N, r: N| #[trigger] call_ensures(N::over, (a, b), r) ==> r == quotient(a, b)
    &&& forall|a: N, b: N, r: bool| #[trigger] call_ensures(N::below, (a, b), r) ==> r == less(a, b)
    &&& forall|a: N, b: N, r: bool|
        #[trigger] call_ensures(N::at_most, (a, b), r) ==> r == no_more(a, b)
    &&& forall|a: N, r: N| #[trigger] call_ensures(N::floor, (a,), r) ==> r == floored(a)
    &&& forall|a: N, r: N| #[trigger] call_ensures(N::sqrt, (a,), r) ==> r == root(a)
    &&& forall|a: N, r: N| #[trigger] call_ensures(N::ln, (a,), r) ==> r == logarithm(a)
    &&& forall|d: Decimal, r: Option<N>|
        #[trigger] call_ensures(N::from_decimal, (d,), r) ==> r == decimal_value::<N>(d)
    &&& forall|a: N, r: Option<Decimal>|
        #[trigger] call_ensures(N::to_decimal, (a,), r) ==> r == as_decimal(a)
    &&& forall|a: N, r: String| #[trigger] call_ensures(N::text, (a,), r) ==> r@ == shown(a)
    &&& forall|a: N, places: usize, r: String|
        #[trigger] call_ensures(N::text_places, (a, places), r) ==> r@ == shown_places(a, places)
}

/// The comparison `<` is irreflexive and asymmetric, and excludes `<=` the other
/// way round. Laws on bounds and extremes hold for number types of this kind.
pub open spec fn ordered<N: Number>() -> bool {
    &&& forall|a: N| !less(a, a)
    &&& forall|a: N, b: N| less(a, b) ==> !less(b, a)
    &&& forall|a: N, b: N| less(a, b) ==> !no_more(b, a)
}

/// Division into whole parts fits multiplication: where a number holds at least one
/// whole part, as many parts of that size or a lesser one are together no more than the
/// number, and lesser parts that together are more than the number are no fewer; and a
/// share that is less than the share a number makes up comes to less than the number.
/// Laws on sizing hold for number types of this kind.
pub open spec fn rounds_down<N: Number>() -> bool {
    &&& forall|a: N| !(#[trigger] no_more(a, zero::<N>())) ==> less(zero::<N>(), a)
    &&& forall|a: N, b: N, c: N|
        less(zero::<N>(), b) && !less(floored(quotient(a, b)), one::<N>()) && (c == b || less(
            c,
            b,
        )) ==> !less(a, #[trigger] product(floored(quotient(a, b)), c))
    &&& forall|a: N, b: N, c: N, q: N|
        less(zero::<N>(), c) && (c == b || less(c, b)) && !less(
            floored(quotient(a, b)),
            one::<N>(),
        ) && less(a, #[trigger] product(q, c)) ==> !(#[trigger] less(q, floored(quotient(a, b))))
    &&& forall|a: N, b: N|
        less(zero::<N>(), b) && !less(#[trigger] floored(quotient(a, b)), one::<N>()) ==> less(
            zero::<N>(),
            a,
        )
    &&& forall|a: N, b: N, p: N|
        less(zero::<N>(), b) && less(zero::<N>(), #[trigger] product(b, p)) && #[trigger] less(
            p,
            quotient(a, b),
        ) ==> less(product(b, p), a)
}

/// Whether a value is a number. A number type may have values that are none; they are not
/// even as little as themselves.
pub open spec fn is_number<N: Number>(a: N) -> bool {
    no_more(a, a)
}

/// Whether a value is a finite number: what is not leaves no number when it is taken from
/// itself.
pub open spec fn is_finite<N: Number>(a: N) -> bool {
    is_number(difference(a, a))
}

/// Arithmetic fits the order: what is not negative stays so under addition and division,
/// finite numbers have a difference, a magnitude is not negative, a price that does not
/// fall rises or changes by nothing, and a part of a finite number is within the number.
/// Nothing is said of values that are no numbers, of what an operation on them gives, or
/// of the quotient of two infinite numbers. Laws on indices with bounds hold for number
/// types of this kind.
pub open spec fn measured<N: Number>() -> bool {
    let nothing = zero::<N>();
    let hundred = lit::<N>(100, 1);
    &&& no_more(nothing, nothing)
    &&& is_finite(hundred) && no_more(nothing, hundred) && no_more(hundred, hundred)
    &&& forall|a: N| no_more(nothing, a) && !no_more(a, nothing) ==> #[trigger] less(nothing, a)
    &&& forall|a: N| #[trigger] less(nothing, a) ==> no_more(nothing, a)
    &&& forall|a: N| is_number(a) ==> no_more(nothing, #[trigger] magnitude(a))
    &&& forall|a: N, b: N|
        is_finite(a) && is_finite(b) ==> is_number(#[trigger] difference(a, b))
    &&& forall|a: N, b: N|
        is_finite(a) && is_finite(b) && no_more(a, b) ==> less(
            nothing,
            #[trigger] difference(b, a),
        ) || sum(nothing, magnitude(difference(b, a))) == nothing
    &&& forall|a: N, b: N|
        no_more(nothing, a) && no_more(nothing, b) ==> no_more(nothing, #[trigger] sum(a, b))
    &&& forall|n: usize| n > 0 ==> #[trigger] quotient(nothing, counted::<N>(n)) == nothing
    &&& forall|a: N, n: usize|
        n > 0 && is_finite(a) ==> is_finite(#[trigger] quotient(a, counted::<N>(n)))
    &&& forall|a: N, n: usize|
        n > 0 && no_more(nothing, a) ==> no_more(
            nothing,
            #[trigger] quotient(a, counted::<N>(n)),
        )
    &&& forall|a: N, b: N|
        no_more(nothing, a) && less(nothing, b) && (is_finite(a) || is_finite(b)) ==> no_more(
            nothing,
            #[trigger] quotient(a, b),
        )
    &&& forall|q: N| no_more(nothing, q) ==> no_more(one::<N>(), #[trigger] sum(one::<N>(), q))
    &&& forall|a: N, d: N|
        is_finite(a) && no_more(nothing, a) && no_more(one::<N>(), d) ==> no_more(
            nothing,
            #[trigger] quotient(a, d),
        ) && no_more(quotient(a, d), a)
    &&& forall|a: N, x: N|
        is_finite(a) && no_more(nothing, x) && no_more(x, a) ==> no_more(
            nothing,
            #[trigger] difference(a, x),
        ) && no_more(difference(a, x), a)
}

/// The order is one of all numbers, and arithmetic keeps it: taking away and dividing go
/// the way of the order, and the sign of a difference tells which number is the greater.
/// Nothing is said of results that are no numbers. Laws that compare results hold for
/// number types of this kind.
#[verifier::opaque]
pub open spec fn monotone<N: Number>() -> bool {
    let nothing = zero::<N>();
    &&& is_number(nothing) && is_finite(one::<N>())
    &&& less(minus_one::<N>(), nothing) && less(nothing, one::<N>())
    &&& forall|a: N, b: N, c: N|
        #[trigger] no_more(a, b) && #[trigger] no_more(b, c) ==> no_more(a, c)
    &&& forall|a: N, b: N, c: N| #[trigger] no_more(a, b) && #[trigger] less(b, c) ==> less(a, c)
    &&& forall|a: N, b: N, c: N| #[trigger] less(a, b) && #[trigger] no_more(b, c) ==> less(a, c)
    &&& forall|a: N, b: N| #[trigger] less(a, b) ==> no_more(a, b) && !no_more(b, a)
    &&& forall|a: N, b: N| #[trigger] no_more(a, b) ==> is_number(a) && is_number(b)
    &&& forall|a: N, b: N| is_number(a) && is_number(b) ==> #[trigger] no_more(a, b) || less(b, a)
    &&& forall|a: N, b: N| less(a, b) <==> less(nothing, #[trigger] difference(b, a))
    &&& forall|a: N, b: N| less(a, b) <==> less(#[trigger] difference(a, b), nothing)
    &&& forall|a: N| #[trigger] difference(a, nothing) == a
    &&& forall|a: N| is_finite(a) ==> #[trigger] difference(a, a) == nothing
    &&& forall|a: N, b: N, c: N|
        no_more(a, b) && is_number(difference(a, c)) && is_number(difference(b, c)) ==> no_more(
            #[trigger] difference(a, c),
            #[trigger] difference(b, c),
        )
    &&& forall|a: N, b: N, c: N|
        no_more(a, b) && is_number(difference(c, a)) && is_number(difference(c, b)) ==> no_more(
            #[trigger] difference(c, b),
            #[trigger] difference(c, a),
        )
    &&& forall|a: N, b: N|
        no_more(nothing, a) && no_more(nothing, b) ==> no_more(a, #[trigger] sum(a, b)) && no_more(
            b,
            sum(a, b),
        )
    &&& forall|a: N, b: N, c: N|
        no_more(a, b) && is_number(sum(a, c)) && is_number(sum(b, c)) ==> no_more(
            #[trigger] sum(a, c),
            #[trigger] sum(b, c),
        )
    &&& forall|a: N, b: N, c: N|
        no_more(a, b) && is_number(sum(c, a)) && is_number(sum(c, b)) ==> no_more(
            #[trigger] sum(c, a),
            #[trigger] sum(c, b),
        )
    &&& forall|a: N, b: N|
        no_more(a, nothing) && no_more(b, nothing) ==> no_more(#[trigger] sum(a, b), nothing)
    &&& forall|a: N, c: N|
        less(nothing, c) && no_more(nothing, a) && is_number(product(a, c)) ==> no_more(
            nothing,
            #[trigger] product(a, c),
        )
    &&& forall|a: N, b: N, c: N|
        less(nothing, c) && no_more(a, b) && is_number(product(a, c)) && is_number(
            product(b, c),
        ) ==> no_more(#[trigger] product(a, c), #[trigger] product(b, c))
    &&& forall|n: usize|
        n > 0 ==> less(nothing, #[trigger] counted::<N>(n)) && is_finite(counted::<N>(n))
    &&& forall|d: N| less(nothing, d) ==> #[trigger] quotient(nothing, d) == nothing
    &&& forall|d: N| less(nothing, d) && is_finite(d) ==> #[trigger] quotient(d, d) == one::<N>()
    &&& forall|a: N, d: N|
        less(nothing, d) && less(nothing, #[trigger] quotient(a, d)) ==> less(nothing, a)
    &&& forall|a: N, d: N|
        less(nothing, d) && less(#[trigger] quotient(a, d), nothing) ==> less(a, nothing)
    &&& forall|a: N, b: N, d: N|
        less(nothing, d) && no_more(a, b) && is_number(quotient(a, d)) && is_number(
            quotient(b, d),
        ) ==> no_more(#[trigger] quotient(a, d), #[trigger] quotient(b, d))
}

/// Zero and one are finite numbers, with zero between minus one and one.
pub proof fn lemma_literals<N: Number>()
    requires
        monotone::<N>(),
    ensures
        is_number(zero::<N>()),
        is_number(one::<N>()),
        is_finite(one::<N>()),
        less(minus_one::<N>(), zero::<N>()),
        less(zero::<N>(), one::<N>()),
        less(minus_one::<N>(), one::<N>()),
        !less(one::<N>(), zero::<N>()),
        one::<N>() != minus_one::<N>(),
        !less(zero::<N>(), zero::<N>()),
{
    reveal(monotone);
    assert(no_more(zero::<N>(), one::<N>()));
    assert(!no_more(one::<N>(), zero::<N>()));
    assert(less(zero::<N>(), zero::<N>()) ==> !no_more(zero::<N>(), zero::<N>()));
}

/// What `a`, `b` and `c` in this order have in common.
pub proof fn lemma_in_order<N: Number>(a: N, b: N, c: N)
    requires
        monotone::<N>(),
    ensures
        no_more(a, b) && no_more(b, c) ==> no_more(a, c),
        no_more(a, b) && less(b, c) ==> less(a, c),
        less(a, b) && no_more(b, c) ==> less(a, c),
        less(a, b) && less(b, c) ==> less(a, c),
{
    reveal(monotone);
    assert(less(a, b) ==> no_more(a, b));
}

/// How two values compare.
pub proof fn lemma_compared<N: Number>(a: N, b: N)
    requires
        monotone::<N>(),
    ensures
        less(a, b) ==> no_more(a, b) && !no_more(b, a) && !less(b, a),
        no_more(a, b) ==> is_number(a) && is_number(b) && !less(b, a),
        is_number(a) && is_number(b) ==> no_more(a, b) || less(b, a),
{
    reveal(monotone);
    assert(less(a, b) ==> no_more(a, b) && !no_more(b, a));
    assert(less(b, a) ==> no_more(b, a) && !no_more(a, b));
}

/// The sign of a difference.
pub proof fn lemma_difference_sign<N: Number>(a: N, b: N)
    requires
        monotone::<N>(),
    ensures
        less(a, b) <==> less(zero::<N>(), difference(b, a)),
        less(a, b) <==> less(difference(a, b), zero::<N>()),
        difference(a, zero::<N>()) == a,
        is_finite(a) ==> difference(a, a) == zero::<N>(),
{
    reveal(monotone);
    assert(less(a, b) <==> less(zero::<N>(), difference(b, a)));
}

/// A difference follows the first number and goes against the second.
pub proof fn lemma_difference_order<N: Number>(a: N, b: N, c: N)
    requires
        monotone::<N>(),
        no_more(a, b),
    ensures
        is_number(difference(a, c)) && is_number(difference(b, c)) ==> no_more(
            difference(a, c),
            difference(b, c),
        ),
        is_number(difference(c, a)) && is_number(difference(c, b)) ==> no_more(
            difference(c, b),
            difference(c, a),
        ),
{
    reveal(monotone);
}

/// A sum of what is not negative is no less than either.
pub proof fn lemma_sum_order<N: Number>(a: N, b: N)
    requires
        monotone::<N>(),
        no_more(zero::<N>(), a),
        no_more(zero::<N>(), b),
    ensures
        no_more(a, sum(a, b)),
        no_more(b, sum(a, b)),
        no_more(zero::<N>(), sum(a, b)),
{
    reveal(monotone);
    assert(no_more(a, sum(a, b)));
}

/// A sum follows its second number.
pub proof fn lemma_sum_follows_second<N: Number>(a: N, b: N, c: N)
    requires
        monotone::<N>(),
        no_more(a, b),
        is_number(sum(c, a)),
        is_number(sum(c, b)),
    ensures
        no_more(sum(c, a), sum(c, b)),
{
    reveal(monotone);
}

/// A product with a positive number follows the other number.
pub proof fn lemma_product_order<N: Number>(a: N, b: N, c: N)
    requires
        monotone::<N>(),
        less(zero::<N>(), c),
        is_number(product(a, c)),
    ensures
        no_more(zero::<N>(), a) ==> no_more(zero::<N>(), product(a, c)),
        no_more(a, b) && is_number(product(b, c)) ==> no_more(product(a, c), product(b, c)),
{
    reveal(monotone);
}

/// A sum of what is not positive is not positive.
pub proof fn lemma_sum_below<N: Number>(a: N, b: N)
    requires
        monotone::<N>(),
        no_more(a, zero::<N>()),
        no_more(b, zero::<N>()),
    ensures
        no_more(sum(a, b), zero::<N>()),
{
    reveal(monotone);
}

/// A count of something is a positive number.
pub proof fn lemma_count_is_positive<N: Number>(n: usize)
    requires
        monotone::<N>(),
        n > 0,
    ensures
        less(zero::<N>(), counted::<N>(n)),
        is_finite(counted::<N>(n)),
{
    reveal(monotone);
}

/// A sum follows its first number.
pub proof fn lemma_sum_follows<N: Number>(a: N, b: N, c: N)
    requires
        monotone::<N>(),
        no_more(a, b),
        is_number(sum(a, c)),
        is_number(sum(b, c)),
    ensures
        no_more(sum(a, c), sum(b, c)),
{
    reveal(monotone);
}

/// A quotient by a positive number has the sign of what is divided, and follows it.
pub proof fn lemma_quotient_order<N: Number>(a: N, b: N, d: N)
    requires
        monotone::<N>(),
        less(zero::<N>(), d),
    ensures
        less(zero::<N>(), quotient(a, d)) ==> less(zero::<N>(), a),
        less(quotient(a, d), zero::<N>()) ==> less(a, zero::<N>()),
        quotient(zero::<N>(), d) == zero::<N>(),
        is_finite(d) ==> quotient(d, d) == one::<N>(),
        no_more(a, b) && is_number(quotient(a, d)) && is_number(quotient(b, d)) ==> no_more(
            quotient(a, d),
            quotient(b, d),
        ),
{
    reveal(monotone);
}

/// A magnitude is not negative and is the same on either side of zero; the number is
/// within it.
pub proof fn lemma_magnitude<N: Number>(a: N)
    requires
        monotone::<N>(),
        is_number(a),
    ensures
        no_more(zero::<N>(), magnitude(a)),
        no_more(a, magnitude(a)),
        less(a, zero::<N>()) ==> less(zero::<N>(), magnitude(a)) && magnitude(
            difference(zero::<N>(), a),
        ) == magnitude(a),
{
    let nothing = zero::<N>();
    lemma_literals::<N>();
    lemma_compared(nothing, a);
    lemma_compared(a, nothing);
    lemma_difference_sign(a, nothing);
    if less(a, nothing) {
        let mirrored = difference(nothing, a);
        lemma_compared(nothing, mirrored);
        lemma_in_order(a, nothing, mirrored);
        lemma_compared(a, mirrored);
    }
}

/// Whether a number is no further from zero than a count.
pub open spec fn within<N: Number>(x: N, n: usize) -> bool {
    no_more(difference(zero::<N>(), counted::<N>(n)), x) && no_more(x, counted::<N>(n))
}

/// Weights between zero and one, added and taken away, come to no more than their number,
/// up to a thousand of them, and their mean lies between minus one and one. Laws on
/// scores hold for number types of this kind.
pub open spec fn averages<N: Number>() -> bool {
    &&& within(zero::<N>(), 0)
    &&& no_more(minus_one::<N>(), minus_one::<N>()) && no_more(minus_one::<N>(), zero::<N>())
    &&& no_more(minus_one::<N>(), one::<N>())
    &&& no_more(zero::<N>(), one::<N>()) && no_more(one::<N>(), one::<N>())
    &&& no_more(zero::<N>(), lit::<N>(4, 10)) && no_more(lit::<N>(4, 10), one::<N>())
    &&& forall|x: N, w: N, n: usize|
        n < 1000 && #[trigger] within(x, n) && no_more(zero::<N>(), w) && no_more(w, one::<N>())
            ==> within(#[trigger] sum(x, w), (n + 1) as usize)
    &&& forall|x: N, w: N, n: usize|
        n < 1000 && #[trigger] within(x, n) && no_more(zero::<N>(), w) && no_more(w, one::<N>())
            ==> within(#[trigger] difference(x, w), (n + 1) as usize)
    &&& forall|x: N, n: usize|
        0 < n <= 1000 && #[trigger] within(x, n) ==> no_more(
            minus_one::<N>(),
            quotient(x, counted::<N>(n)),
        ) && no_more(quotient(x, counted::<N>(n)), one::<N>())
}

/// Zero.
pub open spec fn zero<N: Number>() -> N {
    lit::<N>(0, 1)
}

/// One.
pub open spec fn one<N: Number>() -> N {
    lit::<N>(1, 1)
}

/// Minus one.
pub open spec fn minus_one<N: Number>() -> N {
    lit::<N>((-1) as i64, 1)
}

/// The magnitude of a number.
pub open spec fn magnitude<N: Number>(a: N) -> N {
    if less(a, zero::<N>()) {
        difference(zero::<N>(), a)
    } else {
        a
    }
}

/// The lesser of a number and a limit; the limit where the two do not compare.
pub open spec fn capped<N: Number>(a: N, limit: N) -> N {
    if less(a, limit) {
        a
    } else {
        limit
    }
}

/// The value of an amount as a number, or `otherwise` where it has none.
pub open spec fn decimal_or<N: Number>(amount: Decimal, otherwise: N) -> N {
    match decimal_value::<N>(amount) {
        Some(v) => v,
        None => otherwise,
    }
}

/// The total of a sequence, added up from zero in order.
pub open spec fn total<N: Number>(values: Seq<N>) -> N
    decreases values.len(),
{
    if values.len() == 0 {
        zero::<N>()
    } else {
        sum(total(values.drop_last()), values.last())
    }
}

/// The magnitude of a number.
pub fn abs<N: Number>(a: N) -> (r: N)
    requires
        functional::<N>(),
    ensures
        r == magnitude(a),
{
    let zero = N::ratio(0, 1);
    if a.below(zero) {
        zero.minus(a)
    } else {
        a
    }
}

/// The lesser of a number and a limit.
pub fn cap<N: Number>(a: N, limit: N) -> (r: N)
    requires
        functional::<N>(),
    ensures
        r == capped(a, limit),
{
    if a.below(limit) {
        a
    } else {
        limit
    }
}

/// The value of an amount as a number, or `otherwise` where it has none.
pub fn value_or<N: Number>(amount: Decimal, otherwise: N) -> (r: N)
    requires
        functional::<N>(),
    ensures
        r == decimal_or(amount, otherwise),
{
    match N::from_decimal(amount) {
        Some(v) => v,
        None => otherwise,
    }
}

/// Adds the values up in order.
pub fn add_up<N: Number>(values: &Vec<N>) -> (r: N)
    requires
        functional::<N>(),
    ensures
        r == total(values@),
{
    let mut acc = N::ratio(0, 1);
    let mut i: usize = 0;
    while i < values.len()
        invariant
            functional::<N>(),
            i <= values@.len(),
            acc == total(values@.take(i as int)),
        decreases values@.len() - i,
    {
        assert(values@.take(i + 1).drop_last() =~= values@.take(i as int));
        acc = acc.plus(values[i]);
        i = i + 1;
    }
    assert(values@.take(i as int) =~= values@);
    acc
}

/// A number of shares as an amount, or one where it has no amount.
pub open spec fn shares_amount<N: Number>(shares: N) -> Decimal {
    match as_decimal(shares) {
        Some(amount) => amount,
        None => decimal_one(),
    }
}

/// A number of shares as an amount, or one where it has no amount.
pub fn amount_of<N: Number>(shares: N) -> (r: Decimal)
    requires
        functional::<N>(),
    ensures
        r == shares_amount(shares),
{
    match shares.to_decimal() {
        Some(amount) => amount,
        None => make_decimal(1, 0),
    }
}

} // verus!
