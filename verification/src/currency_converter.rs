use vstd::prelude::*;
use vstd::arithmetic::div_mod::{
    lemma_div_is_ordered, lemma_div_multiples_vanish, lemma_div_pos_is_pos,
    lemma_fundamental_div_mod, lemma_mod_bound,
};
use vstd::arithmetic::mul::{lemma_mul_inequality, lemma_mul_is_commutative};

use crate::model::{Currency, Price, CURRENCY_COUNT};

verus! {

/// First conversion stage: an amount of `value` minor units whose currency
/// has the fixed-point coefficient `coef` (quote minor units per one minor
/// unit, scaled by 100) is worth `value * coef / 100` quote minor units,
/// truncated.
pub open spec fn into_quote_spec(value: int, coef: int) -> int {
    (value * coef) / 100
}

/// Second conversion stage: `value` quote minor units land in the target
/// currency as `value * 100 / coef` minor units, truncated.
pub open spec fn from_quote_spec(value: int, coef: int) -> int {
    (value * 100) / coef
}

/// The conversion engine: a table of fixed-point exchange coefficients
/// against one designated quote currency.
///
/// The coefficient at index `i` says how many quote-currency minor units
/// one minor unit of the currency with `spec_index` `i` is worth, scaled
/// by 100. The table is built once and never changes.
pub struct CurrencyConverter {
    quote: Currency,
    coefficients: Vec<i64>,
}

/// A price the engine can convert without signed 64-bit overflow:
/// non-negative, and its product with the coefficient of its own currency
/// stays in range.
pub open spec fn price_convertible(cc: CurrencyConverter, p: Price) -> bool {
    &&& 0 <= p.value
    &&& p.value * cc.coef(p.currency) <= i64::MAX
}

impl CurrencyConverter {
    /// The quote currency all conversions are routed through.
    pub closed spec fn quote_currency(self) -> Currency {
        self.quote
    }

    /// The coefficient table, one entry per currency in `spec_index` order.
    pub closed spec fn coefficients_seq(self) -> Seq<i64> {
        self.coefficients@
    }

    /// The fixed-point coefficient of `c`.
    pub open spec fn coef(self, c: Currency) -> int {
        self.coefficients_seq()[c.spec_index()] as int
    }

    /// Configuration integrity: one positive coefficient per currency, and
    /// the quote currency's own coefficient is exactly 100 (identity rate).
    pub open spec fn wf(self) -> bool {
        &&& self.coefficients_seq().len() == CURRENCY_COUNT
        &&& forall|i: int|
            0 <= i < self.coefficients_seq().len() ==> 1 <= #[trigger] self.coefficients_seq()[i]
        &&& self.coefficients_seq()[self.quote_currency().spec_index()] == 100
    }

    /// What a price converts to: into the quote currency first, then out
    /// into the target currency, truncating at each stage.
    pub open spec fn convert_spec(self, value: int, from: Currency, to: Currency) -> int {
        from_quote_spec(into_quote_spec(value, self.coef(from)), self.coef(to))
    }

    /// Builds the engine from fixed-point coefficients (the decimal rate of
    /// each currency against the quote, scaled by 100 and truncated).
    ///
    /// Construction fails — returns `None` — exactly when the table does not
    /// have one entry per currency, some coefficient is not positive, or the
    /// quote currency's own coefficient is not exactly 100; such a table is a
    /// corrupt configuration, never accepted.
    pub fn new(quote_currency: Currency, coefficients: Vec<i64>) -> (r: Option<CurrencyConverter>)
        ensures
            r.is_some() <==> {
                &&& coefficients@.len() == CURRENCY_COUNT
                &&& forall|i: int|
                    0 <= i < coefficients@.len() ==> 1 <= #[trigger] coefficients@[i]
                &&& coefficients@[quote_currency.spec_index()] == 100
            },
            match r {
                Some(cc) => {
                    &&& cc.wf()
                    &&& cc.quote_currency() == quote_currency
                    &&& cc.coefficients_seq() == coefficients@
                },
                None => true,
            },
    {
        if coefficients.len() != CURRENCY_COUNT {
            return None;
        }
        let mut i: usize = 0;
        while i < coefficients.len()
            invariant
                i <= coefficients@.len(),
                forall|j: int| 0 <= j < i ==> 1 <= #[trigger] coefficients@[j],
            decreases coefficients@.len() - i,
        {
            if coefficients[i] < 1 {
                return None;
            }
            i += 1;
        }
        if coefficients[quote_currency.index()] != 100 {
            return None;
        }
        Some(CurrencyConverter { quote: quote_currency, coefficients })
    }

    /// The listed price of one minor unit of `currency`, expressed in the
    /// quote currency: the raw coefficient, tagged with the quote.
    fn price_of_currency(&self, currency: Currency) -> (r: Price)
        requires
            self.wf(),
        ensures
            r.value == self.coef(currency),
            r.currency == self.quote_currency(),
            1 <= r.value,
    {
        let coef = self.coefficients[currency.index()];
        Price { value: coef, currency: self.quote }
    }

    /// The same coefficient, tagged with `currency` itself, ready to divide
    /// a quote amount back out of the quote currency.
    fn reverse_price_of_currency(&self, currency: Currency) -> (r: Price)
        requires
            self.wf(),
        ensures
            r.value == self.coef(currency),
            r.currency == currency,
            1 <= r.value,
    {
        let coef = self.coefficients[currency.index()];
        Price { value: coef, currency }
    }

    /// Stage one: multiply the amount by the source coefficient and undo the
    /// fixed-point scaling, truncating.
    fn convert_into_quote(price: Price, currency_price: Price) -> (r: Price)
        requires
            0 <= price.value,
            0 <= currency_price.value,
            price.value * currency_price.value <= i64::MAX,
        ensures
            r.value == into_quote_spec(price.value as int, currency_price.value as int),
            r.currency == currency_price.currency,
            0 <= r.value,
            r.value * 100 <= price.value * currency_price.value,
    {
        proof {
            let p = price.value as int * currency_price.value as int;
            lemma_mul_is_commutative(price.value as int, currency_price.value as int);
            lemma_div_pos_is_pos(p, 100);
            lemma_fundamental_div_mod(p, 100);
            lemma_mod_bound(p, 100);
        }
        let mut currency_price = currency_price;
        currency_price.value = currency_price.value * price.value;
        currency_price.value = currency_price.value / 100;
        currency_price
    }

    /// Stage two: scale the quote amount back up and divide by the target
    /// coefficient, truncating.
    fn convert_from_quote(price: Price, reversed_price: Price) -> (r: Price)
        requires
            0 <= price.value,
            price.value * 100 <= i64::MAX,
            1 <= reversed_price.value,
        ensures
            r.value == from_quote_spec(price.value as int, reversed_price.value as int),
            r.currency == reversed_price.currency,
            0 <= r.value,
    {
        proof {
            lemma_div_pos_is_pos(price.value as int * 100, reversed_price.value as int);
        }
        let mut price = price;
        let mut reversed_price = reversed_price;
        price.value = price.value * 100;
        reversed_price.value = price.value / reversed_price.value;
        reversed_price
    }

    /// Converts `price` into `to_currency` through the quote currency, with
    /// every intermediate division truncating on non-negative operands.
    pub fn convert(&self, price: Price, to_currency: Currency) -> (r: Price)
        requires
            self.wf(),
            price_convertible(*self, price),
        ensures
            r.currency == to_currency,
            r.value == self.convert_spec(price.value as int, price.currency, to_currency),
            0 <= r.value,
    {
        let price_in_quote = Self::convert_into_quote(
            price,
            self.price_of_currency(price.currency),
        );
        Self::convert_from_quote(price_in_quote, self.reverse_price_of_currency(to_currency))
    }

    /// Whether `convert` accepts `price`: the amount is non-negative and the
    /// stage-one product cannot overflow a signed 64-bit integer.
    pub fn can_convert(&self, price: Price) -> (r: bool)
        requires
            self.wf(),
        ensures
            r == price_convertible(*self, price),
    {
        if price.value < 0 {
            return false;
        }
        let coef = self.coefficients[price.currency.index()];
        proof {
            lemma_mul_div_le_bound(price.value as int, coef as int, i64::MAX as int);
        }
        price.value <= i64::MAX / coef
    }

    /// Like `convert`, but tests the overflow bound at run time instead of
    /// demanding it of the caller: `None` exactly where `convert` is not
    /// allowed to be called.
    pub fn checked_convert(&self, price: Price, to_currency: Currency) -> (r: Option<Price>)
        requires
            self.wf(),
        ensures
            r.is_some() <==> price_convertible(*self, price),
            match r {
                Some(p) => {
                    &&& p.currency == to_currency
                    &&& p.value == self.convert_spec(price.value as int, price.currency, to_currency)
                    &&& 0 <= p.value
                },
                None => true,
            },
    {
        if self.can_convert(price) {
            Some(self.convert(price, to_currency))
        } else {
            None
        }
    }
}

/// Converting a zero amount yields zero, whatever the source and target
/// currencies.
pub proof fn lemma_convert_zero(cc: CurrencyConverter, from: Currency, to: Currency)
    requires
        cc.wf(),
    ensures
        cc.convert_spec(0, from, to) == 0,
{
    let cf = cc.coef(from);
    let ct = cc.coef(to);
    vstd::arithmetic::div_mod::lemma_div_of0(100);
    vstd::arithmetic::div_mod::lemma_div_of0(ct);
    assert(0 * cf == 0);
    assert(0 * 100 == 0);
}

/// Converting a price into its own currency loses at most one minor unit
/// whenever that currency's coefficient is at least 100, and is exact when
/// the coefficient is exactly 100 (always true of the quote currency).
///
/// A coefficient below 100 (a rate under 1.00) makes the quote-currency
/// intermediate too coarse for this bound to hold.
pub proof fn lemma_self_convert(cc: CurrencyConverter, c: Currency, v: int)
    requires
        cc.wf(),
        0 <= v,
        100 <= cc.coef(c),
    ensures
        v - 1 <= cc.convert_spec(v, c, c) <= v,
        cc.coef(c) == 100 ==> cc.convert_spec(v, c, c) == v,
{
    let k = cc.coef(c);
    let q = (v * k) / 100;
    let x = (q * 100) / k;
    lemma_fundamental_div_mod(v * k, 100);
    lemma_mod_bound(v * k, 100);
    lemma_mul_is_commutative(q, 100);
    lemma_div_is_ordered(q * 100, v * k, k);
    lemma_mul_is_commutative(v, k);
    lemma_div_multiples_vanish(v, k);
    assert(x <= v);
    lemma_fundamental_div_mod(q * 100, k);
    lemma_mod_bound(q * 100, k);
    assert(k * x >= v * k - 99 - (k - 1));
    assert(x >= v - 1) by (nonlinear_arith)
        requires
            100 <= k,
            k * x >= v * k - 99 - (k - 1),
    ;
    if k == 100 {
        lemma_div_multiples_vanish(v, 100);
        lemma_div_multiples_vanish(q, 100);
        lemma_mul_is_commutative(v, 100);
    }
}

/// A round trip from `a` to `b` and back never gains value: each stage
/// truncates, so the result is at most the original amount.
pub proof fn lemma_round_trip_no_gain(cc: CurrencyConverter, a: Currency, b: Currency, v: int)
    requires
        cc.wf(),
        0 <= v,
    ensures
        cc.convert_spec(cc.convert_spec(v, a, b), b, a) <= v,
{
    let ca = cc.coef(a);
    let cb = cc.coef(b);
    let q = (v * ca) / 100;
    let x = (q * 100) / cb;
    let q2 = (x * cb) / 100;
    let v2 = (q2 * 100) / ca;
    lemma_fundamental_div_mod(q * 100, cb);
    lemma_mod_bound(q * 100, cb);
    lemma_mul_is_commutative(x, cb);
    lemma_div_is_ordered(x * cb, q * 100, 100);
    lemma_mul_is_commutative(q, 100);
    lemma_div_multiples_vanish(q, 100);
    assert(q2 <= q);
    lemma_mul_inequality(q2, q, 100);
    lemma_div_is_ordered(q2 * 100, q * 100, ca);
    lemma_fundamental_div_mod(v * ca, 100);
    lemma_mod_bound(v * ca, 100);
    lemma_div_is_ordered(q * 100, v * ca, ca);
    lemma_mul_is_commutative(v, ca);
    lemma_div_multiples_vanish(v, ca);
    assert(v2 <= v);
}

/// A round trip from `a` to `b` and back reproduces the original amount to
/// within one minor unit, provided the source currency's coefficient exceeds
/// the target's by at least 200, or both currencies carry the identity
/// coefficient 100.
///
/// Outside those bounds the two-stage truncation can swallow more than one
/// minor unit of the source currency, so no such promise can be made.
pub proof fn lemma_round_trip(cc: CurrencyConverter, a: Currency, b: Currency, v: int)
    requires
        cc.wf(),
        0 <= v,
        cc.coef(b) + 200 <= cc.coef(a) || (cc.coef(a) == 100 && cc.coef(b) == 100),
    ensures
        v - 1 <= cc.convert_spec(cc.convert_spec(v, a, b), b, a) <= v,
{
    lemma_round_trip_no_gain(cc, a, b, v);
    let ca = cc.coef(a);
    let cb = cc.coef(b);
    let q = (v * ca) / 100;
    let x = (q * 100) / cb;
    let q2 = (x * cb) / 100;
    let v2 = (q2 * 100) / ca;
    if ca == 100 && cb == 100 {
        lemma_mul_is_commutative(v, 100);
        lemma_div_multiples_vanish(v, 100);
        assert(q == v);
        lemma_mul_is_commutative(q, 100);
        lemma_div_multiples_vanish(q, 100);
        assert(x == q);
        lemma_mul_is_commutative(x, 100);
        lemma_div_multiples_vanish(x, 100);
        assert(q2 == x);
        lemma_mul_is_commutative(q2, 100);
        lemma_div_multiples_vanish(q2, 100);
        assert(v2 == q2);
    } else {
        let r1 = (v * ca) % 100;
        let r2 = (q * 100) % cb;
        let r3 = (x * cb) % 100;
        let r4 = (q2 * 100) % ca;
        lemma_fundamental_div_mod(v * ca, 100);
        lemma_mod_bound(v * ca, 100);
        lemma_fundamental_div_mod(q * 100, cb);
        lemma_mod_bound(q * 100, cb);
        lemma_fundamental_div_mod(x * cb, 100);
        lemma_mod_bound(x * cb, 100);
        lemma_fundamental_div_mod(q2 * 100, ca);
        lemma_mod_bound(q2 * 100, ca);
        lemma_mul_is_commutative(q, 100);
        lemma_mul_is_commutative(x, cb);
        lemma_mul_is_commutative(q2, 100);
        assert(ca * v2 == v * ca - r1 - r2 - r3 - r4);
        assert(r1 + r2 + r3 + r4 <= 198 + (cb - 1) + (ca - 1));
        assert(ca * v2 >= ca * v - 2 * ca + 4) by (nonlinear_arith)
            requires
                ca * v2 == v * ca - r1 - r2 - r3 - r4,
                r1 + r2 + r3 + r4 <= 196 + cb + ca,
                cb + 200 <= ca,
        ;
        assert(v2 >= v - 1) by (nonlinear_arith)
            requires
                1 <= ca,
                ca * v2 >= ca * v - 2 * ca + 4,
        ;
    }
}

/// For a non-negative `v` and positive `c`: `v * c` stays under `bound`
/// exactly when `v` is at most `bound / c` truncated.
proof fn lemma_mul_div_le_bound(v: int, c: int, bound: int)
    requires
        0 <= v,
        1 <= c,
        0 <= bound,
    ensures
        v * c <= bound <==> v <= bound / c,
{
    lemma_fundamental_div_mod(bound, c);
    lemma_mod_bound(bound, c);
    if v <= bound / c {
        lemma_mul_inequality(v, bound / c, c);
        lemma_mul_is_commutative(bound / c, c);
    }
    if v * c <= bound {
        lemma_div_is_ordered(v * c, bound, c);
        lemma_div_multiples_vanish(v, c);
        lemma_mul_is_commutative(v, c);
    }
}

} // verus!
