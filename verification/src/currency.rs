//! Currency validation and conversion against a fixed rate snapshot.
//!
//! A [`CurrencyConverter`] holds a base currency and a table of rates
//! against it. Conversion follows exact piecewise rules: identical
//! currencies pass the value through; otherwise the value is multiplied by
//! the target rate and divided by the source rate, rounded to the twenty
//! fractional digits of [`Amount`] with ties to even.

use crate::amount::{mul_div_round, round_half_even, Amount, MAX_DIVISOR, MAX_UNITS, UNIT};
use crate::decimal_text::parse_amount;
use crate::strutil::str_eq;
use vstd::prelude::*;

verus! {

/// The spec-level view of a rate table: `(code, units)` pairs.
pub type RatesV = Seq<(Seq<char>, int)>;

/// Index of the first entry for `code`, or `-1` when there is none.
pub open spec fn rate_index(rs: RatesV, code: Seq<char>) -> int
    decreases rs.len(),
{
    if rs.len() == 0 {
        -1
    } else if rs[0].0 == code {
        0
    } else {
        let t = rate_index(rs.drop_first(), code);
        if t < 0 {
            -1
        } else {
            1 + t
        }
    }
}

pub open spec fn has_rate(rs: RatesV, code: Seq<char>) -> bool {
    rate_index(rs, code) >= 0
}

pub open spec fn rate_of(rs: RatesV, code: Seq<char>) -> int {
    rs[rate_index(rs, code)].1
}

pub proof fn lemma_rate_index_first(rs: RatesV, code: Seq<char>, k: int)
    requires
        0 <= k < rs.len(),
        forall|j: int| 0 <= j < k ==> (#[trigger] rs[j].0) != code,
        rs[k].0 == code,
    ensures
        rate_index(rs, code) == k,
    decreases rs.len(),
{
    if k > 0 {
        lemma_rate_index_first(rs.drop_first(), code, k - 1);
    }
}

pub proof fn lemma_rate_index_props(rs: RatesV, code: Seq<char>)
    ensures
        -1 <= rate_index(rs, code) < rs.len(),
        rate_index(rs, code) >= 0 ==> rs[rate_index(rs, code)].0 == code,
        forall|i: int|
            0 <= i < rs.len() && #[trigger] rs[i].0 == code ==> rate_index(rs, code) >= 0,
        forall|j: int| 0 <= j < rate_index(rs, code) ==> (#[trigger] rs[j].0) != code,
    decreases rs.len(),
{
    if rs.len() > 0 && rs[0].0 != code {
        lemma_rate_index_props(rs.drop_first(), code);
        assert(forall|i: int|
            1 <= i < rs.len() ==> rs.drop_first()[i - 1] == #[trigger] rs[i]);
    }
}

/// Converting a non-negative amount between known currencies with
/// positive rates gives a non-negative result.
pub proof fn lemma_spec_convert_nonneg(
    c: (Seq<char>, RatesV),
    from: Seq<char>,
    amt: int,
    to: Seq<char>,
)
    requires
        amt >= 0,
        forall|i: int| 0 <= i < c.1.len() ==> (#[trigger] c.1[i].1) > 0,
        from == c.0 || has_rate(c.1, from),
        to == c.0 || has_rate(c.1, to),
    ensures
        spec_convert(c, from, amt, to) >= 0,
{
    if from == to {
    } else if from == c.0 {
        lemma_rate_index_props(c.1, to);
        assert(amt * rate_of(c.1, to) >= 0) by (nonlinear_arith)
            requires
                amt >= 0,
                rate_of(c.1, to) > 0,
        ;
        crate::amount::lemma_round_half_even_nonneg(amt * rate_of(c.1, to), UNIT as int);
    } else if to == c.0 {
        lemma_rate_index_props(c.1, from);
        assert(amt * (UNIT as int) >= 0) by (nonlinear_arith)
            requires
                amt >= 0,
        ;
        crate::amount::lemma_round_half_even_nonneg(amt * (UNIT as int), rate_of(c.1, from));
    } else {
        lemma_rate_index_props(c.1, to);
        lemma_rate_index_props(c.1, from);
        assert(amt * rate_of(c.1, to) >= 0) by (nonlinear_arith)
            requires
                amt >= 0,
                rate_of(c.1, to) > 0,
        ;
        crate::amount::lemma_round_half_even_nonneg(amt * rate_of(c.1, to), rate_of(c.1, from));
    }
}

/// Snapshot of exchange rates against a base currency.
pub struct CurrencyConverter {
    base_currency: String,
    rates: Vec<(String, Amount)>,
}

impl View for CurrencyConverter {
    type V = (Seq<char>, RatesV);

    closed spec fn view(&self) -> (Seq<char>, RatesV) {
        (
            self.base_currency@,
            self.rates@.map_values(|p: (String, Amount)| (p.0@, p.1@)),
        )
    }
}

/// Piecewise conversion rule over the view: identical codes pass through,
/// otherwise multiply by the target rate and divide by the source rate,
/// with the base currency's implicit rate of one unit.
pub open spec fn spec_convert(c: (Seq<char>, RatesV), from: Seq<char>, amt: int, to: Seq<char>) -> int {
    if from == to {
        amt
    } else if from == c.0 {
        round_half_even(amt * rate_of(c.1, to), UNIT as int)
    } else if to == c.0 {
        round_half_even(amt * (UNIT as int), rate_of(c.1, from))
    } else {
        round_half_even(amt * rate_of(c.1, to), rate_of(c.1, from))
    }
}

/// A rate string the snapshot accepts: a well-formed decimal whose value
/// is positive and small enough to divide by.
pub open spec fn rate_usable(s: Seq<char>) -> bool {
    let b = vstd::utf8::encode_utf8(s);
    &&& crate::decimal_text::decimal_grammar_ok(b)
    &&& crate::decimal_text::decimal_representable(b)
    &&& 0 < crate::decimal_text::decimal_units(b) <= MAX_DIVISOR
}

/// The unit count a rate string denotes.
pub open spec fn rate_units(s: Seq<char>) -> int {
    crate::decimal_text::decimal_units(vstd::utf8::encode_utf8(s))
}

impl CurrencyConverter {
    /// All rate codes are distinct and every rate is positive and small
    /// enough to divide by.
    pub open spec fn wf(&self) -> bool {
        let rs = self@.1;
        &&& forall|i: int, j: int|
            0 <= i < j < rs.len() ==> (#[trigger] rs[i].0) != (#[trigger] rs[j].0)
        &&& forall|i: int| 0 <= i < rs.len() ==> 0 < (#[trigger] rs[i].1) <= MAX_DIVISOR
    }

    /// Whether `code` is the base currency or has a rate entry.
    pub open spec fn spec_is_valid(&self, code: Seq<char>) -> bool {
        code == self@.0 || has_rate(self@.1, code)
    }

    /// An empty snapshot with the given base currency.
    pub fn empty(base_currency: String) -> (r: CurrencyConverter)
        ensures
            r.wf(),
            r@.0 == base_currency@,
            r@.1 =~= Seq::<(Seq<char>, int)>::empty(),
    {
        let r = CurrencyConverter { base_currency, rates: Vec::new() };
        proof {
            assert(r@.1 =~= Seq::<(Seq<char>, int)>::empty());
        }
        r
    }

    fn find_rate(&self, code: &str) -> (r: Option<usize>)
        ensures
            r matches Some(i) ==> rate_index(self@.1, code@) == i as int,
            r is None ==> rate_index(self@.1, code@) == -1,
    {
        let ghost rs = self@.1;
        let n = self.rates.len();
        let mut i: usize = 0;
        proof {
            lemma_rate_index_props(rs, code@);
        }
        while i < n
            invariant
                0 <= i <= n,
                n == self.rates.len(),
                rs == self@.1,
                rs.len() == n as int,
                -1 <= rate_index(rs, code@) < n as int,
                rate_index(rs, code@) >= 0 ==> rs[rate_index(rs, code@)].0 == code@,
                forall|k: int|
                    0 <= k < rs.len() && #[trigger] rs[k].0 == code@ ==> rate_index(rs, code@)
                        >= 0,
                forall|k: int| 0 <= k < i as int ==> (#[trigger] rs[k].0) != code@,
            decreases n - i,
        {
            if str_eq(code, self.rates[i].0.as_str()) {
                proof {
                    assert(rs[i as int].0 == code@);
                    lemma_rate_index_first(rs, code@, i as int);
                }
                return Some(i);
            }
            i = i + 1;
        }
        None
    }

    /// Whether the converter knows the currency code.
    pub fn is_currency_valid(&self, currency: &str) -> (r: bool)
        ensures
            r == self.spec_is_valid(currency@),
    {
        if str_eq(currency, self.base_currency.as_str()) {
            true
        } else {
            self.find_rate(currency).is_some()
        }
    }

    /// Adds a rate entry given directly as a `10^-20` unit count. A code
    /// already present, or a rate outside the usable range, leaves the
    /// snapshot unchanged: existing rates are never overwritten, a usable
    /// rate makes its code known, and a usable rate for a fresh code is
    /// recorded exactly.
    pub fn add_rate_units(&mut self, code: &str, units: i128)
        requires
            old(self).wf(),
        ensures
            final(self).wf(),
            final(self)@.0 == old(self)@.0,
            forall|c: Seq<char>| old(self).spec_is_valid(c) ==> final(self).spec_is_valid(c),
            forall|c: Seq<char>|
                has_rate(old(self)@.1, c) ==> has_rate(final(self)@.1, c) && rate_of(
                    final(self)@.1,
                    c,
                ) == rate_of(old(self)@.1, c),
            forall|c: Seq<char>|
                has_rate(final(self)@.1, c) ==> has_rate(old(self)@.1, c) || c == code@,
            0 < units <= MAX_DIVISOR ==> final(self).spec_is_valid(code@),
            0 < units <= MAX_DIVISOR && !has_rate(old(self)@.1, code@) ==> has_rate(
                final(self)@.1,
                code@,
            ) && rate_of(final(self)@.1, code@) == units as int,
    {
        let ghost before = self@.1;
        proof {
            lemma_rate_index_props(before, code@);
        }
        if units <= 0 || units > MAX_DIVISOR {
            return ;
        }
        if self.find_rate(code).is_some() {
            return ;
        }
        self.rates.push((code.to_owned(), Amount::from_units(units)));
        proof {
            let rs = self@.1;
            assert(rs.len() == before.len() + 1);
            assert(forall|k: int| 0 <= k < before.len() ==> rs[k] == before[k]);
            assert(rs[before.len() as int].0 == code@);
            lemma_rate_index_props(rs, code@);
            assert forall|c: Seq<char>|
                has_rate(before, c) implies has_rate(rs, c) && rate_of(rs, c) == rate_of(
                before,
                c,
            ) by {
                lemma_rate_index_props(before, c);
                assert(rs[rate_index(before, c)].0 == c);
                lemma_rate_index_first(rs, c, rate_index(before, c));
            }
            assert forall|c: Seq<char>|
                has_rate(rs, c) implies has_rate(before, c) || c == code@ by {
                lemma_rate_index_props(rs, c);
                let k = rate_index(rs, c);
                if k < before.len() {
                    assert(before[k].0 == c);
                    lemma_rate_index_props(before, c);
                }
            }
            assert(forall|j: int| 0 <= j < before.len() ==> (#[trigger] before[j].0) != code@);
            lemma_rate_index_first(rs, code@, before.len() as int);
            assert forall|i: int, j: int|
                0 <= i < j < rs.len() implies (#[trigger] rs[i].0) != (#[trigger] rs[j].0) by {
                if j == before.len() {
                    if rs[i].0 == code@ {
                        lemma_rate_index_props(before, code@);
                    }
                }
            }
        }
    }

    /// Adds a rate entry parsed from a decimal string, with the same
    /// recording rules as [`CurrencyConverter::add_rate_units`].
    pub fn add_rate_str(&mut self, code: &str, rate: &str)
        requires
            old(self).wf(),
        ensures
            final(self).wf(),
            final(self)@.0 == old(self)@.0,
            forall|c: Seq<char>| old(self).spec_is_valid(c) ==> final(self).spec_is_valid(c),
            forall|c: Seq<char>|
                has_rate(old(self)@.1, c) ==> has_rate(final(self)@.1, c) && rate_of(
                    final(self)@.1,
                    c,
                ) == rate_of(old(self)@.1, c),
            forall|c: Seq<char>|
                has_rate(final(self)@.1, c) ==> has_rate(old(self)@.1, c) || c == code@,
            rate_usable(rate@) ==> final(self).spec_is_valid(code@),
            rate_usable(rate@) && !has_rate(old(self)@.1, code@) ==> has_rate(
                final(self)@.1,
                code@,
            ) && rate_of(final(self)@.1, code@) == rate_units(rate@),
    {
        let parsed = match parse_amount(rate) {
            Some(a) => a,
            None => {
                return ;
            },
        };
        self.add_rate_units(code, parsed.units());
    }

    /// Converts `value` from one known currency to another.
    ///
    /// `None` reports a result outside the working range; the exact rounded
    /// result is returned otherwise.
    pub fn convert(&self, from_currency: &str, value: Amount, into_currency: &str) -> (r: Option<
        Amount,
    >)
        requires
            self.wf(),
            self.spec_is_valid(from_currency@),
            self.spec_is_valid(into_currency@),
            value.in_range(),
        ensures
            r is Some <==> -MAX_UNITS <= spec_convert(self@, from_currency@, value@, into_currency@)
                <= MAX_UNITS,
            r matches Some(v) ==> v@ == spec_convert(self@, from_currency@, value@, into_currency@)
                && v.in_range(),
    {
        if str_eq(from_currency, into_currency) {
            return Some(value);
        }
        proof {
            lemma_rate_index_props(self@.1, from_currency@);
            lemma_rate_index_props(self@.1, into_currency@);
        }
        if str_eq(from_currency, self.base_currency.as_str()) {
            let i = match self.find_rate(into_currency) {
                Some(i) => i,
                None => {
                    proof {
                        assert(false);
                    }
                    return None;
                },
            };
            let rate_to = self.rates[i].1;
            match mul_div_round(value.units(), rate_to.units(), UNIT) {
                Some(v) => Some(Amount::from_units(v)),
                None => None,
            }
        } else if str_eq(into_currency, self.base_currency.as_str()) {
            let i = match self.find_rate(from_currency) {
                Some(i) => i,
                None => {
                    proof {
                        assert(false);
                    }
                    return None;
                },
            };
            let rate_from = self.rates[i].1;
            proof {
                assert(0 < self@.1[i as int].1 <= MAX_DIVISOR);
            }
            match mul_div_round(value.units(), UNIT, rate_from.units()) {
                Some(v) => Some(Amount::from_units(v)),
                None => None,
            }
        } else {
            let i = match self.find_rate(into_currency) {
                Some(i) => i,
                None => {
                    proof {
                        assert(false);
                    }
                    return None;
                },
            };
            let j = match self.find_rate(from_currency) {
                Some(j) => j,
                None => {
                    proof {
                        assert(false);
                    }
                    return None;
                },
            };
            let rate_to = self.rates[i].1;
            let rate_from = self.rates[j].1;
            proof {
                assert(0 < self@.1[j as int].1 <= MAX_DIVISOR);
            }
            match mul_div_round(value.units(), rate_to.units(), rate_from.units()) {
                Some(v) => Some(Amount::from_units(v)),
                None => None,
            }
        }
    }
}


/// One block of the embedded snapshot's rate entries.
#[verifier::rlimit(100)]
fn add_rates_a(c: &mut CurrencyConverter)
    requires
        old(c).wf(),
    ensures
        final(c).wf(),
        final(c)@.0 == old(c)@.0,
        forall|x: Seq<char>| old(c).spec_is_valid(x) ==> final(c).spec_is_valid(x),
        forall|x: Seq<char>|
            has_rate(old(c)@.1, x) ==> has_rate(final(c)@.1, x) && rate_of(final(c)@.1, x)
                == rate_of(old(c)@.1, x),
        final(c).spec_is_valid("AED"@),
        final(c).spec_is_valid("AFN"@),
        final(c).spec_is_valid("ALL"@),
        final(c).spec_is_valid("AMD"@),
        final(c).spec_is_valid("ANG"@),
        final(c).spec_is_valid("AOA"@),
        final(c).spec_is_valid("ARS"@),
        final(c).spec_is_valid("AUD"@),
        final(c).spec_is_valid("AWG"@),
        final(c).spec_is_valid("AZN"@),
        final(c).spec_is_valid("BAM"@),
        final(c).spec_is_valid("BBD"@),
        final(c).spec_is_valid("BDT"@),
        final(c).spec_is_valid("BGN"@),
        final(c).spec_is_valid("BHD"@),
        final(c).spec_is_valid("BIF"@),
        final(c).spec_is_valid("BMD"@),
        final(c).spec_is_valid("BND"@),
        final(c).spec_is_valid("BOB"@),
        final(c).spec_is_valid("BRL"@),
        final(c).spec_is_valid("BSD"@),
        final(c).spec_is_valid("BTC"@),
        final(c).spec_is_valid("BTN"@),
        final(c).spec_is_valid("BWP"@),
        final(c).spec_is_valid("BYN"@),
        final(c).spec_is_valid("BYR"@),
        final(c).spec_is_valid("BZD"@),
        final(c).spec_is_valid("CAD"@),
{
    c.add_rate_units("AED", 379991300000000000000);  // 3.799913
    c.add_rate_units("AFN", 9104051600000000000000);  // 91.040516
    c.add_rate_units("ALL", 11716258400000000000000);  // 117.162584
    c.add_rate_units("AMD", 40883021100000000000000);  // 408.830211
    c.add_rate_units("ANG", 186298800000000000000);  // 1.862988
    c.add_rate_units("AOA", 52880275100000000000000);  // 528.802751
    c.add_rate_units("ARS", 16847007200000000000000);  // 168.470072
    c.add_rate_units("AUD", 154991200000000000000);  // 1.549912
    c.add_rate_units("AWG", 186219100000000000000);  // 1.862191
    c.add_rate_units("AZN", 175640300000000000000);  // 1.756403
    c.add_rate_units("BAM", 195034500000000000000);  // 1.950345
    c.add_rate_units("BBD", 208717000000000000000);  // 2.08717
    c.add_rate_units("BDT", 10652719300000000000000);  // 106.527193
    c.add_rate_units("BGN", 196026900000000000000);  // 1.960269
    c.add_rate_units("BHD", 38932600000000000000);  // 0.389326
    c.add_rate_units("BIF", 212393205700000000000000);  // 2123.932057
    c.add_rate_units("BMD", 103455000000000000000);  // 1.03455
    c.add_rate_units("BND", 141915000000000000000);  // 1.41915
    c.add_rate_units("BOB", 714304900000000000000);  // 7.143049
    c.add_rate_units("BRL", 556878400000000000000);  // 5.568784
    c.add_rate_units("BSD", 103372300000000000000);  // 1.033723
    c.add_rate_units("BTC", 6251094300000000);  // 0.000062510943
    c.add_rate_units("BTN", 8442929200000000000000);  // 84.429292
    c.add_rate_units("BWP", 1339049400000000000000);  // 13.390494
    c.add_rate_units("BYN", 261075800000000000000);  // 2.610758
    c.add_rate_units("BYR", 2027718866400000000000000);  // 20277.188664
    c.add_rate_units("BZD", 208368000000000000000);  // 2.08368
    c.add_rate_units("CAD", 138728100000000000000);  // 1.387281
}

/// One block of the embedded snapshot's rate entries.
#[verifier::rlimit(100)]
fn add_rates_b(c: &mut CurrencyConverter)
    requires
        old(c).wf(),
    ensures
        final(c).wf(),
        final(c)@.0 == old(c)@.0,
        forall|x: Seq<char>| old(c).spec_is_valid(x) ==> final(c).spec_is_valid(x),
        forall|x: Seq<char>|
            has_rate(old(c)@.1, x) ==> has_rate(final(c)@.1, x) && rate_of(final(c)@.1, x)
                == rate_of(old(c)@.1, x),
        final(c).spec_is_valid("CDF"@),
        final(c).spec_is_valid("CHF"@),
        final(c).spec_is_valid("CLF"@),
        final(c).spec_is_valid("CLP"@),
        final(c).spec_is_valid("CNY"@),
        final(c).spec_is_valid("COP"@),
        final(c).spec_is_valid("CRC"@),
        final(c).spec_is_valid("CUC"@),
        final(c).spec_is_valid("CUP"@),
        final(c).spec_is_valid("CVE"@),
        final(c).spec_is_valid("CZK"@),
        final(c).spec_is_valid("DJF"@),
        final(c).spec_is_valid("DKK"@),
        final(c).spec_is_valid("DOP"@),
        final(c).spec_is_valid("DZD"@),
        final(c).spec_is_valid("EGP"@),
        final(c).spec_is_valid("ERN"@),
        final(c).spec_is_valid("ETB"@),
        final(c).spec_is_valid("FJD"@),
        final(c).spec_is_valid("FKP"@),
        final(c).spec_is_valid("GBP"@),
        final(c).spec_is_valid("GEL"@),
        final(c).spec_is_valid("GGP"@),
        final(c).spec_is_valid("GHS"@),
        final(c).spec_is_valid("GIP"@),
        final(c).spec_is_valid("GMD"@),
        final(c).spec_is_valid("GNF"@),
        final(c).spec_is_valid("GTQ"@),
{
    c.add_rate_units("CDF", 211462085900000000000000);  // 2114.620859
    c.add_rate_units("CHF", 98777700000000000000);  // 0.987777
    c.add_rate_units("CLF", 3531100000000000000);  // 0.035311
    c.add_rate_units("CLP", 97433947900000000000000);  // 974.339479
    c.add_rate_units("CNY", 736590000000000000000);  // 7.3659
    c.add_rate_units("COP", 516119628200000000000000);  // 5161.196282
    c.add_rate_units("CRC", 63111725400000000000000);  // 631.117254
    c.add_rate_units("CUC", 103455000000000000000);  // 1.03455
    c.add_rate_units("CUP", 2741558700000000000000);  // 27.415587
    c.add_rate_units("CVE", 11054127700000000000000);  // 110.541277
    c.add_rate_units("CZK", 2439983900000000000000);  // 24.399839
    c.add_rate_units("DJF", 18386051200000000000000);  // 183.860512
    c.add_rate_units("DKK", 745341500000000000000);  // 7.453415
    c.add_rate_units("DOP", 5638504100000000000000);  // 56.385041
    c.add_rate_units("DZD", 14385833700000000000000);  // 143.858337
    c.add_rate_units("EGP", 2541271100000000000000);  // 25.412711
    c.add_rate_units("ERN", 1551825700000000000000);  // 15.518257
    c.add_rate_units("ETB", 5480019400000000000000);  // 54.800194
    c.add_rate_units("FJD", 230782400000000000000);  // 2.307824
    c.add_rate_units("FKP", 86988500000000000000);  // 0.869885
    c.add_rate_units("GBP", 87021100000000000000);  // 0.870211
    c.add_rate_units("GEL", 281440600000000000000);  // 2.814406
    c.add_rate_units("GGP", 86988500000000000000);  // 0.869885
    c.add_rate_units("GHS", 1500058800000000000000);  // 15.000588
    c.add_rate_units("GIP", 86988500000000000000);  // 0.869885
    c.add_rate_units("GMD", 6362607700000000000000);  // 63.626077
    c.add_rate_units("GNF", 907817993700000000000000);  // 9078.179937
    c.add_rate_units("GTQ", 807131700000000000000);  // 8.071317
}

/// One block of the embedded snapshot's rate entries.
#[verifier::rlimit(100)]
fn add_rates_c(c: &mut CurrencyConverter)
    requires
        old(c).wf(),
    ensures
        final(c).wf(),
        final(c)@.0 == old(c)@.0,
        forall|x: Seq<char>| old(c).spec_is_valid(x) ==> final(c).spec_is_valid(x),
        forall|x: Seq<char>|
            has_rate(old(c)@.1, x) ==> has_rate(final(c)@.1, x) && rate_of(final(c)@.1, x)
                == rate_of(old(c)@.1, x),
        final(c).spec_is_valid("GYD"@),
        final(c).spec_is_valid("HKD"@),
        final(c).spec_is_valid("HNL"@),
        final(c).spec_is_valid("HRK"@),
        final(c).spec_is_valid("HTG"@),
        final(c).spec_is_valid("HUF"@),
        final(c).spec_is_valid("IDR"@),
        final(c).spec_is_valid("ILS"@),
        final(c).spec_is_valid("IMP"@),
        final(c).spec_is_valid("INR"@),
        final(c).spec_is_valid("IQD"@),
        final(c).spec_is_valid("IRR"@),
        final(c).spec_is_valid("ISK"@),
        final(c).spec_is_valid("JEP"@),
        final(c).spec_is_valid("JMD"@),
        final(c).spec_is_valid("JOD"@),
        final(c).spec_is_valid("JPY"@),
        final(c).spec_is_valid("KES"@),
        final(c).spec_is_valid("KGS"@),
        final(c).spec_is_valid("KHR"@),
        final(c).spec_is_valid("KMF"@),
        final(c).spec_is_valid("KPW"@),
        final(c).spec_is_valid("KRW"@),
        final(c).spec_is_valid("KWD"@),
        final(c).spec_is_valid("KYD"@),
        final(c).spec_is_valid("KZT"@),
        final(c).spec_is_valid("LAK"@),
        final(c).spec_is_valid("LBP"@),
{
    c.add_rate_units("GYD", 21627176000000000000000);  // 216.27176
    c.add_rate_units("HKD", 809220200000000000000);  // 8.092202
    c.add_rate_units("HNL", 2570894300000000000000);  // 25.708943
    c.add_rate_units("HRK", 752666700000000000000);  // 7.526667
    c.add_rate_units("HTG", 14265555500000000000000);  // 142.655555
    c.add_rate_units("HUF", 40734372100000000000000);  // 407.343721
    c.add_rate_units("IDR", 1618181728400000000000000);  // 16181.817284
    c.add_rate_units("ILS", 358637500000000000000);  // 3.586375
    c.add_rate_units("IMP", 86988500000000000000);  // 0.869885
    c.add_rate_units("INR", 8433670700000000000000);  // 84.336707
    c.add_rate_units("IQD", 151044364500000000000000);  // 1510.443645
    c.add_rate_units("IRR", 4386493836700000000000000);  // 43864.938367
    c.add_rate_units("ISK", 14920268600000000000000);  // 149.202686
    c.add_rate_units("JEP", 86988500000000000000);  // 0.869885
    c.add_rate_units("JMD", 15893109600000000000000);  // 158.931096
    c.add_rate_units("JOD", 73344900000000000000);  // 0.733449
    c.add_rate_units("JPY", 14519396300000000000000);  // 145.193963
    c.add_rate_units("KES", 12637068200000000000000);  // 126.370682
    c.add_rate_units("KGS", 8736085500000000000000);  // 87.360855
    c.add_rate_units("KHR", 428303876500000000000000);  // 4283.038765
    c.add_rate_units("KMF", 49296067200000000000000);  // 492.960672
    c.add_rate_units("KPW", 93109541300000000000000);  // 931.095413
    c.add_rate_units("KRW", 138632896500000000000000);  // 1386.328965
    c.add_rate_units("KWD", 31843100000000000000);  // 0.318431
    c.add_rate_units("KYD", 86140700000000000000);  // 0.861407
    c.add_rate_units("KZT", 47753698000000000000000);  // 477.53698
    c.add_rate_units("LAK", 1908745577300000000000000);  // 19087.455773
    c.add_rate_units("LBP", 85092287200000000000000);  // 850.922872
}

/// One block of the embedded snapshot's rate entries.
#[verifier::rlimit(100)]
fn add_rates_d(c: &mut CurrencyConverter)
    requires
        old(c).wf(),
    ensures
        final(c).wf(),
        final(c)@.0 == old(c)@.0,
        forall|x: Seq<char>| old(c).spec_is_valid(x) ==> final(c).spec_is_valid(x),
        forall|x: Seq<char>|
            has_rate(old(c)@.1, x) ==> has_rate(final(c)@.1, x) && rate_of(final(c)@.1, x)
                == rate_of(old(c)@.1, x),
        final(c).spec_is_valid("LKR"@),
        final(c).spec_is_valid("LRD"@),
        final(c).spec_is_valid("LSL"@),
        final(c).spec_is_valid("LTL"@),
        final(c).spec_is_valid("LVL"@),
        final(c).spec_is_valid("LYD"@),
        final(c).spec_is_valid("MAD"@),
        final(c).spec_is_valid("MDL"@),
        final(c).spec_is_valid("MGA"@),
        final(c).spec_is_valid("MKD"@),
        final(c).spec_is_valid("MMK"@),
        final(c).spec_is_valid("MNT"@),
        final(c).spec_is_valid("MOP"@),
        final(c).spec_is_valid("MRO"@),
        final(c).spec_is_valid("MUR"@),
        final(c).spec_is_valid("MVR"@),
        final(c).spec_is_valid("MWK"@),
        final(c).spec_is_valid("MXN"@),
        final(c).spec_is_valid("MYR"@),
        final(c).spec_is_valid("MZN"@),
        final(c).spec_is_valid("NAD"@),
        final(c).spec_is_valid("NGN"@),
        final(c).spec_is_valid("NIO"@),
        final(c).spec_is_valid("NOK"@),
        final(c).spec_is_valid("NPR"@),
        final(c).spec_is_valid("NZD"@),
        final(c).spec_is_valid("OMR"@),
        final(c).spec_is_valid("PAB"@),
{
    c.add_rate_units("LKR", 37990241900000000000000);  // 379.902419
    c.add_rate_units("LRD", 15932048700000000000000);  // 159.320487
    c.add_rate_units("LSL", 1797059000000000000000);  // 17.97059
    c.add_rate_units("LTL", 305475900000000000000);  // 3.054759
    c.add_rate_units("LVL", 62578900000000000000);  // 0.625789
    c.add_rate_units("LYD", 506416800000000000000);  // 5.064168
    c.add_rate_units("MAD", 1108469000000000000000);  // 11.08469
    c.add_rate_units("MDL", 1982174100000000000000);  // 19.821741
    c.add_rate_units("MGA", 446615412700000000000000);  // 4466.154127
    c.add_rate_units("MKD", 6144220100000000000000);  // 61.442201
    c.add_rate_units("MMK", 217087031200000000000000);  // 2170.870312
    c.add_rate_units("MNT", 353193500000000000000000);  // 3531.935
    c.add_rate_units("MOP", 832865800000000000000);  // 8.328658
    c.add_rate_units("MRO", 36933433000000000000000);  // 369.33433
    c.add_rate_units("MUR", 4514784500000000000000);  // 45.147845
    c.add_rate_units("MVR", 1594759700000000000000);  // 15.947597
    c.add_rate_units("MWK", 105937979800000000000000);  // 1059.379798
    c.add_rate_units("MXN", 2011217900000000000000);  // 20.112179
    c.add_rate_units("MYR", 471113900000000000000);  // 4.711139
    c.add_rate_units("MZN", 6603567200000000000000);  // 66.035672
    c.add_rate_units("NAD", 1796992600000000000000);  // 17.969926
    c.add_rate_units("NGN", 45795376400000000000000);  // 457.953764
    c.add_rate_units("NIO", 3724398900000000000000);  // 37.243989
    c.add_rate_units("NOK", 1054532800000000000000);  // 10.545328
    c.add_rate_units("NPR", 13508864800000000000000);  // 135.088648
    c.add_rate_units("NZD", 168151300000000000000);  // 1.681513
    c.add_rate_units("OMR", 39777100000000000000);  // 0.397771
    c.add_rate_units("PAB", 103371300000000000000);  // 1.033713
}

/// One block of the embedded snapshot's rate entries.
#[verifier::rlimit(100)]
fn add_rates_e(c: &mut CurrencyConverter)
    requires
        old(c).wf(),
    ensures
        final(c).wf(),
        final(c)@.0 == old(c)@.0,
        forall|x: Seq<char>| old(c).spec_is_valid(x) ==> final(c).spec_is_valid(x),
        forall|x: Seq<char>|
            has_rate(old(c)@.1, x) ==> has_rate(final(c)@.1, x) && rate_of(final(c)@.1, x)
                == rate_of(old(c)@.1, x),
        final(c).spec_is_valid("PEN"@),
        final(c).spec_is_valid("PGK"@),
        final(c).spec_is_valid("PHP"@),
        final(c).spec_is_valid("PKR"@),
        final(c).spec_is_valid("PLN"@),
        final(c).spec_is_valid("PYG"@),
        final(c).spec_is_valid("QAR"@),
        final(c).spec_is_valid("RON"@),
        final(c).spec_is_valid("RSD"@),
        final(c).spec_is_valid("RUB"@),
        final(c).spec_is_valid("RWF"@),
        final(c).spec_is_valid("SAR"@),
        final(c).spec_is_valid("SBD"@),
        final(c).spec_is_valid("SCR"@),
        final(c).spec_is_valid("SDG"@),
        final(c).spec_is_valid("SEK"@),
        final(c).spec_is_valid("SGD"@),
        final(c).spec_is_valid("SHP"@),
        final(c).spec_is_valid("SLE"@),
        final(c).spec_is_valid("SLL"@),
        final(c).spec_is_valid("SOS"@),
        final(c).spec_is_valid("SRD"@),
        final(c).spec_is_valid("STD"@),
        final(c).spec_is_valid("SVC"@),
        final(c).spec_is_valid("SYP"@),
        final(c).spec_is_valid("SZL"@),
        final(c).spec_is_valid("THB"@),
        final(c).spec_is_valid("TJS"@),
{
    c.add_rate_units("PEN", 394034400000000000000);  // 3.940344
    c.add_rate_units("PGK", 364149300000000000000);  // 3.641493
    c.add_rate_units("PHP", 5918354600000000000000);  // 59.183546
    c.add_rate_units("PKR", 23013581000000000000000);  // 230.13581
    c.add_rate_units("PLN", 470891100000000000000);  // 4.708911
    c.add_rate_units("PYG", 741249647800000000000000);  // 7412.496478
    c.add_rate_units("QAR", 376628500000000000000);  // 3.766285
    c.add_rate_units("RON", 495138300000000000000);  // 4.951383
    c.add_rate_units("RSD", 11732505000000000000000);  // 117.32505
    c.add_rate_units("RUB", 6295252200000000000000);  // 62.952522
    c.add_rate_units("RWF", 109145071600000000000000);  // 1091.450716
    c.add_rate_units("SAR", 388838900000000000000);  // 3.888389
    c.add_rate_units("SBD", 851496300000000000000);  // 8.514963
    c.add_rate_units("SCR", 1497517500000000000000);  // 14.975175
    c.add_rate_units("SDG", 58917846000000000000000);  // 589.17846
    c.add_rate_units("SEK", 1100389100000000000000);  // 11.003891
    c.add_rate_units("SGD", 142364700000000000000);  // 1.423647
    c.add_rate_units("SHP", 142498900000000000000);  // 1.424989
    c.add_rate_units("SLE", 1871504200000000000000);  // 18.715042
    c.add_rate_units("SLL", 1864777210600000000000000);  // 18647.772106
    c.add_rate_units("SOS", 58814321000000000000000);  // 588.14321
    c.add_rate_units("SRD", 3169914200000000000000);  // 31.699142
    c.add_rate_units("STD", 2141310540100000000000000);  // 21413.105401
    c.add_rate_units("SVC", 904456300000000000000);  // 9.044563
    c.add_rate_units("SYP", 259933701500000000000000);  // 2599.337015
    c.add_rate_units("SZL", 1797031900000000000000);  // 17.970319
    c.add_rate_units("THB", 3704688300000000000000);  // 37.046883
    c.add_rate_units("TJS", 1055132600000000000000);  // 10.551326
}

/// One block of the embedded snapshot's rate entries.
#[verifier::rlimit(100)]
fn add_rates_f(c: &mut CurrencyConverter)
    requires
        old(c).wf(),
    ensures
        final(c).wf(),
        final(c)@.0 == old(c)@.0,
        forall|x: Seq<char>| old(c).spec_is_valid(x) ==> final(c).spec_is_valid(x),
        forall|x: Seq<char>|
            has_rate(old(c)@.1, x) ==> has_rate(final(c)@.1, x) && rate_of(final(c)@.1, x)
                == rate_of(old(c)@.1, x),
        final(c).spec_is_valid("TMT"@),
        final(c).spec_is_valid("TND"@),
        final(c).spec_is_valid("TOP"@),
        final(c).spec_is_valid("TRY"@),
        final(c).spec_is_valid("TTD"@),
        final(c).spec_is_valid("TWD"@),
        final(c).spec_is_valid("TZS"@),
        final(c).spec_is_valid("UAH"@),
        final(c).spec_is_valid("UGX"@),
        final(c).spec_is_valid("UYU"@),
        final(c).spec_is_valid("UZS"@),
        final(c).spec_is_valid("VEF"@),
        final(c).spec_is_valid("VND"@),
        final(c).spec_is_valid("VUV"@),
        final(c).spec_is_valid("WST"@),
        final(c).spec_is_valid("XAF"@),
        final(c).spec_is_valid("XAG"@),
        final(c).spec_is_valid("XAU"@),
        final(c).spec_is_valid("XCD"@),
        final(c).spec_is_valid("XDR"@),
        final(c).spec_is_valid("XOF"@),
        final(c).spec_is_valid("XPF"@),
        final(c).spec_is_valid("YER"@),
        final(c).spec_is_valid("ZAR"@),
        final(c).spec_is_valid("ZMK"@),
        final(c).spec_is_valid("ZMW"@),
        final(c).spec_is_valid("ZWL"@),
{
    c.add_rate_units("TMT", 363127200000000000000);  // 3.631272
    c.add_rate_units("TND", 327383600000000000000);  // 3.273836
    c.add_rate_units("TOP", 245431500000000000000);  // 2.454315
    c.add_rate_units("TRY", 1926467400000000000000);  // 19.264674
    c.add_rate_units("TTD", 701660200000000000000);  // 7.016602
    c.add_rate_units("TWD", 3220172900000000000000);  // 32.201729
    c.add_rate_units("TZS", 241257157800000000000000);  // 2412.571578
    c.add_rate_units("UAH", 3817778300000000000000);  // 38.177783
    c.add_rate_units("UGX", 386094153200000000000000);  // 3860.941532
    c.add_rate_units("UYU", 4113152100000000000000);  // 41.131521
    c.add_rate_units("UZS", 1160765605500000000000000);  // 11607.656055
    c.add_rate_units("VEF", 101129896816600000000000000);  // 1011298.968166
    c.add_rate_units("VND", 2566461009100000000000000);  // 25664.610091
    c.add_rate_units("VUV", 12282314400000000000000);  // 122.823144
    c.add_rate_units("WST", 288174800000000000000);  // 2.881748
    c.add_rate_units("XAF", 65413313100000000000000);  // 654.133131
    c.add_rate_units("XAG", 4944900000000000000);  // 0.049449
    c.add_rate_units("XAU", 59100000000000000);  // 0.000591
    c.add_rate_units("XCD", 279592500000000000000);  // 2.795925
    c.add_rate_units("XDR", 78880100000000000000);  // 0.788801
    c.add_rate_units("XOF", 66367239100000000000000);  // 663.672391
    c.add_rate_units("XPF", 11964598600000000000000);  // 119.645986
    c.add_rate_units("YER", 25892215200000000000000);  // 258.922152
    c.add_rate_units("ZAR", 1785672300000000000000);  // 17.856723
    c.add_rate_units("ZMK", 931218762200000000000000);  // 9312.187622
    c.add_rate_units("ZMW", 1722743300000000000000);  // 17.227433
    c.add_rate_units("ZWL", 33312482000000000000000);  // 333.12482
}

/// Builds the fixed exchange-rate snapshot the service runs with: rates
/// against the EUR base as of the embedded data set, each given as its
/// exact `10^-20` unit count (the decimal it spells stands beside it).
/// The contract names the snapshot's base, pins the two rates the
/// service's own data fixes for the end-to-end scenarios — USD at
/// 1.03455 and the base's redundant entry at 1 — and lists every code
/// the snapshot knows.
#[verifier::rlimit(100)]
pub fn create_currency_converter() -> (r: CurrencyConverter)
    ensures
        r.wf(),
        r@.0 == "EUR"@,
        has_rate(r@.1, "USD"@) && rate_of(r@.1, "USD"@) == 103455000000000000000,
        has_rate(r@.1, "EUR"@) && rate_of(r@.1, "EUR"@) == 100000000000000000000,
        r.spec_is_valid("USD"@),
        r.spec_is_valid("EUR"@),
        r.spec_is_valid("AED"@),
        r.spec_is_valid("AFN"@),
        r.spec_is_valid("ALL"@),
        r.spec_is_valid("AMD"@),
        r.spec_is_valid("ANG"@),
        r.spec_is_valid("AOA"@),
        r.spec_is_valid("ARS"@),
        r.spec_is_valid("AUD"@),
        r.spec_is_valid("AWG"@),
        r.spec_is_valid("AZN"@),
        r.spec_is_valid("BAM"@),
        r.spec_is_valid("BBD"@),
        r.spec_is_valid("BDT"@),
        r.spec_is_valid("BGN"@),
        r.spec_is_valid("BHD"@),
        r.spec_is_valid("BIF"@),
        r.spec_is_valid("BMD"@),
        r.spec_is_valid("BND"@),
        r.spec_is_valid("BOB"@),
        r.spec_is_valid("BRL"@),
        r.spec_is_valid("BSD"@),
        r.spec_is_valid("BTC"@),
        r.spec_is_valid("BTN"@),
        r.spec_is_valid("BWP"@),
        r.spec_is_valid("BYN"@),
        r.spec_is_valid("BYR"@),
        r.spec_is_valid("BZD"@),
        r.spec_is_valid("CAD"@),
        r.spec_is_valid("CDF"@),
        r.spec_is_valid("CHF"@),
        r.spec_is_valid("CLF"@),
        r.spec_is_valid("CLP"@),
        r.spec_is_valid("CNY"@),
        r.spec_is_valid("COP"@),
        r.spec_is_valid("CRC"@),
        r.spec_is_valid("CUC"@),
        r.spec_is_valid("CUP"@),
        r.spec_is_valid("CVE"@),
        r.spec_is_valid("CZK"@),
        r.spec_is_valid("DJF"@),
        r.spec_is_valid("DKK"@),
        r.spec_is_valid("DOP"@),
        r.spec_is_valid("DZD"@),
        r.spec_is_valid("EGP"@),
        r.spec_is_valid("ERN"@),
        r.spec_is_valid("ETB"@),
        r.spec_is_valid("FJD"@),
        r.spec_is_valid("FKP"@),
        r.spec_is_valid("GBP"@),
        r.spec_is_valid("GEL"@),
        r.spec_is_valid("GGP"@),
        r.spec_is_valid("GHS"@),
        r.spec_is_valid("GIP"@),
        r.spec_is_valid("GMD"@),
        r.spec_is_valid("GNF"@),
        r.spec_is_valid("GTQ"@),
        r.spec_is_valid("GYD"@),
        r.spec_is_valid("HKD"@),
        r.spec_is_valid("HNL"@),
        r.spec_is_valid("HRK"@),
        r.spec_is_valid("HTG"@),
        r.spec_is_valid("HUF"@),
        r.spec_is_valid("IDR"@),
        r.spec_is_valid("ILS"@),
        r.spec_is_valid("IMP"@),
        r.spec_is_valid("INR"@),
        r.spec_is_valid("IQD"@),
        r.spec_is_valid("IRR"@),
        r.spec_is_valid("ISK"@),
        r.spec_is_valid("JEP"@),
        r.spec_is_valid("JMD"@),
        r.spec_is_valid("JOD"@),
        r.spec_is_valid("JPY"@),
        r.spec_is_valid("KES"@),
        r.spec_is_valid("KGS"@),
        r.spec_is_valid("KHR"@),
        r.spec_is_valid("KMF"@),
        r.spec_is_valid("KPW"@),
        r.spec_is_valid("KRW"@),
        r.spec_is_valid("KWD"@),
        r.spec_is_valid("KYD"@),
        r.spec_is_valid("KZT"@),
        r.spec_is_valid("LAK"@),
        r.spec_is_valid("LBP"@),
        r.spec_is_valid("LKR"@),
        r.spec_is_valid("LRD"@),
        r.spec_is_valid("LSL"@),
        r.spec_is_valid("LTL"@),
        r.spec_is_valid("LVL"@),
        r.spec_is_valid("LYD"@),
        r.spec_is_valid("MAD"@),
        r.spec_is_valid("MDL"@),
        r.spec_is_valid("MGA"@),
        r.spec_is_valid("MKD"@),
        r.spec_is_valid("MMK"@),
        r.spec_is_valid("MNT"@),
        r.spec_is_valid("MOP"@),
        r.spec_is_valid("MRO"@),
        r.spec_is_valid("MUR"@),
        r.spec_is_valid("MVR"@),
        r.spec_is_valid("MWK"@),
        r.spec_is_valid("MXN"@),
        r.spec_is_valid("MYR"@),
        r.spec_is_valid("MZN"@),
        r.spec_is_valid("NAD"@),
        r.spec_is_valid("NGN"@),
        r.spec_is_valid("NIO"@),
        r.spec_is_valid("NOK"@),
        r.spec_is_valid("NPR"@),
        r.spec_is_valid("NZD"@),
        r.spec_is_valid("OMR"@),
        r.spec_is_valid("PAB"@),
        r.spec_is_valid("PEN"@),
        r.spec_is_valid("PGK"@),
        r.spec_is_valid("PHP"@),
        r.spec_is_valid("PKR"@),
        r.spec_is_valid("PLN"@),
        r.spec_is_valid("PYG"@),
        r.spec_is_valid("QAR"@),
        r.spec_is_valid("RON"@),
        r.spec_is_valid("RSD"@),
        r.spec_is_valid("RUB"@),
        r.spec_is_valid("RWF"@),
        r.spec_is_valid("SAR"@),
        r.spec_is_valid("SBD"@),
        r.spec_is_valid("SCR"@),
        r.spec_is_valid("SDG"@),
        r.spec_is_valid("SEK"@),
        r.spec_is_valid("SGD"@),
        r.spec_is_valid("SHP"@),
        r.spec_is_valid("SLE"@),
        r.spec_is_valid("SLL"@),
        r.spec_is_valid("SOS"@),
        r.spec_is_valid("SRD"@),
        r.spec_is_valid("STD"@),
        r.spec_is_valid("SVC"@),
        r.spec_is_valid("SYP"@),
        r.spec_is_valid("SZL"@),
        r.spec_is_valid("THB"@),
        r.spec_is_valid("TJS"@),
        r.spec_is_valid("TMT"@),
        r.spec_is_valid("TND"@),
        r.spec_is_valid("TOP"@),
        r.spec_is_valid("TRY"@),
        r.spec_is_valid("TTD"@),
        r.spec_is_valid("TWD"@),
        r.spec_is_valid("TZS"@),
        r.spec_is_valid("UAH"@),
        r.spec_is_valid("UGX"@),
        r.spec_is_valid("UYU"@),
        r.spec_is_valid("UZS"@),
        r.spec_is_valid("VEF"@),
        r.spec_is_valid("VND"@),
        r.spec_is_valid("VUV"@),
        r.spec_is_valid("WST"@),
        r.spec_is_valid("XAF"@),
        r.spec_is_valid("XAG"@),
        r.spec_is_valid("XAU"@),
        r.spec_is_valid("XCD"@),
        r.spec_is_valid("XDR"@),
        r.spec_is_valid("XOF"@),
        r.spec_is_valid("XPF"@),
        r.spec_is_valid("YER"@),
        r.spec_is_valid("ZAR"@),
        r.spec_is_valid("ZMK"@),
        r.spec_is_valid("ZMW"@),
        r.spec_is_valid("ZWL"@),
{
    let mut c = CurrencyConverter::empty("EUR".to_owned());
    proof {
        reveal_strlit("USD");
        reveal_strlit("EUR");
        assert("USD"@[0] == 'U');
        assert("EUR"@[0] == 'E');
        assert("USD"@ != "EUR"@);
    }
    c.add_rate_units("USD", 103455000000000000000);  // 1.03455
    c.add_rate_units("EUR", 100000000000000000000);  // 1
    add_rates_a(&mut c);
    add_rates_b(&mut c);
    add_rates_c(&mut c);
    add_rates_d(&mut c);
    add_rates_e(&mut c);
    add_rates_f(&mut c);
    c
}

} // verus!
