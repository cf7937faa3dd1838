use vstd::prelude::*;

use crate::decimal::checked_add;
use crate::decimal::checked_mul;
use crate::decimal::lemma_pow10_monotone;
use crate::decimal::pow10;
use crate::decimal::sum_fits;
use crate::decimal::MAX_MANTISSA;
use crate::decimal::MAX_SCALE;
use crate::decimal::product_fits;
use crate::decimal::product_units;
use crate::decimal::Decimal;
use crate::money::Currency;
use crate::money::Money;
use crate::parser::Nature;
use crate::record::Record;
use crate::time::UtcTime;
use crate::text::contains;
use crate::text::lower_of;
use crate::text::lowercase;
use crate::text::occurs_in;

verus! {

/// How many units of `to` one unit of `from` is worth.
#[derive(Debug)]
pub struct ExchangeRate {
    pub from: Currency,
    pub to: Currency,
    pub rate: Decimal,
}

/// A table of exchange rates, at most one for each ordered pair of currencies.
#[derive(Debug)]
pub struct RateTable {
    pub rates: Vec<ExchangeRate>,
}

/// The entry `i` of `rates` converts `from` into `to`.
pub open spec fn converts(rates: Seq<ExchangeRate>, i: int, from: Seq<char>, to: Seq<char>) -> bool {
    &&& 0 <= i < rates.len()
    &&& rates[i].from.code@ == from
    &&& rates[i].to.code@ == to
}

/// The rate from `from` into `to` in the table `rates`, if it has one.
pub open spec fn rate_for(rates: Seq<ExchangeRate>, from: Seq<char>, to: Seq<char>) -> Option<Decimal> {
    if exists|i: int| #[trigger] converts(rates, i, from, to) {
        Some(rates[choose|i: int| #[trigger] converts(rates, i, from, to)].rate)
    } else {
        None
    }
}

/// No two entries of `rates` convert the same pair of currencies.
pub open spec fn pairs_unique(rates: Seq<ExchangeRate>) -> bool {
    forall|i: int, j: int, f: Seq<char>, t: Seq<char>|
        #![trigger converts(rates, i, f, t), converts(rates, j, f, t)]
        converts(rates, i, f, t) && converts(rates, j, f, t) ==> i == j
}

/// In a table without repeated pairs, the rate of a pair is that of its entry.
proof fn lemma_rate_at(rates: Seq<ExchangeRate>, k: int, from: Seq<char>, to: Seq<char>)
    requires
        pairs_unique(rates),
        converts(rates, k, from, to),
    ensures
        rate_for(rates, from, to) == Some(rates[k].rate),
{
    let c = choose|i: int| #[trigger] converts(rates, i, from, to);
    assert(converts(rates, c, from, to));
}

impl RateTable {
    /// Rates are valid decimals and no pair of currencies has two of them.
    pub open spec fn wf(self) -> bool {
        &&& forall|i: int| 0 <= i < self.rates@.len() ==> (#[trigger] self.rates@[i]).rate.wf()
        &&& pairs_unique(self.rates@)
    }

    /// The empty table.
    pub fn new() -> (r: RateTable)
        ensures
            r.wf(),
            r.rates@.len() == 0,
    {
        RateTable { rates: Vec::new() }
    }

    /// Sets the rate from `from` into `to`, replacing the one the table had for that pair.
    pub fn set_rate(&mut self, from: Currency, to: Currency, rate: Decimal)
        requires
            old(self).wf(),
            rate.wf(),
        ensures
            final(self).wf(),
            rate_for(final(self).rates@, from.code@, to.code@) == Some(rate),
            forall|f: Seq<char>, t: Seq<char>|
                !(f == from.code@ && t == to.code@) ==> #[trigger] rate_for(final(self).rates@, f, t)
                    == rate_for(old(self).rates@, f, t),
    {
        let ghost pre = self.rates@;
        let found = self.lookup(&from, &to);
        let ghost k: int;
        match found {
            Some(i) => {
                let old_entry = self.rates.remove(i);
                self.rates.insert(i, ExchangeRate { from: old_entry.from, to: old_entry.to, rate });
                proof {
                    k = i as int;
                    assert forall|n: int| 0 <= n < pre.len() && n != k implies self.rates@[n] == pre[n] by {}
                }
            },
            None => {
                self.rates.push(ExchangeRate { from, to, rate });
                proof {
                    k = pre.len() as int;
                    assert forall|n: int| 0 <= n < pre.len() implies self.rates@[n] == pre[n] by {}
                }
            },
        }
        let ghost post = self.rates@;
        proof {
            assert(converts(post, k, from.code@, to.code@));
            assert forall|i: int, j: int, f: Seq<char>, t: Seq<char>|
                converts(post, i, f, t) && converts(post, j, f, t) implies i == j by {
                if i != k && j != k {
                    assert(converts(pre, i, f, t) && converts(pre, j, f, t));
                } else if i == k && j != k {
                    assert(converts(pre, j, from.code@, to.code@));
                } else if j == k && i != k {
                    assert(converts(pre, i, from.code@, to.code@));
                }
            }
            lemma_rate_at(post, k, from.code@, to.code@);
            assert forall|f: Seq<char>, t: Seq<char>|
                !(f == from.code@ && t == to.code@) implies #[trigger] rate_for(post, f, t)
                    == rate_for(pre, f, t) by {
                if exists|i: int| converts(pre, i, f, t) {
                    let c = choose|i: int| converts(pre, i, f, t);
                    lemma_rate_at(pre, c, f, t);
                    assert(converts(post, c, f, t));
                    lemma_rate_at(post, c, f, t);
                } else {
                    assert forall|i: int| !converts(post, i, f, t) by {
                        if converts(post, i, f, t) {
                            assert(converts(pre, i, f, t));
                        }
                    }
                }
            }
        }
    }

    /// The index of the entry for the pair `from` into `to`, if there is one.
    fn lookup(&self, from: &Currency, to: &Currency) -> (r: Option<usize>)
        requires
            self.wf(),
        ensures
            match r {
                Some(i) => converts(self.rates@, i as int, from.code@, to.code@) && rate_for(
                    self.rates@,
                    from.code@,
                    to.code@,
                ) == Some(self.rates@[i as int].rate),
                None => rate_for(self.rates@, from.code@, to.code@) is None,
            },
    {
        let mut i: usize = 0;
        while i < self.rates.len()
            invariant
                0 <= i <= self.rates@.len(),
                self.wf(),
                forall|j: int| 0 <= j < i ==> !converts(self.rates@, j, from.code@, to.code@),
            decreases self.rates@.len() - i,
        {
            if self.rates[i].from.same_as(from) && self.rates[i].to.same_as(to) {
                proof {
                    lemma_rate_at(self.rates@, i as int, from.code@, to.code@);
                }
                return Some(i);
            }
            i += 1;
        }
        None
    }
}

/// `amount` with the sign that `nature` gives it: credits count in, debits count out.
pub open spec fn signed(amount: Decimal, nature: Nature) -> Decimal {
    match nature {
        Nature::Credit => amount,
        Nature::Debit => Decimal { mantissa: (-amount.mantissa) as i128, scale: amount.scale },
    }
}

/// Why an amount could not be normalized.
#[derive(Debug)]
pub enum NormalizeError {
    /// The table has no rate for the pair.
    MissingRate { from: String, to: String },
    /// The converted amount or the sum does not fit a decimal without rounding.
    Overflow,
}

/// `r` is what normalizing `amount` in the currency `from` into `to` with `rates` gives:
/// the same amount where the currencies agree; the product with the rate otherwise, exact
/// wherever it fits; a missing rate named.
pub open spec fn normalizes_to(
    r: Result<Money, NormalizeError>,
    amount: Decimal,
    from: Seq<char>,
    to: Seq<char>,
    rates: Seq<ExchangeRate>,
) -> bool {
    &&& r matches Ok(m) ==> m.currency.code@ == to && m.wf()
    &&& from == to ==> (r matches Ok(m) && m.amount == amount)
    &&& from != to ==> match rate_for(rates, from, to) {
        None => (r matches Err(NormalizeError::MissingRate { from: f, to: t }) && f@ == from && t@
            == to),
        Some(rate) => {
            &&& !(r matches Err(NormalizeError::MissingRate { .. }))
            &&& product_fits(amount, rate) ==> (r matches Ok(m) && m.amount.units() == product_units(
                amount,
                rate,
            ) && m.amount.scale <= amount.scale + rate.scale)
        },
    }
}

/// Converts `money` into the currency `target` with the rates of `table`.
pub fn normalize_amount(money: &Money, target: &Currency, table: &RateTable) -> (r: Result<
    Money,
    NormalizeError,
>)
    requires
        money.wf(),
        table.wf(),
    ensures
        normalizes_to(r, money.amount, money.currency.code@, target.code@, table.rates@),
{
    if money.currency.same_as(target) {
        return Ok(Money::from_decimal(money.amount, target.duplicate()));
    }
    match table.lookup(&money.currency, target) {
        None => Err(
            NormalizeError::MissingRate {
                from: money.currency.code.clone(),
                to: target.code.clone(),
            },
        ),
        Some(i) => {
            let rate = table.rates[i].rate;
            match checked_mul(&money.amount, &rate) {
                Some(amount) => Ok(Money::from_decimal(amount, target.duplicate())),
                None => Err(NormalizeError::Overflow),
            }
        },
    }
}

/// Converts the amount of `rec`, with the sign its nature gives it, into `target`. This is the
/// one place where the sign is applied.
pub fn normalize_record(rec: &Record, target: &Currency, table: &RateTable) -> (r: Result<
    Money,
    NormalizeError,
>)
    requires
        rec.wf(),
        table.wf(),
    ensures
        normalizes_to(r, signed_amount(*rec), rec.amount.currency.code@, target.code@, table.rates@),
{
    let amount = match rec.nature {
        Nature::Credit => rec.amount.amount,
        Nature::Debit => rec.amount.amount.negate(),
    };
    normalize_amount(&Money::from_decimal(amount, rec.amount.currency.duplicate()), target, table)
}

/// The amount of `rec` with its sign.
pub open spec fn signed_amount(rec: Record) -> Decimal {
    signed(rec.amount.amount, rec.nature)
}

/// The amount of `rec` can be brought into `target`.
pub open spec fn convertible(rec: Record, target: Seq<char>, rates: Seq<ExchangeRate>) -> bool {
    rec.amount.currency.code@ == target || rate_for(rates, rec.amount.currency.code@, target) is Some
}

/// The signed amount of `rec` in `target`, in units of 10^-28.
pub open spec fn term_units(rec: Record, target: Seq<char>, rates: Seq<ExchangeRate>) -> int {
    if rec.amount.currency.code@ == target {
        signed_amount(rec).units()
    } else {
        product_units(signed_amount(rec), rate_for(rates, rec.amount.currency.code@, target)->0)
    }
}

/// The conversion of `rec` into `target` needs no rounding.
pub open spec fn term_fits(rec: Record, target: Seq<char>, rates: Seq<ExchangeRate>) -> bool {
    rec.amount.currency.code@ == target || product_fits(
        signed_amount(rec),
        rate_for(rates, rec.amount.currency.code@, target)->0,
    )
}

/// The scale that the signed amount of `rec` in `target` needs.
pub open spec fn term_scale(rec: Record, target: Seq<char>, rates: Seq<ExchangeRate>) -> nat {
    if rec.amount.currency.code@ == target {
        rec.amount.amount.scale as nat
    } else {
        (rec.amount.amount.scale + rate_for(rates, rec.amount.currency.code@, target)->0.scale) as nat
    }
}

/// The sum of the first `n` terms.
pub open spec fn sum_units(recs: Seq<Record>, target: Seq<char>, rates: Seq<ExchangeRate>, n: int) -> int
    decreases n,
{
    if n <= 0 {
        0
    } else {
        sum_units(recs, target, rates, n - 1) + term_units(recs[n - 1], target, rates)
    }
}

/// The largest scale among the first `n` terms.
pub open spec fn max_scale(recs: Seq<Record>, target: Seq<char>, rates: Seq<ExchangeRate>, n: int) -> nat
    decreases n,
{
    if n <= 0 {
        0
    } else {
        let prev = max_scale(recs, target, rates, n - 1);
        let s = term_scale(recs[n - 1], target, rates);
        if s > prev {
            s
        } else {
            prev
        }
    }
}

/// The sum of all terms of `recs` can be made without rounding: every conversion fits, and
/// every running sum fits at the largest scale of the terms.
pub open spec fn total_fits(recs: Seq<Record>, target: Seq<char>, rates: Seq<ExchangeRate>) -> bool {
    let k = max_scale(recs, target, rates, recs.len() as int);
    let bound = MAX_MANTISSA * pow10((MAX_SCALE - k) as nat);
    &&& k <= MAX_SCALE
    &&& forall|i: int| 0 <= i < recs.len() ==> term_fits(#[trigger] recs[i], target, rates)
    &&& forall|n: int|
        0 <= n <= recs.len() ==> -bound <= #[trigger] sum_units(recs, target, rates, n) <= bound
}

/// `r` is the total of `recs` in `target`: the sum of their signed amounts, each converted
/// with `rates`. Success is owed where every record can be converted and the sum needs no
/// rounding; a missing rate is named.
pub open spec fn totals_to(
    r: Result<Money, NormalizeError>,
    recs: Seq<Record>,
    target: Seq<char>,
    rates: Seq<ExchangeRate>,
) -> bool {
    &&& r matches Ok(m) ==> m.currency.code@ == target && m.wf()
    &&& (exists|i: int| 0 <= i < recs.len() && !convertible(#[trigger] recs[i], target, rates))
        ==> r is Err
    &&& r matches Err(NormalizeError::MissingRate { from, to }) ==> to@ == target && exists|i: int|
        0 <= i < recs.len() && !convertible(#[trigger] recs[i], target, rates) && from@
            == recs[i].amount.currency.code@
    &&& r matches Err(NormalizeError::Overflow) ==> !total_fits(recs, target, rates)
    &&& (forall|i: int| 0 <= i < recs.len() ==> convertible(#[trigger] recs[i], target, rates))
        && total_fits(recs, target, rates) ==> (r matches Ok(m) && m.amount.units() == sum_units(
        recs,
        target,
        rates,
        recs.len() as int,
    ))
}

proof fn lemma_max_scale_monotone(
    recs: Seq<Record>,
    target: Seq<char>,
    rates: Seq<ExchangeRate>,
    a: int,
    b: int,
)
    requires
        0 <= a <= b <= recs.len(),
    ensures
        max_scale(recs, target, rates, a) <= max_scale(recs, target, rates, b),
        a < b ==> term_scale(recs[a], target, rates) <= max_scale(recs, target, rates, b),
    decreases b - a,
{
    if a < b {
        lemma_max_scale_monotone(recs, target, rates, a, b - 1);
    }
}

/// Sums the signed amounts of `records`, each converted into `target`; the total of no
/// records is zero.
pub fn calculate_total(records: &Vec<Record>, target: &Currency, table: &RateTable) -> (r: Result<
    Money,
    NormalizeError,
>)
    requires
        forall|i: int| 0 <= i < records@.len() ==> (#[trigger] records@[i]).wf(),
        table.wf(),
    ensures
        totals_to(r, records@, target.code@, table.rates@),
{
    let ghost recs = records@;
    let ghost to = target.code@;
    let ghost rates = table.rates@;
    let ghost len = recs.len() as int;
    let mut acc = Decimal::zero();
    let mut i: usize = 0;
    assert(sum_units(recs, to, rates, 0) == 0);
    assert(max_scale(recs, to, rates, 0) == 0);
    while i < records.len()
        invariant
            0 <= i <= len,
            recs == records@,
            len == recs.len(),
            to == target.code@,
            rates == table.rates@,
            table.wf(),
            forall|j: int| 0 <= j < len ==> (#[trigger] recs[j]).wf(),
            acc.wf(),
            forall|j: int| 0 <= j < i ==> convertible(#[trigger] recs[j], to, rates),
            total_fits(recs, to, rates) ==> acc.units() == sum_units(recs, to, rates, i as int)
                && acc.scale <= max_scale(recs, to, rates, i as int),
        decreases len - i,
    {
        let rec = &records[i];
        let term = match normalize_record(rec, target, table) {
            Ok(m) => m,
            Err(e) => {
                return Err(e);
            },
        };
        proof {
            lemma_max_scale_monotone(recs, to, rates, i as int, i as int + 1);
            lemma_max_scale_monotone(recs, to, rates, i as int + 1, len);
            if total_fits(recs, to, rates) {
                let k = max_scale(recs, to, rates, len);
                let s = if acc.scale >= term.amount.scale { acc.scale } else { term.amount.scale };
                assert(term_fits(recs[i as int], to, rates));
                assert(term.amount.units() == term_units(recs[i as int], to, rates));
                assert(s <= k);
                lemma_pow10_monotone((MAX_SCALE - k) as nat, (MAX_SCALE - s) as nat);
                let big = pow10((MAX_SCALE - s) as nat);
                let small = pow10((MAX_SCALE - k) as nat);
                assert(MAX_MANTISSA * small <= MAX_MANTISSA * big) by (nonlinear_arith)
                    requires small <= big;
                assert(-MAX_MANTISSA * small <= sum_units(recs, to, rates, i as int + 1)
                    <= MAX_MANTISSA * small);
                assert(sum_fits(acc, term.amount));
            }
        }
        acc = match checked_add(&acc, &term.amount) {
            Some(sum) => sum,
            None => {
                return Err(NormalizeError::Overflow);
            },
        };
        i += 1;
    }
    Ok(Money::from_decimal(acc, target.duplicate()))
}

/// `name` is one of `sources`, exactly.
pub open spec fn listed(sources: Seq<String>, name: Seq<char>) -> bool {
    exists|i: int| 0 <= i < sources.len() && (#[trigger] sources[i])@ == name
}

/// Some needle of `needles`, in lower case, occurs in `name` in lower case.
pub open spec fn fuzzy_listed(needles: Seq<String>, name: Seq<char>) -> bool {
    exists|i: int|
        0 <= i < needles.len() && occurs_in(lower_of((#[trigger] needles[i])@), lower_of(name))
}

fn is_listed(sources: &Vec<String>, name: &String) -> (r: bool)
    ensures
        r == listed(sources@, name@),
{
    let mut i: usize = 0;
    while i < sources.len()
        invariant
            0 <= i <= sources@.len(),
            forall|j: int| 0 <= j < i ==> (#[trigger] sources@[j])@ != name@,
        decreases sources@.len() - i,
    {
        if sources[i] == *name {
            return true;
        }
        i += 1;
    }
    false
}

fn is_fuzzy_listed(needles: &Vec<String>, name: &String) -> (r: bool)
    ensures
        r == fuzzy_listed(needles@, name@),
{
    let folded = lowercase(name.as_str());
    let mut i: usize = 0;
    while i < needles.len()
        invariant
            0 <= i <= needles@.len(),
            folded@ == lower_of(name@),
            forall|j: int|
                0 <= j < i ==> !occurs_in(lower_of((#[trigger] needles@[j])@), lower_of(name@)),
        decreases needles@.len() - i,
    {
        let needle = lowercase(needles[i].as_str());
        if contains(folded.as_str(), needle.as_str()) {
            return true;
        }
        i += 1;
    }
    false
}

/// Keeps the records whose source is not one of `sources` (compared exactly, with case).
pub fn filter_out_sources(records: &Vec<Record>, sources: &Vec<String>) -> (r: Vec<Record>)
    ensures
        r@ == records@.filter(|rec: Record| !listed(sources@, rec.source@)),
{
    let ghost keep = |rec: Record| !listed(sources@, rec.source@);
    let mut out: Vec<Record> = Vec::new();
    let mut i: usize = 0;
    while i < records.len()
        invariant
            0 <= i <= records@.len(),
            keep == (|rec: Record| !listed(sources@, rec.source@)),
            out@ == records@.take(i as int).filter(keep),
        decreases records@.len() - i,
    {
        proof {
            assert(records@.take(i as int + 1) =~= records@.take(i as int).push(records@[i as int]));
            records@.take(i as int).lemma_filter_push(records@[i as int], keep);
        }
        if !is_listed(sources, &records[i].source) {
            out.push(records[i].duplicate());
        }
        i += 1;
    }
    assert(records@.take(records@.len() as int) =~= records@);
    out
}

/// Keeps the records whose source is one of `sources` (compared exactly, with case).
pub fn filter_in_sources(records: &Vec<Record>, sources: &Vec<String>) -> (r: Vec<Record>)
    ensures
        r@ == records@.filter(|rec: Record| listed(sources@, rec.source@)),
{
    let ghost keep = |rec: Record| listed(sources@, rec.source@);
    let mut out: Vec<Record> = Vec::new();
    let mut i: usize = 0;
    while i < records.len()
        invariant
            0 <= i <= records@.len(),
            keep == (|rec: Record| listed(sources@, rec.source@)),
            out@ == records@.take(i as int).filter(keep),
        decreases records@.len() - i,
    {
        proof {
            assert(records@.take(i as int + 1) =~= records@.take(i as int).push(records@[i as int]));
            records@.take(i as int).lemma_filter_push(records@[i as int], keep);
        }
        if is_listed(sources, &records[i].source) {
            out.push(records[i].duplicate());
        }
        i += 1;
    }
    assert(records@.take(records@.len() as int) =~= records@);
    out
}

/// Keeps the records whose source, in lower case, contains one of `needles` in lower case.
pub fn fuzzy_filter_in_sources(records: &Vec<Record>, needles: &Vec<String>) -> (r: Vec<Record>)
    ensures
        r@ == records@.filter(|rec: Record| fuzzy_listed(needles@, rec.source@)),
{
    let ghost keep = |rec: Record| fuzzy_listed(needles@, rec.source@);
    let mut out: Vec<Record> = Vec::new();
    let mut i: usize = 0;
    while i < records.len()
        invariant
            0 <= i <= records@.len(),
            keep == (|rec: Record| fuzzy_listed(needles@, rec.source@)),
            out@ == records@.take(i as int).filter(keep),
        decreases records@.len() - i,
    {
        proof {
            assert(records@.take(i as int + 1) =~= records@.take(i as int).push(records@[i as int]));
            records@.take(i as int).lemma_filter_push(records@[i as int], keep);
        }
        if is_fuzzy_listed(needles, &records[i].source) {
            out.push(records[i].duplicate());
        }
        i += 1;
    }
    assert(records@.take(records@.len() as int) =~= records@);
    out
}

/// The records of `recs` whose source is `name`, in their order.
pub open spec fn from_source(recs: Seq<Record>, name: Seq<char>) -> Seq<Record> {
    recs.filter(source_is(name))
}

/// The record has the source `name`.
pub open spec fn source_is(name: Seq<char>) -> spec_fn(Record) -> bool {
    |rec: Record| rec.source@ == name
}

/// `groups` has one entry for each source of `recs`, with no other and none twice, and each
/// entry holds the records of its source in their order.
pub open spec fn grouped(groups: Seq<(String, Vec<Record>)>, recs: Seq<Record>) -> bool {
    &&& forall|i: int, j: int|
        #![trigger groups[i], groups[j]]
        0 <= i < j < groups.len() ==> groups[i].0@ != groups[j].0@
    &&& forall|k: int| 0 <= k < recs.len() ==> is_key(groups, (#[trigger] recs[k]).source@)
    &&& forall|i: int|
        0 <= i < groups.len() ==> (#[trigger] groups[i]).1@ == from_source(recs, groups[i].0@)
    &&& forall|i: int|
        0 <= i < groups.len() ==> has_source(recs, (#[trigger] groups[i]).0@, recs.len() as int)
}

/// Some entry of `groups` has the source `name`.
pub open spec fn is_key(groups: Seq<(String, Vec<Record>)>, name: Seq<char>) -> bool {
    exists|i: int| 0 <= i < groups.len() && (#[trigger] groups[i]).0@ == name
}

fn records_from(records: &Vec<Record>, name: &String) -> (r: Vec<Record>)
    ensures
        r@ == from_source(records@, name@),
{
    let ghost keep = source_is(name@);
    let mut out: Vec<Record> = Vec::new();
    let mut i: usize = 0;
    while i < records.len()
        invariant
            0 <= i <= records@.len(),
            keep == source_is(name@),
            out@ == records@.take(i as int).filter(keep),
        decreases records@.len() - i,
    {
        proof {
            assert(records@.take(i as int + 1) =~= records@.take(i as int).push(records@[i as int]));
            records@.take(i as int).lemma_filter_push(records@[i as int], keep);
        }
        if records[i].source == *name {
            out.push(records[i].duplicate());
        }
        i += 1;
    }
    assert(records@.take(records@.len() as int) =~= records@);
    out
}

/// Some of the first `n` records of `recs` has the source `name`.
pub open spec fn has_source(recs: Seq<Record>, name: Seq<char>, n: int) -> bool {
    exists|k: int| 0 <= k < n && (#[trigger] recs[k]).source@ == name
}

/// The distinct sources of `records`, in the order in which they first occur.
fn distinct_sources(records: &Vec<Record>) -> (r: Vec<String>)
    ensures
        forall|i: int, j: int| #![trigger r@[i], r@[j]] 0 <= i < j < r@.len() ==> r@[i]@ != r@[j]@,
        forall|k: int| 0 <= k < records@.len() ==> listed(r@, (#[trigger] records@[k]).source@),
        forall|i: int|
            0 <= i < r@.len() ==> has_source(records@, (#[trigger] r@[i])@, records@.len() as int),
{
    let mut keys: Vec<String> = Vec::new();
    let mut n: usize = 0;
    while n < records.len()
        invariant
            0 <= n <= records@.len(),
            forall|i: int, j: int|
                #![trigger keys@[i], keys@[j]]
                0 <= i < j < keys@.len() ==> keys@[i]@ != keys@[j]@,
            forall|k: int| 0 <= k < n ==> listed(keys@, (#[trigger] records@[k]).source@),
            forall|i: int| 0 <= i < keys@.len() ==> has_source(records@, (#[trigger] keys@[i])@, n as int),
        decreases records@.len() - n,
    {
        let source = &records[n].source;
        let ghost pre = keys@;
        if !is_listed(&keys, source) {
            keys.push(source.clone());
            proof {
                assert(keys@[pre.len() as int]@ == records@[n as int].source@);
                assert forall|i: int| 0 <= i < keys@.len() implies has_source(
                    records@,
                    (#[trigger] keys@[i])@,
                    n + 1,
                ) by {
                    if i < pre.len() {
                        assert(keys@[i] == pre[i]);
                        assert(has_source(records@, pre[i]@, n as int));
                        let k = choose|k: int| 0 <= k < n && (#[trigger] records@[k]).source@ == pre[i]@;
                        assert(records@[k].source@ == keys@[i]@);
                    } else {
                        assert(records@[n as int].source@ == keys@[i]@);
                    }
                }
                assert forall|k: int| 0 <= k < n + 1 implies listed(keys@, (#[trigger] records@[k]).source@) by {
                    if k < n {
                        assert(listed(pre, records@[k].source@));
                        let i = choose|i: int| 0 <= i < pre.len() && (#[trigger] pre[i])@ == records@[k].source@;
                        assert(keys@[i] == pre[i]);
                    } else {
                        assert(keys@[pre.len() as int]@ == records@[k].source@);
                    }
                }
            }
        } else {
            proof {
                assert forall|i: int| 0 <= i < keys@.len() implies has_source(
                    records@,
                    (#[trigger] keys@[i])@,
                    n + 1,
                ) by {
                    let k = choose|k: int| 0 <= k < n && (#[trigger] records@[k]).source@ == keys@[i]@;
                }
            }
        }
        n += 1;
    }
    keys
}

/// Groups the records by source: one entry for each distinct source, in the order in which
/// the sources first occur, each with the records of that source in their order.
pub fn group(records: &Vec<Record>) -> (r: Vec<(String, Vec<Record>)>)
    ensures
        grouped(r@, records@),
{
    let keys = distinct_sources(records);
    let mut groups: Vec<(String, Vec<Record>)> = Vec::new();
    let mut j: usize = 0;
    while j < keys.len()
        invariant
            0 <= j <= keys@.len(),
            groups@.len() == j,
            forall|i: int| 0 <= i < j ==> (#[trigger] groups@[i]).0@ == keys@[i]@,
            forall|i: int| 0 <= i < j ==> (#[trigger] groups@[i]).1@ == from_source(records@, keys@[i]@),
        decreases keys@.len() - j,
    {
        let list = records_from(records, &keys[j]);
        groups.push((keys[j].clone(), list));
        j += 1;
    }
    proof {
        let g = groups@;
        assert forall|i: int, k: int| #![trigger g[i], g[k]] 0 <= i < k < g.len() implies g[i].0@ != g[k].0@ by {
            assert(g[i].0@ == keys@[i]@);
            assert(g[k].0@ == keys@[k]@);
        }
        assert forall|k: int| 0 <= k < records@.len() implies is_key(g, (#[trigger] records@[k]).source@) by {
            assert(listed(keys@, records@[k].source@));
            let i = choose|i: int| 0 <= i < keys@.len() && (#[trigger] keys@[i])@ == records@[k].source@;
            assert(g[i].0@ == keys@[i]@);
        }
        assert forall|i: int| 0 <= i < g.len() implies has_source(records@, (#[trigger] g[i]).0@, records@.len() as int) by {
            assert(g[i].0@ == keys@[i]@);
            assert(has_source(records@, keys@[i]@, records@.len() as int));
        }
    }
    groups
}

/// The records of one source are records of `recs`, so they keep what holds of all of them.
proof fn lemma_from_source_wf(recs: Seq<Record>, name: Seq<char>)
    requires
        forall|k: int| 0 <= k < recs.len() ==> (#[trigger] recs[k]).wf(),
    ensures
        forall|k: int|
            0 <= k < from_source(recs, name).len() ==> (#[trigger] from_source(recs, name)[k]).wf(),
{
    let part = from_source(recs, name);
    assert forall|k: int| 0 <= k < part.len() implies (#[trigger] part[k]).wf() by {
        assert(part.contains(part[k]));
        recs.lemma_filter_contains_rev(source_is(name), part[k]);
    }
}

/// Some entry of `totals` has the source `name`.
pub open spec fn has_total(totals: Seq<(String, Money)>, name: Seq<char>) -> bool {
    exists|i: int| 0 <= i < totals.len() && (#[trigger] totals[i]).0@ == name
}

/// The total of each source, in the order of `group`.
pub fn group_totals(records: &Vec<Record>, target: &Currency, table: &RateTable) -> (r: Result<
    Vec<(String, Money)>,
    NormalizeError,
>)
    requires
        forall|i: int| 0 <= i < records@.len() ==> (#[trigger] records@[i]).wf(),
        table.wf(),
    ensures
        match r {
            Ok(totals) => {
                &&& forall|i: int, j: int|
                    #![trigger totals@[i], totals@[j]]
                    0 <= i < j < totals@.len() ==> totals@[i].0@ != totals@[j].0@
                &&& forall|k: int|
                    0 <= k < records@.len() ==> has_total(totals@, (#[trigger] records@[k]).source@)
                &&& forall|i: int|
                    0 <= i < totals@.len() ==> has_source(
                        records@,
                        (#[trigger] totals@[i]).0@,
                        records@.len() as int,
                    ) && totals_to(
                        Ok::<Money, NormalizeError>(totals@[i].1),
                        from_source(records@, totals@[i].0@),
                        target.code@,
                        table.rates@,
                    )
            },
            Err(e) => exists|name: Seq<char>|
                has_source(records@, name, records@.len() as int) && totals_to(
                    Err::<Money, NormalizeError>(e),
                    #[trigger] from_source(records@, name),
                    target.code@,
                    table.rates@,
                ),
        },
{
    let groups = group(records);
    let mut totals: Vec<(String, Money)> = Vec::new();
    let mut j: usize = 0;
    while j < groups.len()
        invariant
            0 <= j <= groups@.len(),
            grouped(groups@, records@),
            forall|i: int| 0 <= i < records@.len() ==> (#[trigger] records@[i]).wf(),
            table.wf(),
            totals@.len() == j,
            forall|i: int| 0 <= i < j ==> (#[trigger] totals@[i]).0@ == groups@[i].0@,
            forall|i: int|
                0 <= i < j ==> totals_to(
                    Ok::<Money, NormalizeError>((#[trigger] totals@[i]).1),
                    from_source(records@, groups@[i].0@),
                    target.code@,
                    table.rates@,
                ),
        decreases groups@.len() - j,
    {
        let name = &groups[j].0;
        let list = &groups[j].1;
        proof {
            lemma_from_source_wf(records@, name@);
            assert(groups@[j as int].1@ == from_source(records@, name@));
            assert(has_source(records@, groups@[j as int].0@, records@.len() as int));
        }
        match calculate_total(list, target, table) {
            Ok(total) => {
                totals.push((name.clone(), total));
            },
            Err(e) => {
                return Err(e);
            },
        }
        j += 1;
    }
    proof {
        let t = totals@;
        let g = groups@;
        assert forall|i: int, k: int| #![trigger t[i], t[k]] 0 <= i < k < t.len() implies t[i].0@ != t[k].0@ by {
            assert(t[i].0@ == g[i].0@ && t[k].0@ == g[k].0@);
        }
        assert forall|k: int| 0 <= k < records@.len() implies has_total(t, (#[trigger] records@[k]).source@) by {
            assert(is_key(g, records@[k].source@));
            let i = choose|i: int| 0 <= i < g.len() && (#[trigger] g[i]).0@ == records@[k].source@;
            assert(t[i].0@ == g[i].0@);
        }
        assert forall|i: int| 0 <= i < t.len() implies has_source(
            records@,
            (#[trigger] t[i]).0@,
            records@.len() as int,
        ) by {
            assert(t[i].0@ == g[i].0@);
            assert(has_source(records@, g[i].0@, records@.len() as int));
        }
    }
    Ok(totals)
}

/// A charge that recurs each month on the same day.
#[derive(Debug)]
pub struct Subscription {
    pub source: String,
    pub amount: Money,
    pub charge_date: u32,
}

/// The records `recs` of one source are recurring charges: there are at least two, all fall
/// on the same day of the month, no two on the same date, and all have the same amount in the
/// same currency. Put in time order, this is: every pair of consecutive charges is on the
/// same day of the month but on different dates, with identical amounts.
pub open spec fn recurring(recs: Seq<Record>) -> bool {
    &&& recs.len() >= 2
    &&& forall|i: int| 0 <= i < recs.len() ==> (#[trigger] recs[i]).time.day == recs[0].time.day
    &&& forall|i: int, j: int|
        #![trigger recs[i], recs[j]]
        0 <= i < recs.len() && 0 <= j < recs.len() && i != j ==> recs[i].time.date_spec()
            != recs[j].time.date_spec()
    &&& forall|i: int|
        0 <= i < recs.len() ==> (#[trigger] recs[i]).amount.amount.units()
            == recs[0].amount.amount.units() && recs[i].amount.currency.code@
            == recs[0].amount.currency.code@
}

/// The record `e` of `recs` comes before every other.
pub open spec fn earliest(recs: Seq<Record>, e: int) -> bool {
    &&& 0 <= e < recs.len()
    &&& forall|i: int| 0 <= i < recs.len() && i != e ==> recs[e].time.before(#[trigger] recs[i].time)
}

/// `s` is the subscription of the recurring records `recs` of the source `name`: its amount
/// and its day are those of the earliest charge.
pub open spec fn subscription_for(s: Subscription, name: Seq<char>, recs: Seq<Record>) -> bool {
    &&& s.source@ == name
    &&& exists|e: int|
        #[trigger] earliest(recs, e) && s.amount == recs[e].amount && s.charge_date
            == recs[e].time.day
}

/// Of two instants on different dates, one comes before the other.
proof fn lemma_before_total(a: UtcTime, b: UtcTime)
    requires
        a.date_spec() != b.date_spec(),
    ensures
        a.before(b) || b.before(a),
{
}

proof fn lemma_before_transitive(a: UtcTime, b: UtcTime, c: UtcTime)
    requires
        a.before(b),
        b.before(c),
    ensures
        a.before(c),
{
}

/// The subscription that the records `list` of the source `name` make, if they recur.
fn subscription_of(name: &String, list: &Vec<Record>) -> (r: Option<Subscription>)
    requires
        forall|i: int| 0 <= i < list@.len() ==> (#[trigger] list@[i]).wf(),
    ensures
        r is Some <==> recurring(list@),
        r matches Some(s) ==> subscription_for(s, name@, list@),
{
    let n = list.len();
    if n < 2 {
        return None;
    }
    let first = &list[0];
    let mut i: usize = 0;
    while i < n
        invariant
            0 <= i <= n,
            n == list@.len(),
            n >= 2,
            first == list@[0],
            forall|k: int| 0 <= k < n ==> (#[trigger] list@[k]).wf(),
            forall|k: int| 0 <= k < i ==> (#[trigger] list@[k]).time.day == first.time.day,
            forall|k: int|
                0 <= k < i ==> (#[trigger] list@[k]).amount.amount.units()
                    == first.amount.amount.units() && list@[k].amount.currency.code@
                    == first.amount.currency.code@,
            forall|k: int, m: int|
                #![trigger list@[k], list@[m]]
                0 <= k < i && 0 <= m < n && k != m ==> list@[k].time.date_spec()
                    != list@[m].time.date_spec(),
        decreases n - i,
    {
        let cur = &list[i];
        if cur.time.day != first.time.day || !cur.amount.same_as(&first.amount) {
            return None;
        }
        let date = cur.time.date();
        let mut j: usize = 0;
        while j < n
            invariant
                0 <= j <= n,
                n == list@.len(),
                0 <= i < n,
                cur == list@[i as int],
                date == cur.time.date_spec(),
                forall|m: int|
                    0 <= m < j && m != i ==> list@[i as int].time.date_spec()
                        != (#[trigger] list@[m]).time.date_spec(),
            decreases n - j,
        {
            if j != i && list[j].time.date() == date {
                return None;
            }
            j += 1;
        }
        i += 1;
    }
    let mut best: usize = 0;
    let mut k: usize = 1;
    while k < n
        invariant
            1 <= k <= n,
            0 <= best < k,
            n == list@.len(),
            recurring(list@),
            forall|m: int|
                0 <= m < k && m != best ==> list@[best as int].time.before(
                    #[trigger] list@[m].time,
                ),
        decreases n - k,
    {
        proof {
            assert(list@[k as int].time.date_spec() != list@[best as int].time.date_spec());
            lemma_before_total(list@[k as int].time, list@[best as int].time);
        }
        if list[k].time.is_before(&list[best].time) {
            proof {
                assert forall|m: int| 0 <= m < k + 1 && m != k implies list@[k as int].time.before(
                    #[trigger] list@[m].time,
                ) by {
                    if m != best {
                        lemma_before_transitive(
                            list@[k as int].time,
                            list@[best as int].time,
                            list@[m].time,
                        );
                    }
                }
            }
            best = k;
        }
        k += 1;
    }
    assert(earliest(list@, best as int));
    let e = &list[best];
    Some(Subscription { source: name.clone(), amount: e.amount.duplicate(), charge_date: e.time.day })
}

/// A source has a subscription in `subs`.
pub open spec fn has_subscription(subs: Seq<Subscription>, name: Seq<char>) -> bool {
    exists|i: int| 0 <= i < subs.len() && (#[trigger] subs[i]).source@ == name
}

/// The subscriptions among the records: one for each source whose records recur, in the
/// order in which the sources first occur.
pub fn get_subscriptions(records: &Vec<Record>) -> (r: Vec<Subscription>)
    requires
        forall|i: int| 0 <= i < records@.len() ==> (#[trigger] records@[i]).wf(),
    ensures
        forall|i: int, j: int|
            #![trigger r@[i], r@[j]]
            0 <= i < j < r@.len() ==> r@[i].source@ != r@[j].source@,
        forall|i: int|
            0 <= i < r@.len() ==> {
                let name = (#[trigger] r@[i]).source@;
                &&& has_source(records@, name, records@.len() as int)
                &&& recurring(from_source(records@, name))
                &&& subscription_for(r@[i], name, from_source(records@, name))
            },
        forall|k: int|
            0 <= k < records@.len() && recurring(from_source(records@, (#[trigger] records@[k]).source@))
                ==> has_subscription(r@, records@[k].source@),
{
    let groups = group(records);
    let mut subs: Vec<Subscription> = Vec::new();
    let ghost mut picked: Seq<int> = seq![];
    let mut j: usize = 0;
    while j < groups.len()
        invariant
            0 <= j <= groups@.len(),
            grouped(groups@, records@),
            forall|i: int| 0 <= i < records@.len() ==> (#[trigger] records@[i]).wf(),
            picked.len() == subs@.len(),
            forall|i: int, m: int|
                #![trigger picked[i], picked[m]]
                0 <= i < m < picked.len() ==> picked[i] < picked[m],
            forall|i: int| 0 <= i < picked.len() ==> 0 <= #[trigger] picked[i] < j,
            forall|i: int|
                0 <= i < subs@.len() ==> (#[trigger] subs@[i]).source@ == groups@[picked[i]].0@,
            forall|i: int|
                0 <= i < subs@.len() ==> {
                    let name = (#[trigger] subs@[i]).source@;
                    &&& has_source(records@, name, records@.len() as int)
                    &&& recurring(from_source(records@, name))
                    &&& subscription_for(subs@[i], name, from_source(records@, name))
                },
            forall|g: int|
                0 <= g < j && recurring(from_source(records@, (#[trigger] groups@[g]).0@))
                    ==> has_subscription(subs@, groups@[g].0@),
        decreases groups@.len() - j,
    {
        let name = &groups[j].0;
        let list = &groups[j].1;
        proof {
            lemma_from_source_wf(records@, name@);
            assert(groups@[j as int].1@ == from_source(records@, name@));
            assert(has_source(records@, groups@[j as int].0@, records@.len() as int));
        }
        match subscription_of(name, list) {
            Some(sub) => {
                let ghost pre = subs@;
                subs.push(sub);
                proof {
                    picked = picked.push(j as int);
                    assert forall|g: int|
                        0 <= g < j + 1 && recurring(from_source(records@, (#[trigger] groups@[g]).0@))
                            implies has_subscription(subs@, groups@[g].0@) by {
                        if g < j {
                            let i = choose|i: int| 0 <= i < pre.len() && (#[trigger] pre[i]).source@ == groups@[g].0@;
                            assert(subs@[i] == pre[i]);
                        } else {
                            assert(subs@[pre.len() as int].source@ == groups@[g].0@);
                        }
                    }
                }
            },
            None => {},
        }
        j += 1;
    }
    proof {
        let g = groups@;
        assert forall|i: int, m: int|
            #![trigger subs@[i], subs@[m]]
            0 <= i < m < subs@.len() implies subs@[i].source@ != subs@[m].source@ by {
            assert(picked[i] < picked[m]);
            assert(g[picked[i]].0@ != g[picked[m]].0@);
        }
        assert forall|k: int|
            0 <= k < records@.len() && recurring(from_source(records@, (#[trigger] records@[k]).source@))
                implies has_subscription(subs@, records@[k].source@) by {
            assert(is_key(g, records@[k].source@));
            let i = choose|i: int| 0 <= i < g.len() && (#[trigger] g[i]).0@ == records@[k].source@;
        }
    }
    subs
}

/// A source with fewer than two charges has no subscription.
pub proof fn lemma_single_charge_never_recurs(recs: Seq<Record>)
    requires
        recs.len() < 2,
    ensures
        !recurring(recs),
{
}

/// Two charges of a source on the same date, at whatever times, rule out a subscription for
/// that source.
pub proof fn lemma_same_date_never_recurs(recs: Seq<Record>, i: int, j: int)
    requires
        0 <= i < recs.len(),
        0 <= j < recs.len(),
        i != j,
        recs[i].time.date_spec() == recs[j].time.date_spec(),
    ensures
        !recurring(recs),
{
    assert(recs[i].time.date_spec() == recs[j].time.date_spec());
}

/// The sign law: a credit keeps its amount, and a debit counts the same size negatively.
pub proof fn lemma_sign_law(amount: Decimal)
    requires
        amount.wf(),
    ensures
        signed(amount, Nature::Credit) == amount,
        signed(amount, Nature::Debit).units() == -amount.units(),
        signed(amount, Nature::Debit).scale == amount.scale,
{
    let d = signed(amount, Nature::Debit);
    let p = pow10((MAX_SCALE - amount.scale) as nat);
    assert(d.units() == -amount.units()) by (nonlinear_arith)
        requires
            d.mantissa == -amount.mantissa,
            d.units() == d.mantissa * p,
            amount.units() == amount.mantissa * p,
    ;
}

/// The currency that totals are reported in: the Pakistani rupee.
pub fn normalized_currency() -> (r: Currency)
    ensures
        r.code@ == "PKR"@,
{
    Currency { code: String::from_str("PKR") }
}

/// The rates the library ships with: 237 rupees to the US dollar and 158 to the Singapore
/// dollar.
pub fn standard_rates() -> (r: RateTable)
    ensures
        r.wf(),
        rate_for(r.rates@, "USD"@, "PKR"@) == Some(Decimal { mantissa: 237, scale: 0 }),
        rate_for(r.rates@, "SGD"@, "PKR"@) == Some(Decimal { mantissa: 158, scale: 0 }),
{
    let mut table = RateTable::new();
    table.set_rate(
        Currency { code: String::from_str("USD") },
        normalized_currency(),
        Decimal { mantissa: 237, scale: 0 },
    );
    table.set_rate(
        Currency { code: String::from_str("SGD") },
        normalized_currency(),
        Decimal { mantissa: 158, scale: 0 },
    );
    proof {
        reveal_strlit("USD");
        reveal_strlit("SGD");
        assert("USD"@[0] != "SGD"@[0]);
        assert("USD"@ != "SGD"@);
    }
    table
}

} // verus!
