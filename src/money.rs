use vstd::prelude::*;

use crate::decimal::Decimal;

verus! {

/// Whether `code` is the alphabetic code of a currency in the ISO 4217 table.
pub uninterp spec fn iso_listed(code: Seq<char>) -> bool;

/// A currency, known by its ISO 4217 alphabetic code.
#[derive(Debug)]
pub struct Currency {
    pub code: String,
}

/// Relies on `rusty_money::iso::find`: it looks `code` up among the alphabetic codes of its
/// ISO 4217 table, and the currency it finds carries that same code.
#[verifier::external_body]
fn find_iso(code: &str) -> (r: Option<Currency>)
    ensures
        r is Some <==> iso_listed(code@),
        r matches Some(c) ==> c.code@ == code@,
{
    rusty_money::iso::find(code).map(|c| Currency { code: c.iso_alpha_code.to_string() })
}

impl Currency {
    /// The currency whose ISO 4217 alphabetic code is `code`, if the table lists one.
    pub fn find(code: &str) -> (r: Option<Currency>)
        ensures
            r is Some <==> iso_listed(code@),
            r matches Some(c) ==> c.code@ == code@,
    {
        find_iso(code)
    }

    /// A second currency value equal to this one.
    pub fn duplicate(&self) -> (r: Currency)
        ensures
            r == *self,
    {
        Currency { code: self.code.clone() }
    }

    /// Whether two currencies are the same.
    pub fn same_as(&self, other: &Currency) -> (r: bool)
        ensures
            r == (self.code@ == other.code@),
    {
        self.code == other.code
    }
}

/// A decimal amount in a currency.
#[derive(Debug)]
pub struct Money {
    pub amount: Decimal,
    pub currency: Currency,
}

impl Money {
    pub open spec fn wf(self) -> bool {
        self.amount.wf()
    }

    /// The amount `amount` in `currency`.
    pub fn from_decimal(amount: Decimal, currency: Currency) -> (r: Money)
        ensures
            r.amount == amount,
            r.currency == currency,
    {
        Money { amount, currency }
    }

    /// A second money value equal to this one.
    pub fn duplicate(&self) -> (r: Money)
        ensures
            r == *self,
    {
        Money { amount: self.amount, currency: self.currency.duplicate() }
    }

    /// The same value and the same currency: the comparison that subscriptions rely on.
    pub fn same_as(&self, other: &Money) -> (r: bool)
        requires
            self.wf(),
            other.wf(),
        ensures
            r == (self.amount.units() == other.amount.units() && self.currency.code@
                == other.currency.code@),
    {
        self.currency.same_as(&other.currency) && crate::decimal::same_value(
            &self.amount,
            &other.amount,
        )
    }
}

} // verus!
