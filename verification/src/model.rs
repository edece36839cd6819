use vstd::prelude::*;

verus! {

/// The closed set of settlement currencies the catalog supports.
///
/// Every currency has a stable position in the coefficient table of a
/// `CurrencyConverter`; the enumeration and the table must stay in lockstep.
#[derive(Clone, Copy, PartialEq, Eq, Structural, Debug, Hash)]
pub enum Currency {
    Rub,
    Eur,
    Usd,
}

/// Number of supported currencies; a well-formed coefficient table has
/// exactly this many entries.
pub const CURRENCY_COUNT: usize = 3;

impl Currency {
    /// Position of this currency in a coefficient table.
    pub open spec fn spec_index(self) -> int {
        match self {
            Currency::Rub => 0,
            Currency::Eur => 1,
            Currency::Usd => 2,
        }
    }

    /// Executable counterpart of `spec_index`.
    pub fn index(self) -> (i: usize)
        ensures
            i == self.spec_index(),
            i < CURRENCY_COUNT,
    {
        match self {
            Currency::Rub => 0,
            Currency::Eur => 1,
            Currency::Usd => 2,
        }
    }
}

pub type UserId = u64;

pub type ProductId = u64;

/// A monetary amount: a count of minor units (cents) tagged with its
/// currency. Two prices are only comparable after explicit conversion
/// into a common currency.
#[derive(Clone, Copy, PartialEq, Eq, Structural, Debug)]
pub struct Price {
    pub value: i64,
    pub currency: Currency,
}

/// A registered user together with the settlement currency all product
/// prices are converted into on that user's behalf.
#[derive(Debug, PartialEq)]
pub struct User {
    pub id: UserId,
    pub name: String,
    pub currency: Currency,
}

impl User {
    pub fn id(&self) -> (r: UserId)
        ensures
            r == self.id,
    {
        self.id
    }
}

impl Clone for User {
    fn clone(&self) -> (r: Self)
        ensures
            r == *self,
    {
        User { id: self.id, name: self.name.clone(), currency: self.currency }
    }
}

/// A catalog entry with its price in whatever currency it was listed.
#[derive(Debug, PartialEq)]
pub struct Product {
    pub id: ProductId,
    pub name: String,
    pub price: Price,
}

impl Product {
    pub fn id(&self) -> (r: ProductId)
        ensures
            r == self.id,
    {
        self.id
    }
}

impl Clone for Product {
    fn clone(&self) -> (r: Self)
        ensures
            r == *self,
    {
        Product { id: self.id, name: self.name.clone(), price: self.price }
    }
}

} // verus!
