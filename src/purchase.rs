//! The purchase model: prices, dates, products and purchases.
use vstd::prelude::*;
use crate::category::ProductType;

verus! {

/// The largest magnitude of a price, in cents.
pub const MAX_PRICE_CENTS: i64 = 2147483647;

/// A price in hundredths of the currency unit; it may be negative.
#[derive(Debug, Clone, Copy, PartialEq, Eq, Structural)]
pub struct Price {
    pub cents: i64,
}

impl Price {
    pub open spec fn wf(self) -> bool {
        -MAX_PRICE_CENTS <= self.cents <= MAX_PRICE_CENTS
    }
}

/// Whether a year of the proleptic Gregorian calendar is a leap year.
pub open spec fn is_leap_year(y: int) -> bool {
    y % 4 == 0 && (y % 100 != 0 || y % 400 == 0)
}

/// The number of days of a month of a year.
pub open spec fn days_in_month(y: int, m: int) -> int {
    if m == 2 {
        if is_leap_year(y) {
            29
        } else {
            28
        }
    } else if m == 4 || m == 6 || m == 9 || m == 11 {
        30
    } else {
        31
    }
}

/// Whether year, month and day name a day of the calendar.
pub open spec fn valid_ymd(y: int, m: int, d: int) -> bool {
    1 <= m <= 12 && 1 <= d <= days_in_month(y, m)
}

/// A calendar date with a four-digit year.
#[derive(Debug, Clone, Copy, PartialEq, Eq, Structural)]
pub struct Date {
    pub year: i32,
    pub month: u32,
    pub day: u32,
}

impl Date {
    pub open spec fn wf(self) -> bool {
        0 <= self.year <= 9999 && valid_ymd(self.year as int, self.month as int, self.day as int)
    }
}

/// A named, priced, categorised product.
#[derive(Debug)]
pub struct Product {
    pub name: String,
    pub price: Price,
    pub product_type: ProductType,
}

/// A product bought in some quantity on some date.
#[derive(Debug)]
pub struct Purchase {
    pub product: Product,
    pub quantity: u32,
    pub date: Date,
}

/// The plain-value form of a purchase.
pub struct PurchaseView {
    pub name: Seq<char>,
    pub cents: int,
    pub product_type: ProductType,
    pub quantity: nat,
    pub date: Date,
}

impl PurchaseView {
    pub open spec fn wf(self) -> bool {
        -MAX_PRICE_CENTS <= self.cents <= MAX_PRICE_CENTS && self.quantity <= u32::MAX
            && self.date.wf()
    }
}

impl View for Purchase {
    type V = PurchaseView;

    open spec fn view(&self) -> PurchaseView {
        PurchaseView {
            name: self.product.name@,
            cents: self.product.price.cents as int,
            product_type: self.product.product_type,
            quantity: self.quantity as nat,
            date: self.date,
        }
    }
}

/// What trimming surrounding whitespace leaves of a text.
pub uninterp spec fn trimmed(s: Seq<char>) -> Seq<char>;

/// The lowercase form of a text.
pub uninterp spec fn lowercased(s: Seq<char>) -> Seq<char>;

/// Relies on `str::trim`: the text without leading and trailing whitespace,
/// which depends on the characters alone.
#[verifier::external_body]
pub(crate) fn trim_text(s: &str) -> (r: &str)
    ensures
        r@ == trimmed(s@),
{
    s.trim()
}

/// Relies on `str::to_lowercase`: the lowercase form of the text, which depends
/// on the characters alone.
#[verifier::external_body]
pub(crate) fn lowercase_text(s: &str) -> (r: String)
    ensures
        r@ == lowercased(s@),
{
    s.to_lowercase()
}

/// The stored form of a product name: trimmed, then lower-cased.
pub open spec fn normalized_name(s: Seq<char>) -> Seq<char> {
    lowercased(trimmed(s))
}

impl Product {
    /// Builds a product; the name is trimmed and lower-cased, the rest kept.
    pub fn new(name: String, price: Price, product_type: ProductType) -> (r: Product)
        ensures
            r.name@ == normalized_name(name@),
            r.price == price,
            r.product_type == product_type,
    {
        let name = lowercase_text(trim_text(name.as_str()));
        Product { name, price, product_type }
    }
}

impl Purchase {
    /// Puts a product, a quantity and a date together.
    pub fn new(product: Product, quantity: u32, date: Date) -> (r: Purchase)
        ensures
            r.product == product,
            r.quantity == quantity,
            r.date == date,
    {
        Purchase { product, quantity, date }
    }

    pub open spec fn wf(&self) -> bool {
        self.product.price.wf() && self.date.wf()
    }

    /// What a purchase cost: price times quantity, in cents.
    pub open spec fn spec_value(&self) -> int {
        self.product.price.cents * self.quantity
    }

    /// Price times quantity, in cents.
    pub fn value(&self) -> (r: i64)
        requires
            self.product.price.wf(),
        ensures
            r == self.spec_value(),
            r == self.product.price.cents * self.quantity,
            self.quantity == 0 ==> r == 0,
    {
        proof {
            lemma_value_bounds(self.product.price.cents as int, self.quantity as int);
        }
        self.product.price.cents * (self.quantity as i64)
    }
}

/// The cost of a purchase fits well inside 64 bits.
pub proof fn lemma_value_bounds(c: int, q: int)
    requires
        -MAX_PRICE_CENTS <= c <= MAX_PRICE_CENTS,
        0 <= q <= u32::MAX,
    ensures
        -MAX_PRICE_CENTS * u32::MAX <= c * q <= MAX_PRICE_CENTS * u32::MAX,
{
    if c >= 0 {
        assert(c * q <= MAX_PRICE_CENTS * u32::MAX) by (nonlinear_arith)
            requires
                0 <= c <= MAX_PRICE_CENTS,
                0 <= q <= u32::MAX,
        ;
        assert(c * q >= 0) by (nonlinear_arith)
            requires
                0 <= c,
                0 <= q,
        ;
    } else {
        assert(c * q >= -MAX_PRICE_CENTS * u32::MAX) by (nonlinear_arith)
            requires
                -MAX_PRICE_CENTS <= c < 0,
                0 <= q <= u32::MAX,
        ;
        assert(c * q <= 0) by (nonlinear_arith)
            requires
                c < 0,
                0 <= q,
        ;
    }
}

} // verus!
