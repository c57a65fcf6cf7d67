//! The decisions of the interactive entry of purchases: one answer at a time,
//! what to keep, what to ask again, and when a purchase is complete.
use vstd::prelude::*;
use vstd::string::*;
use crate::category::{type_of_text, ProductType};
use crate::format::{date_of_text, parse_date, parse_price, parse_quantity, price_of_text, quantity_of_text};
use crate::purchase::{
    lowercase_text, lowercased, normalized_name, trim_text, trimmed, Price, Product, Purchase,
};
use crate::text::text_eq;

verus! {

/// The question that the next answer replies to.
#[derive(Debug, Clone, Copy, PartialEq, Eq, Structural)]
pub enum Stage {
    Name,
    Price,
    Category,
    Quantity,
    Date,
    Another,
    Done,
}

/// What the entry loop does after an answer.
#[derive(Debug)]
pub enum Outcome {
    /// Ask the next question.
    Next,
    /// The answer could not be read: say so and ask the same question again.
    Retry,
    /// A purchase is complete: store it, then ask whether to add another.
    Record(Purchase),
    /// The user is done.
    Finished,
}

/// The answers given so far for the purchase being entered.
#[derive(Debug)]
pub struct Session {
    pub stage: Stage,
    pub name: String,
    pub price: Price,
    pub product_type: ProductType,
    pub quantity: u32,
}

impl Session {
    /// A session that asks for a product name first.
    pub fn new() -> (r: Session)
        ensures
            r.stage == Stage::Name,
            r.name@ == Seq::<char>::empty(),
            r.price == (Price { cents: 0 }),
            r.product_type == ProductType::Other,
            r.quantity == 0,
    {
        Session {
            stage: Stage::Name,
            name: String::new(),
            price: Price { cents: 0 },
            product_type: ProductType::Other,
            quantity: 0,
        }
    }

    /// Takes one answer line for the current question. Price, quantity and
    /// date are asked again until they can be read; any category text is
    /// taken; a new purchase is asked for only after exactly `y`.
    pub fn accept(&mut self, line: &str) -> (r: Outcome)
        requires
            old(self).price.wf(),
        ensures
            final(self).price.wf(),
            ({
                let t = trimmed(line@);
                match old(self).stage {
                    Stage::Name => r is Next && final(self).stage == Stage::Price
                        && final(self).name@ == lowercased(t) && final(self).price == old(self).price,
                    Stage::Price => match price_of_text(t) {
                        None => r is Retry && final(self).stage == Stage::Price && final(self).name@ == old(self).name@,
                        Some(c) => r is Next && final(self).stage == Stage::Category
                            && final(self).price.cents == c && final(self).name@ == old(self).name@,
                    },
                    Stage::Category => r is Next && final(self).stage == Stage::Quantity
                        && final(self).product_type == type_of_text(t) && final(self).name@ == old(self).name@
                        && final(self).price == old(self).price,
                    Stage::Quantity => final(self).name@ == old(self).name@ && final(self).price == old(self).price
                        && final(self).product_type == old(self).product_type
                        && match quantity_of_text(t) {
                        None => r is Retry && final(self).stage == Stage::Quantity,
                        Some(q) => r is Next && final(self).stage == Stage::Date && final(self).quantity == q,
                    },
                    Stage::Date => match date_of_text(t) {
                        None => r is Retry && final(self).stage == Stage::Date,
                        Some(d) => final(self).stage == Stage::Another && (r matches Outcome::Record(p) && p.wf()
                            && p.product.name@ == normalized_name(old(self).name@)
                            && p.product.price == old(self).price
                            && p.product.product_type == old(self).product_type
                            && p.quantity == old(self).quantity && p.date == d),
                    },
                    Stage::Another => if t == seq!['y'] {
                        r is Next && final(self).stage == Stage::Name
                    } else {
                        r is Finished && final(self).stage == Stage::Done
                    },
                    Stage::Done => r is Finished && final(self).stage == Stage::Done,
                }
            }),
    {
        let t = trim_text(line);
        match self.stage {
            Stage::Name => {
                self.name = lowercase_text(t);
                self.stage = Stage::Price;
                Outcome::Next
            },
            Stage::Price => match parse_price(t) {
                None => Outcome::Retry,
                Some(p) => {
                    self.price = p;
                    self.stage = Stage::Category;
                    Outcome::Next
                },
            },
            Stage::Category => {
                self.product_type = ProductType::from_string(t);
                self.stage = Stage::Quantity;
                Outcome::Next
            },
            Stage::Quantity => match parse_quantity(t) {
                None => Outcome::Retry,
                Some(q) => {
                    self.quantity = q;
                    self.stage = Stage::Date;
                    Outcome::Next
                },
            },
            Stage::Date => match parse_date(t) {
                None => Outcome::Retry,
                Some(d) => {
                    let product = Product::new(self.name.clone(), self.price, self.product_type);
                    self.stage = Stage::Another;
                    Outcome::Record(Purchase::new(product, self.quantity, d))
                },
            },
            Stage::Another => {
                proof {
                    reveal_strlit("y");
                    assert("y"@ =~= seq!['y']);
                }
                if text_eq(t, "y") {
                    self.stage = Stage::Name;
                    Outcome::Next
                } else {
                    self.stage = Stage::Done;
                    Outcome::Finished
                }
            },
            Stage::Done => Outcome::Finished,
        }
    }
}

} // verus!
