//! The closed set of purchase categories and their canonical names.
use vstd::prelude::*;
use crate::text::text_eq;

verus! {

/// What a purchase is for.
#[derive(Debug, Clone, Copy, PartialEq, Eq, Structural)]
pub enum ProductType {
    Food,
    Culture,
    Technology,
    Education,
    Travel,
    Presents,
    Style,
    Other,
}

/// The canonical lowercase name of a category.
pub open spec fn category_name(t: ProductType) -> Seq<char> {
    match t {
        ProductType::Food => seq!['f', 'o', 'o', 'd'],
        ProductType::Culture => seq!['c', 'u', 'l', 't', 'u', 'r', 'e'],
        ProductType::Technology => seq!['t', 'e', 'c', 'h', 'n', 'o', 'l', 'o', 'g', 'y'],
        ProductType::Education => seq!['e', 'd', 'u', 'c', 'a', 't', 'i', 'o', 'n'],
        ProductType::Travel => seq!['t', 'r', 'a', 'v', 'e', 'l'],
        ProductType::Presents => seq!['p', 'r', 'e', 's', 'e', 'n', 't', 's'],
        ProductType::Style => seq!['s', 't', 'y', 'l', 'e'],
        ProductType::Other => seq!['o', 't', 'h', 'e', 'r'],
    }
}

/// The category that a text names: one of the seven named categories when
/// the text is exactly its canonical name, `Other` for any other text.
pub open spec fn type_of_text(s: Seq<char>) -> ProductType {
    if s == category_name(ProductType::Food) {
        ProductType::Food
    } else if s == category_name(ProductType::Culture) {
        ProductType::Culture
    } else if s == category_name(ProductType::Technology) {
        ProductType::Technology
    } else if s == category_name(ProductType::Education) {
        ProductType::Education
    } else if s == category_name(ProductType::Travel) {
        ProductType::Travel
    } else if s == category_name(ProductType::Presents) {
        ProductType::Presents
    } else if s == category_name(ProductType::Style) {
        ProductType::Style
    } else {
        ProductType::Other
    }
}

/// Whether a text is the canonical name of one of the seven named categories.
pub open spec fn is_named_type(s: Seq<char>) -> bool {
    exists|t: ProductType| t != ProductType::Other && s == category_name(t)
}

/// Position of a category in the fixed report order.
pub open spec fn type_rank(t: ProductType) -> int {
    match t {
        ProductType::Food => 0,
        ProductType::Culture => 1,
        ProductType::Technology => 2,
        ProductType::Education => 3,
        ProductType::Travel => 4,
        ProductType::Presents => 5,
        ProductType::Style => 6,
        ProductType::Other => 7,
    }
}

/// The category at a position of the fixed report order.
pub open spec fn type_at(i: int) -> ProductType {
    if i == 0 {
        ProductType::Food
    } else if i == 1 {
        ProductType::Culture
    } else if i == 2 {
        ProductType::Technology
    } else if i == 3 {
        ProductType::Education
    } else if i == 4 {
        ProductType::Travel
    } else if i == 5 {
        ProductType::Presents
    } else if i == 6 {
        ProductType::Style
    } else {
        ProductType::Other
    }
}

impl ProductType {
    /// Maps a text to its category; unknown text becomes `Other`.
    pub fn from_string(product_type: &str) -> (r: ProductType)
        ensures
            r == type_of_text(product_type@),
    {
        proof {
            reveal_strlit("food");
            reveal_strlit("culture");
            reveal_strlit("technology");
            reveal_strlit("education");
            reveal_strlit("travel");
            reveal_strlit("presents");
            reveal_strlit("style");
        }
        if text_eq(product_type, "food") {
            assert("food"@ =~= category_name(ProductType::Food));
            ProductType::Food
        } else if text_eq(product_type, "culture") {
            assert("culture"@ =~= category_name(ProductType::Culture));
            assert("food"@ =~= category_name(ProductType::Food));
            ProductType::Culture
        } else if text_eq(product_type, "technology") {
            assert("technology"@ =~= category_name(ProductType::Technology));
            assert("food"@ =~= category_name(ProductType::Food));
            assert("culture"@ =~= category_name(ProductType::Culture));
            ProductType::Technology
        } else if text_eq(product_type, "education") {
            assert("education"@ =~= category_name(ProductType::Education));
            assert("food"@ =~= category_name(ProductType::Food));
            assert("culture"@ =~= category_name(ProductType::Culture));
            assert("technology"@ =~= category_name(ProductType::Technology));
            ProductType::Education
        } else if text_eq(product_type, "travel") {
            assert("travel"@ =~= category_name(ProductType::Travel));
            assert("food"@ =~= category_name(ProductType::Food));
            assert("culture"@ =~= category_name(ProductType::Culture));
            assert("technology"@ =~= category_name(ProductType::Technology));
            assert("education"@ =~= category_name(ProductType::Education));
            ProductType::Travel
        } else if text_eq(product_type, "presents") {
            assert("presents"@ =~= category_name(ProductType::Presents));
            assert("food"@ =~= category_name(ProductType::Food));
            assert("culture"@ =~= category_name(ProductType::Culture));
            assert("technology"@ =~= category_name(ProductType::Technology));
            assert("education"@ =~= category_name(ProductType::Education));
            assert("travel"@ =~= category_name(ProductType::Travel));
            ProductType::Presents
        } else if text_eq(product_type, "style") {
            assert("style"@ =~= category_name(ProductType::Style));
            assert("food"@ =~= category_name(ProductType::Food));
            assert("culture"@ =~= category_name(ProductType::Culture));
            assert("technology"@ =~= category_name(ProductType::Technology));
            assert("education"@ =~= category_name(ProductType::Education));
            assert("travel"@ =~= category_name(ProductType::Travel));
            assert("presents"@ =~= category_name(ProductType::Presents));
            ProductType::Style
        } else {
            assert("food"@ =~= category_name(ProductType::Food));
            assert("culture"@ =~= category_name(ProductType::Culture));
            assert("technology"@ =~= category_name(ProductType::Technology));
            assert("education"@ =~= category_name(ProductType::Education));
            assert("travel"@ =~= category_name(ProductType::Travel));
            assert("presents"@ =~= category_name(ProductType::Presents));
            assert("style"@ =~= category_name(ProductType::Style));
            ProductType::Other
        }
    }

    /// The canonical lowercase name of this category.
    pub fn to_string(&self) -> (r: String)
        ensures
            r@ == category_name(*self),
    {
        let s = match self {
            ProductType::Food => "food",
            ProductType::Culture => "culture",
            ProductType::Technology => "technology",
            ProductType::Education => "education",
            ProductType::Travel => "travel",
            ProductType::Presents => "presents",
            ProductType::Style => "style",
            ProductType::Other => "other",
        };
        proof {
            reveal_strlit("food");
            reveal_strlit("culture");
            reveal_strlit("technology");
            reveal_strlit("education");
            reveal_strlit("travel");
            reveal_strlit("presents");
            reveal_strlit("style");
            reveal_strlit("other");
            assert(s@ =~= category_name(*self));
        }
        String::from_str(s)
    }
}

/// Formatting a category and reading the text back gives the same category.
pub proof fn lemma_name_round_trip(t: ProductType)
    ensures
        type_of_text(category_name(t)) == t,
{
    assert(category_name(ProductType::Food) != category_name(ProductType::Culture));
    assert(category_name(ProductType::Food) != category_name(ProductType::Technology));
    assert(category_name(ProductType::Food) != category_name(ProductType::Education));
    assert(category_name(ProductType::Food) != category_name(ProductType::Travel));
    assert(category_name(ProductType::Food) != category_name(ProductType::Presents));
    assert(category_name(ProductType::Food) != category_name(ProductType::Style));
    assert(category_name(ProductType::Food) != category_name(ProductType::Other));
    assert(category_name(ProductType::Culture) != category_name(ProductType::Technology));
    assert(category_name(ProductType::Culture) != category_name(ProductType::Education));
    assert(category_name(ProductType::Culture) != category_name(ProductType::Travel));
    assert(category_name(ProductType::Culture) != category_name(ProductType::Presents));
    assert(category_name(ProductType::Culture) != category_name(ProductType::Style));
    assert(category_name(ProductType::Culture) != category_name(ProductType::Other));
    assert(category_name(ProductType::Technology) != category_name(ProductType::Education));
    assert(category_name(ProductType::Technology) != category_name(ProductType::Travel));
    assert(category_name(ProductType::Technology) != category_name(ProductType::Presents));
    assert(category_name(ProductType::Technology) != category_name(ProductType::Style));
    assert(category_name(ProductType::Technology) != category_name(ProductType::Other));
    assert(category_name(ProductType::Education) != category_name(ProductType::Travel));
    assert(category_name(ProductType::Education) != category_name(ProductType::Presents));
    assert(category_name(ProductType::Education) != category_name(ProductType::Style));
    assert(category_name(ProductType::Education) != category_name(ProductType::Other));
    assert(category_name(ProductType::Travel) != category_name(ProductType::Presents));
    assert(category_name(ProductType::Travel) != category_name(ProductType::Style));
    assert(category_name(ProductType::Travel) != category_name(ProductType::Other));
    assert(category_name(ProductType::Presents) != category_name(ProductType::Style));
    assert(category_name(ProductType::Presents) != category_name(ProductType::Other));
    assert(category_name(ProductType::Style) != category_name(ProductType::Other));
}

/// Any text that is not the canonical name of a named category reads as `Other`.
pub proof fn lemma_unknown_is_other(s: Seq<char>)
    requires
        !is_named_type(s),
    ensures
        type_of_text(s) == ProductType::Other,
{
    if s == category_name(ProductType::Food) {
        assert(is_named_type(s));
    } else if s == category_name(ProductType::Culture) {
        assert(is_named_type(s));
    } else if s == category_name(ProductType::Technology) {
        assert(is_named_type(s));
    } else if s == category_name(ProductType::Education) {
        assert(is_named_type(s));
    } else if s == category_name(ProductType::Travel) {
        assert(is_named_type(s));
    } else if s == category_name(ProductType::Presents) {
        assert(is_named_type(s));
    } else if s == category_name(ProductType::Style) {
        assert(is_named_type(s));
    }
}

} // verus!
