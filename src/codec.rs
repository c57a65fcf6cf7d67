//! The one-line text form of a purchase, and the store file made of such lines.
use vstd::prelude::*;
use vstd::string::*;
use crate::category::{category_name, type_of_text, lemma_name_round_trip, ProductType};
use crate::format::{
    amount_text, date_of_text, iso_day, iso_month, iso_text, iso_year, is_iso_date_text,
    lemma_iso_round_trip, lemma_price_round_trip, lemma_quantity_round_trip, parse_date,
    parse_price, parse_quantity, price_of_text, push_amount, push_date, quantity_of_text,
};
use crate::purchase::{Date, Product, Purchase, PurchaseView};
use crate::text::{all_digits, find_char, index_of, is_digit, lemma_index_of, nat_text, push_nat};

verus! {

/// Whether the field separator `", "` starts at position `i`.
pub open spec fn sep_at(s: Seq<char>, i: int) -> bool {
    0 <= i && i + 1 < s.len() && s[i] == ',' && s[i + 1] == ' '
}

/// Whether a text holds the field separator.
pub open spec fn contains_sep(s: Seq<char>) -> bool {
    exists|i: int| sep_at(s, i)
}

/// Position of the first field separator, or -1.
pub open spec fn first_sep(s: Seq<char>) -> int
    decreases s.len(),
{
    if s.len() < 2 {
        -1
    } else if s[0] == ',' && s[1] == ' ' {
        0
    } else {
        let r = first_sep(s.drop_first());
        if r < 0 {
            -1
        } else {
            r + 1
        }
    }
}

/// The pieces of a text between field separators, in order.
pub open spec fn fields_of(s: Seq<char>) -> Seq<Seq<char>>
    decreases s.len(),
{
    let k = first_sep(s);
    if k < 0 || k + 2 > s.len() {
        seq![s]
    } else {
        seq![s.take(k)] + fields_of(s.skip(k + 2))
    }
}

/// `first_sep` finds the first separator, and -1 means there is none.
pub proof fn lemma_first_sep(s: Seq<char>)
    ensures
        -1 <= first_sep(s) && first_sep(s) + 2 <= s.len() + 1,
        first_sep(s) >= 0 ==> sep_at(s, first_sep(s)),
        forall|j: int| (first_sep(s) < 0 || j < first_sep(s)) ==> !sep_at(s, j),
    decreases s.len(),
{
    if s.len() >= 2 && !(s[0] == ',' && s[1] == ' ') {
        let t = s.drop_first();
        lemma_first_sep(t);
        assert forall|j: int| (first_sep(s) < 0 || j < first_sep(s)) implies !sep_at(s, j) by {
            if j > 0 && sep_at(s, j) {
                assert(sep_at(t, j - 1));
            }
        }
    }
}

/// Any separator with none before it is what `first_sep` finds.
pub proof fn lemma_first_sep_at(s: Seq<char>, k: int)
    requires
        k == -1 || sep_at(s, k),
        forall|j: int| (k < 0 || j < k) ==> !sep_at(s, j),
    ensures
        first_sep(s) == k,
{
    lemma_first_sep(s);
    let f = first_sep(s);
    if f >= 0 && (k < 0 || f < k) {
        assert(!sep_at(s, f));
    }
    if k >= 0 && (f < 0 || k < f) {
        assert(!sep_at(s, k));
    }
}

/// A text without the separator, then the separator, then anything: the
/// first field is that text.
pub proof fn lemma_fields_concat(a: Seq<char>, b: Seq<char>)
    requires
        !contains_sep(a),
    ensures
        fields_of(a + seq![',', ' '] + b) == seq![a] + fields_of(b),
{
    let s = a + seq![',', ' '] + b;
    assert forall|j: int| j < a.len() implies !sep_at(s, j) by {
        if sep_at(s, j) && j + 1 < a.len() {
            assert(sep_at(a, j));
        }
    }
    assert(sep_at(s, a.len() as int));
    lemma_first_sep_at(s, a.len() as int);
    assert(s.take(a.len() as int) =~= a);
    assert(s.skip(a.len() as int + 2) =~= b);
}

/// A text without the separator is a single field.
pub proof fn lemma_fields_single(a: Seq<char>)
    requires
        !contains_sep(a),
    ensures
        fields_of(a) == seq![a],
{
    lemma_first_sep_at(a, -1);
}

/// A text without a comma holds no separator.
pub proof fn lemma_no_comma(s: Seq<char>)
    requires
        forall|i: int| 0 <= i < s.len() ==> s[i] != ',',
    ensures
        !contains_sep(s),
{
    if contains_sep(s) {
        let i = choose|i: int| sep_at(s, i);
        assert(s[i] == ',');
    }
}

/// Splits off the first field, when the text holds a separator.
pub fn split_first(s: &str) -> (r: Option<(&str, &str)>)
    ensures
        r is None ==> first_sep(s@) == -1 && fields_of(s@) == seq![s@],
        r matches Some((a, b)) ==> fields_of(s@) == seq![a@] + fields_of(b@),
{
    let n = s.unicode_len();
    let mut i: usize = 0;
    while i < n && i + 1 < n
        invariant
            n == s@.len(),
            i <= n,
            forall|j: int| j < i ==> !sep_at(s@, j),
        decreases n - i,
    {
        if s.get_char(i) == ',' && s.get_char(i + 1) == ' ' {
            proof {
                lemma_first_sep_at(s@, i as int);
            }
            let a = s.substring_char(0, i);
            let b = s.substring_char(i + 2, n);
            return Some((a, b));
        }
        i = i + 1;
    }
    proof {
        lemma_first_sep_at(s@, -1);
    }
    None
}

/// The text of a stored purchase: name, price, category, quantity and date,
/// joined by `", "`.
pub open spec fn encode_spec(p: PurchaseView) -> Seq<char> {
    let sep = seq![',', ' '];
    p.name + sep + amount_text(p.cents) + sep + category_name(p.product_type) + sep
        + nat_text(p.quantity) + sep + iso_text(p.date)
}

/// Why a stored line with five fields could not be read.
#[derive(Debug, Clone, Copy, PartialEq, Eq, Structural)]
pub enum DecodeError {
    InvalidPrice,
    InvalidQuantity,
    InvalidDate,
}

/// What a stored line holds: nothing when it has fewer than five fields, an
/// error when its price, quantity or date (checked in that order) cannot be
/// read, else the purchase. Fields past the fifth are ignored.
pub open spec fn decode_spec(line: Seq<char>) -> Result<Option<PurchaseView>, DecodeError> {
    let f = fields_of(line);
    if f.len() < 5 {
        Ok(None)
    } else {
        match price_of_text(f[1]) {
            None => Err(DecodeError::InvalidPrice),
            Some(c) => match quantity_of_text(f[3]) {
                None => Err(DecodeError::InvalidQuantity),
                Some(q) => match date_of_text(f[4]) {
                    None => Err(DecodeError::InvalidDate),
                    Some(d) => Ok(
                        Some(
                            PurchaseView {
                                name: f[0],
                                cents: c,
                                product_type: type_of_text(f[2]),
                                quantity: q,
                                date: d,
                            },
                        ),
                    ),
                },
            },
        }
    }
}

/// The plain-value form of a decoding result.
pub open spec fn decoded_view(r: Result<Option<Purchase>, DecodeError>) -> Result<Option<PurchaseView>, DecodeError> {
    match r {
        Ok(Some(p)) => Ok(Some(p@)),
        Ok(None) => Ok(None),
        Err(e) => Err(e),
    }
}

proof fn lemma_amount_no_sep(c: int)
    ensures
        !contains_sep(amount_text(c)),
{
    let pt = amount_text(c);
    let a = if c < 0 { -c } else { c };
    crate::text::lemma_nat_text((a / 100) as nat);
    assert forall|i: int| 0 <= i < pt.len() implies pt[i] != ',' by {
        let it = nat_text((a / 100) as nat);
        assert(all_digits(it));
    }
    lemma_no_comma(pt);
}

proof fn lemma_quantity_no_sep(q: nat)
    ensures
        !contains_sep(nat_text(q)),
{
    let qt = nat_text(q);
    crate::text::lemma_nat_text(q);
    assert forall|i: int| 0 <= i < qt.len() implies qt[i] != ',' by {
        assert(is_digit(qt[i]));
    }
    lemma_no_comma(qt);
}

proof fn lemma_small_no_sep(t: ProductType, d: Date)
    requires
        d.wf(),
    ensures
        !contains_sep(category_name(t)),
        !contains_sep(iso_text(d)),
{
    lemma_iso_round_trip(d);
    lemma_no_comma(category_name(t));
    lemma_no_comma(iso_text(d));
}

/// The text of a purchase is its five fields, each of which reads back.
pub proof fn lemma_encoding_fields(p: PurchaseView)
    requires
        p.wf(),
        !contains_sep(p.name),
    ensures
        fields_of(encode_spec(p)) == seq![
            p.name,
            amount_text(p.cents),
            category_name(p.product_type),
            nat_text(p.quantity),
            iso_text(p.date),
        ],
        price_of_text(amount_text(p.cents)) == Some(p.cents),
        quantity_of_text(nat_text(p.quantity)) == Some(p.quantity),
        type_of_text(category_name(p.product_type)) == p.product_type,
        is_iso_date_text(iso_text(p.date)),
        iso_year(iso_text(p.date)) == p.date.year,
        iso_month(iso_text(p.date)) == p.date.month,
        iso_day(iso_text(p.date)) == p.date.day,
{
    let sep = seq![',', ' '];
    let pt = amount_text(p.cents);
    let ct = category_name(p.product_type);
    let qt = nat_text(p.quantity);
    let dt = iso_text(p.date);
    lemma_price_round_trip(p.cents);
    lemma_quantity_round_trip(p.quantity);
    lemma_iso_round_trip(p.date);
    lemma_name_round_trip(p.product_type);
    lemma_amount_no_sep(p.cents);
    lemma_quantity_no_sep(p.quantity);
    lemma_small_no_sep(p.product_type, p.date);
    lemma_fields_single(dt);
    lemma_fields_concat(qt, dt);
    lemma_fields_concat(ct, qt + sep + dt);
    lemma_fields_concat(pt, ct + sep + (qt + sep + dt));
    lemma_fields_concat(p.name, pt + sep + (ct + sep + (qt + sep + dt)));
    assert(encode_spec(p) =~= p.name + sep + (pt + sep + (ct + sep + (qt + sep + dt))));
    assert(seq![p.name] + (seq![pt] + (seq![ct] + (seq![qt] + seq![dt]))) =~= seq![p.name, pt, ct, qt, dt]);
}

} // verus!

verus! {

fn decode_fields(line: &str) -> (r: Result<Option<Purchase>, DecodeError>)
    ensures
        decoded_view(r) == decode_spec(line@),
        r matches Ok(Some(p)) ==> p.wf(),
        ({
            let f = fields_of(line@);
            f.len() >= 5 && price_of_text(f[1]) is Some && quantity_of_text(f[3]) is Some
                && is_iso_date_text(f[4]) ==> date_of_text(f[4]) == Some(
                Date { year: iso_year(f[4]) as i32, month: iso_month(f[4]) as u32, day: iso_day(f[4]) as u32 },
            )
        }),
{
    let (name, r1) = match split_first(line) {
        None => return Ok(None),
        Some(p) => p,
    };
    let (price, r2) = match split_first(r1) {
        None => return Ok(None),
        Some(p) => p,
    };
    let (category, r3) = match split_first(r2) {
        None => return Ok(None),
        Some(p) => p,
    };
    let (quantity, r4) = match split_first(r3) {
        None => return Ok(None),
        Some(p) => p,
    };
    let date = match split_first(r4) {
        None => r4,
        Some((d, _)) => d,
    };
    let ghost f = fields_of(line@);
    assert(f[0] == name@ && f[1] == price@ && f[2] == category@ && f[3] == quantity@ && f[4] == date@);
    let price = match parse_price(price) {
        None => return Err(DecodeError::InvalidPrice),
        Some(p) => p,
    };
    let quantity = match parse_quantity(quantity) {
        None => return Err(DecodeError::InvalidQuantity),
        Some(q) => q,
    };
    let date = match parse_date(date) {
        None => return Err(DecodeError::InvalidDate),
        Some(d) => d,
    };
    let product = Product {
        name: String::from_str(name),
        price,
        product_type: ProductType::from_string(category),
    };
    Ok(Some(Purchase { product, quantity, date }))
}

/// Reads one stored line: `Ok(None)` when it has fewer than five fields (the
/// line is skipped), an error when a five-field line holds a bad price,
/// quantity or date. The text of a valid purchase whose name holds no `", "`
/// reads back as that purchase.
pub fn decode_line(line: &str) -> (r: Result<Option<Purchase>, DecodeError>)
    ensures
        decoded_view(r) == decode_spec(line@),
        r matches Ok(Some(p)) ==> p.wf(),
        forall|p: PurchaseView|
            #![trigger encode_spec(p)]
            p.wf() && !contains_sep(p.name) && encode_spec(p) == line@ ==> decoded_view(r) == Ok::<
                Option<PurchaseView>,
                DecodeError,
            >(Some(p)),
{
    let r = decode_fields(line);
    proof {
        assert forall|p: PurchaseView|
            #![trigger encode_spec(p)]
            p.wf() && !contains_sep(p.name) && encode_spec(p) == line@ implies decoded_view(r) == Ok::<
                Option<PurchaseView>,
                DecodeError,
            >(Some(p)) by {
            lemma_encoding_fields(p);
        }
    }
    r
}

/// Writes the stored line of a purchase.
pub fn encode_line(p: &Purchase) -> (r: String)
    requires
        p.wf(),
    ensures
        r@ == encode_spec(p@),
{
    proof {
        reveal_strlit(", ");
    }
    let mut out = String::new();
    out.append(p.product.name.as_str());
    out.append(", ");
    push_amount(&mut out, p.product.price.cents as i128);
    out.append(", ");
    let t = p.product.product_type.to_string();
    out.append(t.as_str());
    out.append(", ");
    push_nat(&mut out, p.quantity as u128);
    out.append(", ");
    push_date(&mut out, p.date);
    assert(out@ =~= encode_spec(p@));
    out
}

} // verus!

verus! {

/// A line without the carriage return that may end it.
pub open spec fn strip_cr(l: Seq<char>) -> Seq<char> {
    if l.len() > 0 && l.last() == '\r' {
        l.drop_last()
    } else {
        l
    }
}

/// The lines of a text: split at each `\n`, a `\r` before it dropped, and no
/// empty last line after a final `\n`.
pub open spec fn lines_of(s: Seq<char>) -> Seq<Seq<char>>
    decreases s.len(),
{
    if s.len() == 0 {
        seq![]
    } else {
        let k = index_of(s, '\n');
        if k < 0 || k >= s.len() {
            seq![s]
        } else {
            seq![strip_cr(s.take(k))] + lines_of(s.skip(k + 1))
        }
    }
}

/// The purchases that a sequence of stored lines holds, in order; lines with
/// fewer than five fields are skipped, and the first bad line is the error.
pub open spec fn load_lines(ls: Seq<Seq<char>>) -> Result<Seq<PurchaseView>, DecodeError>
    decreases ls.len(),
{
    if ls.len() == 0 {
        Ok(seq![])
    } else {
        match decode_spec(ls[0]) {
            Err(e) => Err(e),
            Ok(None) => load_lines(ls.drop_first()),
            Ok(Some(p)) => match load_lines(ls.drop_first()) {
                Ok(ps) => Ok(seq![p] + ps),
                Err(e) => Err(e),
            },
        }
    }
}

/// The purchases that the text of a store file holds.
pub open spec fn load_spec(s: Seq<char>) -> Result<Seq<PurchaseView>, DecodeError> {
    load_lines(lines_of(s))
}

pub open spec fn prefixed(v: Seq<PurchaseView>, r: Result<Seq<PurchaseView>, DecodeError>) -> Result<Seq<PurchaseView>, DecodeError> {
    match r {
        Ok(ps) => Ok(v + ps),
        Err(e) => Err(e),
    }
}

pub open spec fn views(v: Seq<Purchase>) -> Seq<PurchaseView> {
    v.map_values(|p: Purchase| p@)
}

/// Reads every purchase of a store file's text, in order. Lines with fewer
/// than five fields are skipped; a five-field line with a bad price, quantity
/// or date fails the whole read.
pub fn load_all(contents: &str) -> (r: Result<Vec<Purchase>, DecodeError>)
    ensures
        r matches Ok(v) ==> load_spec(contents@) == Ok::<Seq<PurchaseView>, DecodeError>(views(v@)),
        r matches Ok(v) ==> forall|i: int| 0 <= i < v@.len() ==> (#[trigger] v@[i]).wf(),
        r matches Err(e) ==> load_spec(contents@) == Err::<Seq<PurchaseView>, DecodeError>(e),
{
    let mut out: Vec<Purchase> = Vec::new();
    let mut rest: &str = contents;
    let mut n = rest.unicode_len();
    assert(views(out@) =~= Seq::<PurchaseView>::empty());
    assert(prefixed(views(out@), load_spec(rest@)) == load_spec(contents@));
    while n > 0
        invariant
            n == rest@.len(),
            prefixed(views(out@), load_spec(rest@)) == load_spec(contents@),
            forall|i: int| 0 <= i < out@.len() ==> (#[trigger] out@[i]).wf(),
        decreases n,
    {
        let k = find_char(rest, '\n');
        proof {
            lemma_index_of(rest@, '\n');
        }
        let (line, next) = match k {
            Some(k) => {
                let l = rest.substring_char(0, k);
                let l = if k > 0 && l.get_char(k - 1) == '\r' {
                    l.substring_char(0, k - 1)
                } else {
                    l
                };
                (l, rest.substring_char(k + 1, n))
            },
            None => (rest, rest.substring_char(n, n)),
        };
        proof {
            if k is None {
                assert(next@ =~= Seq::<char>::empty());
                assert(lines_of(next@) =~= Seq::<Seq<char>>::empty());
                assert(lines_of(rest@) =~= seq![line@]);
            } else {
                assert(line@ =~= strip_cr(rest@.take(k->0 as int)));
            }
            assert(lines_of(rest@) =~= seq![line@] + lines_of(next@));
            assert(lines_of(rest@).drop_first() =~= lines_of(next@));
        }
        match decode_line(line) {
            Err(e) => {
                return Err(e);
            },
            Ok(None) => {},
            Ok(Some(p)) => {
                let ghost old_out = out@;
                out.push(p);
                proof {
                    assert(views(out@) =~= views(old_out) + seq![p@]);
                    match load_spec(next@) {
                        Ok(ps) => {
                            assert(views(old_out) + (seq![p@] + ps) =~= views(out@) + ps);
                        },
                        Err(_) => {},
                    }
                }
            },
        }
        rest = next;
        n = rest.unicode_len();
    }
    assert(lines_of(rest@) =~= Seq::<Seq<char>>::empty());
    assert(views(out@) + Seq::<PurchaseView>::empty() =~= views(out@));
    Ok(out)
}

/// The text of a store file after a purchase is added: its line alone when
/// the file is empty, else the old text, a `\n`, and its line.
pub open spec fn appended_spec(contents: Seq<char>, p: PurchaseView) -> Seq<char> {
    if contents.len() == 0 {
        encode_spec(p)
    } else {
        contents + seq!['\n'] + encode_spec(p)
    }
}

/// Adds the line of a purchase to the text of a store file.
pub fn append_record(contents: &str, p: &Purchase) -> (r: String)
    requires
        p.wf(),
    ensures
        r@ == appended_spec(contents@, p@),
{
    let line = encode_line(p);
    if contents.unicode_len() == 0 {
        line
    } else {
        proof {
            reveal_strlit("\n");
        }
        let mut out = String::from_str(contents);
        out.append("\n");
        out.append(line.as_str());
        out
    }
}

} // verus!
