//! Text forms of the fields of a stored purchase: amounts, quantities, dates.
use vstd::prelude::*;
use vstd::string::*;
use chrono::Datelike;
use crate::purchase::{Date, Price, MAX_PRICE_CENTS, valid_ymd};
use crate::text::{
    all_digits, digit_char, digit_str, digit_value, digits_value, find_char, index_of,
    is_digit, lemma_index_of, lemma_index_of_at, lemma_nat_text, nat_text, parse_digits, push_nat,
};

verus! {

/// The digits after the decimal point of an amount of cents: none for a whole
/// amount, and no trailing zero.
pub open spec fn cents_fraction_text(f: int) -> Seq<char> {
    if f == 0 {
        Seq::empty()
    } else if f % 10 == 0 {
        seq!['.', digit_char(f / 10)]
    } else {
        seq!['.', digit_char(f / 10), digit_char(f % 10)]
    }
}

/// The shortest decimal text of an amount of cents, in currency units
/// (`350` is `3.5`, `1200` is `12`, `-5` is `-0.05`).
pub open spec fn amount_text(c: int) -> Seq<char> {
    let a = if c < 0 { -c } else { c };
    (if c < 0 { seq!['-'] } else { Seq::empty() }) + nat_text((a / 100) as nat)
        + cents_fraction_text(a % 100)
}

/// The cents that an unsigned decimal text stands for: digits, then
/// optionally a point and at most two more digits, at least one digit in all.
pub open spec fn unsigned_cents(t: Seq<char>) -> Option<int> {
    let k = index_of(t, '.');
    let ip = if k < 0 { t } else { t.take(k) };
    let fp = if k < 0 { Seq::empty() } else { t.skip(k + 1) };
    if all_digits(ip) && all_digits(fp) && fp.len() <= 2 && ip.len() + fp.len() >= 1 {
        let c = digits_value(ip) * 100 + digits_value(fp) * (if fp.len() == 1 { 10int } else { 1int });
        if c <= MAX_PRICE_CENTS {
            Some(c)
        } else {
            None
        }
    } else {
        None
    }
}

/// The price in cents that a text stands for: an optional sign, then an
/// unsigned decimal; `None` when the text is no such price or is out of range.
pub open spec fn price_of_text(s: Seq<char>) -> Option<int> {
    if s.len() > 0 && s[0] == '-' {
        match unsigned_cents(s.skip(1)) {
            Some(c) => Some(-c),
            None => None,
        }
    } else if s.len() > 0 && s[0] == '+' {
        unsigned_cents(s.skip(1))
    } else {
        unsigned_cents(s)
    }
}

/// The quantity that a text stands for: an optional `+`, then at least one
/// decimal digit, with a value that fits 32 bits.
pub open spec fn quantity_of_text(s: Seq<char>) -> Option<nat> {
    let t = if s.len() > 0 && s[0] == '+' { s.skip(1) } else { s };
    if t.len() >= 1 && all_digits(t) && digits_value(t) <= u32::MAX {
        Some(digits_value(t) as nat)
    } else {
        None
    }
}

/// The `YYYY-MM-DD` text of a date.
pub open spec fn iso_text(d: Date) -> Seq<char> {
    let y = d.year as int;
    let m = d.month as int;
    let dd = d.day as int;
    seq![
        digit_char(y / 1000), digit_char(y / 100 % 10), digit_char(y / 10 % 10), digit_char(y % 10),
        '-', digit_char(m / 10), digit_char(m % 10), '-', digit_char(dd / 10), digit_char(dd % 10),
    ]
}

pub open spec fn iso_year(s: Seq<char>) -> int {
    digit_value(s[0]) * 1000 + digit_value(s[1]) * 100 + digit_value(s[2]) * 10 + digit_value(s[3])
}

pub open spec fn iso_month(s: Seq<char>) -> int {
    digit_value(s[5]) * 10 + digit_value(s[6])
}

pub open spec fn iso_day(s: Seq<char>) -> int {
    digit_value(s[8]) * 10 + digit_value(s[9])
}

/// Whether a text is exactly `YYYY-MM-DD` with digits, naming a valid date.
pub open spec fn is_iso_date_text(s: Seq<char>) -> bool {
    &&& s.len() == 10
    &&& s[4] == '-' && s[7] == '-'
    &&& is_digit(s[0]) && is_digit(s[1]) && is_digit(s[2]) && is_digit(s[3])
    &&& is_digit(s[5]) && is_digit(s[6]) && is_digit(s[8]) && is_digit(s[9])
    &&& valid_ymd(iso_year(s), iso_month(s), iso_day(s))
}

/// What chrono reads from a text as a calendar date: year, month and day.
pub uninterp spec fn chrono_date_of(s: Seq<char>) -> Option<(int, int, int)>;

/// Relies on chrono's `FromStr for NaiveDate`, which reads the `%Y-%m-%d`
/// format of its `Display`: the result depends on the text alone, a date it
/// returns is a valid calendar date, and a four-digit `YYYY-MM-DD` text of a
/// valid date reads as that date.
#[verifier::external_body]
fn chrono_parse_date(s: &str) -> (r: Option<(i32, u32, u32)>)
    ensures
        r is None ==> chrono_date_of(s@) is None,
        r matches Some((y, m, d)) ==> chrono_date_of(s@) == Some((y as int, m as int, d as int)),
        r matches Some((y, m, d)) ==> valid_ymd(y as int, m as int, d as int),
        is_iso_date_text(s@) ==> r == Some((iso_year(s@) as i32, iso_month(s@) as u32, iso_day(s@) as u32)),
{
    match s.parse::<chrono::NaiveDate>() {
        Ok(d) => Some((d.year(), d.month(), d.day())),
        Err(_) => None,
    }
}

/// The date that a text stands for: what chrono reads, when its year has at
/// most four digits.
pub open spec fn date_of_text(s: Seq<char>) -> Option<Date> {
    match chrono_date_of(s) {
        Some(t) => if 0 <= t.0 <= 9999 && valid_ymd(t.0, t.1, t.2) {
            Some(Date { year: t.0 as i32, month: t.1 as u32, day: t.2 as u32 })
        } else {
            None
        },
        None => None,
    }
}

/// Reads a price such as `3.5`, `-2` or `+0.75`.
pub fn parse_price(s: &str) -> (r: Option<Price>)
    ensures
        r is Some <==> price_of_text(s@) is Some,
        r is Some ==> r->0.cents == price_of_text(s@)->0 && r->0.wf(),
{
    let n = s.unicode_len();
    if n > 0 && s.get_char(0) == '-' {
        let c = parse_unsigned_cents(s.substring_char(1, n));
        match c {
            Some(c) => Some(Price { cents: -c }),
            None => None,
        }
    } else if n > 0 && s.get_char(0) == '+' {
        let c = parse_unsigned_cents(s.substring_char(1, n));
        match c {
            Some(c) => Some(Price { cents: c }),
            None => None,
        }
    } else {
        let c = parse_unsigned_cents(s);
        match c {
            Some(c) => Some(Price { cents: c }),
            None => None,
        }
    }
}

fn parse_unsigned_cents(t: &str) -> (r: Option<i64>)
    ensures
        r is Some <==> unsigned_cents(t@) is Some,
        r is Some ==> r->0 == unsigned_cents(t@)->0 && 0 <= r->0 <= MAX_PRICE_CENTS,
{
    let n = t.unicode_len();
    let k = find_char(t, '.');
    proof {
        lemma_index_of(t@, '.');
    }
    let (ip, fp) = match k {
        Some(k) => (t.substring_char(0, k), t.substring_char(k + 1, n)),
        None => (t, t.substring_char(n, n)),
    };
    proof {
        lemma_index_of(t@, '.');
        if k is None {
            assert(fp@ =~= Seq::<char>::empty());
        }
    }
    let ilen = ip.unicode_len();
    let flen = fp.unicode_len();
    if flen > 2 || ilen + flen < 1 {
        return None;
    }
    let iv = parse_digits(ip, MAX_PRICE_CENTS as u64);
    let fv = parse_digits(fp, MAX_PRICE_CENTS as u64);
    match (iv, fv) {
        (Some(iv), Some(fv)) => {
            let scale: u64 = if flen == 1 { 10 } else { 1 };
            let c = iv * 100 + fv * scale;
            if c <= MAX_PRICE_CENTS as u64 {
                Some(c as i64)
            } else {
                None
            }
        },
        _ => {
            proof {
                if all_digits(ip@) && all_digits(fp@) {
                    crate::text::lemma_digits_nonneg(ip@);
                    crate::text::lemma_digits_nonneg(fp@);
                }
            }
            None
        },
    }
}

/// Reads a quantity: an optional `+` and decimal digits that fit 32 bits.
pub fn parse_quantity(s: &str) -> (r: Option<u32>)
    ensures
        r is Some <==> quantity_of_text(s@) is Some,
        r is Some ==> r->0 == quantity_of_text(s@)->0,
{
    let n = s.unicode_len();
    let t = if n > 0 && s.get_char(0) == '+' {
        s.substring_char(1, n)
    } else {
        s
    };
    if t.unicode_len() == 0 {
        return None;
    }
    match parse_digits(t, u32::MAX as u64) {
        Some(v) => Some(v as u32),
        None => None,
    }
}

/// Reads a `YYYY-MM-DD` date through chrono; years past four digits are refused.
pub fn parse_date(s: &str) -> (r: Option<Date>)
    ensures
        r == date_of_text(s@),
        r is Some ==> r->0.wf(),
        is_iso_date_text(s@) ==> r == Some(
            Date { year: iso_year(s@) as i32, month: iso_month(s@) as u32, day: iso_day(s@) as u32 },
        ),
{
    match chrono_parse_date(s) {
        Some((y, m, d)) => {
            if 0 <= y && y <= 9999 {
                Some(Date { year: y, month: m, day: d })
            } else {
                None
            }
        },
        None => None,
    }
}

} // verus!

verus! {

/// Appends the text of an amount of cents, in currency units.
pub fn push_amount(out: &mut String, c: i128)
    requires
        c > i128::MIN,
    ensures
        final(out)@ == old(out)@ + amount_text(c as int),
{
    let ghost start = out@;
    if c < 0 {
        proof {
            reveal_strlit("-");
        }
        out.append("-");
    }
    let a: u128 = if c < 0 {
        (-c) as u128
    } else {
        c as u128
    };
    push_nat(out, a / 100);
    let f = (a % 100) as u32;
    if f != 0 {
        proof {
            reveal_strlit(".");
        }
        out.append(".");
        out.append(digit_str(f / 10));
        if f % 10 != 0 {
            out.append(digit_str(f % 10));
        }
    }
    assert(out@ =~= start + amount_text(c as int));
}

/// Appends the `YYYY-MM-DD` text of a date.
pub fn push_date(out: &mut String, d: Date)
    requires
        d.wf(),
    ensures
        final(out)@ == old(out)@ + iso_text(d),
{
    let ghost start = out@;
    proof {
        reveal_strlit("-");
    }
    let y = d.year as u32;
    out.append(digit_str(y / 1000));
    out.append(digit_str(y / 100 % 10));
    out.append(digit_str(y / 10 % 10));
    out.append(digit_str(y % 10));
    out.append("-");
    out.append(digit_str(d.month / 10));
    out.append(digit_str(d.month % 10));
    out.append("-");
    out.append(digit_str(d.day / 10));
    out.append(digit_str(d.day % 10));
    assert(out@ =~= start + iso_text(d));
}

proof fn lemma_digit_char(x: int)
    requires
        0 <= x < 10,
    ensures
        is_digit(digit_char(x)),
        digit_value(digit_char(x)) == x,
        digit_char(x) != '.' && digit_char(x) != '-' && digit_char(x) != '+',
        digit_char(x) != ',' && digit_char(x) != ' ' && digit_char(x) != '\n',
{
}

/// The text of a price reads back as that price.
pub proof fn lemma_price_round_trip(c: int)
    requires
        -MAX_PRICE_CENTS <= c <= MAX_PRICE_CENTS,
    ensures
        price_of_text(amount_text(c)) == Some(c),
{
    let a = if c < 0 { -c } else { c };
    let w = (a / 100) as nat;
    let f = a % 100;
    let it = nat_text(w);
    let ft = cents_fraction_text(f);
    let body = it + ft;
    lemma_nat_text(w);
    lemma_digit_char(f / 10);
    lemma_digit_char(f % 10);
    if f == 0 {
        assert forall|j: int| 0 <= j < body.len() implies body[j] != '.' by {
            assert(body[j] == it[j]);
            assert(is_digit(it[j]));
        }
        lemma_index_of_at(body, '.', -1);
        assert(body =~= it);
        assert(unsigned_cents(body) == Some(w * 100 + digits_value(Seq::<char>::empty()) * 1));
    } else {
        assert forall|j: int| 0 <= j < body.len() && j < it.len() implies body[j] != '.' by {
            assert(body[j] == it[j]);
            assert(is_digit(it[j]));
        }
        lemma_index_of_at(body, '.', it.len() as int);
        assert(body.take(it.len() as int) =~= it);
        let fp = body.skip(it.len() as int + 1);
        if f % 10 == 0 {
            assert(fp =~= seq![digit_char(f / 10)]);
            assert(fp.drop_last() =~= Seq::<char>::empty());
            assert(digits_value(Seq::<char>::empty()) == 0);
            assert(fp.last() == digit_char(f / 10));
            assert(digits_value(fp) == digits_value(fp.drop_last()) * 10 + digit_value(fp.last()));
            assert(digits_value(fp) == f / 10);
        } else {
            assert(fp =~= seq![digit_char(f / 10), digit_char(f % 10)]);
            assert(fp.drop_last() =~= seq![digit_char(f / 10)]);
            assert(fp.drop_last().drop_last() =~= Seq::<char>::empty());
            let fp1 = fp.drop_last();
            assert(digits_value(Seq::<char>::empty()) == 0);
            assert(fp1.last() == digit_char(f / 10));
            assert(fp.last() == digit_char(f % 10));
            assert(digits_value(fp1) == digits_value(fp1.drop_last()) * 10 + digit_value(fp1.last()));
            assert(digits_value(fp) == digits_value(fp1) * 10 + digit_value(fp.last()));
            assert(digits_value(fp) == (f / 10) * 10 + f % 10);
        }
        assert(all_digits(fp));
    }
    assert(unsigned_cents(body) == Some(a));
    assert(is_digit(body[0]));
    if c < 0 {
        assert(amount_text(c).skip(1) =~= body);
    } else {
        assert(amount_text(c) =~= body);
    }
}

/// The decimal text of a quantity reads back as that quantity.
pub proof fn lemma_quantity_round_trip(q: nat)
    requires
        q <= u32::MAX,
    ensures
        quantity_of_text(nat_text(q)) == Some(q),
{
    lemma_nat_text(q);
    assert(is_digit(nat_text(q)[0]));
}

/// The `YYYY-MM-DD` text of a date is well formed and spells that date.
pub proof fn lemma_iso_round_trip(d: Date)
    requires
        d.wf(),
    ensures
        is_iso_date_text(iso_text(d)),
        iso_year(iso_text(d)) == d.year,
        iso_month(iso_text(d)) == d.month,
        iso_day(iso_text(d)) == d.day,
{
    let y = d.year as int;
    let m = d.month as int;
    let dd = d.day as int;
    lemma_digit_char(y / 1000);
    lemma_digit_char(y / 100 % 10);
    lemma_digit_char(y / 10 % 10);
    lemma_digit_char(y % 10);
    lemma_digit_char(m / 10);
    lemma_digit_char(m % 10);
    lemma_digit_char(dd / 10);
    lemma_digit_char(dd % 10);
    assert((y / 1000) * 1000 + (y / 100 % 10) * 100 + (y / 10 % 10) * 10 + y % 10 == y) by (nonlinear_arith)
        requires
            0 <= y <= 9999,
    ;
}

} // verus!
