use expense_tracker::category::ProductType;
use expense_tracker::codec::{append_record, decode_line, encode_line, load_all, DecodeError};
use expense_tracker::format::{parse_date, parse_price, parse_quantity};
use expense_tracker::input::{Outcome, Session, Stage};
use expense_tracker::purchase::{Date, Price, Product, Purchase};
use expense_tracker::report::{
    compare_buckets, eval_bucket_value, exec_bucket_comparison, rank_buckets, sort_type_buckets, Bucket,
};

const ALL: [ProductType; 8] = [
    ProductType::Food,
    ProductType::Culture,
    ProductType::Technology,
    ProductType::Education,
    ProductType::Travel,
    ProductType::Presents,
    ProductType::Style,
    ProductType::Other,
];

fn purchase(name: &str, price: &str, category: &str, quantity: u32, date: &str) -> Purchase {
    let product = Product::new(
        String::from(name),
        parse_price(price).unwrap(),
        ProductType::from_string(category),
    );
    Purchase::new(product, quantity, parse_date(date).unwrap())
}

#[test]
fn category_names_read_back() {
    for t in ALL {
        assert_eq!(ProductType::from_string(&t.to_string()), t);
    }
    assert_eq!(ProductType::Technology.to_string(), "technology");
    assert_eq!(ProductType::Other.to_string(), "other");
}

#[test]
fn unknown_category_is_other() {
    for s in ["", " ", "Food", "FOOD", " food", "food ", "groceries", "other", "styles"] {
        assert_eq!(ProductType::from_string(s), ProductType::Other);
    }
    assert_eq!(ProductType::from_string("presents"), ProductType::Presents);
}

#[test]
fn product_name_is_trimmed_and_lowercased() {
    let p = Product::new(String::from("  Coffee Beans \t"), Price { cents: 100 }, ProductType::Food);
    assert_eq!(p.name, "coffee beans");
    assert_eq!(p.price, Price { cents: 100 });
    assert_eq!(p.product_type, ProductType::Food);
}

#[test]
fn value_is_price_times_quantity() {
    let p = purchase("Coffee", "3.5", "food", 2, "2024-01-15");
    assert_eq!(p.value(), 700);
    let none = purchase("Coffee", "3.5", "food", 0, "2024-01-15");
    assert_eq!(none.value(), 0);
    let neg = purchase("refund", "-1.25", "food", 4, "2024-01-15");
    assert_eq!(neg.value(), -500);
    let big = purchase("car", "21474836.47", "travel", u32::MAX, "2024-01-15");
    assert_eq!(big.value(), 2147483647i64 * 4294967295i64);
}

#[test]
fn prices_read_in_cents() {
    assert_eq!(parse_price("3.5"), Some(Price { cents: 350 }));
    assert_eq!(parse_price("12"), Some(Price { cents: 1200 }));
    assert_eq!(parse_price("12."), Some(Price { cents: 1200 }));
    assert_eq!(parse_price(".75"), Some(Price { cents: 75 }));
    assert_eq!(parse_price("-0.05"), Some(Price { cents: -5 }));
    assert_eq!(parse_price("+2.10"), Some(Price { cents: 210 }));
    assert_eq!(parse_price(""), None);
    assert_eq!(parse_price("."), None);
    assert_eq!(parse_price("abc"), None);
    assert_eq!(parse_price("1.234"), None);
    assert_eq!(parse_price("1,5"), None);
    assert_eq!(parse_price("21474836.48"), None);
}

#[test]
fn quantities_read_as_u32() {
    assert_eq!(parse_quantity("2"), Some(2));
    assert_eq!(parse_quantity("+7"), Some(7));
    assert_eq!(parse_quantity("4294967295"), Some(u32::MAX));
    assert_eq!(parse_quantity("4294967296"), None);
    assert_eq!(parse_quantity("-1"), None);
    assert_eq!(parse_quantity(""), None);
    assert_eq!(parse_quantity("+"), None);
    assert_eq!(parse_quantity("1.0"), None);
}

#[test]
fn dates_read_through_chrono() {
    assert_eq!(parse_date("2024-01-15"), Some(Date { year: 2024, month: 1, day: 15 }));
    assert_eq!(parse_date("2024-02-29"), Some(Date { year: 2024, month: 2, day: 29 }));
    assert_eq!(parse_date("2023-02-29"), None);
    assert_eq!(parse_date("2024-13-01"), None);
    assert_eq!(parse_date("15/01/2024"), None);
    assert_eq!(parse_date("notadate"), None);
}

#[test]
fn first_purchase_written_to_empty_file() {
    let p = purchase("Coffee", "3.5", "food", 2, "2024-01-15");
    let text = append_record("", &p);
    assert_eq!(text, "coffee, 3.5, food, 2, 2024-01-15");
}

#[test]
fn second_purchase_appended_after_newline() {
    let first = purchase("Coffee", "3.5", "food", 2, "2024-01-15");
    let second = purchase("Book", "12.0", "culture", 1, "2024-02-01");
    let text = append_record(&append_record("", &first), &second);
    assert_eq!(text, "coffee, 3.5, food, 2, 2024-01-15\nbook, 12, culture, 1, 2024-02-01");
    let lines: Vec<&str> = text.split('\n').collect();
    assert_eq!(lines.len(), 2);
    assert_eq!(lines[0], "coffee, 3.5, food, 2, 2024-01-15");
}

#[test]
fn encoded_line_reads_back() {
    let cases = [
        ("Coffee", "3.5", "food", 2u32, "2024-01-15"),
        ("a,b", "-0.05", "travel", 0, "0001-12-31"),
        ("laptop", "999.99", "technology", u32::MAX, "2000-02-29"),
        ("gift", "7", "unknown", 3, "1999-07-04"),
    ];
    for (name, price, category, quantity, date) in cases {
        let p = purchase(name, price, category, quantity, date);
        let line = encode_line(&p);
        let back = decode_line(&line).unwrap().unwrap();
        assert_eq!(back.product.name, p.product.name);
        assert_eq!(back.product.price, p.product.price);
        assert_eq!(back.product.product_type, p.product.product_type);
        assert_eq!(back.quantity, p.quantity);
        assert_eq!(back.date, p.date);
    }
}

#[test]
fn short_line_dropped_and_bad_price_fatal() {
    let skipped = load_all("x, 1, food").unwrap();
    assert_eq!(skipped.len(), 0);
    assert_eq!(load_all("x, notanumber, food, 1, 2024-01-01").err(), Some(DecodeError::InvalidPrice));
}

#[test]
fn bad_quantity_and_date_are_fatal() {
    assert_eq!(load_all("x, 1, food, -1, 2024-01-01").err(), Some(DecodeError::InvalidQuantity));
    assert_eq!(load_all("x, 1, food, 1, 2024-02-30").err(), Some(DecodeError::InvalidDate));
    let text = "a, 1, food, 1, 2024-01-01\nb, 2, food, one, 2024-01-01";
    assert_eq!(load_all(text).err(), Some(DecodeError::InvalidQuantity));
}

#[test]
fn load_reads_lines_in_order() {
    let text = "coffee, 3.5, food, 2, 2024-01-15\r\nshort, line\n\nbook, 12, culture, 1, 2024-02-01, extra\n";
    let ps = load_all(text).unwrap();
    assert_eq!(ps.len(), 2);
    assert_eq!(ps[0].product.name, "coffee");
    assert_eq!(ps[0].date, Date { year: 2024, month: 1, day: 15 });
    assert_eq!(ps[1].product.name, "book");
    assert_eq!(ps[1].product.product_type, ProductType::Culture);
    assert_eq!(ps[1].product.price, Price { cents: 1200 });
    assert_eq!(load_all("").unwrap().len(), 0);
}

#[test]
fn buckets_partition_purchases() {
    let ps = vec![
        purchase("a", "1", "food", 1, "2024-01-01"),
        purchase("b", "2", "style", 1, "2024-01-01"),
        purchase("c", "3", "food", 1, "2024-01-01"),
        purchase("d", "4", "weird", 1, "2024-01-01"),
    ];
    let buckets = sort_type_buckets(&ps);
    assert_eq!(buckets.len(), 8);
    for (i, b) in buckets.iter().enumerate() {
        assert_eq!(b.product_type, ALL[i]);
    }
    assert_eq!(buckets[0].purchases, vec![0, 2]);
    assert_eq!(buckets[6].purchases, vec![1]);
    assert_eq!(buckets[7].purchases, vec![3]);
    let total: usize = buckets.iter().map(|b| b.purchases.len()).sum();
    assert_eq!(total, ps.len());
    assert_eq!(eval_bucket_value(&buckets[0], &ps), 400);
    assert_eq!(eval_bucket_value(&buckets[1], &ps), 0);
}

#[test]
fn ties_keep_category_order() {
    let mut entries = vec![(ProductType::Food, 1000i128), (ProductType::Culture, 1000), (ProductType::Technology, 500)];
    for t in &ALL[3..] {
        entries.push((*t, 0));
    }
    let ranked = rank_buckets(&entries);
    assert_eq!(ranked, entries);
    let reversed = vec![(ProductType::Food, 0i128), (ProductType::Culture, 500), (ProductType::Technology, 1000), (ProductType::Education, 500)];
    let ranked = rank_buckets(&reversed);
    assert_eq!(
        ranked,
        vec![(ProductType::Technology, 1000), (ProductType::Culture, 500), (ProductType::Education, 500), (ProductType::Food, 0)]
    );
}

#[test]
fn unknown_categories_sum_into_other() {
    let ps = vec![
        purchase("x", "2.5", "gadgets", 2, "2024-01-01"),
        purchase("y", "1", "misc", 3, "2024-01-02"),
    ];
    let buckets = sort_type_buckets(&ps);
    assert_eq!(buckets[7].product_type, ProductType::Other);
    assert_eq!(eval_bucket_value(&buckets[7], &ps), 800);
}

#[test]
fn report_lines_largest_first() {
    let ps = vec![
        purchase("a", "10", "culture", 1, "2024-01-01"),
        purchase("b", "5", "food", 2, "2024-01-01"),
        purchase("c", "0.5", "style", 1, "2024-01-01"),
    ];
    let buckets: Vec<Bucket> = sort_type_buckets(&ps);
    let lines = compare_buckets(&buckets, &ps);
    assert_eq!(
        lines,
        vec![
            "food: 10", "culture: 10", "style: 0.5", "technology: 0", "education: 0", "travel: 0", "presents: 0",
            "other: 0",
        ]
    );
}

#[test]
fn comparison_of_stored_text() {
    let text = "coffee, 3.5, food, 2, 2024-01-15\nbook, 12, culture, 1, 2024-02-01";
    let lines = exec_bucket_comparison(text).unwrap();
    assert_eq!(lines[0], "culture: 12");
    assert_eq!(lines[1], "food: 7");
    assert_eq!(lines.len(), 8);
    assert_eq!(exec_bucket_comparison("x, y, food, 1, 2024-01-01").err(), Some(DecodeError::InvalidPrice));
}

#[test]
fn session_builds_a_purchase() {
    let mut s = Session::new();
    assert!(matches!(s.accept("  Coffee \n"), Outcome::Next));
    assert!(matches!(s.accept("cheap\n"), Outcome::Retry));
    assert_eq!(s.stage, Stage::Price);
    assert!(matches!(s.accept("3.5\n"), Outcome::Next));
    assert!(matches!(s.accept("food\n"), Outcome::Next));
    assert!(matches!(s.accept("two\n"), Outcome::Retry));
    assert!(matches!(s.accept("2\n"), Outcome::Next));
    assert!(matches!(s.accept("2024-15-01\n"), Outcome::Retry));
    match s.accept("2024-01-15\n") {
        Outcome::Record(p) => {
            assert_eq!(encode_line(&p), "coffee, 3.5, food, 2, 2024-01-15");
        }
        _ => panic!("expected a purchase"),
    }
    assert!(matches!(s.accept("y\n"), Outcome::Next));
    assert_eq!(s.stage, Stage::Name);
}

#[test]
fn session_ends_unless_yes() {
    let mut s = Session::new();
    s.accept("pen\n");
    s.accept("1\n");
    s.accept("style\n");
    s.accept("1\n");
    assert!(matches!(s.accept("2024-03-03\n"), Outcome::Record(_)));
    assert!(matches!(s.accept("Y\n"), Outcome::Finished));
    assert_eq!(s.stage, Stage::Done);
    assert!(matches!(s.accept("y\n"), Outcome::Finished));
}
