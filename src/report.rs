//! Spending per category: buckets of purchases, their totals, and the report.
use vstd::prelude::*;
use vstd::string::*;
use crate::category::{category_name, type_at, type_rank, ProductType};
use crate::codec::{load_all, load_spec, DecodeError};
use crate::format::{amount_text, push_amount};
use crate::purchase::{Purchase, PurchaseView, MAX_PRICE_CENTS};

verus! {

/// The purchases of one category, as positions in the loaded list.
pub struct Bucket {
    pub product_type: ProductType,
    pub purchases: Vec<usize>,
}

impl Bucket {
    /// Puts a category and the positions of its purchases together.
    pub fn new(product_type: ProductType, purchases: Vec<usize>) -> (r: Bucket)
        ensures
            r.product_type == product_type,
            r.purchases@ == purchases@,
    {
        Bucket { product_type, purchases }
    }
}

/// The positions, below `n` and in increasing order, of the purchases of a category.
pub open spec fn type_indices(v: Seq<PurchaseView>, t: ProductType, n: int) -> Seq<usize>
    decreases n,
{
    if n <= 0 {
        seq![]
    } else if v[n - 1].product_type == t {
        type_indices(v, t, n - 1).push((n - 1) as usize)
    } else {
        type_indices(v, t, n - 1)
    }
}

/// What a purchase cost, in cents.
pub open spec fn view_value(p: PurchaseView) -> int {
    p.cents * p.quantity
}

/// The sum of the costs of the purchases at some positions.
pub open spec fn total_at(v: Seq<PurchaseView>, idx: Seq<usize>) -> int
    decreases idx.len(),
{
    if idx.len() == 0 {
        0
    } else {
        total_at(v, idx.drop_last()) + view_value(v[idx.last() as int])
    }
}

/// The positions, below `n`, of the purchases of a category: the same as
/// `type_indices`, and each in range.
proof fn lemma_type_indices(v: Seq<PurchaseView>, t: ProductType, n: int)
    requires
        0 <= n <= v.len(),
        v.len() <= usize::MAX,
    ensures
        forall|k: int| 0 <= k < type_indices(v, t, n).len() ==> (#[trigger] type_indices(v, t, n)[k]) < n,
        forall|j: int| 0 <= j < n ==> (type_indices(v, t, n).contains(j as usize) <==> v[j].product_type == t),
        type_indices(v, t, n).len() <= n,
    decreases n,
{
    if n > 0 {
        lemma_type_indices(v, t, n - 1);
        let prev = type_indices(v, t, n - 1);
        let cur = type_indices(v, t, n);
        assert forall|j: int| 0 <= j < n implies (cur.contains(j as usize) <==> v[j].product_type == t) by {
            if j < n - 1 {
                if cur.contains(j as usize) {
                    let k = choose|k: int| 0 <= k < cur.len() && cur[k] == j as usize;
                    if k < prev.len() {
                        assert(prev.contains(j as usize));
                    }
                }
                if prev.contains(j as usize) {
                    let k = choose|k: int| 0 <= k < prev.len() && prev[k] == j as usize;
                    assert(cur[k] == j as usize);
                }
            } else {
                if v[j].product_type == t {
                    assert(cur[cur.len() - 1] == j as usize);
                } else if cur.contains(j as usize) {
                    let k = choose|k: int| 0 <= k < cur.len() && cur[k] == j as usize;
                    assert(prev[k] < n - 1);
                }
            }
        }
    }
}

/// Each purchase lies in exactly one of the eight buckets, the one of its
/// category, and the buckets together hold as many purchases as the list.
pub proof fn lemma_buckets_partition(v: Seq<PurchaseView>)
    requires
        v.len() <= usize::MAX,
    ensures
        forall|i: int, j: int|
            0 <= i < 8 && 0 <= j < v.len() ==> (type_indices(v, type_at(i), v.len() as int).contains(j as usize)
                <==> i == type_rank(v[j].product_type)),
        type_indices(v, type_at(0), v.len() as int).len() + type_indices(v, type_at(1), v.len() as int).len()
            + type_indices(v, type_at(2), v.len() as int).len() + type_indices(v, type_at(3), v.len() as int).len()
            + type_indices(v, type_at(4), v.len() as int).len() + type_indices(v, type_at(5), v.len() as int).len()
            + type_indices(v, type_at(6), v.len() as int).len() + type_indices(v, type_at(7), v.len() as int).len()
            == v.len(),
{
    let n = v.len() as int;
    assert forall|i: int, j: int|
        0 <= i < 8 && 0 <= j < v.len() implies (type_indices(v, type_at(i), n).contains(j as usize)
            <==> i == type_rank(v[j].product_type)) by {
        lemma_type_indices(v, type_at(i), n);
    }
    lemma_counts(v, n);
}

proof fn lemma_counts(v: Seq<PurchaseView>, n: int)
    requires
        0 <= n <= v.len(),
    ensures
        type_indices(v, type_at(0), n).len() + type_indices(v, type_at(1), n).len()
            + type_indices(v, type_at(2), n).len() + type_indices(v, type_at(3), n).len()
            + type_indices(v, type_at(4), n).len() + type_indices(v, type_at(5), n).len()
            + type_indices(v, type_at(6), n).len() + type_indices(v, type_at(7), n).len() == n,
    decreases n,
{
    if n > 0 {
        lemma_counts(v, n - 1);
    }
}

/// Sorts the purchases into the eight buckets, one per category in the fixed
/// order, each holding the positions of its purchases in list order.
pub fn sort_type_buckets(purchases: &Vec<Purchase>) -> (r: Vec<Bucket>)
    ensures
        r@.len() == 8,
        forall|i: int|
            0 <= i < 8 ==> (#[trigger] r@[i]).product_type == type_at(i) && r@[i].purchases@
                == type_indices(purchases@.map_values(|p: Purchase| p@), type_at(i), purchases@.len() as int),
{
    let ghost v = purchases@.map_values(|p: Purchase| p@);
    let mut food: Vec<usize> = Vec::new();
    let mut culture: Vec<usize> = Vec::new();
    let mut technology: Vec<usize> = Vec::new();
    let mut education: Vec<usize> = Vec::new();
    let mut travel: Vec<usize> = Vec::new();
    let mut presents: Vec<usize> = Vec::new();
    let mut style: Vec<usize> = Vec::new();
    let mut other: Vec<usize> = Vec::new();
    let n = purchases.len();
    let mut j: usize = 0;
    while j < n
        invariant
            n == purchases@.len(),
            v == purchases@.map_values(|p: Purchase| p@),
            j <= n,
            food@ == type_indices(v, ProductType::Food, j as int),
            culture@ == type_indices(v, ProductType::Culture, j as int),
            technology@ == type_indices(v, ProductType::Technology, j as int),
            education@ == type_indices(v, ProductType::Education, j as int),
            travel@ == type_indices(v, ProductType::Travel, j as int),
            presents@ == type_indices(v, ProductType::Presents, j as int),
            style@ == type_indices(v, ProductType::Style, j as int),
            other@ == type_indices(v, ProductType::Other, j as int),
        decreases n - j,
    {
        assert(v[j as int].product_type == purchases@[j as int].product.product_type);
        match purchases[j].product.product_type {
            ProductType::Food => food.push(j),
            ProductType::Culture => culture.push(j),
            ProductType::Technology => technology.push(j),
            ProductType::Education => education.push(j),
            ProductType::Travel => travel.push(j),
            ProductType::Presents => presents.push(j),
            ProductType::Style => style.push(j),
            ProductType::Other => other.push(j),
        }
        j = j + 1;
    }
    let r = vec![
        Bucket::new(ProductType::Food, food),
        Bucket::new(ProductType::Culture, culture),
        Bucket::new(ProductType::Technology, technology),
        Bucket::new(ProductType::Education, education),
        Bucket::new(ProductType::Travel, travel),
        Bucket::new(ProductType::Presents, presents),
        Bucket::new(ProductType::Style, style),
        Bucket::new(ProductType::Other, other),
    ];
    r
}

} // verus!

verus! {

/// The largest magnitude of the cost of one purchase, in cents.
pub open spec fn max_value() -> int {
    MAX_PRICE_CENTS * u32::MAX
}

proof fn lemma_total_step(acc: int, x: int, i: int)
    requires
        -i * max_value() <= acc <= i * max_value(),
        -max_value() <= x <= max_value(),
        0 <= i,
    ensures
        -(i + 1) * max_value() <= acc + x <= (i + 1) * max_value(),
{
    let m = max_value();
    assert((i + 1) * m == i * m + m) by (nonlinear_arith);
    assert(-(i + 1) * m == -(i * m) - m) by (nonlinear_arith);
    assert(-i * m == -(i * m)) by (nonlinear_arith);
}

/// The sum of the costs of the purchases of a bucket, in cents; zero for an
/// empty bucket.
pub fn eval_bucket_value(bucket: &Bucket, purchases: &Vec<Purchase>) -> (r: i128)
    requires
        forall|k: int| 0 <= k < bucket.purchases@.len() ==> (#[trigger] bucket.purchases@[k]) < purchases@.len(),
        forall|j: int| 0 <= j < purchases@.len() ==> (#[trigger] purchases@[j]).wf(),
    ensures
        r == total_at(purchases@.map_values(|p: Purchase| p@), bucket.purchases@),
        r > i128::MIN,
{
    let ghost v = purchases@.map_values(|p: Purchase| p@);
    let idx = &bucket.purchases;
    let n = idx.len();
    let mut acc: i128 = 0;
    let mut i: usize = 0;
    while i < n
        invariant
            n == idx@.len(),
            idx == &bucket.purchases,
            v == purchases@.map_values(|p: Purchase| p@),
            forall|k: int| 0 <= k < idx@.len() ==> (#[trigger] idx@[k]) < purchases@.len(),
            forall|j: int| 0 <= j < purchases@.len() ==> (#[trigger] purchases@[j]).wf(),
            i <= n,
            acc == total_at(v, idx@.take(i as int)),
            -i * max_value() <= acc <= i * max_value(),
        decreases n - i,
    {
        let p = &purchases[idx[i]];
        let x = p.value();
        proof {
            crate::purchase::lemma_value_bounds(p.product.price.cents as int, p.quantity as int);
            lemma_total_step(acc as int, x as int, i as int);
            assert(i + 1 <= usize::MAX);
            assert((i + 1) * max_value() < i128::MAX) by (nonlinear_arith)
                requires
                    i + 1 <= usize::MAX,
                    usize::MAX <= u64::MAX,
            ;
            assert(idx@.take(i + 1).drop_last() =~= idx@.take(i as int));
        }
        acc = acc + x as i128;
        i = i + 1;
    }
    assert(idx@.take(n as int) =~= idx@);
    assert(n * max_value() < i128::MAX) by (nonlinear_arith)
        requires
            n <= usize::MAX,
            usize::MAX <= u64::MAX,
    ;
    acc
}

/// The ordering key of an entry of the report: larger totals first, and
/// among equal totals the earlier entry first.
pub open spec fn goes_before(s: Seq<(ProductType, i128)>, a: int, b: int) -> bool {
    s[a].1 > s[b].1 || (s[a].1 == s[b].1 && a < b)
}

/// Whether `r` is `s` sorted by total, largest first, equal totals keeping
/// their order: `r[k]` is `s[perm[k]]`, `perm` is a permutation, and the
/// positions of `s` come out ordered by `goes_before`.
pub open spec fn is_stable_ranking(
    s: Seq<(ProductType, i128)>,
    r: Seq<(ProductType, i128)>,
    perm: Seq<int>,
) -> bool {
    &&& r.len() == s.len() && perm.len() == s.len()
    &&& forall|k: int| 0 <= k < perm.len() ==> 0 <= #[trigger] perm[k] < s.len()
    &&& forall|k: int, l: int| 0 <= k < l < perm.len() ==> perm[k] != perm[l]
    &&& forall|k: int| 0 <= k < r.len() ==> #[trigger] r[k] == s[perm[k]]
    &&& forall|k: int, l: int| 0 <= k < l < perm.len() ==> goes_before(s, perm[k], perm[l])
}

/// Sorts report entries by total, largest first; entries with equal totals
/// keep their order.
pub fn rank_buckets(entries: &Vec<(ProductType, i128)>) -> (r: Vec<(ProductType, i128)>)
    ensures
        exists|perm: Seq<int>| is_stable_ranking(entries@, r@, perm),
{
    let n = entries.len();
    let mut out: Vec<(ProductType, i128)> = Vec::new();
    let ghost mut perm: Seq<int> = seq![];
    let mut i: usize = 0;
    while i < n
        invariant
            n == entries@.len(),
            i <= n,
            out@.len() == i && perm.len() == i,
            forall|k: int| 0 <= k < perm.len() ==> 0 <= #[trigger] perm[k] < i,
            forall|k: int, l: int| 0 <= k < l < perm.len() ==> perm[k] != perm[l],
            forall|k: int| 0 <= k < out@.len() ==> #[trigger] out@[k] == entries@[perm[k]],
            forall|k: int, l: int| 0 <= k < l < perm.len() ==> goes_before(entries@, perm[k], perm[l]),
        decreases n - i,
    {
        let x = entries[i];
        let mut p: usize = 0;
        while p < out.len() && out[p].1 >= x.1
            invariant
                out@.len() == i,
                i < n,
                n == entries@.len(),
                x == entries@[i as int],
                p <= out@.len(),
                forall|k: int| 0 <= k < p ==> (#[trigger] out@[k]).1 >= x.1,
            decreases out@.len() - p,
        {
            p = p + 1;
        }
        proof {
            assert forall|k: int| p <= k < out@.len() implies (#[trigger] out@[k]).1 < x.1 by {
                if p < out@.len() {
                    assert(out@[p as int].1 < x.1);
                    if k > p {
                        assert(goes_before(entries@, perm[p as int], perm[k]));
                    }
                }
            }
        }
        let ghost old_out = out@;
        let ghost old_perm = perm;
        out.insert(p, x);
        proof {
            perm = old_perm.insert(p as int, i as int);
            assert forall|k: int| 0 <= k < out@.len() implies #[trigger] out@[k] == entries@[perm[k]] by {
                if k < p {
                    assert(out@[k] == old_out[k]);
                } else if k > p {
                    assert(out@[k] == old_out[k - 1]);
                }
            }
            assert forall|k: int, l: int| 0 <= k < l < perm.len() implies goes_before(entries@, perm[k], perm[l]) by {
                if k < p && l < p {
                    assert(perm[k] == old_perm[k] && perm[l] == old_perm[l]);
                } else if k < p && l == p {
                    assert(old_out[k].1 >= x.1);
                } else if k < p && l > p {
                    assert(perm[k] == old_perm[k] && perm[l] == old_perm[l - 1]);
                } else if k == p {
                    assert(old_out[l - 1].1 < x.1);
                } else {
                    assert(perm[k] == old_perm[k - 1] && perm[l] == old_perm[l - 1]);
                }
            }
            assert forall|k: int, l: int| 0 <= k < l < perm.len() implies perm[k] != perm[l] by {
                if k < p && l > p {
                    assert(perm[k] == old_perm[k] && perm[l] == old_perm[l - 1]);
                } else if k > p {
                    assert(perm[k] == old_perm[k - 1] && perm[l] == old_perm[l - 1]);
                } else if l < p {
                    assert(perm[k] == old_perm[k] && perm[l] == old_perm[l]);
                } else if k == p {
                    assert(perm[l] == old_perm[l - 1]);
                } else {
                    assert(perm[k] == old_perm[k]);
                }
            }
            assert forall|k: int| 0 <= k < perm.len() implies 0 <= #[trigger] perm[k] < i + 1 by {
                if k < p {
                    assert(perm[k] == old_perm[k]);
                } else if k > p {
                    assert(perm[k] == old_perm[k - 1]);
                }
            }
        }
        i = i + 1;
    }
    assert(is_stable_ranking(entries@, out@, perm));
    out
}

} // verus!

verus! {

/// One line of the report: `<category>: <total>`.
pub open spec fn report_line(e: (ProductType, i128)) -> Seq<char> {
    category_name(e.0) + seq![':', ' '] + amount_text(e.1 as int)
}

/// Whether `lines` is the report of some entries: one line per entry, in the
/// stable order of largest total first.
pub open spec fn is_report(entries: Seq<(ProductType, i128)>, lines: Seq<Seq<char>>) -> bool {
    exists|ranked: Seq<(ProductType, i128)>, perm: Seq<int>|
        is_stable_ranking(entries, ranked, perm) && lines.len() == ranked.len()
            && forall|k: int| 0 <= k < lines.len() ==> #[trigger] lines[k] == report_line(ranked[k])
}

/// The category and total of each bucket, in bucket order.
pub open spec fn bucket_entries(bs: Seq<Bucket>, v: Seq<PurchaseView>) -> Seq<(ProductType, i128)> {
    bs.map_values(|b: Bucket| (b.product_type, total_at(v, b.purchases@) as i128))
}

/// The category and total of each of the eight categories, in the fixed order.
pub open spec fn category_entries(v: Seq<PurchaseView>) -> Seq<(ProductType, i128)> {
    Seq::new(8, |i: int| (type_at(i), total_at(v, type_indices(v, type_at(i), v.len() as int)) as i128))
}

pub open spec fn string_views(v: Seq<String>) -> Seq<Seq<char>> {
    v.map_values(|s: String| s@)
}

/// The lines of the report on some buckets: their categories and totals,
/// largest total first, equal totals in bucket order.
pub fn compare_buckets(buckets: &Vec<Bucket>, purchases: &Vec<Purchase>) -> (r: Vec<String>)
    requires
        forall|i: int, k: int|
            0 <= i < buckets@.len() && 0 <= k < buckets@[i].purchases@.len() ==> #[trigger] buckets@[i].purchases@[k]
                < purchases@.len(),
        forall|j: int| 0 <= j < purchases@.len() ==> (#[trigger] purchases@[j]).wf(),
    ensures
        is_report(bucket_entries(buckets@, purchases@.map_values(|p: Purchase| p@)), string_views(r@)),
{
    let ghost v = purchases@.map_values(|p: Purchase| p@);
    let mut entries: Vec<(ProductType, i128)> = Vec::new();
    let mut i: usize = 0;
    while i < buckets.len()
        invariant
            v == purchases@.map_values(|p: Purchase| p@),
            i <= buckets@.len(),
            forall|i: int, k: int|
                0 <= i < buckets@.len() && 0 <= k < buckets@[i].purchases@.len() ==> #[trigger] buckets@[i].purchases@[k]
                    < purchases@.len(),
            forall|j: int| 0 <= j < purchases@.len() ==> (#[trigger] purchases@[j]).wf(),
            entries@ == bucket_entries(buckets@.take(i as int), v),
            forall|k: int| 0 <= k < entries@.len() ==> (#[trigger] entries@[k]).1 > i128::MIN,
        decreases buckets@.len() - i,
    {
        let b = &buckets[i];
        let total = eval_bucket_value(b, purchases);
        entries.push((b.product_type, total));
        assert(buckets@.take(i + 1) =~= buckets@.take(i as int).push(*b));
        assert(entries@ =~= bucket_entries(buckets@.take(i + 1), v));
        i = i + 1;
    }
    assert(buckets@.take(i as int) =~= buckets@);
    let ranked = rank_buckets(&entries);
    let ghost perm = choose|perm: Seq<int>| is_stable_ranking(entries@, ranked@, perm);
    let mut lines: Vec<String> = Vec::new();
    let mut k: usize = 0;
    while k < ranked.len()
        invariant
            is_stable_ranking(entries@, ranked@, perm),
            forall|k: int| 0 <= k < entries@.len() ==> (#[trigger] entries@[k]).1 > i128::MIN,
            k <= ranked@.len(),
            lines@.len() == k,
            forall|j: int| 0 <= j < k ==> #[trigger] lines@[j]@ == report_line(ranked@[j]),
        decreases ranked@.len() - k,
    {
        let e = ranked[k];
        assert(e == entries@[perm[k as int]]);
        let mut line = e.0.to_string();
        proof {
            reveal_strlit(": ");
        }
        line.append(": ");
        push_amount(&mut line, e.1);
        lines.push(line);
        k = k + 1;
    }
    assert(is_report(entries@, string_views(lines@)));
    lines
}

/// The report on the text of a store file: each category with the total of
/// its purchases, largest first, equal totals in the fixed category order.
/// Fails as reading the store fails.
pub fn exec_bucket_comparison(contents: &str) -> (r: Result<Vec<String>, DecodeError>)
    ensures
        r matches Err(e) ==> load_spec(contents@) == Err::<Seq<PurchaseView>, DecodeError>(e),
        r matches Ok(lines) ==> (load_spec(contents@) matches Ok(v) && is_report(category_entries(v), string_views(lines@))),
{
    let purchases = match load_all(contents) {
        Err(e) => return Err(e),
        Ok(p) => p,
    };
    let ghost v = purchases@.map_values(|p: Purchase| p@);
    let buckets = sort_type_buckets(&purchases);
    proof {
        assert forall|i: int, k: int|
            0 <= i < buckets@.len() && 0 <= k < buckets@[i].purchases@.len() implies #[trigger] buckets@[i].purchases@[k]
                < purchases@.len() by {
            lemma_type_indices_bound(v, type_at(i), v.len() as int);
        }
        assert(bucket_entries(buckets@, v) =~= category_entries(v));
    }
    Ok(compare_buckets(&buckets, &purchases))
}

proof fn lemma_type_indices_bound(v: Seq<PurchaseView>, t: ProductType, n: int)
    requires
        0 <= n <= v.len(),
        v.len() <= usize::MAX,
    ensures
        forall|k: int| 0 <= k < type_indices(v, t, n).len() ==> (#[trigger] type_indices(v, t, n)[k]) < n,
{
    lemma_type_indices(v, t, n);
}

} // verus!
