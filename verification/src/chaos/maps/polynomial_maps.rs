use vstd::prelude::*;

verus! {

/// Sum of `e[lo..hi]`.
pub open spec fn sum_range(e: Seq<usize>, lo: int, hi: int) -> int
    decreases hi - lo,
{
    if hi <= lo {
        0
    } else {
        sum_range(e, lo, hi - 1) + e[hi - 1]
    }
}

/// `e` splits the total order `max_order` among `dims + 1` parts; parts
/// 1..=dims are the exponents of a monomial, part 0 the unused order.
pub open spec fn composition(e: Seq<usize>, dims: int, max_order: int) -> bool {
    &&& e.len() == dims + 1
    &&& sum_range(e, 0, dims + 1) == max_order
}

/// Value of the first `n` parts of `e` read as digits in base `base`, the
/// first part being the most significant.
pub open spec fn rank_prefix(e: Seq<usize>, n: int, base: int) -> int
    decreases n,
{
    if n <= 0 {
        0
    } else {
        rank_prefix(e, n - 1, base) * base + e[n - 1]
    }
}

/// Index of the last non-zero part among the first `k`, or -1.
pub open spec fn pivot(e: Seq<usize>, k: int) -> int
    decreases k,
{
    if k <= 0 {
        -1
    } else if e[k - 1] != 0 {
        k - 1
    } else {
        pivot(e, k - 1)
    }
}

/// The composition after `e` in reverse lexicographic order, given the
/// pivot `i`: one unit moves out of part `i`, and everything to its right
/// gathers in part `i + 1`.
pub open spec fn next_composition(e: Seq<usize>, i: int) -> Seq<usize> {
    Seq::new(
        e.len(),
        |j: int|
            if j < i {
                e[j]
            } else if j == i {
                (e[i] - 1) as usize
            } else if j == i + 1 {
                (sum_range(e, i + 1, e.len() as int) + 1) as usize
            } else {
                0usize
            },
    )
}

/// The exponents of a composition: its parts 1..=dims.
pub open spec fn exponents_of(e: Seq<usize>) -> Seq<usize> {
    e.subrange(1, e.len() as int)
}

/// Parts inside a range sum to at least any one of them.
pub proof fn lemma_sum_range_bound(e: Seq<usize>, lo: int, hi: int, j: int)
    requires
        lo <= j < hi,
        hi <= e.len(),
        0 <= lo,
    ensures
        e[j] <= sum_range(e, lo, hi),
        sum_range(e, lo, hi) >= 0,
    decreases hi - lo,
{
    lemma_sum_range_nonneg(e, lo, hi - 1);
    if j < hi - 1 {
        lemma_sum_range_bound(e, lo, hi - 1, j);
    }
}

/// A sum of parts is never negative.
pub proof fn lemma_sum_range_nonneg(e: Seq<usize>, lo: int, hi: int)
    requires
        0 <= lo,
        hi <= e.len(),
    ensures
        sum_range(e, lo, hi) >= 0,
    decreases hi - lo,
{
    if hi > lo {
        lemma_sum_range_nonneg(e, lo, hi - 1);
    }
}

/// Sums over adjacent ranges add up.
pub proof fn lemma_sum_range_split(e: Seq<usize>, lo: int, mid: int, hi: int)
    requires
        lo <= mid <= hi,
    ensures
        sum_range(e, lo, hi) == sum_range(e, lo, mid) + sum_range(e, mid, hi),
    decreases hi - mid,
{
    if hi > mid {
        lemma_sum_range_split(e, lo, mid, hi - 1);
    }
}

/// Sums depend only on the parts inside the range.
pub proof fn lemma_sum_range_ext(a: Seq<usize>, b: Seq<usize>, lo: int, hi: int)
    requires
        forall|j: int| lo <= j < hi ==> a[j] == b[j],
    ensures
        sum_range(a, lo, hi) == sum_range(b, lo, hi),
    decreases hi - lo,
{
    if hi > lo {
        lemma_sum_range_ext(a, b, lo, hi - 1);
    }
}

/// A range of zeros sums to zero.
pub proof fn lemma_sum_range_zeros(e: Seq<usize>, lo: int, hi: int)
    requires
        forall|j: int| lo <= j < hi ==> e[j] == 0,
    ensures
        sum_range(e, lo, hi) == 0,
    decreases hi - lo,
{
    if hi > lo {
        lemma_sum_range_zeros(e, lo, hi - 1);
    }
}

/// Equal prefixes give equal ranks.
pub proof fn lemma_rank_prefix_ext(a: Seq<usize>, b: Seq<usize>, n: int, base: int)
    requires
        forall|j: int| 0 <= j < n ==> a[j] == b[j],
    ensures
        rank_prefix(a, n, base) == rank_prefix(b, n, base),
    decreases n,
{
    if n > 0 {
        lemma_rank_prefix_ext(a, b, n - 1, base);
    }
}

/// Digits below the base keep the order decided by an earlier digit.
pub proof fn lemma_rank_prefix_lt(a: Seq<usize>, b: Seq<usize>, i: int, n: int, base: int)
    requires
        0 <= i < n,
        n <= a.len(),
        n <= b.len(),
        base > 0,
        forall|j: int| 0 <= j < i ==> a[j] == b[j],
        a[i] < b[i],
        forall|j: int| 0 <= j < n ==> a[j] < base && b[j] < base,
    ensures
        rank_prefix(a, n, base) < rank_prefix(b, n, base),
    decreases n,
{
    if n == i + 1 {
        lemma_rank_prefix_ext(a, b, i, base);
    } else {
        lemma_rank_prefix_lt(a, b, i, n - 1, base);
        let x = rank_prefix(a, n - 1, base);
        let y = rank_prefix(b, n - 1, base);
        let d = a[n - 1] as int;
        let f = b[n - 1] as int;
        assert(x * base + d < y * base + f) by (nonlinear_arith)
            requires
                x < y,
                0 <= d < base,
                0 <= f,
        ;
    }
}

/// The pivot is the last non-zero part among the first `k`.
pub proof fn lemma_pivot(e: Seq<usize>, k: int)
    requires
        0 <= k <= e.len(),
    ensures
        pivot(e, k) == -1 ==> forall|j: int| 0 <= j < k ==> e[j] == 0,
        pivot(e, k) != -1 ==> {
            &&& 0 <= pivot(e, k) < k
            &&& e[pivot(e, k)] != 0
            &&& forall|j: int| pivot(e, k) < j < k ==> e[j] == 0
        },
    decreases k,
{
    if k > 0 {
        lemma_pivot(e, k - 1);
    }
}

/// Each part of a composition is at most the total order.
pub proof fn lemma_parts_bounded(e: Seq<usize>, dims: int, max_order: int)
    requires
        dims >= 0,
        composition(e, dims, max_order),
    ensures
        forall|j: int| 0 <= j < e.len() ==> e[j] <= max_order,
{
    assert forall|j: int| 0 <= j < e.len() implies e[j] <= max_order by {
        lemma_sum_range_bound(e, 0, dims + 1, j);
    }
}

/// Stepping from a composition with a pivot gives a composition of the same
/// order whose rank is smaller.
pub proof fn lemma_next_composition(e: Seq<usize>, dims: int, max_order: int)
    requires
        dims >= 1,
        max_order < usize::MAX,
        composition(e, dims, max_order),
        pivot(e, dims) >= 0,
    ensures
        composition(next_composition(e, pivot(e, dims)), dims, max_order),
        rank_prefix(next_composition(e, pivot(e, dims)), dims + 1, max_order + 1) < rank_prefix(
            e,
            dims + 1,
            max_order + 1,
        ),
{
    let p = pivot(e, dims);
    let n = next_composition(e, p);
    let len = dims + 1;
    lemma_pivot(e, dims);
    lemma_parts_bounded(e, dims, max_order);
    let s = sum_range(e, p + 1, len);
    lemma_sum_range_split(e, 0, p, len);
    lemma_sum_range_split(e, p, p + 1, len);
    lemma_sum_range_nonneg(e, 0, p);
    lemma_sum_range_nonneg(e, p + 1, len);
    assert(sum_range(e, p, p) == 0);
    assert(sum_range(e, p, p + 1) == e[p]);
    assert(s + 1 <= max_order);
    lemma_sum_range_split(n, 0, p, len);
    lemma_sum_range_split(n, p, p + 1, len);
    lemma_sum_range_split(n, p + 1, p + 2, len);
    lemma_sum_range_ext(n, e, 0, p);
    assert(sum_range(n, p, p) == 0);
    assert(sum_range(n, p, p + 1) == n[p]);
    assert(sum_range(n, p + 1, p + 1) == 0);
    assert(sum_range(n, p + 1, p + 2) == n[p + 1]);
    lemma_sum_range_zeros(n, p + 2, len);
    assert(composition(n, dims, max_order));
    assert forall|j: int| 0 <= j < len implies n[j] < max_order + 1 && e[j] < max_order + 1 by {
        if j == p + 1 {
        } else if j < p {
        }
    }
    lemma_rank_prefix_lt(n, e, p, len, max_order + 1);
}

/// Ranks are never negative.
pub proof fn lemma_rank_prefix_nonneg(e: Seq<usize>, n: int, base: int)
    requires
        base >= 0,
    ensures
        rank_prefix(e, n, base) >= 0,
    decreases n,
{
    if n > 0 {
        lemma_rank_prefix_nonneg(e, n - 1, base);
        let x = rank_prefix(e, n - 1, base);
        assert(x * base >= 0) by (nonlinear_arith)
            requires
                x >= 0,
                base >= 0,
        ;
    }
}

/// The first position, from `i` on, where `a` and `b` differ.
proof fn lemma_first_diff_from(a: Seq<usize>, b: Seq<usize>, i: int, n: int) -> (q: int)
    requires
        0 <= i <= n,
        n <= a.len(),
        n <= b.len(),
        forall|j: int| 0 <= j < i ==> a[j] == b[j],
        exists|j: int| i <= j < n && a[j] != b[j],
    ensures
        i <= q < n,
        forall|j: int| 0 <= j < q ==> a[j] == b[j],
        a[q] != b[q],
    decreases n - i,
{
    if a[i] != b[i] {
        i
    } else {
        lemma_first_diff_from(a, b, i + 1, n)
    }
}

/// For digits below the base, ranks compare as the digit sequences do
/// lexicographically.
pub proof fn lemma_rank_order(a: Seq<usize>, b: Seq<usize>, n: int, base: int)
    requires
        0 <= n <= a.len(),
        n <= b.len(),
        base > 0,
        forall|j: int| 0 <= j < n ==> a[j] < base && b[j] < base,
    ensures
        rank_prefix(a, n, base) == rank_prefix(b, n, base) ==> forall|j: int| 0 <= j < n ==> a[j] == b[j],
        rank_prefix(a, n, base) < rank_prefix(b, n, base) ==> exists|q: int|
            0 <= q < n && a[q] < b[q] && forall|j: int| 0 <= j < q ==> a[j] == b[j],
{
    if exists|j: int| 0 <= j < n && a[j] != b[j] {
        let q = lemma_first_diff_from(a, b, 0, n);
        if a[q] < b[q] {
            lemma_rank_prefix_lt(a, b, q, n, base);
        } else {
            lemma_rank_prefix_lt(b, a, q, n, base);
        }
    } else {
        lemma_rank_prefix_ext(a, b, n, base);
    }
}

/// `e` is no greater than `f` in rank, read in base `max_order + 1`.
pub open spec fn rank_le(e: Seq<usize>, f: Seq<usize>, dims: int, max_order: int) -> bool {
    rank_prefix(e, dims + 1, max_order + 1) <= rank_prefix(f, dims + 1, max_order + 1)
}

/// Below a composition with a pivot, the largest composition is the next
/// one; a composition without a pivot has none below it.
pub proof fn lemma_predecessor(e: Seq<usize>, f: Seq<usize>, dims: int, max_order: int)
    requires
        dims >= 1,
        0 <= max_order < usize::MAX,
        composition(e, dims, max_order),
        composition(f, dims, max_order),
        rank_prefix(f, dims + 1, max_order + 1) < rank_prefix(e, dims + 1, max_order + 1),
    ensures
        pivot(e, dims) >= 0,
        rank_le(f, next_composition(e, pivot(e, dims)), dims, max_order),
{
    let len = dims + 1;
    let base = max_order + 1;
    lemma_parts_bounded(e, dims, max_order);
    lemma_parts_bounded(f, dims, max_order);
    lemma_rank_order(f, e, len, base);
    let q = choose|q: int| 0 <= q < len && f[q] < e[q] && forall|j: int| 0 <= j < q ==> f[j] == e[j];
    lemma_pivot(e, dims);
    // A first difference at the last part would make the totals differ.
    if q == dims {
        lemma_sum_range_split(e, 0, dims, len);
        lemma_sum_range_split(f, 0, dims, len);
        lemma_sum_range_ext(e, f, 0, dims);
        assert(sum_range(e, dims, dims) == 0);
        assert(sum_range(f, dims, dims) == 0);
        assert(false);
    }
    assert(pivot(e, dims) >= 0);
    let p = pivot(e, dims);
    let n = next_composition(e, p);
    lemma_next_composition(e, dims, max_order);
    lemma_parts_bounded(n, dims, max_order);
    if q < p {
        lemma_rank_prefix_lt(f, n, q, len, base);
    } else {
        assert(q == p);
        if f[p] < n[p] {
            lemma_rank_prefix_lt(f, n, p, len, base);
        } else {
            // f agrees with n up to p, so what is left of f sums to n[p + 1].
            lemma_sum_range_split(f, 0, p + 1, len);
            lemma_sum_range_split(e, 0, p + 1, len);
            lemma_sum_range_split(f, 0, p, p + 1);
            lemma_sum_range_split(e, 0, p, p + 1);
            lemma_sum_range_ext(e, f, 0, p);
            assert(sum_range(f, p, p) == 0);
            assert(sum_range(e, p, p) == 0);
            assert(sum_range(f, p, p + 1) == f[p]);
            assert(sum_range(e, p, p + 1) == e[p]);
            assert(n[p] == e[p] - 1);
            lemma_sum_range_nonneg(e, 0, p);
            lemma_sum_range_nonneg(e, p + 1, len);
            assert(n[p + 1] == sum_range(e, p + 1, len) + 1);
            assert(sum_range(f, p + 1, len) == n[p + 1]);
            lemma_sum_range_split(f, p + 1, p + 2, len);
            assert(sum_range(f, p + 1, p + 1) == 0);
            lemma_sum_range_nonneg(f, p + 2, len);
            if f[p + 1] < n[p + 1] {
                lemma_rank_prefix_lt(f, n, p + 1, len, base);
            } else {
                assert forall|j: int| p + 2 <= j < len implies f[j] == 0 by {
                    lemma_sum_range_bound(f, p + 2, len, j);
                }
                assert forall|j: int| 0 <= j < len implies f[j] == n[j] by {}
                lemma_rank_prefix_ext(f, n, len, base);
            }
        }
    }
}

/// The exponent lists that the enumeration records from composition `e`
/// on: the exponents of `e`, then those of every later composition in
/// reverse lexicographic order; the exponents of the last composition are
/// recorded twice.
pub open spec fn exponent_run(e: Seq<usize>, dims: int, max_order: int) -> Seq<Seq<usize>>
    decreases rank_prefix(e, dims + 1, max_order + 1),
    when dims >= 1 && 0 <= max_order < usize::MAX && composition(e, dims, max_order)
    via exponent_run_decreases
{
    let p = pivot(e, dims);
    if p < 0 {
        seq![exponents_of(e), exponents_of(e)]
    } else {
        seq![exponents_of(e)] + exponent_run(next_composition(e, p), dims, max_order)
    }
}

#[via_fn]
proof fn exponent_run_decreases(e: Seq<usize>, dims: int, max_order: int) {
    if pivot(e, dims) >= 0 {
        lemma_next_composition(e, dims, max_order);
        lemma_rank_prefix_nonneg(next_composition(e, pivot(e, dims)), dims + 1, max_order + 1);
    }
}

/// Every list that the enumeration records from `e` is the exponent list
/// of a composition of rank at most that of `e`.
pub proof fn lemma_run_sound(e: Seq<usize>, dims: int, max_order: int, k: int)
    requires
        dims >= 1,
        0 <= max_order < usize::MAX,
        composition(e, dims, max_order),
        0 <= k < exponent_run(e, dims, max_order).len(),
    ensures
        exists|f: Seq<usize>|
            composition(f, dims, max_order) && rank_le(f, e, dims, max_order) && exponents_of(f)
                == #[trigger] exponent_run(e, dims, max_order)[k],
    decreases rank_prefix(e, dims + 1, max_order + 1),
{
    let p = pivot(e, dims);
    if p < 0 || k == 0 {
        assert(exponent_run(e, dims, max_order)[k] == exponents_of(e));
        assert(rank_le(e, e, dims, max_order));
    } else {
        let n = next_composition(e, p);
        lemma_next_composition(e, dims, max_order);
        lemma_rank_prefix_nonneg(n, dims + 1, max_order + 1);
        lemma_run_sound(n, dims, max_order, k - 1);
        assert(exponent_run(e, dims, max_order)[k] == exponent_run(n, dims, max_order)[k - 1]);
        let f = choose|f: Seq<usize>|
            composition(f, dims, max_order) && rank_le(f, n, dims, max_order) && exponents_of(f)
                == #[trigger] exponent_run(n, dims, max_order)[k - 1];
        assert(rank_le(f, e, dims, max_order));
    }
}

/// Compositions of one order with the same exponents are equal.
pub proof fn lemma_exponents_determine(e: Seq<usize>, f: Seq<usize>, dims: int, max_order: int)
    requires
        dims >= 1,
        composition(e, dims, max_order),
        composition(f, dims, max_order),
        exponents_of(e) == exponents_of(f),
    ensures
        e == f,
{
    assert forall|j: int| 1 <= j < dims + 1 implies e[j] == f[j] by {
        assert(e[j] == exponents_of(e)[j - 1]);
        assert(f[j] == exponents_of(f)[j - 1]);
    }
    lemma_sum_range_split(e, 0, 1, dims + 1);
    lemma_sum_range_split(f, 0, 1, dims + 1);
    lemma_sum_range_ext(e, f, 1, dims + 1);
    assert(sum_range(e, 0, 0) == 0);
    assert(sum_range(f, 0, 0) == 0);
    assert(e =~= f);
}

/// The enumeration records no list twice, except that the last list is
/// recorded once more at the end.
pub proof fn lemma_run_distinct(e: Seq<usize>, dims: int, max_order: int)
    requires
        dims >= 1,
        0 <= max_order < usize::MAX,
        composition(e, dims, max_order),
    ensures
        forall|k: int, l: int|
            0 <= k < l < exponent_run(e, dims, max_order).len() - 1 ==> exponent_run(e, dims, max_order)[k]
                != exponent_run(e, dims, max_order)[l],
        exponent_run(e, dims, max_order).len() >= 2,
        exponent_run(e, dims, max_order).last() == exponent_run(e, dims, max_order)[exponent_run(e, dims, max_order).len() - 2],
    decreases rank_prefix(e, dims + 1, max_order + 1),
{
    let p = pivot(e, dims);
    let run = exponent_run(e, dims, max_order);
    if p >= 0 {
        let n = next_composition(e, p);
        lemma_next_composition(e, dims, max_order);
        lemma_rank_prefix_nonneg(n, dims + 1, max_order + 1);
        lemma_run_distinct(n, dims, max_order);
        let rest = exponent_run(n, dims, max_order);
        assert(run == seq![exponents_of(e)] + rest);
        assert forall|k: int, l: int| 0 <= k < l < run.len() - 1 implies run[k] != run[l] by {
            if k == 0 {
                assert(run[l] == rest[l - 1]);
                lemma_run_sound(n, dims, max_order, l - 1);
                let f = choose|f: Seq<usize>|
                    composition(f, dims, max_order) && rank_le(f, n, dims, max_order) && exponents_of(f)
                        == #[trigger] rest[l - 1];
                if run[k] == run[l] {
                    lemma_exponents_determine(e, f, dims, max_order);
                }
            } else {
                assert(run[k] == rest[k - 1]);
                assert(run[l] == rest[l - 1]);
            }
        }
    }
}

/// Every composition of rank at most that of `e` has its exponent list
/// recorded by the enumeration from `e`.
pub proof fn lemma_run_complete(e: Seq<usize>, f: Seq<usize>, dims: int, max_order: int)
    requires
        dims >= 1,
        0 <= max_order < usize::MAX,
        composition(e, dims, max_order),
        composition(f, dims, max_order),
        rank_le(f, e, dims, max_order),
    ensures
        exponent_run(e, dims, max_order).contains(exponents_of(f)),
    decreases rank_prefix(e, dims + 1, max_order + 1),
{
    let run = exponent_run(e, dims, max_order);
    if rank_prefix(f, dims + 1, max_order + 1) == rank_prefix(e, dims + 1, max_order + 1) {
        lemma_parts_bounded(e, dims, max_order);
        lemma_parts_bounded(f, dims, max_order);
        lemma_rank_order(f, e, dims + 1, max_order + 1);
        assert(f =~= e);
        assert(run[0] == exponents_of(e));
    } else {
        lemma_predecessor(e, f, dims, max_order);
        let p = pivot(e, dims);
        let n = next_composition(e, p);
        lemma_next_composition(e, dims, max_order);
        lemma_rank_prefix_nonneg(n, dims + 1, max_order + 1);
        lemma_run_complete(n, f, dims, max_order);
        let rest = exponent_run(n, dims, max_order);
        assert(run == seq![exponents_of(e)] + rest);
        let k = choose|k: int| 0 <= k < rest.len() && rest[k] == exponents_of(f);
        assert(run[k + 1] == exponents_of(f));
    }
}

/// The composition the enumeration starts from: the whole order unused.
pub open spec fn first_composition(dims: int, max_order: int) -> Seq<usize> {
    Seq::new((dims + 1) as nat, |j: int| if j == 0 { max_order as usize } else { 0usize })
}

/// Sum of the parts of a whole sequence.
pub open spec fn seq_total(t: Seq<usize>) -> int {
    sum_range(t, 0, t.len() as int)
}

/// The enumeration of exponent lists in `dims` variables up to order
/// `max_order` lists exactly the lists of `dims` exponents whose total is
/// at most `max_order`: each of them, and each once, except that the last
/// list is repeated at the end. It starts with all exponents zero.
pub proof fn lemma_monomial_exponents(dims: int, max_order: int)
    requires
        dims >= 1,
        0 <= max_order < usize::MAX,
    ensures
        ({
            let run = exponent_run(first_composition(dims, max_order), dims, max_order);
            &&& forall|t: Seq<usize>|
                t.len() == dims && seq_total(t) <= max_order ==> #[trigger] run.contains(t)
            &&& forall|k: int|
                0 <= k < run.len() ==> (#[trigger] run[k]).len() == dims && seq_total(run[k])
                    <= max_order
            &&& forall|k: int, l: int| 0 <= k < l < run.len() - 1 ==> run[k] != run[l]
            &&& run.len() >= 2
            &&& run.last() == run[run.len() - 2]
            &&& run[0] == Seq::new(dims as nat, |j: int| 0usize)
        }),
{
    let first = first_composition(dims, max_order);
    let run = exponent_run(first, dims, max_order);
    let len = dims + 1;
    lemma_sum_range_split(first, 0, 1, len);
    assert(sum_range(first, 0, 0) == 0);
    lemma_sum_range_zeros(first, 1, len);
    assert(composition(first, dims, max_order));
    lemma_run_distinct(first, dims, max_order);
    lemma_parts_bounded(first, dims, max_order);
    assert forall|t: Seq<usize>| t.len() == dims && seq_total(t) <= max_order implies #[trigger] run.contains(t) by {
        lemma_sum_range_nonneg(t, 0, dims);
        let f = seq![(max_order - seq_total(t)) as usize] + t;
        assert(f[0] == max_order - seq_total(t));
        lemma_sum_range_split(f, 0, 1, len);
        assert(sum_range(f, 0, 0) == 0);
        assert(sum_range(f, 0, 1) == f[0]);
        assert forall|j: int| 1 <= j < len implies f[j] == t[j - 1] by {}
        lemma_sum_range_shift(f, t, dims);
        assert(composition(f, dims, max_order));
        lemma_parts_bounded(f, dims, max_order);
        if f[0] < first[0] {
            lemma_rank_prefix_lt(f, first, 0, len, max_order + 1);
        } else {
            assert forall|j: int| 0 <= j < dims implies t[j] == 0 by {
                lemma_sum_range_bound(t, 0, dims, j);
            }
            assert(f =~= first);
        }
        lemma_run_complete(first, f, dims, max_order);
        assert(exponents_of(f) =~= t);
    }
    assert forall|k: int| 0 <= k < run.len() implies (#[trigger] run[k]).len() == dims && seq_total(run[k]) <= max_order by {
        lemma_run_sound(first, dims, max_order, k);
        let f = choose|f: Seq<usize>|
            composition(f, dims, max_order) && rank_le(f, first, dims, max_order) && exponents_of(f) == #[trigger] run[k];
        lemma_sum_range_split(f, 0, 1, len);
        assert(sum_range(f, 0, 0) == 0);
        lemma_sum_range_shift(f, run[k], dims);
    }
    assert(run[0] == exponents_of(first));
    assert(run[0] =~= Seq::new(dims as nat, |j: int| 0usize));
}

/// The parts after the first of `f` sum as the whole of `t` when `t` is
/// `f` without its first part.
pub proof fn lemma_sum_range_shift(f: Seq<usize>, t: Seq<usize>, dims: int)
    requires
        dims >= 0,
        f.len() == dims + 1,
        t.len() == dims,
        forall|j: int| 1 <= j < dims + 1 ==> f[j] == t[j - 1],
    ensures
        sum_range(f, 1, dims + 1) == seq_total(t),
{
    lemma_sum_range_shift_prefix(f, t, dims);
}

proof fn lemma_sum_range_shift_prefix(f: Seq<usize>, t: Seq<usize>, n: int)
    requires
        0 <= n <= t.len(),
        f.len() == t.len() + 1,
        forall|j: int| 1 <= j < t.len() + 1 ==> f[j] == t[j - 1],
    ensures
        sum_range(f, 1, n + 1) == sum_range(t, 0, n),
    decreases n,
{
    if n > 0 {
        lemma_sum_range_shift_prefix(f, t, n - 1);
    }
}

/// The exponent lists of the monomials of a random polynomial map in `dims`
/// variables up to total order `max_order`: every composition of
/// `max_order` into `dims + 1` parts, from the whole order unused to all of
/// it on the last variable, in reverse lexicographic order; each list holds
/// parts 1..=dims, and the last list is recorded twice.
pub fn monomial_exponents(dims: usize, max_order: usize) -> (terms: Vec<Vec<usize>>)
    requires
        dims >= 1,
        dims < usize::MAX,
        max_order < usize::MAX,
    ensures
        terms@.len() == exponent_run(first_composition(dims as int, max_order as int), dims as int, max_order as int).len(),
        forall|k: int|
            0 <= k < terms@.len() ==> (#[trigger] terms@[k])@ == exponent_run(
                first_composition(dims as int, max_order as int),
                dims as int,
                max_order as int,
            )[k],
{
    let len = dims + 1;
    let mut exponents: Vec<usize> = Vec::new();
    let mut j: usize = 0;
    while j < len
        invariant
            len == dims + 1,
            0 <= j <= len,
            exponents@.len() == j,
            forall|k: int| 0 <= k < j ==> #[trigger] exponents@[k] == first_composition(dims as int, max_order as int)[k],
        decreases len - j,
    {
        if j == 0 {
            exponents.push(max_order);
        } else {
            exponents.push(0);
        }
        j += 1;
    }
    let ghost start = exponents@;
    proof {
        assert(start =~= first_composition(dims as int, max_order as int));
        lemma_sum_range_split(start, 0, 1, len as int);
        assert(sum_range(start, 0, 0) == 0);
        lemma_sum_range_zeros(start, 1, len as int);
    }
    let ghost full = exponent_run(start, dims as int, max_order as int);
    let mut terms: Vec<Vec<usize>> = Vec::new();
    let ghost mut out: Seq<Seq<usize>> = Seq::empty();
    loop
        invariant_except_break
            len == dims + 1,
            dims >= 1,
            max_order < usize::MAX,
            composition(exponents@, dims as int, max_order as int),
            terms@.len() == out.len(),
            forall|k: int| 0 <= k < out.len() ==> (#[trigger] terms@[k])@ == out[k],
            out + exponent_run(exponents@, dims as int, max_order as int) == full,
        ensures
            len == dims + 1,
            terms@.len() == out.len(),
            forall|k: int| 0 <= k < out.len() ==> (#[trigger] terms@[k])@ == out[k],
            out.push(exponents_of(exponents@)) == full,
            exponents@.len() == len,
        decreases rank_prefix(exponents@, dims + 1, max_order + 1),
    {
        let ghost e = exponents@;
        let mut tail: Vec<usize> = Vec::new();
        let mut k: usize = 1;
        while k < len
            invariant
                len == dims + 1,
                exponents@ == e,
                e.len() == len,
                1 <= k <= len,
                tail@ == e.subrange(1, k as int),
            decreases len - k,
        {
            tail.push(exponents[k]);
            assert(e.subrange(1, k + 1) =~= e.subrange(1, k as int).push(e[k as int]));
            k += 1;
        }
        terms.push(tail);
        proof {
            out = out.push(exponents_of(e));
        }
        let mut i: usize = dims;
        while i > 0 && exponents[i - 1] == 0
            invariant
                len == dims + 1,
                exponents@ == e,
                e.len() == len,
                0 <= i <= dims,
                pivot(e, dims as int) == pivot(e, i as int),
            decreases i,
        {
            i -= 1;
        }
        if i == 0 {
            proof {
                assert(exponent_run(e, dims as int, max_order as int) == seq![exponents_of(e), exponents_of(e)]);
                assert(out.push(exponents_of(e)) =~= out.drop_last() + exponent_run(e, dims as int, max_order as int));
            }
            break;
        }
        let p = i - 1;
        proof {
            lemma_pivot(e, dims as int);
            lemma_next_composition(e, dims as int, max_order as int);
            lemma_parts_bounded(e, dims as int, max_order as int);
            lemma_sum_range_split(e, 0, p + 1, len as int);
            lemma_sum_range_nonneg(e, 0, p + 1);
        }
        let mut right_sum: usize = 0;
        let mut j: usize = p + 1;
        while j < len
            invariant
                len == dims + 1,
                exponents@ == e,
                e.len() == len,
                p + 1 <= j <= len,
                p < dims,
                right_sum == sum_range(e, p + 1, j as int),
                sum_range(e, p + 1, len as int) <= max_order,
                max_order < usize::MAX,
            decreases len - j,
        {
            proof {
                lemma_sum_range_split(e, p + 1, j + 1, len as int);
                lemma_sum_range_nonneg(e, j + 1, len as int);
            }
            right_sum += exponents[j];
            j += 1;
        }
        let next_value = right_sum + 1;
        let lowered = exponents[p] - 1;
        exponents.set(p, lowered);
        exponents.set(p + 1, next_value);
        let mut z: usize = p + 2;
        while z < len
            invariant
                len == dims + 1,
                p + 2 <= z <= len,
                exponents@.len() == len,
                forall|t: int| 0 <= t < z ==> #[trigger] exponents@[t] == next_composition(e, p as int)[t],
                e.len() == len,
            decreases len - z,
        {
            exponents.set(z, 0);
            z += 1;
        }
        proof {
            assert(exponents@ =~= next_composition(e, p as int));
            assert(p == pivot(e, dims as int));
            lemma_rank_prefix_nonneg(exponents@, dims + 1, max_order + 1);
            assert(exponent_run(e, dims as int, max_order as int) == seq![exponents_of(e)] + exponent_run(
                exponents@,
                dims as int,
                max_order as int,
            ));
            assert(out + exponent_run(exponents@, dims as int, max_order as int) =~= out.drop_last() + exponent_run(
                e,
                dims as int,
                max_order as int,
            ));
        }
    }
    let mut tail: Vec<usize> = Vec::new();
    let mut k: usize = 1;
    while k < len
        invariant
            len == dims + 1,
            exponents@.len() == len,
            1 <= k <= len,
            tail@ == exponents@.subrange(1, k as int),
        decreases len - k,
    {
        tail.push(exponents[k]);
        assert(exponents@.subrange(1, k + 1) =~= exponents@.subrange(1, k as int).push(exponents@[k as int]));
        k += 1;
    }
    terms.push(tail);
    proof {
        assert(out.push(exponents_of(exponents@)) == full);
    }
    terms
}

} // verus!


