use vstd::prelude::*;
use crate::cell::{
    FilterType, applicable, cell_less, cell_lt, cell_matches, cell_passes, cell_tie, filter_applies,
    lemma_cell_order,
};
use crate::relation::Relation;

verus! {

/// The column the view is sorted on, and the direction.
#[derive(Clone, Copy, Debug, PartialEq, Eq, Structural)]
pub struct SortSpec {
    pub column: usize,
    pub descending: bool,
}

/// A filter on one column.
#[derive(Debug)]
pub struct FilterSpec {
    pub column: usize,
    pub filter_type: FilterType,
    pub pattern: String,
}

/// A filter takes effect when its pattern is not empty and it applies to its column's kind;
/// otherwise every row passes.
pub open spec fn filter_active(rel: Relation, f: FilterSpec) -> bool {
    f.pattern@.len() > 0 && applicable(rel.kinds@[f.column as int], f.filter_type, f.pattern@)
}

/// Whether row `i` of `rel` passes the filter `f`.
pub open spec fn keeps(rel: Relation, f: Option<FilterSpec>, i: int) -> bool {
    match f {
        None => true,
        Some(f) => !filter_active(rel, f) || cell_matches(
            rel.cell(i, f.column as int),
            f.filter_type,
            f.pattern@,
        ),
    }
}

/// The positions among the first `n` rows that pass the filter, ascending.
pub open spec fn selected_upto(rel: Relation, f: Option<FilterSpec>, n: nat) -> Seq<usize>
    decreases n,
{
    if n == 0 {
        Seq::empty()
    } else {
        let prev = selected_upto(rel, f, (n - 1) as nat);
        if keeps(rel, f, n - 1) {
            prev.push((n - 1) as usize)
        } else {
            prev
        }
    }
}

/// The positions of the rows that pass the filter, in row order.
pub open spec fn selected(rel: Relation, f: Option<FilterSpec>) -> Seq<usize> {
    selected_upto(rel, f, rel.height())
}

/// Whether row `a` comes before row `b` under sort `s`: by the sorted column's value in
/// the chosen direction, and rows with tied values in row order.
pub open spec fn precedes(rel: Relation, s: SortSpec, a: usize, b: usize) -> bool {
    let x = rel.cell(a as int, s.column as int);
    let y = rel.cell(b as int, s.column as int);
    if s.descending {
        cell_lt(y, x) || (cell_tie(x, y) && a < b)
    } else {
        cell_lt(x, y) || (cell_tie(x, y) && a < b)
    }
}

/// `q` with `x` put before the first element that `x` precedes.
pub open spec fn insert_sorted(rel: Relation, s: SortSpec, q: Seq<usize>, x: usize) -> Seq<usize>
    decreases q.len(),
{
    if q.len() == 0 {
        seq![x]
    } else if precedes(rel, s, x, q[0]) {
        seq![x] + q
    } else {
        seq![q[0]] + insert_sorted(rel, s, q.drop_first(), x)
    }
}

/// `q` sorted by `s`, by inserting its elements one at a time.
pub open spec fn sorted_by(rel: Relation, s: SortSpec, q: Seq<usize>) -> Seq<usize>
    decreases q.len(),
{
    if q.len() == 0 {
        q
    } else {
        insert_sorted(rel, s, sorted_by(rel, s, q.drop_last()), q.last())
    }
}

/// `q` under an optional sort.
pub open spec fn ordered(rel: Relation, s: Option<SortSpec>, q: Seq<usize>) -> Seq<usize> {
    match s {
        None => q,
        Some(s) => sorted_by(rel, s, q),
    }
}

/// The rows shown: the filtered rows of `rel`, then sorted.
pub open spec fn view_of(rel: Relation, f: Option<FilterSpec>, s: Option<SortSpec>) -> Seq<usize> {
    ordered(rel, s, selected(rel, f))
}

pub open spec fn filter_fits(rel: Relation, f: Option<FilterSpec>) -> bool {
    f matches Some(g) ==> g.column < rel.width()
}

pub open spec fn sort_fits(rel: Relation, s: Option<SortSpec>) -> bool {
    s matches Some(t) ==> t.column < rel.width()
}

pub open spec fn in_bounds(q: Seq<usize>, n: nat) -> bool {
    forall|i: int| 0 <= i < q.len() ==> #[trigger] q[i] < n
}

/// The rows of `rel` that pass `f`, in row order.
pub fn select_rows(rel: &Relation, f: &Option<FilterSpec>) -> (r: Vec<usize>)
    requires
        rel.wf(),
        filter_fits(*rel, *f),
    ensures
        r@ == selected(*rel, *f),
        in_bounds(r@, rel.height()),
{
    let active = match f {
        None => false,
        Some(g) => !g.pattern.as_str().is_empty() && filter_applies(rel.kinds[g.column], g.filter_type, &g.pattern),
    };
    let mut out: Vec<usize> = Vec::new();
    let mut i: usize = 0;
    while i < rel.rows.len()
        invariant
            rel.wf(),
            filter_fits(*rel, *f),
            i <= rel.rows.len(),
            active <==> (*f matches Some(g) && filter_active(*rel, g)),
            out@ == selected_upto(*rel, *f, i as nat),
            in_bounds(out@, i as nat),
        decreases rel.rows.len() - i,
    {
        assert(rel.rows@[i as int].len() == rel.width());
        let keep = match f {
            None => true,
            Some(g) => !active || cell_passes(&rel.rows[i][g.column], g.filter_type, &g.pattern),
        };
        if keep {
            out.push(i);
        }
        i = i + 1;
    }
    out
}

/// Whether row `a` comes before row `b` under `s`.
pub fn row_precedes(rel: &Relation, s: SortSpec, a: usize, b: usize) -> (r: bool)
    requires
        rel.wf(),
        s.column < rel.width(),
        a < rel.height(),
        b < rel.height(),
    ensures
        r == precedes(*rel, s, a, b),
{
    assert(rel.rows@[a as int].len() == rel.width());
    assert(rel.rows@[b as int].len() == rel.width());
    let x = &rel.rows[a][s.column];
    let y = &rel.rows[b][s.column];
    let xy = cell_less(x, y);
    let yx = cell_less(y, x);
    if s.descending {
        yx || (!xy && !yx && a < b)
    } else {
        xy || (!xy && !yx && a < b)
    }
}

proof fn lemma_insert_at(rel: Relation, s: SortSpec, q: Seq<usize>, x: usize, pos: int)
    requires
        0 <= pos <= q.len(),
        forall|j: int| 0 <= j < pos ==> !precedes(rel, s, x, #[trigger] q[j]),
        pos == q.len() || precedes(rel, s, x, q[pos]),
    ensures
        insert_sorted(rel, s, q, x) == q.insert(pos, x),
    decreases q.len(),
{
    if q.len() == 0 {
        assert(q.insert(pos, x) =~= seq![x]);
    } else if precedes(rel, s, x, q[0]) {
        assert(q.insert(pos, x) =~= seq![x] + q);
    } else {
        let t = q.drop_first();
        assert forall|j: int| 0 <= j < pos - 1 implies !precedes(rel, s, x, #[trigger] t[j]) by {
            assert(t[j] == q[j + 1]);
        }
        lemma_insert_at(rel, s, t, x, pos - 1);
        assert(q.insert(pos, x) =~= seq![q[0]] + t.insert(pos - 1, x));
    }
}

/// `q` sorted by `s`; rows with tied values keep their order in `q`.
pub fn sort_rows(rel: &Relation, s: SortSpec, q: &Vec<usize>) -> (r: Vec<usize>)
    requires
        rel.wf(),
        s.column < rel.width(),
        in_bounds(q@, rel.height()),
    ensures
        r@ == sorted_by(*rel, s, q@),
        in_bounds(r@, rel.height()),
{
    let mut out: Vec<usize> = Vec::new();
    let mut i: usize = 0;
    while i < q.len()
        invariant
            rel.wf(),
            s.column < rel.width(),
            in_bounds(q@, rel.height()),
            i <= q.len(),
            out@ == sorted_by(*rel, s, q@.take(i as int)),
            in_bounds(out@, rel.height()),
        decreases q.len() - i,
    {
        let x = q[i];
        let mut k: usize = 0;
        while k < out.len() && !row_precedes(rel, s, x, out[k])
            invariant
                rel.wf(),
                s.column < rel.width(),
                x < rel.height(),
                in_bounds(out@, rel.height()),
                k <= out.len(),
                forall|j: int| 0 <= j < k ==> !precedes(*rel, s, x, #[trigger] out@[j]),
            decreases out.len() - k,
        {
            k = k + 1;
        }
        proof {
            lemma_insert_at(*rel, s, out@, x, k as int);
            assert(q@.take(i + 1).drop_last() =~= q@.take(i as int));
            assert(q@.take(i + 1).last() == x);
        }
        out.insert(k, x);
        i = i + 1;
    }
    proof {
        assert(q@.take(q.len() as int) =~= q@);
    }
    out
}


/// Every element of `q` comes before every later one under `s`.
pub open spec fn sorted_pairs(rel: Relation, s: SortSpec, q: Seq<usize>) -> bool {
    forall|i: int, j: int| 0 <= i < j < q.len() ==> precedes(rel, s, #[trigger] q[i], #[trigger] q[j])
}

/// `precedes` is a strict total order on row positions.
pub proof fn lemma_precedes_order(rel: Relation, s: SortSpec, a: usize, b: usize, c: usize)
    ensures
        !precedes(rel, s, a, a),
        a != b ==> precedes(rel, s, a, b) || precedes(rel, s, b, a),
        precedes(rel, s, a, b) ==> !precedes(rel, s, b, a),
        precedes(rel, s, a, b) && precedes(rel, s, b, c) ==> precedes(rel, s, a, c),
{
    let x = rel.cell(a as int, s.column as int);
    let y = rel.cell(b as int, s.column as int);
    let z = rel.cell(c as int, s.column as int);
    lemma_cell_order(x, y, z);
    lemma_cell_order(z, y, x);
    lemma_cell_order(y, x, z);
    lemma_cell_order(x, z, y);
    lemma_cell_order(y, z, x);
    lemma_cell_order(z, x, y);
}

proof fn lemma_insert_sorted(rel: Relation, s: SortSpec, q: Seq<usize>, x: usize)
    ensures
        insert_sorted(rel, s, q, x).len() == q.len() + 1,
        forall|y: usize| #[trigger] insert_sorted(rel, s, q, x).contains(y) <==> (q.contains(y) || y == x),
        sorted_pairs(rel, s, q) && !q.contains(x) ==> sorted_pairs(rel, s, insert_sorted(rel, s, q, x)),
    decreases q.len(),
{
    let r = insert_sorted(rel, s, q, x);
    if q.len() == 0 {
        assert forall|y: usize| #[trigger] r.contains(y) <==> (q.contains(y) || y == x) by {
            if r.contains(y) {
                assert(r[0] == x);
            }
            if y == x {
                assert(r[0] == y);
            }
        }
    } else if precedes(rel, s, x, q[0]) {
        assert forall|y: usize| #[trigger] r.contains(y) <==> (q.contains(y) || y == x) by {
            if r.contains(y) {
                let k = choose|k: int| 0 <= k < r.len() && r[k] == y;
                if k > 0 {
                    assert(q[k - 1] == y);
                }
            }
            if q.contains(y) {
                let k = choose|k: int| 0 <= k < q.len() && q[k] == y;
                assert(r[k + 1] == y);
            }
            if y == x {
                assert(r[0] == y);
            }
        }
        if sorted_pairs(rel, s, q) && !q.contains(x) {
            assert forall|i: int, j: int| 0 <= i < j < r.len() implies precedes(
                rel,
                s,
                #[trigger] r[i],
                #[trigger] r[j],
            ) by {
                if i == 0 {
                    if j > 1 {
                        assert(precedes(rel, s, q[0], q[j - 1]));
                        lemma_precedes_order(rel, s, x, q[0], q[j - 1]);
                    }
                } else {
                    assert(precedes(rel, s, q[i - 1], q[j - 1]));
                }
            }
        }
    } else {
        let t = q.drop_first();
        let u = insert_sorted(rel, s, t, x);
        lemma_insert_sorted(rel, s, t, x);
        assert(r == seq![q[0]] + u);
        assert forall|y: usize| #[trigger] r.contains(y) <==> (q.contains(y) || y == x) by {
            if r.contains(y) {
                let k = choose|k: int| 0 <= k < r.len() && r[k] == y;
                if k > 0 {
                    assert(u[k - 1] == y);
                    assert(u.contains(y));
                    if t.contains(y) {
                        let m = choose|m: int| 0 <= m < t.len() && t[m] == y;
                        assert(q[m + 1] == y);
                    }
                } else {
                    assert(q[0] == y);
                }
            }
            if q.contains(y) {
                let k = choose|k: int| 0 <= k < q.len() && q[k] == y;
                if k > 0 {
                    assert(t[k - 1] == y);
                    assert(t.contains(y));
                    assert(u.contains(y));
                    let m = choose|m: int| 0 <= m < u.len() && u[m] == y;
                    assert(r[m + 1] == y);
                } else {
                    assert(r[0] == y);
                }
            }
            if y == x {
                assert(u.contains(x));
                let m = choose|m: int| 0 <= m < u.len() && u[m] == x;
                assert(r[m + 1] == y);
            }
        }
        if sorted_pairs(rel, s, q) && !q.contains(x) {
            assert(x != q[0]);
            lemma_precedes_order(rel, s, x, q[0], x);
            assert(precedes(rel, s, q[0], x));
            assert forall|i: int, j: int| 0 <= i < j < t.len() implies precedes(
                rel,
                s,
                #[trigger] t[i],
                #[trigger] t[j],
            ) by {
                assert(precedes(rel, s, q[i + 1], q[j + 1]));
            }
            assert(!t.contains(x)) by {
                if t.contains(x) {
                    let m = choose|m: int| 0 <= m < t.len() && t[m] == x;
                    assert(q[m + 1] == x);
                }
            }
            assert forall|i: int, j: int| 0 <= i < j < r.len() implies precedes(
                rel,
                s,
                #[trigger] r[i],
                #[trigger] r[j],
            ) by {
                if i == 0 {
                    let y = u[j - 1];
                    assert(u.contains(y));
                    if y != x {
                        assert(t.contains(y));
                        let m = choose|m: int| 0 <= m < t.len() && t[m] == y;
                        assert(precedes(rel, s, q[0], q[m + 1]));
                    }
                } else {
                    assert(precedes(rel, s, u[i - 1], u[j - 1]));
                }
            }
        }
    }
}

/// Sorting keeps the elements of `q` and, when they are distinct, puts them in the order of
/// `precedes`.
pub proof fn lemma_sorted_by(rel: Relation, s: SortSpec, q: Seq<usize>)
    ensures
        sorted_by(rel, s, q).len() == q.len(),
        forall|y: usize| #[trigger] sorted_by(rel, s, q).contains(y) <==> q.contains(y),
        q.no_duplicates() ==> sorted_pairs(rel, s, sorted_by(rel, s, q)),
    decreases q.len(),
{
    if q.len() > 0 {
        let p = q.drop_last();
        lemma_sorted_by(rel, s, p);
        lemma_insert_sorted(rel, s, sorted_by(rel, s, p), q.last());
        assert forall|y: usize| #[trigger] sorted_by(rel, s, q).contains(y) <==> q.contains(y) by {
            if q.contains(y) && y != q.last() {
                let k = choose|k: int| 0 <= k < q.len() && q[k] == y;
                assert(p[k] == y);
            }
            if p.contains(y) {
                let k = choose|k: int| 0 <= k < p.len() && p[k] == y;
                assert(q[k] == y);
            }
            if y == q.last() {
                assert(q[q.len() - 1] == y);
            }
        }
        if q.no_duplicates() {
            assert(p.no_duplicates()) by {
                assert forall|i: int, j: int| 0 <= i < p.len() && 0 <= j < p.len() && i != j
                    implies p[i] != p[j] by {
                    assert(q[i] == p[i] && q[j] == p[j]);
                }
            }
            assert(!sorted_by(rel, s, p).contains(q.last())) by {
                if p.contains(q.last()) {
                    let k = choose|k: int| 0 <= k < p.len() && p[k] == q.last();
                    assert(q[k] == q[q.len() - 1]);
                }
            }
        }
    }
}

/// The rows that pass a filter come in ascending order, each a row of the relation.
pub proof fn lemma_selected_upto(rel: Relation, f: Option<FilterSpec>, n: nat)
    requires
        n <= usize::MAX,
    ensures
        forall|i: int, j: int|
            0 <= i < j < selected_upto(rel, f, n).len() ==> #[trigger] selected_upto(rel, f, n)[i]
                < #[trigger] selected_upto(rel, f, n)[j],
        in_bounds(selected_upto(rel, f, n), n),
    decreases n,
{
    if n > 0 {
        lemma_selected_upto(rel, f, (n - 1) as nat);
    }
}

/// A filter that does not take effect selects every row, as no filter does.
pub proof fn lemma_selected_inactive(rel: Relation, f: FilterSpec, n: nat)
    requires
        !filter_active(rel, f),
    ensures
        selected_upto(rel, Some(f), n) == selected_upto(rel, None, n),
    decreases n,
{
    if n > 0 {
        lemma_selected_inactive(rel, f, (n - 1) as nat);
    }
}

} // verus!
