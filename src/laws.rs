use vstd::prelude::*;
use crate::cell::{FilterType, applicable, cell_tie};
use crate::error::TableError;
use crate::relation::Relation;
use crate::table::{TableState, clear_effect, filter_effect, load_effect, sort_effect};
use crate::view::{
    FilterSpec, lemma_selected_inactive, lemma_selected_upto, lemma_sorted_by, ordered, precedes,
    selected, view_of,
};

verus! {

/// Loading replaces and never merges: whatever was loaded before, loading the same sources
/// leaves the same relation, the same rows shown, the same sort, filter and error.
/// (A selection with no source is not a load: it changes nothing.)
pub proof fn law_load_replaces(
    a: TableState,
    a2: TableState,
    b: TableState,
    b2: TableState,
    read: Result<Vec<Relation>, String>,
    ra: Result<(), TableError>,
    rb: Result<(), TableError>,
)
    requires
        a.wf(),
        b.wf(),
        !(read matches Ok(parts) && parts@.len() == 0),
        load_effect(a, a2, read, ra),
        load_effect(b, b2, read, rb),
    ensures
        a2.relation() is Some <==> b2.relation() is Some,
        a2.relation() matches Some(x) ==> b2.relation() matches Some(y) && x.names == y.names
            && x.kinds == y.kinds && x.rows@ == y.rows@,
        a2.shown() == b2.shown(),
        a2.sort_state() == b2.sort_state(),
        a2.filter_state() == b2.filter_state(),
        a2.error_state() == b2.error_state(),
        ra == rb,
{
    if let (Some(x), Some(y)) = (a2.relation(), b2.relation()) {
        assert(x.height() == y.height());
        lemma_same_rows_selected_all(x, y, x.height());
    }
}

proof fn lemma_same_rows_selected_all(x: Relation, y: Relation, n: nat)
    ensures
        crate::view::selected_upto(x, None, n) == crate::view::selected_upto(y, None, n),
    decreases n,
{
    if n > 0 {
        lemma_same_rows_selected_all(x, y, (n - 1) as nat);
    }
}

/// A filter is always evaluated on the loaded relation: after any run of filter edits, the
/// rows shown are those of the loaded relation that pass the last filter, in the current
/// sort, whatever the earlier filters were.
pub proof fn law_filter_from_snapshot(
    before: TableState,
    after: TableState,
    column: usize,
    filter_type: FilterType,
    pattern: String,
    r: Result<(), TableError>,
)
    requires
        before.wf(),
        before.relation() is Some,
        filter_effect(before, after, column, filter_type, pattern, r),
    ensures
        after.shown() == ordered(
            before.relation()->0,
            before.sort_state(),
            selected(before.relation()->0, Some(FilterSpec { column, filter_type, pattern })),
        ),
{
}

/// Applying a filter and then clearing it shows again, in the same order, the rows shown
/// before the filter, when no filter was set before.
pub proof fn law_clear_filter_round_trip(
    s0: TableState,
    s1: TableState,
    s2: TableState,
    column: usize,
    filter_type: FilterType,
    pattern: String,
    r: Result<(), TableError>,
)
    requires
        s0.wf(),
        s0.relation() is Some,
        s0.filter_state() is None,
        filter_effect(s0, s1, column, filter_type, pattern, r),
        clear_effect(s1, s2),
    ensures
        s2.shown() == s0.shown(),
        s2.sort_state() == s0.sort_state(),
        s2.relation() == s0.relation(),
{
}

/// Sorting is stable, ascending or descending: the rows shown come in the order of the
/// sorted column's values, rows with tied values keep their order in the loaded relation, and
/// the rows shown are exactly those that pass the filter, each once.
pub proof fn law_sort_stable(t: TableState)
    requires
        t.wf(),
        t.relation() is Some,
        t.sort_state() is Some,
    ensures
        ({
            let rel = t.relation()->0;
            let s = t.sort_state()->0;
            let q = t.shown();
            let sel = selected(rel, t.filter_state());
            &&& forall|i: int, j: int|
                0 <= i < j < q.len() ==> precedes(rel, s, #[trigger] q[i], #[trigger] q[j])
            &&& forall|i: int, j: int|
                0 <= i < j < q.len() && cell_tie(
                    rel.cell(q[i] as int, s.column as int),
                    rel.cell(q[j] as int, s.column as int),
                ) ==> #[trigger] q[i] < #[trigger] q[j]
            &&& q.len() == sel.len()
            &&& forall|y: usize| #[trigger] q.contains(y) <==> sel.contains(y)
        }),
{
    let rel = t.relation()->0;
    let s = t.sort_state()->0;
    let sel = selected(rel, t.filter_state());
    lemma_selected_upto(rel, t.filter_state(), rel.height());
    assert(sel.no_duplicates()) by {
        assert forall|i: int, j: int| 0 <= i < sel.len() && 0 <= j < sel.len() && i != j implies sel[i]
            != sel[j] by {
            if i < j {
                assert(sel[i] < sel[j]);
            } else {
                assert(sel[j] < sel[i]);
            }
        }
    }
    lemma_sorted_by(rel, s, sel);
}

/// Clicking a sorted column's header twice brings back the same sort and the same rows in the
/// same order.
pub proof fn law_sort_toggle_twice(s0: TableState, s1: TableState, s2: TableState, column: usize)
    requires
        s0.wf(),
        s0.sort_state() matches Some(t) && t.column == column,
        sort_effect(s0, s1, column),
        sort_effect(s1, s2, column),
    ensures
        s2.sort_state() == s0.sort_state(),
        s2.shown() == s0.shown(),
        s2.relation() == s0.relation(),
        s2.filter_state() == s0.filter_state(),
{
}

/// A filter that does not apply to its column (such as `Contains` on a column that is not
/// text) fails open: every loaded row is shown, in the current sort, and the error is set.
pub proof fn law_filter_fails_open(
    before: TableState,
    after: TableState,
    column: usize,
    filter_type: FilterType,
    pattern: String,
    r: Result<(), TableError>,
)
    requires
        before.wf(),
        before.relation() matches Some(rel) && column < rel.width() && !applicable(
            rel.kinds@[column as int],
            filter_type,
            pattern@,
        ),
        pattern@.len() > 0,
        filter_effect(before, after, column, filter_type, pattern, r),
    ensures
        after.shown() == view_of(before.relation()->0, None, before.sort_state()),
        after.error_state() == Some(TableError::Filter),
        r == Err::<(), TableError>(TableError::Filter),
{
    let rel = before.relation()->0;
    lemma_selected_inactive(rel, FilterSpec { column, filter_type, pattern }, rel.height());
}

} // verus!
