use vstd::prelude::*;
use crate::cell::{Cell, FilterType, Kind, applicable, filter_applies};
use crate::error::TableError;
use crate::relation::{Relation, all_rows, combine, compatible};
use crate::view::{
    FilterSpec, SortSpec, filter_fits, in_bounds, select_rows, selected, sort_fits, sort_rows,
    view_of,
};

verus! {

/// The loaded relation, the sort and filter on it, the rows they leave, and the last error.
///
/// The loaded relation is never changed by sorting or filtering: the rows shown are always
/// recomputed from it.
pub struct TableState {
    snapshot: Option<Relation>,
    view: Vec<usize>,
    sort: Option<SortSpec>,
    filter: Option<FilterSpec>,
    error: Option<TableError>,
}

/// The sort that follows a click on the header of `column`: ascending on a new column,
/// the other direction on the column already sorted.
pub open spec fn toggled(s: Option<SortSpec>, column: usize) -> SortSpec {
    match s {
        Some(t) if t.column == column => SortSpec { column, descending: !t.descending },
        _ => SortSpec { column, descending: false },
    }
}

/// What `load` leaves: an empty selection changes nothing; a read failure, or sources that
/// do not share one schema, leave nothing loaded and set the error; otherwise the sources'
/// rows, joined in order, are loaded with no sort, no filter and no error.
pub open spec fn load_effect(
    before: TableState,
    after: TableState,
    read: Result<Vec<Relation>, String>,
    r: Result<(), TableError>,
) -> bool {
    &&& after.wf()
    &&& match read {
        Err(m) => {
            &&& r == Err::<(), TableError>(TableError::Read(m))
            &&& after.relation() is None
            &&& after.error_state() == Some(TableError::Read(m))
        },
        Ok(parts) => if parts@.len() == 0 {
            &&& r == Err::<(), TableError>(TableError::NoSources)
            &&& after == before
        } else if !compatible(parts@) {
            &&& r == Err::<(), TableError>(TableError::Schema)
            &&& after.relation() is None
            &&& after.error_state() == Some(TableError::Schema)
        } else {
            &&& r == Ok::<(), TableError>(())
            &&& after.relation() matches Some(rel) && rel.names == parts@[0].names
                && rel.kinds == parts@[0].kinds && rel.rows@ == all_rows(parts@)
            &&& after.sort_state() is None
            &&& after.filter_state() is None
            &&& after.error_state() is None
        },
    }
}

/// What `sort_by(column)` leaves: the relation and filter kept, the sort toggled, the rows
/// shown recomputed, no error.
pub open spec fn sort_effect(before: TableState, after: TableState, column: usize) -> bool {
    &&& after.wf()
    &&& after.relation() == before.relation()
    &&& after.filter_state() == before.filter_state()
    &&& after.sort_state() == Some(toggled(before.sort_state(), column))
    &&& after.error_state() is None
}

/// What `apply_filter` leaves: the relation and sort kept, the filter set, the rows shown
/// recomputed; a filter error exactly when the pattern is not empty and the filter does not
/// apply to the column's kind.
pub open spec fn filter_effect(
    before: TableState,
    after: TableState,
    column: usize,
    filter_type: FilterType,
    pattern: String,
    r: Result<(), TableError>,
) -> bool {
    &&& after.wf()
    &&& after.relation() == before.relation()
    &&& after.sort_state() == before.sort_state()
    &&& after.filter_state() == Some(FilterSpec { column, filter_type, pattern })
    &&& before.relation() matches Some(rel) ==> if pattern@.len() == 0 || applicable(
        rel.kinds@[column as int],
        filter_type,
        pattern@,
    ) {
        r is Ok && after.error_state() is None
    } else {
        r == Err::<(), TableError>(TableError::Filter) && after.error_state() == Some(
            TableError::Filter,
        )
    }
}

/// What `clear_filter` leaves: the relation and sort kept, no filter, no error.
pub open spec fn clear_effect(before: TableState, after: TableState) -> bool {
    &&& after.wf()
    &&& after.relation() == before.relation()
    &&& after.sort_state() == before.sort_state()
    &&& after.filter_state() is None
    &&& after.error_state() is None
}

impl TableState {
    /// The relation as last loaded, if a load succeeded.
    pub closed spec fn relation(&self) -> Option<Relation> {
        self.snapshot
    }

    /// The positions in the loaded relation of the rows shown, top to bottom.
    pub closed spec fn shown(&self) -> Seq<usize> {
        self.view@
    }

    pub closed spec fn sort_state(&self) -> Option<SortSpec> {
        self.sort
    }

    pub closed spec fn filter_state(&self) -> Option<FilterSpec> {
        self.filter
    }

    pub closed spec fn error_state(&self) -> Option<TableError> {
        self.error
    }

    /// With a relation loaded, the rows shown are its filtered rows, sorted; without one,
    /// nothing is shown and there is no sort or filter.
    pub open spec fn wf(&self) -> bool {
        match self.relation() {
            Some(rel) => {
                &&& rel.wf()
                &&& sort_fits(rel, self.sort_state())
                &&& filter_fits(rel, self.filter_state())
                &&& self.shown() == view_of(rel, self.filter_state(), self.sort_state())
                &&& in_bounds(self.shown(), rel.height())
            },
            None => {
                &&& self.shown().len() == 0
                &&& self.sort_state() is None
                &&& self.filter_state() is None
            },
        }
    }

    /// A state with nothing loaded.
    pub fn new() -> (r: TableState)
        ensures
            r.wf(),
            r.relation() is None,
            r.error_state() is None,
    {
        TableState { snapshot: None, view: Vec::new(), sort: None, filter: None, error: None }
    }

    fn recompute(&mut self)
        requires
            old(self).relation() matches Some(rel) && rel.wf() && sort_fits(
                rel,
                old(self).sort_state(),
            ) && filter_fits(rel, old(self).filter_state()),
        ensures
            final(self).wf(),
            final(self).relation() == old(self).relation(),
            final(self).sort_state() == old(self).sort_state(),
            final(self).filter_state() == old(self).filter_state(),
            final(self).error_state() == old(self).error_state(),
    {
        let v = match &self.snapshot {
            Some(rel) => {
                let sel = select_rows(rel, &self.filter);
                match self.sort {
                    None => sel,
                    Some(s) => sort_rows(rel, s, &sel),
                }
            },
            None => Vec::new(),
        };
        self.view = v;
    }

    /// Loads what was read from the chosen sources, replacing whatever was loaded before.
    ///
    /// An empty selection changes nothing. A read failure, or sources that do not share one
    /// schema, leave nothing loaded and set the error. Otherwise the sources' rows, joined in
    /// order, become the loaded relation, shown unsorted and unfiltered, and the error is cleared.
    pub fn load(&mut self, read: Result<Vec<Relation>, String>) -> (r: Result<(), TableError>)
        requires
            old(self).wf(),
        ensures
            final(self).wf(),
            load_effect(*old(self), *final(self), read, r),
    {
        match read {
            Err(m) => {
                self.clear();
                let m2 = m.clone();
                self.error = Some(TableError::Read(m));
                Err(TableError::Read(m2))
            },
            Ok(parts) => {
                if parts.len() == 0 {
                    return Err(TableError::NoSources);
                }
                match combine(parts) {
                    Ok(rel) => {
                        self.snapshot = Some(rel);
                        self.sort = None;
                        self.filter = None;
                        self.error = None;
                        self.recompute();
                        Ok(())
                    },
                    Err(e) => {
                        self.clear();
                        self.error = Some(TableError::Schema);
                        Err(e)
                    },
                }
            },
        }
    }

    /// A click on the header of `column`: sorts ascending on a column not yet sorted, and
    /// turns the direction on the column already sorted. The filter stays, and the error is
    /// cleared.
    pub fn sort_by(&mut self, column: usize)
        requires
            old(self).wf(),
            old(self).relation() matches Some(rel) && column < rel.width(),
        ensures
            sort_effect(*old(self), *final(self), column),
    {
        let next = match self.sort {
            Some(t) => if t.column == column {
                SortSpec { column, descending: !t.descending }
            } else {
                SortSpec { column, descending: false }
            },
            None => SortSpec { column, descending: false },
        };
        self.sort = Some(next);
        self.error = None;
        self.recompute();
    }

    /// Filters the loaded rows on `column`; the sort stays.
    ///
    /// The rows are always taken from the loaded relation, never from an earlier filter's
    /// result. An empty pattern shows every row. A filter that does not apply to the column's
    /// kind (`Contains` on a column that is not text, `Equals` with a pattern that the column's
    /// kind cannot hold) shows every row and fails with `Filter`.
    pub fn apply_filter(&mut self, column: usize, filter_type: FilterType, pattern: String) -> (r:
        Result<(), TableError>)
        requires
            old(self).wf(),
            old(self).relation() matches Some(rel) && column < rel.width(),
        ensures
            filter_effect(*old(self), *final(self), column, filter_type, pattern, r),
    {
        let ok = match &self.snapshot {
            Some(rel) => pattern.as_str().is_empty() || filter_applies(
                rel.kinds[column],
                filter_type,
                &pattern,
            ),
            None => true,
        };
        self.filter = Some(FilterSpec { column, filter_type, pattern });
        self.recompute();
        if ok {
            self.error = None;
            Ok(())
        } else {
            self.error = Some(TableError::Filter);
            Err(TableError::Filter)
        }
    }

    /// Removes the filter; the sort stays and the error is cleared.
    pub fn clear_filter(&mut self)
        requires
            old(self).wf(),
        ensures
            clear_effect(*old(self), *final(self)),
    {
        self.filter = None;
        self.error = None;
        if self.snapshot.is_some() {
            self.recompute();
        }
    }

    /// Whether a relation is loaded.
    pub fn is_loaded(&self) -> (r: bool)
        ensures
            r == self.relation() is Some,
    {
        self.snapshot.is_some()
    }

    /// The number of columns of the loaded relation; zero with nothing loaded.
    pub fn column_count(&self) -> (r: usize)
        ensures
            r == match self.relation() {
                Some(rel) => rel.width(),
                None => 0,
            },
    {
        match &self.snapshot {
            Some(rel) => rel.names.len(),
            None => 0,
        }
    }

    /// The name of column `column`.
    pub fn column_name(&self, column: usize) -> (r: &String)
        requires
            self.relation() matches Some(rel) && column < rel.width(),
        ensures
            self.relation() matches Some(rel) && *r == rel.names@[column as int],
    {
        let rel = self.snapshot.as_ref().unwrap();
        &rel.names[column]
    }

    /// The kind of column `column`.
    pub fn column_kind(&self, column: usize) -> (r: Kind)
        requires
            self.wf(),
            self.relation() matches Some(rel) && column < rel.width(),
        ensures
            self.relation() matches Some(rel) && r == rel.kinds@[column as int],
    {
        let rel = self.snapshot.as_ref().unwrap();
        rel.kinds[column]
    }

    /// The number of rows shown.
    pub fn row_count(&self) -> (r: usize)
        ensures
            r == self.shown().len(),
    {
        self.view.len()
    }

    /// The position in the loaded relation of the `row`-th row shown.
    pub fn source_row(&self, row: usize) -> (r: usize)
        requires
            row < self.shown().len(),
        ensures
            r == self.shown()[row as int],
    {
        self.view[row]
    }

    /// The cell of the `row`-th row shown, in column `column`.
    pub fn cell_at(&self, row: usize, column: usize) -> (r: &Cell)
        requires
            self.wf(),
            row < self.shown().len(),
            self.relation() matches Some(rel) && column < rel.width(),
        ensures
            self.relation() matches Some(rel) && *r == rel.cell(self.shown()[row as int] as int, column as int),
    {
        let i = self.view[row];
        let rel = self.snapshot.as_ref().unwrap();
        assert(rel.rows@[i as int].len() == rel.width());
        &rel.rows[i][column]
    }

    /// The current sort, if any.
    pub fn sort_spec(&self) -> (r: Option<SortSpec>)
        ensures
            r == self.sort_state(),
    {
        self.sort
    }

    /// The current filter, if any.
    pub fn filter_spec(&self) -> (r: &Option<FilterSpec>)
        ensures
            *r == self.filter_state(),
    {
        &self.filter
    }

    /// The error left by the last operation, if it failed.
    pub fn error(&self) -> (r: &Option<TableError>)
        ensures
            *r == self.error_state(),
    {
        &self.error
    }

    fn clear(&mut self)
        ensures
            final(self).wf(),
            final(self).relation() is None,
    {
        self.snapshot = None;
        self.view = Vec::new();
        self.sort = None;
        self.filter = None;
    }
}

} // verus!
