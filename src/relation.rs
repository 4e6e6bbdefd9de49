use vstd::prelude::*;
use crate::cell::{Cell, Kind, has_kind};
use crate::error::TableError;

verus! {

/// An in-memory table: named, typed columns of equal length, held row by row.
pub struct Relation {
    pub names: Vec<String>,
    pub kinds: Vec<Kind>,
    pub rows: Vec<Vec<Cell>>,
}

/// The column names as character sequences.
pub open spec fn names_view(names: Seq<String>) -> Seq<Seq<char>> {
    names.map_values(|s: String| s@)
}

impl Relation {
    /// Every row has one cell per column, and each cell fits its column's kind.
    pub open spec fn wf(&self) -> bool {
        &&& self.names.len() == self.kinds.len()
        &&& forall|r: int| 0 <= r < self.rows.len() ==> #[trigger] self.rows@[r].len() == self.names.len()
        &&& forall|r: int, c: int|
            0 <= r < self.rows.len() && 0 <= c < self.names.len() ==> has_kind(
                #[trigger] self.rows@[r]@[c],
                self.kinds@[c],
            )
    }

    pub open spec fn cell(&self, r: int, c: int) -> Cell {
        self.rows@[r]@[c]
    }

    pub open spec fn width(&self) -> nat {
        self.names.len() as nat
    }

    pub open spec fn height(&self) -> nat {
        self.rows.len() as nat
    }

    /// Two relations share a schema: the same column names and kinds, in order.
    pub open spec fn same_schema(&self, other: &Relation) -> bool {
        names_view(self.names@) == names_view(other.names@) && self.kinds@ == other.kinds@
    }

    /// Whether the rows fit the columns.
    pub fn is_well_formed(&self) -> (r: bool)
        ensures
            r == self.wf(),
    {
        if self.names.len() != self.kinds.len() {
            return false;
        }
        let mut i: usize = 0;
        while i < self.rows.len()
            invariant
                i <= self.rows.len(),
                self.names.len() == self.kinds.len(),
                forall|r: int| 0 <= r < i ==> #[trigger] self.rows@[r].len() == self.names.len(),
                forall|r: int, c: int|
                    0 <= r < i && 0 <= c < self.names.len() ==> has_kind(
                        #[trigger] self.rows@[r]@[c],
                        self.kinds@[c],
                    ),
            decreases self.rows.len() - i,
        {
            let row = &self.rows[i];
            if row.len() != self.names.len() {
                return false;
            }
            let mut c: usize = 0;
            while c < row.len()
                invariant
                    i < self.rows.len(),
                    row == self.rows@[i as int],
                    row.len() == self.names.len(),
                    self.names.len() == self.kinds.len(),
                    c <= row.len(),
                    forall|k: int| 0 <= k < c ==> has_kind(#[trigger] row@[k], self.kinds@[k]),
                decreases row.len() - c,
            {
                if !fits(&row[c], self.kinds[c]) {
                    return false;
                }
                c = c + 1;
            }
            i = i + 1;
        }
        true
    }

    /// Whether `other` has the same column names and kinds as `self`.
    pub fn schema_matches(&self, other: &Relation) -> (r: bool)
        ensures
            r == self.same_schema(other),
    {
        if self.names.len() != other.names.len() || self.kinds.len() != other.kinds.len() {
            proof {
                if self.names.len() != other.names.len() {
                    assert(names_view(self.names@).len() != names_view(other.names@).len());
                }
            }
            return false;
        }
        let mut i: usize = 0;
        while i < self.names.len()
            invariant
                i <= self.names.len(),
                self.names.len() == other.names.len(),
                forall|k: int| 0 <= k < i ==> (#[trigger] self.names@[k])@ == other.names@[k]@,
            decreases self.names.len() - i,
        {
            if !self.names[i].eq(&other.names[i]) {
                assert(names_view(self.names@)[i as int] != names_view(other.names@)[i as int]);
                return false;
            }
            i = i + 1;
        }
        assert(names_view(self.names@) =~= names_view(other.names@));
        let mut j: usize = 0;
        while j < self.kinds.len()
            invariant
                j <= self.kinds.len(),
                self.kinds.len() == other.kinds.len(),
                forall|k: int| 0 <= k < j ==> self.kinds@[k] == other.kinds@[k],
            decreases self.kinds.len() - j,
        {
            if self.kinds[j] != other.kinds[j] {
                return false;
            }
            j = j + 1;
        }
        assert(self.kinds@ =~= other.kinds@);
        true
    }
}

fn fits(c: &Cell, k: Kind) -> (r: bool)
    ensures
        r == has_kind(*c, k),
{
    match c {
        Cell::Null => true,
        Cell::Bool(_) => k == Kind::Bool,
        Cell::Int(_) => k == Kind::Int,
        Cell::Time(_) => k == Kind::Time,
        Cell::Real(_, _) => k == Kind::Real,
        Cell::Text(_) => k == Kind::Text,
    }
}


/// The rows of all `parts`, in order: those of the first part, then the second, and so on.
pub open spec fn all_rows(parts: Seq<Relation>) -> Seq<Vec<Cell>>
    decreases parts.len(),
{
    if parts.len() == 0 {
        Seq::empty()
    } else {
        all_rows(parts.drop_last()) + parts.last().rows@
    }
}

/// Every part is well formed and has the schema of the first.
pub open spec fn compatible(parts: Seq<Relation>) -> bool {
    forall|i: int| 0 <= i < parts.len() ==> (#[trigger] parts[i]).wf() && parts[i].same_schema(&parts[0])
}

proof fn lemma_all_rows_fit(parts: Seq<Relation>, n: nat, kinds: Seq<Kind>)
    requires
        forall|i: int|
            0 <= i < parts.len() ==> (#[trigger] parts[i]).wf() && parts[i].names.len() == n
                && parts[i].kinds@ == kinds,
    ensures
        forall|r: int| 0 <= r < all_rows(parts).len() ==> #[trigger] all_rows(parts)[r].len() == n,
        forall|r: int, c: int|
            0 <= r < all_rows(parts).len() && 0 <= c < n ==> has_kind(
                #[trigger] all_rows(parts)[r]@[c],
                kinds[c],
            ),
    decreases parts.len(),
{
    if parts.len() > 0 {
        let init = parts.drop_last();
        assert forall|i: int| 0 <= i < init.len() implies (#[trigger] init[i]).wf()
            && init[i].names.len() == n && init[i].kinds@ == kinds by {
            assert(init[i] == parts[i]);
        }
        lemma_all_rows_fit(init, n, kinds);
        let last = parts[parts.len() - 1];
        assert(last.wf());
        let a = all_rows(init);
        assert forall|r: int| 0 <= r < all_rows(parts).len() implies #[trigger] all_rows(parts)[r].len() == n by {
            if r >= a.len() {
                assert(all_rows(parts)[r] == last.rows@[r - a.len()]);
            }
        }
        assert forall|r: int, c: int|
            0 <= r < all_rows(parts).len() && 0 <= c < n implies has_kind(
                #[trigger] all_rows(parts)[r]@[c],
                kinds[c],
            ) by {
            if r >= a.len() {
                assert(all_rows(parts)[r] == last.rows@[r - a.len()]);
            }
        }
    }
}

/// Joins relations read from several sources into one.
///
/// With no parts this fails with `NoSources`. It succeeds exactly when every part is well
/// formed and has the first part's column names and kinds; the result then has that schema
/// and the rows of all parts, in order. Otherwise it fails with `Schema`.
pub fn combine(parts: Vec<Relation>) -> (r: Result<Relation, TableError>)
    ensures
        parts@.len() == 0 <==> r matches Err(TableError::NoSources),
        r is Ok <==> parts@.len() > 0 && compatible(parts@),
        parts@.len() > 0 && !compatible(parts@) ==> r matches Err(TableError::Schema),
        r matches Ok(rel) ==> {
            &&& rel.wf()
            &&& rel.names == parts@[0].names
            &&& rel.kinds == parts@[0].kinds
            &&& rel.rows@ == all_rows(parts@)
        },
{
    if parts.len() == 0 {
        return Err(TableError::NoSources);
    }
    let mut i: usize = 0;
    while i < parts.len()
        invariant
            0 < parts.len(),
            i <= parts.len(),
            forall|k: int| 0 <= k < i ==> (#[trigger] parts@[k]).wf() && parts@[k].same_schema(&parts@[0]),
        decreases parts.len() - i,
    {
        if !parts[i].is_well_formed() || !parts[i].schema_matches(&parts[0]) {
            return Err(TableError::Schema);
        }
        i = i + 1;
    }
    let ghost ps = parts@;
    let ghost n = ps[0].names.len() as nat;
    proof {
        assert forall|k: int| 0 <= k < ps.len() implies (#[trigger] ps[k]).wf() && ps[k].names.len() == n
            && ps[k].kinds@ == ps[0].kinds@ by {
            assert(names_view(ps[k].names@).len() == names_view(ps[0].names@).len());
        }
        lemma_all_rows_fit(ps, n, ps[0].kinds@);
    }
    let mut names: Vec<String> = Vec::new();
    let mut kinds: Vec<Kind> = Vec::new();
    let mut rows: Vec<Vec<Cell>> = Vec::new();
    let mut first = true;
    for part in iter: parts
        invariant
            iter.seq() == ps,
            ps.len() > 0,
            rows@ == all_rows(ps.take(iter.index() as int)),
            first <==> iter.index() == 0,
            iter.index() > 0 ==> names == ps[0].names && kinds == ps[0].kinds,
    {
        let ghost idx = iter.index() as int;
        proof {
            assert(ps.take(idx + 1).drop_last() =~= ps.take(idx));
        }
        let Relation { names: part_names, kinds: part_kinds, rows: mut part_rows } = part;
        if first {
            names = part_names;
            kinds = part_kinds;
            first = false;
        }
        rows.append(&mut part_rows);
    }
    proof {
        assert(ps.take(ps.len() as int) =~= ps);
    }
    Ok(Relation { names, kinds, rows })
}

} // verus!
