use vstd::prelude::*;
use vstd::std_specs::iter::IteratorSpec;

verus! {

broadcast use vstd::string::axiom_spec_iter, vstd::string::next_postcondition;

/// The declared type of a column.
#[derive(Clone, Copy, Debug, PartialEq, Eq, Structural)]
pub enum Kind {
    Bool,
    Int,
    /// A point in time, as a count of ticks since an epoch.
    Time,
    /// A real number, held as an order key and its printed form.
    Real,
    Text,
}

/// One value of a relation.
#[derive(Debug)]
pub enum Cell {
    Null,
    Bool(bool),
    Int(i64),
    Time(i64),
    /// A real number: a key whose integer order is the numeric order, and the text to show.
    Real(i64, String),
    Text(String),
}

/// The comparison mode of a filter.
#[derive(Clone, Copy, Debug, PartialEq, Eq, Structural)]
pub enum FilterType {
    Equals,
    Contains,
}

/// A cell fits a column of kind `k` when it is null or holds a value of that kind.
pub open spec fn has_kind(c: Cell, k: Kind) -> bool {
    match c {
        Cell::Null => true,
        Cell::Bool(_) => k == Kind::Bool,
        Cell::Int(_) => k == Kind::Int,
        Cell::Time(_) => k == Kind::Time,
        Cell::Real(_, _) => k == Kind::Real,
        Cell::Text(_) => k == Kind::Text,
    }
}

/// Position of a cell's variant in the order; null sorts first.
pub open spec fn rank(c: Cell) -> int {
    match c {
        Cell::Null => 0,
        Cell::Bool(_) => 1,
        Cell::Int(_) => 2,
        Cell::Time(_) => 3,
        Cell::Real(_, _) => 4,
        Cell::Text(_) => 5,
    }
}

/// Lexicographic order on character sequences, characters compared by code point.
pub open spec fn lex_lt(a: Seq<char>, b: Seq<char>) -> bool
    decreases a.len(),
{
    if a.len() == 0 {
        b.len() > 0
    } else if b.len() == 0 {
        false
    } else if a[0] != b[0] {
        a[0] < b[0]
    } else {
        lex_lt(a.drop_first(), b.drop_first())
    }
}

/// The natural order of cells: by variant, then by value within the variant
/// (false before true, numeric for numbers and times, lexicographic for text).
pub open spec fn cell_lt(a: Cell, b: Cell) -> bool {
    if rank(a) != rank(b) {
        rank(a) < rank(b)
    } else {
        match (a, b) {
            (Cell::Bool(x), Cell::Bool(y)) => !x && y,
            (Cell::Int(x), Cell::Int(y)) => x < y,
            (Cell::Time(x), Cell::Time(y)) => x < y,
            (Cell::Real(x, _), Cell::Real(y, _)) => x < y,
            (Cell::Text(x), Cell::Text(y)) => lex_lt(x@, y@),
            _ => false,
        }
    }
}

/// Two cells that neither precedes: they share a sort position.
pub open spec fn cell_tie(a: Cell, b: Cell) -> bool {
    !cell_lt(a, b) && !cell_lt(b, a)
}

proof fn lemma_lex_irrefl(a: Seq<char>)
    ensures
        !lex_lt(a, a),
    decreases a.len(),
{
    if a.len() > 0 {
        lemma_lex_irrefl(a.drop_first());
    }
}

proof fn lemma_lex_total(a: Seq<char>, b: Seq<char>)
    ensures
        a != b ==> lex_lt(a, b) || lex_lt(b, a),
    decreases a.len(),
{
    if a.len() > 0 && b.len() > 0 && a[0] == b[0] {
        lemma_lex_total(a.drop_first(), b.drop_first());
        if a.drop_first() == b.drop_first() {
            assert(a =~= seq![a[0]] + a.drop_first());
            assert(b =~= seq![b[0]] + b.drop_first());
            assert(a =~= b);
        }
    } else if a.len() == 0 && b.len() == 0 {
        assert(a =~= b);
    }
}

proof fn lemma_lex_trans(a: Seq<char>, b: Seq<char>, c: Seq<char>)
    requires
        lex_lt(a, b),
        lex_lt(b, c),
    ensures
        lex_lt(a, c),
    decreases a.len(),
{
    if a.len() > 0 && b.len() > 0 && c.len() > 0 && a[0] == b[0] && b[0] == c[0] {
        lemma_lex_trans(a.drop_first(), b.drop_first(), c.drop_first());
    }
}

proof fn lemma_lex_asym(a: Seq<char>, b: Seq<char>)
    requires
        lex_lt(a, b),
    ensures
        !lex_lt(b, a),
{
    if lex_lt(b, a) {
        lemma_lex_trans(a, b, a);
        lemma_lex_irrefl(a);
    }
}

/// The natural order of cells is a strict weak order: irreflexive, transitive,
/// and ties are transitive.
pub proof fn lemma_cell_order(a: Cell, b: Cell, c: Cell)
    ensures
        !cell_lt(a, a),
        cell_lt(a, b) ==> !cell_lt(b, a),
        cell_lt(a, b) && cell_lt(b, c) ==> cell_lt(a, c),
        cell_tie(a, b) && cell_tie(b, c) ==> cell_tie(a, c),
        cell_lt(a, b) && cell_tie(b, c) ==> cell_lt(a, c),
        cell_tie(a, b) && cell_lt(b, c) ==> cell_lt(a, c),
{
    if let Cell::Text(x) = a {
        lemma_lex_irrefl(x@);
        if let Cell::Text(y) = b {
            lemma_lex_total(x@, y@);
            if lex_lt(x@, y@) {
                lemma_lex_asym(x@, y@);
            }
            if let Cell::Text(z) = c {
                lemma_lex_total(y@, z@);
                lemma_lex_total(x@, z@);
                if lex_lt(x@, y@) && lex_lt(y@, z@) {
                    lemma_lex_trans(x@, y@, z@);
                }
            }
        }
    }
}


/// The characters of `s`, in order.
pub fn text_chars(s: &String) -> (r: Vec<char>)
    ensures
        r@ == s@,
{
    let mut out: Vec<char> = Vec::new();
    for c in iter: s.as_str().chars()
        invariant
            iter.seq() == s@,
            out@ == iter.seq().take(iter.index() as int),
    {
        proof {
            assert(iter.seq().take(iter.index() + 1) =~= out@.push(c));
        }
        out.push(c);
    }
    proof {
        assert(out@ =~= s@);
    }
    out
}


/// Whether `p` occurs in `t` as a contiguous run of characters.
pub open spec fn text_contains(t: Seq<char>, p: Seq<char>) -> bool {
    exists|i: int| 0 <= i && i + p.len() <= t.len() && #[trigger] t.subrange(i, i + p.len()) == p
}

pub open spec fn is_digit(c: char) -> bool {
    '0' <= c && c <= '9'
}

pub open spec fn digit_value(c: char) -> int {
    (c as u32) - ('0' as u32)
}

/// The number written by a run of decimal digits.
pub open spec fn digits_value(s: Seq<char>) -> int
    decreases s.len(),
{
    if s.len() == 0 {
        0
    } else {
        digits_value(s.drop_last()) * 10 + digit_value(s.last())
    }
}

pub open spec fn all_digits(s: Seq<char>) -> bool {
    s.len() > 0 && forall|i: int| 0 <= i < s.len() ==> is_digit(#[trigger] s[i])
}

/// The integer that `p` writes in decimal, with an optional leading minus sign.
pub open spec fn parse_int(p: Seq<char>) -> Option<int> {
    if p.len() > 0 && p[0] == '-' {
        if all_digits(p.drop_first()) {
            Some(-digits_value(p.drop_first()))
        } else {
            None
        }
    } else if all_digits(p) {
        Some(digits_value(p))
    } else {
        None
    }
}

pub open spec fn true_text() -> Seq<char> {
    seq!['t', 'r', 'u', 'e']
}

pub open spec fn false_text() -> Seq<char> {
    seq!['f', 'a', 'l', 's', 'e']
}

/// Whether a filter of type `ft` with pattern `p` can be evaluated on a column of kind `k`:
/// `Contains` needs text; `Equals` needs text, a boolean column with the pattern `true`
/// or `false`, or an integer column with a decimal pattern.
pub open spec fn applicable(k: Kind, ft: FilterType, p: Seq<char>) -> bool {
    match ft {
        FilterType::Contains => k == Kind::Text,
        FilterType::Equals => match k {
            Kind::Text => true,
            Kind::Bool => p == true_text() || p == false_text(),
            Kind::Int => parse_int(p) is Some,
            _ => false,
        },
    }
}

/// Whether cell `c` passes a filter of type `ft` with pattern `p`; null never does.
pub open spec fn cell_matches(c: Cell, ft: FilterType, p: Seq<char>) -> bool {
    match ft {
        FilterType::Contains => match c {
            Cell::Text(s) => text_contains(s@, p),
            _ => false,
        },
        FilterType::Equals => match c {
            Cell::Text(s) => s@ == p,
            Cell::Bool(b) => p == (if b {
                true_text()
            } else {
                false_text()
            }),
            Cell::Int(v) => parse_int(p) == Some(v as int),
            _ => false,
        },
    }
}

/// Whether `a` sorts strictly before `b`.
pub fn cell_less(a: &Cell, b: &Cell) -> (r: bool)
    ensures
        r == cell_lt(*a, *b),
{
    match (a, b) {
        (Cell::Bool(x), Cell::Bool(y)) => !*x && *y,
        (Cell::Int(x), Cell::Int(y)) => *x < *y,
        (Cell::Time(x), Cell::Time(y)) => *x < *y,
        (Cell::Real(x, _), Cell::Real(y, _)) => *x < *y,
        (Cell::Text(x), Cell::Text(y)) => text_less(x, y),
        _ => variant_rank(a) < variant_rank(b),
    }
}

fn variant_rank(c: &Cell) -> (r: u8)
    ensures
        r as int == rank(*c),
{
    match c {
        Cell::Null => 0,
        Cell::Bool(_) => 1,
        Cell::Int(_) => 2,
        Cell::Time(_) => 3,
        Cell::Real(_, _) => 4,
        Cell::Text(_) => 5,
    }
}

/// Lexicographic comparison of two texts.
pub fn text_less(s: &String, t: &String) -> (r: bool)
    ensures
        r == lex_lt(s@, t@),
{
    let x = text_chars(s);
    let y = text_chars(t);
    let mut i: usize = 0;
    assert(x@.skip(0) =~= x@);
    assert(y@.skip(0) =~= y@);
    while i < x.len() && i < y.len() && x[i] == y[i]
        invariant
            i <= x.len(),
            i <= y.len(),
            lex_lt(x@, y@) == lex_lt(x@.skip(i as int), y@.skip(i as int)),
        decreases x.len() - i,
    {
        proof {
            assert(x@.skip(i as int).drop_first() =~= x@.skip(i + 1));
            assert(y@.skip(i as int).drop_first() =~= y@.skip(i + 1));
        }
        i = i + 1;
    }
    if i == x.len() {
        i < y.len()
    } else if i == y.len() {
        false
    } else {
        x[i] < y[i]
    }
}

/// Whether `p` occurs in `t`.
pub fn contains_text(t: &String, p: &String) -> (r: bool)
    ensures
        r == text_contains(t@, p@),
{
    let x = text_chars(t);
    let y = text_chars(p);
    if y.len() > x.len() {
        return false;
    }
    let last = x.len() - y.len();
    let mut i: usize = 0;
    while i <= last
        invariant
            x@ == t@,
            y@ == p@,
            last == x.len() - y.len(),
            i <= last + 1,
            forall|k: int| 0 <= k < i ==> #[trigger] x@.subrange(k, k + y.len()) != y@,
        decreases last + 1 - i,
    {
        let mut j: usize = 0;
        while j < y.len() && x[i + j] == y[j]
            invariant
                x@ == t@,
                y@ == p@,
                i <= last,
                last == x.len() - y.len(),
                j <= y.len(),
                forall|m: int| 0 <= m < j ==> x@[i + m] == y@[m],
            decreases y.len() - j,
        {
            j = j + 1;
        }
        if j == y.len() {
            let ghost k = i as int;
            assert(t@.subrange(k, k + p@.len()) =~= p@);
            assert(text_contains(t@, p@));
            return true;
        }
        assert(x@.subrange(i as int, i + y.len())[j as int] != y@[j as int]);
        i = i + 1;
    }
    false
}


/// What a filter pattern says as an integer.
pub enum IntPattern {
    NotANumber,
    OutOfRange,
    Value(i64),
}

proof fn lemma_digits_nonneg(s: Seq<char>)
    requires
        forall|i: int| 0 <= i < s.len() ==> is_digit(#[trigger] s[i]),
    ensures
        digits_value(s) >= 0,
    decreases s.len(),
{
    if s.len() > 0 {
        lemma_digits_nonneg(s.drop_last());
    }
}

/// The value of the decimal digits `d[start..]`, or that they are not all digits, or
/// that their value exceeds 2^63.
fn digits_of(d: &Vec<char>, start: usize) -> (r: (bool, bool, u64))
    requires
        start <= d.len(),
    ensures
        r.0 == all_digits(d@.skip(start as int)),
        r.0 && !r.1 ==> r.2 as int == digits_value(d@.skip(start as int)) && r.2
            <= 0x8000_0000_0000_0000u64,
        r.0 && r.1 ==> digits_value(d@.skip(start as int)) > 0x8000_0000_0000_0000u64,
{
    let ghost tail = d@.skip(start as int);
    if start == d.len() {
        return (false, false, 0);
    }
    let mut acc: u64 = 0;
    let mut big = false;
    let mut i: usize = start;
    while i < d.len()
        invariant
            start <= i <= d.len(),
            tail == d@.skip(start as int),
            forall|k: int| start <= k < i ==> is_digit(#[trigger] d@[k]),
            !big ==> acc as int == digits_value(d@.subrange(start as int, i as int)) && acc
                <= 0x8000_0000_0000_0000u64,
            big ==> digits_value(d@.subrange(start as int, i as int)) > 0x8000_0000_0000_0000u64,
        decreases d.len() - i,
    {
        let c = d[i];
        let ghost prev = d@.subrange(start as int, i as int);
        let ghost next = d@.subrange(start as int, i + 1);
        proof {
            assert(next.drop_last() =~= prev);
        }
        if !('0' <= c && c <= '9') {
            proof {
                assert(tail[i - start] == c);
            }
            return (false, false, 0);
        }
        let dv: u64 = (c as u32 - '0' as u32) as u64;
        if !big {
            let wide: u128 = acc as u128 * 10 + dv as u128;
            if wide > 0x8000_0000_0000_0000u128 {
                big = true;
            } else {
                acc = wide as u64;
            }
        } else {
            proof {
                let pv = digits_value(prev);
                assert(pv * 10 + digit_value(c) > 0x8000_0000_0000_0000u64) by (nonlinear_arith)
                    requires
                        pv > 0x8000_0000_0000_0000u64,
                        digit_value(c) >= 0,
                ;
            }
        }
        i = i + 1;
    }
    proof {
        assert(d@.subrange(start as int, d.len() as int) =~= tail);
    }
    (true, big, acc)
}

/// Reads `p` as a decimal integer with an optional leading minus sign.
pub fn int_pattern(p: &String) -> (r: IntPattern)
    ensures
        r is NotANumber <==> parse_int(p@) is None,
        r is Value ==> parse_int(p@) == Some(r->Value_0 as int),
        r is OutOfRange ==> parse_int(p@) is Some && (parse_int(p@)->0 < i64::MIN
            || parse_int(p@)->0 > i64::MAX),
{
    let d = text_chars(p);
    let neg = d.len() > 0 && d[0] == '-';
    let start: usize = if neg {
        1
    } else {
        0
    };
    let (ok, big, acc) = digits_of(&d, start);
    proof {
        assert(d@.skip(1) =~= d@.drop_first());
        assert(d@.skip(0) =~= d@);
        if !neg && d@.len() > 0 {
            assert(!is_digit(d@[0]) ==> !all_digits(d@));
        }
    }
    if !ok {
        IntPattern::NotANumber
    } else if big {
        IntPattern::OutOfRange
    } else if neg {
        if acc == 0x8000_0000_0000_0000u64 {
            IntPattern::Value(i64::MIN)
        } else {
            IntPattern::Value(-(acc as i64))
        }
    } else if acc == 0x8000_0000_0000_0000u64 {
        IntPattern::OutOfRange
    } else {
        IntPattern::Value(acc as i64)
    }
}


fn is_true_text(d: &Vec<char>) -> (r: bool)
    ensures
        r == (d@ == true_text()),
{
    let r = d.len() == 4 && d[0] == 't' && d[1] == 'r' && d[2] == 'u' && d[3] == 'e';
    proof {
        if d@.len() == 4 {
            assert(r ==> d@ =~= true_text());
        }
    }
    r
}

fn is_false_text(d: &Vec<char>) -> (r: bool)
    ensures
        r == (d@ == false_text()),
{
    let r = d.len() == 5 && d[0] == 'f' && d[1] == 'a' && d[2] == 'l' && d[3] == 's' && d[4]
        == 'e';
    proof {
        if d@.len() == 5 {
            assert(r ==> d@ =~= false_text());
        }
    }
    r
}

/// Whether a filter of type `ft` with pattern `p` can be evaluated on a column of kind `k`.
pub fn filter_applies(k: Kind, ft: FilterType, p: &String) -> (r: bool)
    ensures
        r == applicable(k, ft, p@),
{
    match ft {
        FilterType::Contains => k == Kind::Text,
        FilterType::Equals => match k {
            Kind::Text => true,
            Kind::Bool => {
                let d = text_chars(p);
                is_true_text(&d) || is_false_text(&d)
            },
            Kind::Int => match int_pattern(p) {
                IntPattern::NotANumber => false,
                _ => true,
            },
            _ => false,
        },
    }
}

/// Whether cell `c` passes a filter of type `ft` with pattern `p`.
pub fn cell_passes(c: &Cell, ft: FilterType, p: &String) -> (r: bool)
    ensures
        r == cell_matches(*c, ft, p@),
{
    match ft {
        FilterType::Contains => match c {
            Cell::Text(s) => contains_text(s, p),
            _ => false,
        },
        FilterType::Equals => match c {
            Cell::Text(s) => s.eq(p),
            Cell::Bool(b) => {
                let d = text_chars(p);
                if *b {
                    is_true_text(&d)
                } else {
                    is_false_text(&d)
                }
            },
            Cell::Int(v) => match int_pattern(p) {
                IntPattern::Value(w) => w == *v,
                IntPattern::OutOfRange => {
                    assert(parse_int(p@) != Some(*v as int));
                    false
                },
                IntPattern::NotANumber => false,
            },
            _ => false,
        },
    }
}

impl FilterType {
    /// The name shown for this filter type.
    pub fn label(&self) -> (r: &'static str)
        ensures
            *self is Equals ==> r@ == seq!['E', 'q', 'u', 'a', 'l', 's'],
            *self is Contains ==> r@ == seq!['C', 'o', 'n', 't', 'a', 'i', 'n', 's'],
    {
        match self {
            FilterType::Equals => {
                proof {
                    reveal_strlit("Equals");
                }
                "Equals"
            },
            FilterType::Contains => {
                proof {
                    reveal_strlit("Contains");
                }
                "Contains"
            },
        }
    }
}

} // verus!
