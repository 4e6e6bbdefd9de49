use vstd::prelude::*;
use crate::cell::{Cell, false_text, true_text};

verus! {

pub open spec fn digit_char(d: nat) -> char {
    seq!['0', '1', '2', '3', '4', '5', '6', '7', '8', '9'][d as int]
}

/// The decimal digits of `n`, most significant first, with no leading zero.
pub open spec fn digits(n: nat) -> Seq<char>
    decreases n,
{
    if n < 10 {
        seq![digit_char(n)]
    } else {
        digits(n / 10).push(digit_char(n % 10))
    }
}

/// `n` in decimal, with a leading minus sign when negative.
pub open spec fn decimal(n: int) -> Seq<char> {
    if n < 0 {
        seq!['-'] + digits((-n) as nat)
    } else {
        digits(n as nat)
    }
}

pub open spec fn null_text() -> Seq<char> {
    seq!['n', 'u', 'l', 'l']
}

/// The text shown for a cell: `null`; `true` or `false`; integers and times in decimal;
/// a real number's printed form; text as it is.
pub open spec fn cell_display(c: Cell) -> Seq<char> {
    match c {
        Cell::Null => null_text(),
        Cell::Bool(b) => if b {
            true_text()
        } else {
            false_text()
        },
        Cell::Int(v) => decimal(v as int),
        Cell::Time(v) => decimal(v as int),
        Cell::Real(_, t) => t@,
        Cell::Text(s) => s@,
    }
}

/// Relies on `String::push`: the character is appended at the end.
#[verifier::external_body]
fn push_char(s: &mut String, c: char)
    ensures
        final(s)@ == old(s)@.push(c),
{
    s.push(c)
}

fn string_of(chars: &Vec<char>) -> (r: String)
    ensures
        r@ == chars@,
{
    let mut out = String::new();
    let mut i: usize = 0;
    while i < chars.len()
        invariant
            i <= chars.len(),
            out@ == chars@.take(i as int),
        decreases chars.len() - i,
    {
        push_char(&mut out, chars[i]);
        proof {
            assert(chars@.take(i + 1) =~= chars@.take(i as int).push(chars@[i as int]));
        }
        i = i + 1;
    }
    proof {
        assert(chars@.take(chars.len() as int) =~= chars@);
    }
    out
}

fn digit_of(d: u64) -> (r: char)
    requires
        d < 10,
    ensures
        r == digit_char(d as nat),
{
    let table = ['0', '1', '2', '3', '4', '5', '6', '7', '8', '9'];
    proof {
        assert(table@ =~= seq!['0', '1', '2', '3', '4', '5', '6', '7', '8', '9']);
    }
    table[d as usize]
}

fn decimal_chars(v: i64) -> (r: Vec<char>)
    ensures
        r@ == decimal(v as int),
{
    let m: u64 = if v < 0 {
        (0i128 - v as i128) as u64
    } else {
        v as u64
    };
    let mut out: Vec<char> = Vec::new();
    let mut cur: u64 = m;
    out.insert(0, digit_of(cur % 10));
    cur = cur / 10;
    while cur > 0
        invariant
            digits(m as nat) == (if cur > 0 {
                digits(cur as nat)
            } else {
                Seq::empty()
            }) + out@,
        decreases cur,
    {
        let ghost before = out@;
        out.insert(0, digit_of(cur % 10));
        proof {
            if cur / 10 > 0 {
                assert(digits(cur as nat) == digits((cur / 10) as nat).push(digit_char((cur % 10) as nat)));
                assert(digits((cur / 10) as nat) + out@ =~= digits(cur as nat) + before);
            } else {
                assert(Seq::<char>::empty() + out@ =~= digits(cur as nat) + before);
            }
        }
        cur = cur / 10;
    }
    proof {
        assert(Seq::<char>::empty() + out@ =~= out@);
    }
    if v < 0 {
        out.insert(0, '-');
    }
    out
}

/// The text shown for `c`.
pub fn cell_text(c: &Cell) -> (r: String)
    ensures
        r@ == cell_display(*c),
{
    match c {
        Cell::Null => {
            let d = vec!['n', 'u', 'l', 'l'];
            proof {
                assert(d@ =~= null_text());
            }
            string_of(&d)
        },
        Cell::Bool(b) => {
            let d = if *b {
                vec!['t', 'r', 'u', 'e']
            } else {
                vec!['f', 'a', 'l', 's', 'e']
            };
            proof {
                assert(d@ =~= true_text() || d@ =~= false_text());
            }
            string_of(&d)
        },
        Cell::Int(v) => string_of(&decimal_chars(*v)),
        Cell::Time(v) => string_of(&decimal_chars(*v)),
        Cell::Real(_, t) => t.clone(),
        Cell::Text(s) => s.clone(),
    }
}

} // verus!
