use vstd::prelude::*;

use crate::arena::gate_kind_of_label;
use crate::element::{Gate, GridVec2};
use crate::kind::kind_of_label;
use crate::primitive::PrimitiveTemplate;
use vstd::string::StringSliceAdditionalSpecFns;

verus! {

pub const COLON: u8 = 0x3a;

pub const PLUS: u8 = 0x2b;

pub const OPEN_BRACKET: u8 = 0x5b;

pub const CLOSE_BRACKET: u8 = 0x5d;

/// First position in `from..hi` holding byte `c`, or `hi`.
pub open spec fn next_byte(b: Seq<u8>, c: u8, from: int, hi: int) -> int
    decreases hi - from,
{
    if from >= hi {
        hi
    } else if b[from] == c {
        from
    } else {
        next_byte(b, c, from + 1, hi)
    }
}

pub open spec fn is_digit(c: u8) -> bool {
    0x30 <= c <= 0x39
}

/// The decimal value of the digits in `lo..hi`.
pub open spec fn digits_value(b: Seq<u8>, lo: int, hi: int) -> nat
    decreases hi - lo,
{
    if hi <= lo {
        0
    } else {
        digits_value(b, lo, hi - 1) * 10 + (b[hi - 1] - 0x30) as nat
    }
}

/// The number written in `lo..hi`, as `usize::from_str` reads it: an
/// optional `+`, then one or more decimal digits, within range.
pub open spec fn number_in(b: Seq<u8>, lo: int, hi: int) -> Option<usize> {
    let start = if lo < hi && b[lo] == PLUS {
        lo + 1
    } else {
        lo
    };
    if start < hi && (forall|i: int| start <= i < hi ==> is_digit(#[trigger] b[i])) && digits_value(
        b,
        start,
        hi,
    ) <= usize::MAX {
        Some(digits_value(b, start, hi) as usize)
    } else {
        None
    }
}

/// The number in brackets in `lo..hi` (`[2]`): what follows the first `[`,
/// up to the next `]` or `[`; 0 when there is no `[` or no valid number.
pub open spec fn bracket_value(b: Seq<u8>, lo: int, hi: int) -> usize {
    let o = next_byte(b, OPEN_BRACKET, lo, hi);
    if o >= hi {
        0
    } else {
        let e1 = next_byte(b, OPEN_BRACKET, o + 1, hi);
        let e2 = next_byte(b, CLOSE_BRACKET, o + 1, hi);
        let e = if e1 < e2 {
            e1
        } else {
            e2
        };
        match number_in(b, o + 1, e) {
            Some(v) => v,
            None => 0,
        }
    }
}

/// The ends of the first three `:`-separated fields of a line: the first
/// colon, the second, and the third (or the line's end).
pub open spec fn field_ends(b: Seq<u8>) -> (int, int, int) {
    let n = b.len() as int;
    let c1 = next_byte(b, COLON, 0, n);
    let c2 = next_byte(b, COLON, c1 + 1, n);
    let c3 = next_byte(b, COLON, c2 + 1, n);
    (c1, c2, c3)
}

/// A line has a label and two more fields.
pub open spec fn has_three_fields(b: Seq<u8>) -> bool {
    field_ends(b).0 < b.len() && field_ends(b).1 < b.len()
}

fn find_byte(b: &[u8], c: u8, from: usize, hi: usize) -> (r: usize)
    requires
        from <= hi <= b@.len(),
    ensures
        r == next_byte(b@, c, from as int, hi as int),
        from <= r <= hi,
{
    let mut i = from;
    while i < hi
        invariant
            from <= i <= hi <= b@.len(),
            next_byte(b@, c, from as int, hi as int) == next_byte(b@, c, i as int, hi as int),
        decreases hi - i,
    {
        if b[i] == c {
            return i;
        }
        i = i + 1;
    }
    i
}

proof fn lemma_digits_grow(b: Seq<u8>, lo: int, mid: int, hi: int)
    requires
        lo <= mid <= hi,
    ensures
        digits_value(b, lo, mid) <= digits_value(b, lo, hi),
    decreases hi - mid,
{
    if mid < hi {
        lemma_digits_grow(b, lo, mid, hi - 1);
    }
}

/// Reads the number written in `lo..hi`.
fn parse_number(b: &[u8], lo: usize, hi: usize) -> (r: Option<usize>)
    requires
        lo <= hi <= b@.len(),
    ensures
        r == number_in(b@, lo as int, hi as int),
{
    let start = if lo < hi && b[lo] == PLUS {
        lo + 1
    } else {
        lo
    };
    if start >= hi {
        return None;
    }
    assert(start as int == (if lo < hi && b@[lo as int] == PLUS {
        lo + 1
    } else {
        lo as int
    }));
    let mut acc: usize = 0;
    let mut i = start;
    while i < hi
        invariant
            start <= i <= hi <= b@.len(),
            start < hi,
            start as int == (if lo < hi && b@[lo as int] == PLUS {
                lo + 1
            } else {
                lo as int
            }),
            forall|j: int| start <= j < i ==> is_digit(#[trigger] b@[j]),
            acc == digits_value(b@, start as int, i as int),
        decreases hi - i,
    {
        let c = b[i];
        if c < 0x30 || c > 0x39 {
            proof {
                assert(!is_digit(b@[i as int]));
                assert(!(forall|j: int| start <= j < hi ==> is_digit(#[trigger] b@[j])));
            }
            return None;
        }
        let d = (c - 0x30) as usize;
        if acc > (usize::MAX - d) / 10 {
            proof {
                assert(acc * 10 + d > usize::MAX) by (nonlinear_arith)
                    requires
                        acc > (usize::MAX - d) / 10,
                        d <= 9,
                ;
                assert(digits_value(b@, start as int, i + 1) == acc * 10 + d);
                lemma_digits_grow(b@, start as int, i + 1, hi as int);
                assert(digits_value(b@, start as int, hi as int) > usize::MAX);
            }
            return None;
        }
        proof {
            assert(acc * 10 + d <= usize::MAX) by (nonlinear_arith)
                requires
                    acc <= (usize::MAX - d) / 10,
                    d <= 9,
            ;
        }
        acc = acc * 10 + d;
        i = i + 1;
    }
    Some(acc)
}

/// Reads the bracketed number in `lo..hi`; 0 when there is none.
fn parse_bracket(b: &[u8], lo: usize, hi: usize) -> (r: usize)
    requires
        lo <= hi <= b@.len(),
    ensures
        r == bracket_value(b@, lo as int, hi as int),
{
    let o = find_byte(b, OPEN_BRACKET, lo, hi);
    if o >= hi {
        return 0;
    }
    let e1 = find_byte(b, OPEN_BRACKET, o + 1, hi);
    let e2 = find_byte(b, CLOSE_BRACKET, o + 1, hi);
    let e = if e1 < e2 {
        e1
    } else {
        e2
    };
    match parse_number(b, o + 1, e) {
        Some(v) => v,
        None => 0,
    }
}

/// Finds the ends of a line's first three fields.
fn find_fields(b: &[u8]) -> (r: (usize, usize, usize))
    ensures
        r.0 == field_ends(b@).0,
        r.1 == field_ends(b@).1,
        r.2 == field_ends(b@).2,
        r.0 <= b@.len(),
        r.0 < b@.len() ==> r.0 < r.1 <= b@.len(),
        r.1 < b@.len() ==> r.1 < r.2 <= b@.len(),
{
    let n = b.len();
    let c1 = find_byte(b, COLON, 0, n);
    if c1 >= n {
        return (c1, n, n);
    }
    let c2 = find_byte(b, COLON, c1 + 1, n);
    if c2 >= n {
        return (c1, c2, n);
    }
    let c3 = find_byte(b, COLON, c2 + 1, n);
    (c1, c2, c3)
}

/// Reads a primitive palette line, `LABEL:INPUTS:OUTPUTS` (further fields
/// are ignored). `None` when a field is missing or a count is not a number.
pub fn parse_prim_line(line: &str) -> (r: Option<PrimitiveTemplate>)
    ensures
        ({
            let b = line.spec_bytes();
            let (c1, c2, c3) = field_ends(b);
            let ok = has_three_fields(b) && vstd::utf8::is_char_boundary(b, c1) && number_in(b, c1 + 1, c2)
                is Some && number_in(b, c2 + 1, c3) is Some;
            &&& r is Some == ok
            &&& ok ==> {
                let t = r->Some_0;
                &&& vstd::utf8::encode_utf8(t.label@) == b.subrange(0, c1)
                &&& t.kind == kind_of_label(t.label@)
                &&& t.n_ins == number_in(b, c1 + 1, c2)->Some_0
                &&& t.n_outs == number_in(b, c2 + 1, c3)->Some_0
            }
        }),
{
    let b = line.as_bytes();
    let (c1, c2, c3) = find_fields(b);
    if c1 >= b.len() || c2 >= b.len() || !line.is_char_boundary(c1) {
        return None;
    }
    let n1 = parse_number(b, c1 + 1, c2);
    let n2 = parse_number(b, c2 + 1, c3);
    match (n1, n2) {
        (Some(n1), Some(n2)) => {
            let (head, _) = line.split_at(c1);
            Some(PrimitiveTemplate::from_values(head, n1, n2))
        },
        _ => None,
    }
}

/// Reads a saved gate line, `LABEL:[INPUTS]:[OUTPUTS]`, into a gate with id
/// `id`; a count with no valid bracketed number is 0. `None` when a field
/// is missing.
pub fn parse_gate_line(line: &str, id: usize) -> (r: Option<Gate>)
    ensures
        ({
            let b = line.spec_bytes();
            let (c1, c2, c3) = field_ends(b);
            let ok = has_three_fields(b) && vstd::utf8::is_char_boundary(b, c1);
            &&& r is Some == ok
            &&& ok ==> {
                let g = r->Some_0;
                &&& vstd::utf8::encode_utf8(g.label@) == b.subrange(0, c1)
                &&& g.kind == gate_kind_of_label(g.label@)
                &&& g.id == id
                &&& g.n_in == bracket_value(b, c1 + 1, c2)
                &&& g.n_out == bracket_value(b, c2 + 1, c3)
                &&& g.position == (GridVec2 { x: 0, y: 0 })
                &&& g.ins@.len() == 0
                &&& g.outs@.len() == 0
                &&& !g.state
            }
        }),
{
    let b = line.as_bytes();
    let (c1, c2, c3) = find_fields(b);
    if c1 >= b.len() || c2 >= b.len() || !line.is_char_boundary(c1) {
        return None;
    }
    let n_ins = parse_bracket(b, c1 + 1, c2);
    let n_outs = parse_bracket(b, c2 + 1, c3);
    let (head, _) = line.split_at(c1);
    Some(Gate::generate(head.to_owned(), n_ins, n_outs, id))
}

} // verus!
