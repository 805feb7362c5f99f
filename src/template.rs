//! Splitting a call site's format template into literal text and the
//! placeholders that its arguments fill, in order.
//!
//! `{{` and `}}` stand for a single brace, `{...}` is a placeholder whose
//! format spec is what stands between the braces, a `{` that is never closed
//! starts literal text that runs to the end, and a lone `}` is literal.
use vstd::prelude::*;
use vstd::string::StringSliceAdditionalSpecFns;

verus! {

/// The byte `{`.
pub const OPEN: u8 = 123;

/// The byte `}`.
pub const CLOSE: u8 = 125;

/// A piece of a template, as a range of its bytes.
#[derive(Clone, Copy, Debug, PartialEq, Eq, Structural)]
pub enum Piece {
    /// Text that stands as it is: the bytes `start..end`.
    Literal { start: usize, end: usize },
    /// A placeholder for the next argument; `start..end` is its format spec.
    Slot { start: usize, end: usize },
}

/// The first index at or after `i` that holds `c`, or the length.
pub open spec fn find_from(b: Seq<u8>, i: int, c: u8) -> int
    decreases b.len() - i,
{
    if i < 0 || i >= b.len() {
        b.len() as int
    } else if b[i] == c {
        i
    } else {
        find_from(b, i + 1, c)
    }
}

/// The first index at or after `i` that holds a brace, or the length.
pub open spec fn find_brace(b: Seq<u8>, i: int) -> int
    decreases b.len() - i,
{
    if i < 0 || i >= b.len() {
        b.len() as int
    } else if b[i] == OPEN || b[i] == CLOSE {
        i
    } else {
        find_brace(b, i + 1)
    }
}

/// The pieces of the template bytes `b` from index `i` on.
pub open spec fn pieces_from(b: Seq<u8>, i: int) -> Seq<Piece>
    decreases b.len() - i via pieces_from_decreases
{
    if i < 0 || i >= b.len() {
        Seq::empty()
    } else if i + 1 < b.len() && ((b[i] == OPEN && b[i + 1] == OPEN) || (b[i] == CLOSE && b[i + 1] == CLOSE)) {
        seq![Piece::Literal { start: i as usize, end: (i + 1) as usize }] + pieces_from(b, i + 2)
    } else if b[i] == OPEN {
        let j = find_from(b, i + 1, CLOSE);
        if j < b.len() {
            seq![Piece::Slot { start: (i + 1) as usize, end: j as usize }] + pieces_from(b, j + 1)
        } else {
            seq![Piece::Literal { start: i as usize, end: b.len() as usize }]
        }
    } else if b[i] == CLOSE {
        seq![Piece::Literal { start: i as usize, end: (i + 1) as usize }] + pieces_from(b, i + 1)
    } else {
        let j = find_brace(b, i);
        seq![Piece::Literal { start: i as usize, end: j as usize }] + pieces_from(b, j)
    }
}

proof fn lemma_find_from_bounds(b: Seq<u8>, i: int, c: u8)
    requires
        0 <= i,
    ensures
        i <= find_from(b, i, c) || i > b.len(),
        find_from(b, i, c) <= b.len(),
        find_from(b, i, c) < b.len() ==> b[find_from(b, i, c)] == c,
    decreases b.len() - i,
{
    if i < b.len() && b[i] != c {
        lemma_find_from_bounds(b, i + 1, c);
    }
}

proof fn lemma_find_brace_bounds(b: Seq<u8>, i: int)
    requires
        0 <= i,
    ensures
        i <= find_brace(b, i) || i > b.len(),
        find_brace(b, i) <= b.len(),
    decreases b.len() - i,
{
    if i < b.len() && !(b[i] == OPEN || b[i] == CLOSE) {
        lemma_find_brace_bounds(b, i + 1);
    }
}

#[via_fn]
proof fn pieces_from_decreases(b: Seq<u8>, i: int) {
    if 0 <= i < b.len() {
        lemma_find_from_bounds(b, i + 1, CLOSE);
        lemma_find_brace_bounds(b, i + 1);
    }
}

/// The first index at or after `i` that holds `c`, or the length.
fn find_byte(b: &[u8], i: usize, c: u8) -> (r: usize)
    requires
        i <= b@.len(),
    ensures
        r == find_from(b@, i as int, c),
{
    let mut j = i;
    while j < b.len()
        invariant
            i <= j <= b@.len(),
            find_from(b@, i as int, c) == find_from(b@, j as int, c),
        decreases b@.len() - j,
    {
        if b[j] == c {
            return j;
        }
        j = j + 1;
    }
    j
}

/// The first index at or after `i` that holds a brace, or the length.
fn find_brace_byte(b: &[u8], i: usize) -> (r: usize)
    requires
        i <= b@.len(),
    ensures
        r == find_brace(b@, i as int),
{
    let mut j = i;
    while j < b.len()
        invariant
            i <= j <= b@.len(),
            find_brace(b@, i as int) == find_brace(b@, j as int),
        decreases b@.len() - j,
    {
        if b[j] == OPEN || b[j] == CLOSE {
            return j;
        }
        j = j + 1;
    }
    j
}

/// Splits `template` into its pieces, in order.
pub fn split_template(template: &str) -> (r: Vec<Piece>)
    ensures
        r@ == pieces_from(template.spec_bytes(), 0),
{
    let b = template.as_bytes();
    let n = b.len();
    let ghost bs = b@;
    let mut out: Vec<Piece> = Vec::new();
    let mut i: usize = 0;
    while i < n
        invariant
            bs == b@,
            n == bs.len(),
            i <= n,
            pieces_from(bs, 0) == out@ + pieces_from(bs, i as int),
        decreases n - i,
    {
        let ghost before = out@;
        if i + 1 < n && ((b[i] == OPEN && b[i + 1] == OPEN) || (b[i] == CLOSE && b[i + 1] == CLOSE)) {
            out.push(Piece::Literal { start: i, end: i + 1 });
            proof {
                assert(before + pieces_from(bs, i as int) =~= out@ + pieces_from(bs, i + 2));
            }
            i = i + 2;
        } else if b[i] == OPEN {
            let j = find_byte(b, i + 1, CLOSE);
            proof {
                lemma_find_from_bounds(bs, i + 1, CLOSE);
            }
            if j < n {
                out.push(Piece::Slot { start: i + 1, end: j });
                proof {
                    assert(before + pieces_from(bs, i as int) =~= out@ + pieces_from(bs, j + 1));
                }
                i = j + 1;
            } else {
                out.push(Piece::Literal { start: i, end: n });
                proof {
                    assert(pieces_from(bs, n as int) =~= Seq::<Piece>::empty());
                    assert(before + pieces_from(bs, i as int) =~= out@ + pieces_from(bs, n as int));
                }
                i = n;
            }
        } else if b[i] == CLOSE {
            out.push(Piece::Literal { start: i, end: i + 1 });
            proof {
                assert(before + pieces_from(bs, i as int) =~= out@ + pieces_from(bs, i + 1));
            }
            i = i + 1;
        } else {
            let j = find_brace_byte(b, i);
            proof {
                lemma_find_brace_bounds(bs, i + 1);
            }
            out.push(Piece::Literal { start: i, end: j });
            proof {
                assert(before + pieces_from(bs, i as int) =~= out@ + pieces_from(bs, j as int));
            }
            i = j;
        }
    }
    proof {
        assert(pieces_from(bs, i as int) =~= Seq::<Piece>::empty());
        assert(out@ + Seq::<Piece>::empty() =~= out@);
    }
    out
}

/// The byte `:`.
pub const COLON: u8 = 58;

/// The byte `+`.
pub const PLUS: u8 = 43;

/// The byte `.`.
pub const DOT: u8 = 46;

/// The byte `e`.
pub const EXP: u8 = 101;

/// The largest precision a format spec may ask for.
pub const MAX_PRECISION: usize = 1000;

/// How a placeholder asks for its argument to be shown.
#[derive(Clone, Copy, Debug, PartialEq, Eq, Structural)]
pub struct FormatSpec {
    /// A sign is shown for positive numbers too (`+`).
    pub plus: bool,
    /// The number of digits after the decimal point (`.N`).
    pub precision: Option<usize>,
    /// Scientific notation (`e`).
    pub exponent: bool,
}

/// The index after `i` when `b` holds `c` there, else `i`.
pub open spec fn skip_if(b: Seq<u8>, i: int, c: u8) -> int {
    if 0 <= i < b.len() && b[i] == c {
        i + 1
    } else {
        i
    }
}

/// A decimal digit.
pub open spec fn is_digit(c: u8) -> bool {
    48 <= c <= 57
}

/// The first index at or after `i` that holds no decimal digit, or the length.
pub open spec fn digits_end(b: Seq<u8>, i: int) -> int
    decreases b.len() - i,
{
    if i < 0 || i >= b.len() || !is_digit(b[i]) {
        if i < 0 { b.len() as int } else if i >= b.len() { b.len() as int } else { i }
    } else {
        digits_end(b, i + 1)
    }
}

/// The value of a run of decimal digits.
pub open spec fn dec_value(ds: Seq<u8>) -> nat
    decreases ds.len(),
{
    if ds.len() == 0 {
        0
    } else {
        dec_value(ds.drop_last()) * 10 + (ds.last() - 48) as nat
    }
}

/// The format spec written between a placeholder's braces: `[:][+][.N][e]`,
/// with `N` a run of digits worth at most `MAX_PRECISION`; anything else is
/// not understood.
pub open spec fn parse_format_spec(b: Seq<u8>) -> Option<FormatSpec> {
    let i0 = skip_if(b, 0, COLON);
    let i1 = skip_if(b, i0, PLUS);
    if i1 < b.len() && b[i1] == DOT {
        let k = digits_end(b, i1 + 1);
        let v = dec_value(b.subrange(i1 + 1, k));
        let i3 = skip_if(b, k, EXP);
        if k == i1 + 1 || v > MAX_PRECISION || i3 != b.len() {
            None
        } else {
            Some(FormatSpec { plus: i1 > i0, precision: Some(v as usize), exponent: i3 > k })
        }
    } else {
        let i3 = skip_if(b, i1, EXP);
        if i3 != b.len() {
            None
        } else {
            Some(FormatSpec { plus: i1 > i0, precision: None, exponent: i3 > i1 })
        }
    }
}

/// Reads the format spec written between a placeholder's braces.
pub fn parse_format_spec_bytes(b: &[u8]) -> (r: Option<FormatSpec>)
    ensures
        r == parse_format_spec(b@),
{
    let n = b.len();
    let i0: usize = if 0 < n && b[0] == COLON { 1 } else { 0 };
    let i1: usize = if i0 < n && b[i0] == PLUS { i0 + 1 } else { i0 };
    let plus = i1 > i0;
    if i1 < n && b[i1] == DOT {
        let start = i1 + 1;
        let mut k = start;
        let mut v: usize = 0;
        let mut too_big = false;
        while k < n && 48 <= b[k] && b[k] <= 57
            invariant
                start <= k <= n,
                n == b@.len(),
                digits_end(b@, start as int) == digits_end(b@, k as int),
                forall|m: int| start <= m < k ==> is_digit(#[trigger] b@[m]),
                too_big == (dec_value(b@.subrange(start as int, k as int)) > MAX_PRECISION),
                !too_big ==> v == dec_value(b@.subrange(start as int, k as int)),
            decreases n - k,
        {
            let ghost before = b@.subrange(start as int, k as int);
            proof {
                assert(b@.subrange(start as int, k + 1).drop_last() =~= before);
            }
            if !too_big {
                v = v * 10 + (b[k] - 48) as usize;
                if v > MAX_PRECISION {
                    too_big = true;
                }
            }
            k = k + 1;
        }
        proof {
            if k < n {
                assert(!is_digit(b@[k as int]));
            }
            assert(digits_end(b@, k as int) == k);
        }
        let i3: usize = if k < n && b[k] == EXP { k + 1 } else { k };
        if k == start || too_big || i3 != n {
            None
        } else {
            Some(FormatSpec { plus, precision: Some(v), exponent: i3 > k })
        }
    } else {
        let i3: usize = if i1 < n && b[i1] == EXP { i1 + 1 } else { i1 };
        if i3 != n {
            None
        } else {
            Some(FormatSpec { plus, precision: None, exponent: i3 > i1 })
        }
    }
}

} // verus!
