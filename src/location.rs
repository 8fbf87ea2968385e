//! Locating parse failures in a source text: line and column to byte
//! offset, the span to underline, and positions quoted in messages.
use vstd::prelude::*;
use crate::error::Span;
use vstd::string::{StrSliceExecFns, StringSliceAdditionalSpecFns};
use vstd::utf8::{
    decode_utf8, encode_utf8, encode_utf8_decode_utf8, encode_utf8_valid_utf8, is_char_boundary,
};
use crate::text::{digits_value, is_digit};

verus! {

pub open spec fn col_pred(col: int) -> int {
    if col >= 1 {
        col - 1
    } else {
        0
    }
}

/// The byte offset of column `col` (1-based) of line `line` (1-based), as
/// `str::lines` counts lines: a line ends at `\n`, a `\r` before it is not
/// counted, and each line end counts one byte. Scanning is at byte `i` of the
/// line that starts at `line_start`, which is line `idx + 1`, whose offset is
/// `acc`. Past the last line the offset after all lines is given, the last
/// line counting one byte more even without a line end.
pub open spec fn offset_scan(b: Seq<u8>, i: int, line_start: int, idx: int, line: int, col: int, acc: int) -> int
    decreases b.len() - i,
{
    if i >= b.len() {
        if line_start < b.len() {
            acc + (b.len() - line_start) + 1
        } else {
            acc
        }
    } else if i == line_start && idx + 1 == line {
        acc + col_pred(col)
    } else if b[i] == 10 {
        let len = if i > line_start && b[i - 1] == 13 {
            i - 1 - line_start
        } else {
            i - line_start
        };
        offset_scan(b, i + 1, i + 1, idx + 1, line, col, acc + len + 1)
    } else {
        offset_scan(b, i + 1, line_start, idx, line, col, acc)
    }
}

pub open spec fn clamp_usize(v: int) -> usize {
    if v > usize::MAX {
        usize::MAX
    } else if v < 0 {
        0
    } else {
        v as usize
    }
}

/// Converts a 1-based line and column to a byte offset into `content`.
pub fn line_col_to_offset(content: &str, line: usize, col: usize) -> (r: usize)
    ensures
        r == clamp_usize(offset_scan(content.spec_bytes(), 0, 0, 0, line as int, col as int, 0)),
{
    let b = content.as_bytes();
    let mut i: usize = 0;
    let mut line_start: usize = 0;
    let mut idx: usize = 0;
    let mut acc: usize = 0;
    while i < b.len()
        invariant
            b@ == content.spec_bytes(),
            i <= b@.len(),
            line_start <= i,
            acc <= line_start,
            idx <= line_start,
            offset_scan(b@, 0, 0, 0, line as int, col as int, 0) == offset_scan(
                b@,
                i as int,
                line_start as int,
                idx as int,
                line as int,
                col as int,
                acc as int,
            ),
        decreases b@.len() - i,
    {
        if i == line_start && idx + 1 == line {
            return acc.saturating_add(col.saturating_sub(1));
        }
        if b[i] == 10u8 {
            let len = if i > line_start && b[i - 1] == 13u8 {
                i - 1 - line_start
            } else {
                i - line_start
            };
            acc = acc + len + 1;
            idx = idx + 1;
            line_start = i + 1;
        }
        i += 1;
    }
    if line_start < b.len() {
        (acc + (b.len() - line_start)).saturating_add(1)
    } else {
        acc
    }
}

/// A character with the Unicode `White_Space` property, as
/// `char::is_whitespace` decides.
pub open spec fn is_white_space(c: char) -> bool {
    let n = c as u32;
    (0x9 <= n <= 0xd) || n == 0x20 || n == 0x85 || n == 0xa0 || n == 0x1680 || (0x2000 <= n
        <= 0x200a) || n == 0x2028 || n == 0x2029 || n == 0x202f || n == 0x205f || n == 0x3000
}

/// A character that ends the span underlined at a parse failure:
/// whitespace, `,`, `}` or `]`.
pub open spec fn ends_span(c: char) -> bool {
    is_white_space(c) || c == ',' || c == '}' || c == ']'
}

/// The index of the first character at or after `from` that ends a span.
pub open spec fn first_span_end(t: Seq<char>, from: int) -> Option<int>
    decreases t.len() - from,
{
    if from < 0 || from >= t.len() {
        None
    } else if ends_span(t[from]) {
        Some(from)
    } else {
        first_span_end(t, from + 1)
    }
}

/// The span at byte `offset` of the text whose bytes are `b`: from there up
/// to the first character that ends a span, or at most 20 bytes when none
/// does, and never shorter than one byte. An offset past the end counts as
/// the end; an offset inside a character gives one byte.
pub open spec fn span_at(b: Seq<u8>, offset: int) -> Span {
    let s = if offset < b.len() {
        offset
    } else {
        b.len() as int
    };
    if !is_char_boundary(b, s) {
        Span { offset: offset as usize, len: 1 }
    } else {
        let rest = decode_utf8(b.subrange(s, b.len() as int));
        let n = match first_span_end(rest, 0) {
            Some(k) => encode_utf8(rest.take(k)).len() as int,
            None => if b.len() - s < 20 {
                b.len() - s
            } else {
                20
            },
        };
        Span { offset: offset as usize, len: if n < 1 {
            1
        } else {
            n as usize
        } }
    }
}

fn ends_span_char(c: char) -> (r: bool)
    ensures
        r == ends_span(c),
{
    let n = c as u32;
    (0x9 <= n && n <= 0xd) || n == 0x20 || n == 0x85 || n == 0xa0 || n == 0x1680 || (0x2000 <= n
        && n <= 0x200a) || n == 0x2028 || n == 0x2029 || n == 0x202f || n == 0x205f || n == 0x3000
        || c == ',' || c == '}' || c == ']'
}

/// The span to underline for a failure at byte `offset` of `content`.
pub fn offset_to_span(offset: usize, content: &str) -> (r: Span)
    ensures
        r == span_at(content.spec_bytes(), offset as int),
{
    proof {
        encode_utf8_valid_utf8(content@);
        assert(content.spec_bytes() == encode_utf8(content@));
    }
    let total = content.as_bytes().len();
    let s = if offset < total {
        offset
    } else {
        total
    };
    if !content.is_char_boundary(s) {
        return Span { offset, len: 1 };
    }
    let (_, rest) = content.split_at(s);
    let cs = chars_of(rest);
    proof {
        encode_utf8_decode_utf8(rest@);
        assert(rest.spec_bytes() == encode_utf8(rest@));
        assert(decode_utf8(content.spec_bytes().subrange(s as int, content.spec_bytes().len() as int))
            == rest@);
    }
    let mut k: usize = 0;
    while k < cs.len() && !ends_span_char(cs[k])
        invariant
            cs@ == rest@,
            k <= cs@.len(),
            first_span_end(rest@, 0) == first_span_end(rest@, k as int),
        decreases cs@.len() - k,
    {
        k += 1;
    }
    let n = if k < cs.len() {
        let pre = rest.substring_char(0, k);
        proof {
            assert(pre@ == rest@.take(k as int));
        }
        pre.as_bytes().len()
    } else {
        let m = rest.as_bytes().len();
        if m < 20 {
            m
        } else {
            20
        }
    };
    Span { offset, len: if n < 1 {
        1
    } else {
        n
    } }
}

/// The first index at or after `from` where `p` occurs in `s`.
pub open spec fn find_from(s: Seq<char>, p: Seq<char>, from: int) -> Option<int>
    decreases s.len() + 1 - from,
{
    if from < 0 || from + p.len() > s.len() {
        None
    } else if s.subrange(from, from + p.len()) == p {
        Some(from)
    } else {
        find_from(s, p, from + 1)
    }
}

pub(crate) proof fn lemma_find_from_bounds(s: Seq<char>, p: Seq<char>, from: int)
    ensures
        find_from(s, p, from) is Some ==> from <= find_from(s, p, from)->0 && find_from(s, p, from)->0
            + p.len() <= s.len(),
    decreases s.len() + 1 - from,
{
    if from >= 0 && from + p.len() <= s.len() && s.subrange(from, from + p.len()) != p {
        lemma_find_from_bounds(s, p, from + 1);
    }
}

/// The end of the run of ASCII digits that starts at `from`.
pub open spec fn digit_run_end(s: Seq<char>, from: int) -> int
    decreases s.len() - from,
{
    if from < 0 || from >= s.len() || !is_digit(s[from]) {
        from
    } else {
        digit_run_end(s, from + 1)
    }
}

/// The line and column quoted in a message as `line X ... column Y`, where
/// the digits after `line ` must be followed by something else.
pub open spec fn quoted_location(m: Seq<char>) -> Option<(usize, usize)> {
    match find_from(m, "line "@, 0) {
        None => None,
        Some(li) => {
            let a = li + 5;
            let le = digit_run_end(m, a);
            if le >= m.len() || le == a || digits_value(m.subrange(a, le)) > usize::MAX {
                None
            } else {
                match find_from(m, "column "@, a) {
                    None => None,
                    Some(ci) => {
                        let b = ci + 7;
                        let ce = digit_run_end(m, b);
                        if ce == b || digits_value(m.subrange(b, ce)) > usize::MAX {
                            None
                        } else {
                            Some(
                                (
                                    digits_value(m.subrange(a, le)) as usize,
                                    digits_value(m.subrange(b, ce)) as usize,
                                ),
                            )
                        }
                    },
                }
            }
        },
    }
}

proof fn lemma_digit_run_end(s: Seq<char>, from: int)
    requires
        0 <= from,
    ensures
        from <= digit_run_end(s, from),
    decreases s.len() - from,
{
    if from < s.len() && is_digit(s[from]) {
        lemma_digit_run_end(s, from + 1);
    }
}

/// Relies on str::chars: the characters of the text, in order.
#[verifier::external_body]
pub(crate) fn chars_of(s: &str) -> (r: Vec<char>)
    ensures
        r@ == s@,
{
    s.chars().collect()
}

pub(crate) fn find_in(s: &Vec<char>, p: &Vec<char>, from: usize) -> (r: Option<usize>)
    ensures
        r is None ==> find_from(s@, p@, from as int) is None,
        r is Some ==> find_from(s@, p@, from as int) == Some(r->0 as int),
{
    let slen = s.len();
    let mut i = from;
    while i <= s.len() && p.len() <= s.len() - i
        invariant
            from <= i,
            s@.len() <= usize::MAX,
            find_from(s@, p@, from as int) == find_from(s@, p@, i as int),
        decreases s@.len() + 1 - i,
    {
        let mut k: usize = 0;
        while k < p.len() && s[i + k] == p[k]
            invariant
                k <= p@.len(),
                i + p@.len() <= s@.len(),
                s@.len() <= usize::MAX,
                forall|t: int| 0 <= t < k ==> s@[i + t] == p@[t],
            decreases p@.len() - k,
        {
            k += 1;
        }
        if k == p.len() {
            proof {
                assert(s@.subrange(i as int, i + p@.len()) =~= p@);
            }
            return Some(i);
        }
        proof {
            assert(s@.subrange(i as int, i + p@.len())[k as int] != p@[k as int]);
        }
        i += 1;
    }
    None
}

proof fn lemma_digits_step(s: Seq<char>, a: int, k: int)
    requires
        0 <= a <= k < s.len(),
    ensures
        digits_value(s.subrange(a, k + 1)) == digits_value(s.subrange(a, k)) * 10 + (s[k] as int - 48),
{
    assert(s.subrange(a, k + 1).drop_last() =~= s.subrange(a, k));
}

proof fn lemma_digits_grow(s: Seq<char>, a: int, k: int, e: int)
    requires
        0 <= a <= k <= e <= s.len(),
        forall|t: int| a <= t < e ==> is_digit(#[trigger] s[t]),
    ensures
        digits_value(s.subrange(a, e)) >= digits_value(s.subrange(a, k)) >= 0,
    decreases e - k,
{
    if k < e {
        lemma_digits_grow(s, a, k + 1, e);
        lemma_digits_step(s, a, k);
    } else {
        lemma_digits_nonneg(s.subrange(a, k));
    }
}

proof fn lemma_digits_nonneg(s: Seq<char>)
    requires
        forall|t: int| 0 <= t < s.len() ==> is_digit(#[trigger] s[t]),
    ensures
        digits_value(s) >= 0,
    decreases s.len(),
{
    if s.len() > 0 {
        lemma_digits_nonneg(s.drop_last());
    }
}

/// The value of the digit run at `from`, unless it is empty or exceeds usize.
fn read_digits(s: &Vec<char>, from: usize) -> (r: (usize, Option<usize>))
    requires
        from <= s@.len(),
    ensures
        r.0 as int == digit_run_end(s@, from as int),
        r.1 is Some <==> (r.0 > from && digits_value(s@.subrange(from as int, r.0 as int)) <= usize::MAX),
        r.1 is Some ==> r.1->0 as int == digits_value(s@.subrange(from as int, r.0 as int)),
{
    let mut k = from;
    let mut v: usize = 0;
    let mut ok = true;
    proof {
        assert(s@.subrange(from as int, from as int) =~= Seq::<char>::empty());
    }
    while k < s.len() && '0' <= s[k] && s[k] <= '9'
        invariant
            from <= k <= s@.len(),
            digit_run_end(s@, from as int) == digit_run_end(s@, k as int),
            forall|t: int| from <= t < k ==> is_digit(#[trigger] s@[t]),
            ok ==> v as int == digits_value(s@.subrange(from as int, k as int)),
            !ok ==> digits_value(s@.subrange(from as int, k as int)) > usize::MAX,
        decreases s@.len() - k,
    {
        let d = (s[k] as u32 - 48) as usize;
        proof {
            lemma_digits_step(s@, from as int, k as int);
            lemma_digits_grow(s@, from as int, k as int, k as int);
        }
        if ok {
            match v.checked_mul(10) {
                Some(t) => match t.checked_add(d) {
                    Some(u) => {
                        v = u;
                    },
                    None => {
                        ok = false;
                    },
                },
                None => {
                    ok = false;
                },
            }
        } else {
            proof {
                lemma_digits_grow(s@, from as int, k as int, k + 1);
            }
        }
        k += 1;
    }
    if ok && k > from {
        (k, Some(v))
    } else {
        (k, None)
    }
}

/// Extracts `(line, column)` from a message of the form
/// `... at line X, column Y`.
pub fn extract_yaml_location(msg: &str) -> (r: Option<(usize, usize)>)
    ensures
        r == quoted_location(msg@),
{
    let m = chars_of(msg);
    let mlen = m.len();
    let line_pat = chars_of("line ");
    let col_pat = chars_of("column ");
    proof {
        reveal_strlit("line ");
        reveal_strlit("column ");
    }
    let li = match find_in(&m, &line_pat, 0) {
        Some(i) => i,
        None => {
            return None;
        },
    };
    proof {
        lemma_find_from_bounds(m@, line_pat@, 0);
    }
    let a = li + 5;
    let (le, line_v) = read_digits(&m, a);
    proof {
        lemma_digit_run_end(m@, a as int);
    }
    if le >= m.len() {
        return None;
    }
    let line_n = match line_v {
        Some(v) => v,
        None => {
            return None;
        },
    };
    let ci = match find_in(&m, &col_pat, a) {
        Some(i) => i,
        None => {
            return None;
        },
    };
    proof {
        lemma_find_from_bounds(m@, col_pat@, a as int);
    }
    let b = ci + 7;
    let (ce, col_v) = read_digits(&m, b);
    proof {
        lemma_digit_run_end(m@, b as int);
    }
    match col_v {
        Some(c) => Some((line_n, c)),
        None => None,
    }
}

} // verus!
