//! Text operations: those taken from std and serde_json, each with what its
//! documentation promises, and the decimal and dotted-path forms that the
//! library reads.
use vstd::prelude::*;
use vstd::string::StrSliceExecFns;

verus! {

/// The code of a character with ASCII letters folded to lower case.
pub open spec fn ascii_fold(c: char) -> int {
    let n = c as int;
    if 65 <= n <= 90 {
        n + 32
    } else {
        n
    }
}

pub open spec fn eq_ignore_ascii_case_spec(a: Seq<char>, b: Seq<char>) -> bool {
    a.len() == b.len() && forall|i: int| 0 <= i < a.len() ==> ascii_fold(a[i]) == ascii_fold(b[i])
}

pub open spec fn is_digit(c: char) -> bool {
    '0' <= c <= '9'
}

pub open spec fn all_digits(s: Seq<char>) -> bool {
    s.len() > 0 && forall|i: int| 0 <= i < s.len() ==> is_digit(s[i])
}

pub open spec fn digits_value(s: Seq<char>) -> int
    decreases s.len(),
{
    if s.len() == 0 {
        0
    } else {
        digits_value(s.drop_last()) * 10 + (s.last() as int - 48)
    }
}

/// The integer that decimal text denotes: an optional sign, then digits.
pub open spec fn decimal_int(s: Seq<char>) -> Option<int> {
    if s.len() > 0 && (s[0] == '-' || s[0] == '+') {
        if all_digits(s.drop_first()) {
            Some(
                if s[0] == '-' {
                    -digits_value(s.drop_first())
                } else {
                    digits_value(s.drop_first())
                },
            )
        } else {
            None
        }
    } else if all_digits(s) {
        Some(digits_value(s))
    } else {
        None
    }
}

/// What `i64::from_str` accepts, and the number it gives.
pub open spec fn parse_i64_spec(s: Seq<char>) -> Option<i64> {
    match decimal_int(s) {
        Some(v) => if i64::MIN <= v <= i64::MAX {
            Some(v as i64)
        } else {
            None
        },
        None => None,
    }
}

/// The shortest round-trip decimal text of the finite `f64` that `s` denotes.
pub uninterp spec fn float_text_of(s: Seq<char>) -> Option<Seq<char>>;

/// The text after Unicode lower-casing.
pub uninterp spec fn lower_of(s: Seq<char>) -> Seq<char>;

/// The pieces of `s` between occurrences of `sep`.
pub uninterp spec fn split_of(s: Seq<char>, sep: Seq<char>) -> Seq<Seq<char>>;

fn fold_code(c: char) -> (r: u32)
    ensures
        r as int == ascii_fold(c),
{
    let n = c as u32;
    if 65 <= n && n <= 90 {
        n + 32
    } else {
        n
    }
}

/// Equal lengths and equal characters once ASCII letters are folded to
/// lower case.
pub(crate) fn eq_ignore_ascii_case(a: &str, b: &str) -> (r: bool)
    ensures
        r == eq_ignore_ascii_case_spec(a@, b@),
{
    let x = crate::location::chars_of(a);
    let y = crate::location::chars_of(b);
    if x.len() != y.len() {
        return false;
    }
    let mut i: usize = 0;
    while i < x.len()
        invariant
            x@ == a@,
            y@ == b@,
            x@.len() == y@.len(),
            i <= x@.len(),
            forall|j: int| 0 <= j < i ==> ascii_fold(a@[j]) == ascii_fold(b@[j]),
        decreases x@.len() - i,
    {
        if fold_code(x[i]) != fold_code(y[i]) {
            return false;
        }
        i += 1;
    }
    true
}

/// What `u64::from_str` accepts, and the number it gives: an optional `+`
/// then decimal digits, in range.
pub open spec fn parse_u64_spec(s: Seq<char>) -> Option<u64> {
    if s.len() > 0 && s[0] == '-' {
        None
    } else {
        match decimal_int(s) {
            Some(v) => if 0 <= v <= u64::MAX {
                Some(v as u64)
            } else {
                None
            },
            None => None,
        }
    }
}

/// Relies on u64::from_str: an optional `+` then decimal digits, in range.
#[verifier::external_body]
pub(crate) fn parse_u64(s: &str) -> (r: Option<u64>)
    ensures
        r == parse_u64_spec(s@),
{
    s.parse::<u64>().ok()
}

/// Relies on i64::from_str: an optional `+` or `-` then decimal digits, in range.
#[verifier::external_body]
pub(crate) fn parse_i64(s: &str) -> (r: Option<i64>)
    ensures
        r == parse_i64_spec(s@),
{
    s.parse::<i64>().ok()
}

/// Relies on f64::from_str and serde_json::Number::from_f64, whose Display
/// gives the shortest text that reads back as the same number; `None` where
/// the text is no number or the number is not finite.
#[verifier::external_body]
pub(crate) fn float_text(s: &str) -> (r: Option<String>)
    ensures
        r is Some <==> float_text_of(s@) is Some,
        r is Some ==> r->0@ == float_text_of(s@)->0,
{
    s.parse().ok().and_then(serde_json::Number::from_f64).map(|n| n.to_string())
}

/// Whether `s` holds the character `c`.
pub(crate) fn contains_char(s: &str, c: char) -> (r: bool)
    ensures
        r == s@.contains(c),
{
    let cs = crate::location::chars_of(s);
    let mut i: usize = 0;
    while i < cs.len()
        invariant
            cs@ == s@,
            i <= cs@.len(),
            forall|j: int| 0 <= j < i ==> cs@[j] != c,
        decreases cs@.len() - i,
    {
        if cs[i] == c {
            proof {
                assert(s@[i as int] == c);
            }
            return true;
        }
        i += 1;
    }
    false
}

/// The rest of `s` when it starts with `prefix`.
pub(crate) fn strip_prefix<'a>(s: &'a str, prefix: &str) -> (r: Option<&'a str>)
    ensures
        r is Some <==> prefix@.is_prefix_of(s@),
        r is Some ==> r->0@ == s@.skip(prefix@.len() as int),
{
    let x = crate::location::chars_of(s);
    let p = crate::location::chars_of(prefix);
    if p.len() > x.len() {
        return None;
    }
    let mut i: usize = 0;
    while i < p.len()
        invariant
            x@ == s@,
            p@ == prefix@,
            p@.len() <= x@.len(),
            i <= p@.len(),
            forall|j: int| 0 <= j < i ==> s@[j] == prefix@[j],
        decreases p@.len() - i,
    {
        if x[i] != p[i] {
            return None;
        }
        i += 1;
    }
    proof {
        assert(s@.take(prefix@.len() as int) =~= prefix@);
    }
    Some(s.substring_char(p.len(), x.len()))
}

/// Relies on str::to_lowercase: the result depends on the characters alone.
#[verifier::external_body]
pub(crate) fn to_lowercase(s: &str) -> (r: String)
    ensures
        r@ == lower_of(s@),
{
    s.to_lowercase()
}

/// Relies on str::split with a string pattern: the pieces, in order.
#[verifier::external_body]
pub(crate) fn split<'a>(s: &'a str, sep: &str) -> (r: Vec<&'a str>)
    ensures
        r@.map_values(|p: &str| p@) == split_of(s@, sep@),
{
    s.split(sep).collect()
}

/// The index of the first `.` in `s` at or after `from`.
pub open spec fn dot_from(s: Seq<char>, from: int) -> Option<int>
    decreases s.len() - from,
{
    if from < 0 || from >= s.len() {
        None
    } else if s[from] == '.' {
        Some(from)
    } else {
        dot_from(s, from + 1)
    }
}

/// The pieces of a dotted path between its `.` separators.
pub open spec fn dot_pieces(s: Seq<char>) -> Seq<Seq<char>>
    decreases s.len(),
{
    match dot_from(s, 0) {
        None => seq![s],
        Some(i) => if 0 <= i < s.len() {
            seq![s.take(i)] + dot_pieces(s.skip(i + 1))
        } else {
            seq![s]
        },
    }
}

proof fn lemma_dot_from_shift(s: Seq<char>, start: int, k: int)
    requires
        0 <= start <= k <= s.len(),
        forall|t: int| start <= t < k ==> s[t] != '.',
    ensures
        dot_from(s.skip(start), 0) == match dot_from(s, k) {
            Some(j) => Some(j - start),
            None => None,
        },
    decreases k - start,
{
    let u = s.skip(start);
    if start < k {
        assert(u[0] == s[start]);
        lemma_dot_from_shift(s, start + 1, k);
        lemma_dot_from_skip_step(s, start);
    } else {
        lemma_dot_from_skip_eq(s, start, 0);
    }
}

proof fn lemma_dot_from_skip_step(s: Seq<char>, start: int)
    requires
        0 <= start < s.len(),
        s[start] != '.',
    ensures
        dot_from(s.skip(start), 0) == match dot_from(s.skip(start + 1), 0) {
            Some(j) => Some(j + 1),
            None => None,
        },
{
    lemma_dot_from_skip_eq(s, start, 1);
    lemma_dot_from_skip_eq(s, start + 1, 0);
}

proof fn lemma_dot_from_skip_eq(s: Seq<char>, start: int, from: int)
    requires
        0 <= start <= s.len(),
        0 <= from,
    ensures
        dot_from(s.skip(start), from) == match dot_from(s, start + from) {
            Some(j) => Some(j - start),
            None => None,
        },
    decreases s.len() - start - from,
{
    if start + from < s.len() {
        assert(s.skip(start)[from] == s[start + from]);
        lemma_dot_from_skip_eq(s, start, from + 1);
    }
}

/// A text without `.` is a single piece.
pub proof fn lemma_dot_pieces_single(s: Seq<char>)
    requires
        !s.contains('.'),
    ensures
        dot_pieces(s) == seq![s],
{
    lemma_no_dot(s, 0);
}

proof fn lemma_no_dot(s: Seq<char>, from: int)
    requires
        !s.contains('.'),
        0 <= from,
    ensures
        dot_from(s, from) is None,
    decreases s.len() - from,
{
    if from < s.len() {
        assert(s[from] != '.');
        lemma_no_dot(s, from + 1);
    }
}

/// Splits a dotted path on `.` into its pieces.
pub fn split_dots(s: &str) -> (r: Vec<&str>)
    ensures
        r@.map_values(|p: &str| p@) == dot_pieces(s@),
{
    let c = crate::location::chars_of(s);
    let n = c.len();
    let mut out: Vec<&str> = Vec::new();
    let mut start: usize = 0;
    let mut i: usize = 0;
    proof {
        assert(s@.skip(0) =~= s@);
    }
    while i < n
        invariant
            c@ == s@,
            n == c@.len(),
            start <= i <= n,
            forall|t: int| start <= t < i ==> c@[t] != '.',
            dot_pieces(s@) == out@.map_values(|p: &str| p@) + dot_pieces(s@.skip(start as int)),
        decreases n - i,
    {
        if c[i] == '.' {
            let piece = s.substring_char(start, i);
            proof {
                let u = s@.skip(start as int);
                lemma_dot_from_shift(s@, start as int, i as int);
                assert(dot_from(u, 0) == Some(i - start));
                assert(u.take(i - start) =~= s@.subrange(start as int, i as int));
                assert(u.skip(i - start + 1) =~= s@.skip(i + 1));
            }
            let ghost before = out@;
            out.push(piece);
            proof {
                assert(out@.map_values(|p: &str| p@) =~= before.map_values(|p: &str| p@).push(piece@));
            }
            start = i + 1;
        }
        i += 1;
    }
    let last = s.substring_char(start, n);
    proof {
        let u = s@.skip(start as int);
        lemma_dot_from_shift(s@, start as int, n as int);
        assert(u =~= s@.subrange(start as int, n as int));
    }
    let ghost before = out@;
    out.push(last);
    proof {
        assert(out@.map_values(|p: &str| p@) =~= before.map_values(|p: &str| p@).push(last@));
    }
    out
}

} // verus!
