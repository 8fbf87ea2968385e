//! Type coercion of raw strings into typed values.
use vstd::prelude::*;
use crate::text::{
    contains_char, eq_ignore_ascii_case, eq_ignore_ascii_case_spec, float_text, float_text_of,
    parse_i64, parse_i64_spec, parse_u64, parse_u64_spec,
};
use crate::value::{ConfigValue, Tree};

verus! {

/// The typed value that raw text stands for: the boolean literals in any
/// case, then a signed 64-bit integer, then (only for text with a decimal
/// point) a finite float, and otherwise the text itself.
pub open spec fn coerce_spec(s: Seq<char>) -> Tree {
    if eq_ignore_ascii_case_spec(s, seq!['t', 'r', 'u', 'e']) {
        Tree::Bool(true)
    } else if eq_ignore_ascii_case_spec(s, seq!['f', 'a', 'l', 's', 'e']) {
        Tree::Bool(false)
    } else if parse_i64_spec(s) is Some {
        Tree::Int(parse_i64_spec(s)->0)
    } else if s.contains('.') && float_text_of(s) is Some {
        Tree::Float(float_text_of(s)->0)
    } else {
        Tree::Str(s)
    }
}

/// Infers a typed value from raw text; never fails.
pub fn coerce_value(s: &str) -> (r: ConfigValue)
    ensures
        r@ == coerce_spec(s@),
        r.wf(),
{
    proof {
        reveal_strlit("true");
        reveal_strlit("false");
    }
    if eq_ignore_ascii_case(s, "true") {
        return ConfigValue::Bool(true);
    }
    if eq_ignore_ascii_case(s, "false") {
        return ConfigValue::Bool(false);
    }
    if let Some(i) = parse_i64(s) {
        return ConfigValue::Int(i);
    }
    if contains_char(s, '.') {
        if let Some(t) = float_text(s) {
            return ConfigValue::Float(t);
        }
    }
    ConfigValue::Str(s.to_string())
}


/// The value that type inference gives raw text: the boolean literals in
/// any case, then an unsigned integer, then a signed one, then (only for
/// text holding `.`, `e` or `E`) a finite float, and otherwise the text.
pub open spec fn infer_spec(s: Seq<char>) -> Tree {
    if eq_ignore_ascii_case_spec(s, seq!['t', 'r', 'u', 'e']) {
        Tree::Bool(true)
    } else if eq_ignore_ascii_case_spec(s, seq!['f', 'a', 'l', 's', 'e']) {
        Tree::Bool(false)
    } else if parse_u64_spec(s) is Some {
        Tree::UInt(parse_u64_spec(s)->0)
    } else if parse_i64_spec(s) is Some {
        Tree::Int(parse_i64_spec(s)->0)
    } else if (s.contains('.') || s.contains('e') || s.contains('E')) && float_text_of(s) is Some {
        Tree::Float(float_text_of(s)->0)
    } else {
        Tree::Str(s)
    }
}

impl ConfigValue {
    /// Infers a typed value from raw text: boolean, then unsigned integer,
    /// then signed integer, then float (only for text with `.`, `e` or `E`),
    /// and otherwise the text itself.
    pub fn from_str_infer(s: &str) -> (r: ConfigValue)
        ensures
            r@ == infer_spec(s@),
            r.wf(),
    {
        proof {
            reveal_strlit("true");
            reveal_strlit("false");
        }
        if eq_ignore_ascii_case(s, "true") {
            return ConfigValue::Bool(true);
        }
        if eq_ignore_ascii_case(s, "false") {
            return ConfigValue::Bool(false);
        }
        if let Some(u) = parse_u64(s) {
            return ConfigValue::UInt(u);
        }
        if let Some(i) = parse_i64(s) {
            return ConfigValue::Int(i);
        }
        if contains_char(s, '.') || contains_char(s, 'e') || contains_char(s, 'E') {
            if let Some(t) = float_text(s) {
                return ConfigValue::Float(t);
            }
        }
        ConfigValue::Str(s.to_string())
    }
}

} // verus!
