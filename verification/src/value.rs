//! Decimal measurement values.
//!
//! A measurement is kept as the decimal numeral read from the source text:
//! an integer part and an optional fractional part, both digit strings. This
//! keeps parsing and rendering exact and byte-faithful; no rounding ever
//! happens between reading a value and writing it back out.

use vstd::prelude::*;
use crate::text::{TrimSet, is_digit, spec_trim, spec_split, trim, split, copy_chars, append_chars};

verus! {

/// A nonnegative decimal numeral: integer digits, and fractional digits
/// (empty when the token carried no decimal separator).
#[derive(Debug, Clone, PartialEq, Eq)]
pub struct Value {
    pub int_part: Vec<char>,
    pub frac_part: Vec<char>,
}

/// The mathematical view of a `Value`: the two digit strings.
pub struct ValueView {
    pub int_part: Seq<char>,
    pub frac_part: Seq<char>,
}

impl View for Value {
    type V = ValueView;

    open spec fn view(&self) -> ValueView {
        ValueView { int_part: self.int_part@, frac_part: self.frac_part@ }
    }
}

impl ValueView {
    /// A well-formed value has a non-empty all-digit integer part and an
    /// all-digit fractional part.
    pub open spec fn wf(self) -> bool {
        self.int_part.len() > 0 && all_digits(self.int_part) && all_digits(self.frac_part)
    }
}

/// Every character of `s` is an ASCII decimal digit.
pub open spec fn all_digits(s: Seq<char>) -> bool {
    forall|i: int| 0 <= i < s.len() ==> is_digit(s[i])
}

/// Check that every character of `s` is an ASCII decimal digit.
pub fn check_digits(s: &Vec<char>) -> (r: bool)
    ensures
        r == all_digits(s@),
{
    let mut i: usize = 0;
    while i < s.len()
        invariant
            0 <= i <= s.len(),
            forall|k: int| 0 <= k < i ==> is_digit(s@[k]),
        decreases s.len() - i,
    {
        if !('0' <= s[i] && s[i] <= '9') {
            return false;
        }
        i = i + 1;
    }
    true
}

/// `s` with every comma replaced by a dot, the alternate decimal separator.
pub open spec fn comma_to_dot(s: Seq<char>) -> Seq<char> {
    s.map_values(|c: char| if c == ',' { '.' } else { c })
}

/// The decimal numeral denoted by the token `tok`, if any: after trimming
/// whitespace and turning commas into dots, the token must be one non-empty
/// digit run, or two separated by a single dot.
pub open spec fn spec_decimal(tok: Seq<char>) -> Option<ValueView> {
    let t = comma_to_dot(spec_trim(TrimSet::Ws, tok));
    let parts = spec_split(t, '.');
    if parts.len() == 1 && parts[0].len() > 0 && all_digits(parts[0]) {
        Some(ValueView { int_part: parts[0], frac_part: Seq::empty() })
    } else if parts.len() == 2 && parts[0].len() > 0 && all_digits(parts[0])
        && parts[1].len() > 0 && all_digits(parts[1]) {
        Some(ValueView { int_part: parts[0], frac_part: parts[1] })
    } else {
        None
    }
}

/// A decimal numeral, when it exists, is well formed.
pub proof fn lemma_decimal_wf(tok: Seq<char>)
    ensures
        spec_decimal(tok) matches Some(v) ==> v.wf(),
{
}

/// Parse a token as a decimal numeral, accepting a comma as the decimal
/// separator and ignoring surrounding whitespace.
pub fn parse_value(tok: &Vec<char>) -> (r: Option<Value>)
    ensures
        r matches Some(v) ==> spec_decimal(tok@) == Some(v@),
        r is None ==> spec_decimal(tok@) is None,
{
    let trimmed = trim(TrimSet::Ws, tok);
    let mut t: Vec<char> = Vec::new();
    let mut i: usize = 0;
    proof {
        assert(t@ =~= comma_to_dot(trimmed@.take(0)));
    }
    while i < trimmed.len()
        invariant
            0 <= i <= trimmed.len(),
            t@ == comma_to_dot(trimmed@.take(i as int)),
        decreases trimmed.len() - i,
    {
        if trimmed[i] == ',' {
            t.push('.');
        } else {
            t.push(trimmed[i]);
        }
        proof {
            assert(t@ =~= comma_to_dot(trimmed@.take(i as int + 1)));
        }
        i = i + 1;
    }
    proof {
        assert(trimmed@.take(i as int) =~= trimmed@);
    }
    let parts = split(&t, '.');
    proof {
        assert(parts.deep_view() == spec_split(comma_to_dot(spec_trim(TrimSet::Ws, tok@)), '.'));
    }
    if parts.len() == 1 {
        proof {
            assert(parts@[0].deep_view() =~= parts@[0]@);
            assert(parts.deep_view()[0] == parts@[0]@);
        }
        if parts[0].len() > 0 && check_digits(&parts[0]) {
            let int_part = copy_chars(&parts[0]);
            Some(Value { int_part, frac_part: Vec::new() })
        } else {
            None
        }
    } else if parts.len() == 2 {
        proof {
            assert(parts@[0].deep_view() =~= parts@[0]@);
            assert(parts@[1].deep_view() =~= parts@[1]@);
            assert(parts.deep_view()[0] == parts@[0]@);
            assert(parts.deep_view()[1] == parts@[1]@);
        }
        if parts[0].len() > 0 && check_digits(&parts[0]) && parts[1].len() > 0 && check_digits(&parts[1]) {
            let int_part = copy_chars(&parts[0]);
            let frac_part = copy_chars(&parts[1]);
            Some(Value { int_part, frac_part })
        } else {
            None
        }
    } else {
        None
    }
}

/// The rendering of a value: the integer digits, then a dot and the
/// fractional digits when there are any.
pub open spec fn spec_render_value(v: ValueView) -> Seq<char> {
    if v.frac_part.len() > 0 {
        v.int_part + seq!['.'] + v.frac_part
    } else {
        v.int_part
    }
}

/// Render a value as its decimal numeral.
pub fn render_value(v: &Value) -> (r: Vec<char>)
    ensures
        r@ == spec_render_value(v@),
{
    let mut out = copy_chars(&v.int_part);
    if v.frac_part.len() > 0 {
        out.push('.');
        append_chars(&mut out, &v.frac_part);
        proof {
            assert(out@ =~= v@.int_part + seq!['.'] + v@.frac_part);
        }
    }
    out
}

} // verus!
