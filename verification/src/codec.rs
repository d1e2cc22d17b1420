use vstd::prelude::*;

use crate::errors::Error;
use crate::text::str_eq;
use crate::variable::{accepts_spec, DataType, GenericValue};

verus! {

use vstd::string::StrSliceExecFns;

// Every value is stored as text and parsed back through the variable's
// declared data type. This module defines the textual encodings: numeric
// values carry a decimal numeral (optionally signed, with an optional
// fraction and exponent, or one of the special spellings `inf` and `NaN`),
// boolean values are spelled `true` or `false`, and textual values are kept
// as they are.
/// Is `c` a decimal digit?
pub open spec fn is_digit(c: char) -> bool {
    '0' <= c && c <= '9'
}

/// A possibly empty run of decimal digits.
pub open spec fn digits_only(s: Seq<char>) -> bool {
    forall|i: int| 0 <= i < s.len() ==> is_digit(#[trigger] s[i])
}

/// A non-empty run of decimal digits.
pub open spec fn digit_run(s: Seq<char>) -> bool {
    s.len() > 0 && digits_only(s)
}

/// Does `c` spell the lowercase letter `l`, in either case? The uppercase
/// letter sits 32 below the lowercase one in the character table.
pub open spec fn ci_char(c: char, l: char) -> bool {
    c == l || c as int + 32 == l as int
}

/// Does `a` spell the lowercase word `b`, ignoring ASCII case?
pub open spec fn ci_matches(a: Seq<char>, b: Seq<char>) -> bool {
    a.len() == b.len() && forall|i: int| 0 <= i < a.len() ==> ci_char(#[trigger] a[i], b[i])
}

/// The index of the first occurrence of `a` or `b` in `s`, or `s.len()`.
pub open spec fn first_of2(s: Seq<char>, a: char, b: char) -> int
    decreases s.len(),
{
    if s.len() == 0 {
        0
    } else if s[0] == a || s[0] == b {
        0
    } else {
        1 + first_of2(s.skip(1), a, b)
    }
}

/// `first_of2` is pinned down by its characteristic properties.
pub proof fn lemma_first_of2_unique(s: Seq<char>, a: char, b: char, r: int)
    requires
        0 <= r <= s.len(),
        forall|j: int| 0 <= j < r ==> s[j] != a && s[j] != b,
        r < s.len() ==> s[r] == a || s[r] == b,
    ensures
        r == first_of2(s, a, b),
    decreases s.len(),
{
    if s.len() == 0 {
    } else if s[0] == a || s[0] == b {
        if r > 0 {
            assert(s[0] != a && s[0] != b);
        }
    } else {
        assert(r != 0);
        let t = s.skip(1);
        assert(forall|j: int| 0 <= j < r - 1 ==> t[j] == s[j + 1]);
        lemma_first_of2_unique(t, a, b, r - 1);
    }
}

/// `first_of2` lies between 0 and the length of the sequence, and points at
/// an occurrence when there is one.
pub proof fn lemma_first_of2_props(s: Seq<char>, a: char, b: char)
    ensures
        0 <= first_of2(s, a, b) <= s.len(),
        first_of2(s, a, b) < s.len() ==> s[first_of2(s, a, b)] == a || s[first_of2(s, a, b)]
            == b,
    decreases s.len(),
{
    if s.len() == 0 {
    } else if s[0] == a || s[0] == b {
    } else {
        lemma_first_of2_props(s.skip(1), a, b);
    }
}

/// Digits with at most one decimal point and at least one digit, split at
/// the first point: `1`, `1.5`, `1.` and `.5` are all mantissas.
pub open spec fn is_mantissa(s: Seq<char>) -> bool {
    let d = first_of2(s, '.', '.');
    if d == s.len() {
        digit_run(s)
    } else {
        digits_only(s.take(d)) && digits_only(s.skip(d + 1)) && s.len() > 1
    }
}

/// An optionally signed digit run, as allowed after `e` in a numeral.
pub open spec fn is_exponent(s: Seq<char>) -> bool {
    if s.len() > 0 && (s[0] == '+' || s[0] == '-') {
        digit_run(s.skip(1))
    } else {
        digit_run(s)
    }
}

/// A mantissa with an optional exponent, split at the first `e` or `E`.
pub open spec fn is_unsigned_numeral(s: Seq<char>) -> bool {
    let e = first_of2(s, 'e', 'E');
    if e == s.len() {
        is_mantissa(s)
    } else {
        is_mantissa(s.take(e)) && is_exponent(s.skip(e + 1))
    }
}

/// A decimal numeral, as the store accepts it for numeric variables: an
/// optional sign followed by an unsigned numeral or one of the special
/// spellings `inf`, `infinity` and `nan` in any ASCII case.
pub open spec fn is_numeral(s: Seq<char>) -> bool {
    let t = if s.len() > 0 && (s[0] == '+' || s[0] == '-') {
        s.skip(1)
    } else {
        s
    };
    ci_matches(t, "inf"@) || ci_matches(t, "infinity"@) || ci_matches(t, "nan"@)
        || is_unsigned_numeral(t)
}

/// Which texts are valid encodings of a value of data type `dt`.
pub open spec fn valid_text(dt: DataType, s: Seq<char>) -> bool {
    match dt {
        DataType::Unit(_) => is_numeral(s),
        DataType::Number => is_numeral(s),
        DataType::Label => true,
        DataType::Text => true,
        DataType::Bool => s == "true"@ || s == "false"@,
    }
}

/// The view of the value that parsing a valid text of type `dt` yields.
pub open spec fn parsed_view(dt: DataType, s: Seq<char>) -> (int, Seq<char>) {
    match dt {
        DataType::Unit(_) => (0int, s),
        DataType::Number => (0int, s),
        DataType::Label => (1int, s),
        DataType::Text => (1int, s),
        DataType::Bool => (2int, s),
    }
}

fn digits_only_range(s: &str, from: usize, to: usize) -> (r: bool)
    requires
        from <= to,
        to <= s@.len(),
    ensures
        r == digits_only(s@.subrange(from as int, to as int)),
{
    let ghost sub = s@.subrange(from as int, to as int);
    let mut i = from;
    while i < to
        invariant
            from <= i <= to,
            to <= s@.len(),
            sub == s@.subrange(from as int, to as int),
            forall|j: int| from <= j < i ==> is_digit(#[trigger] s@[j]),
        decreases to - i,
    {
        let c = s.get_char(i);
        if !('0' <= c && c <= '9') {
            assert(sub[i - from] == s@[i as int]);
            return false;
        }
        i += 1;
    }
    assert forall|k: int| 0 <= k < sub.len() implies is_digit(sub[k]) by {
        assert(sub[k] == s@[from + k]);
    }
    true
}

fn digits_range(s: &str, from: usize, to: usize) -> (r: bool)
    requires
        from <= to,
        to <= s@.len(),
    ensures
        r == digit_run(s@.subrange(from as int, to as int)),
{
    if from == to {
        assert(s@.subrange(from as int, to as int).len() == 0);
        return false;
    }
    digits_only_range(s, from, to)
}

/// Does `s` spell the lowercase word `pat`, ignoring ASCII case?
fn eq_ignore_case(s: &str, pat: &str) -> (r: bool)
    ensures
        r == ci_matches(s@, pat@),
{
    let n = s.unicode_len();
    let m = pat.unicode_len();
    if n != m {
        return false;
    }
    let mut i: usize = 0;
    while i < n
        invariant
            i <= n,
            n == s@.len(),
            n == pat@.len(),
            forall|j: int| 0 <= j < i ==> ci_char(#[trigger] s@[j], pat@[j]),
        decreases n - i,
    {
        let c = s.get_char(i);
        let l = pat.get_char(i);
        if !(c == l || (c as u32) + 32 == (l as u32)) {
            return false;
        }
        i += 1;
    }
    true
}

fn find2(s: &str, a: char, b: char) -> (r: usize)
    ensures
        r == first_of2(s@, a, b),
{
    let n = s.unicode_len();
    let mut i: usize = 0;
    while i < n
        invariant
            i <= n,
            n == s@.len(),
            forall|j: int| 0 <= j < i ==> s@[j] != a && s@[j] != b,
        decreases n - i,
    {
        let c = s.get_char(i);
        if c == a || c == b {
            proof {
                lemma_first_of2_unique(s@, a, b, i as int);
            }
            return i;
        }
        i += 1;
    }
    proof {
        lemma_first_of2_unique(s@, a, b, n as int);
    }
    n
}

fn check_mantissa(m: &str) -> (r: bool)
    ensures
        r == is_mantissa(m@),
{
    let n = m.unicode_len();
    let d = find2(m, '.', '.');
    proof {
        lemma_first_of2_props(m@, '.', '.');
    }
    if d == n {
        assert(m@.subrange(0, n as int) =~= m@);
        digits_range(m, 0, n)
    } else {
        assert(m@.subrange(0, d as int) =~= m@.take(d as int));
        assert(m@.subrange(d + 1, n as int) =~= m@.skip(d + 1));
        let before = digits_only_range(m, 0, d);
        let after = digits_only_range(m, d + 1, n);
        before && after && n > 1
    }
}

fn check_exponent(x: &str) -> (r: bool)
    ensures
        r == is_exponent(x@),
{
    let n = x.unicode_len();
    if n > 0 {
        let c = x.get_char(0);
        if c == '+' || c == '-' {
            assert(x@.subrange(1, n as int) =~= x@.skip(1));
            return digits_range(x, 1, n);
        }
    }
    assert(x@.subrange(0, n as int) =~= x@);
    digits_range(x, 0, n)
}

/// Does `s` spell a decimal numeral?
pub fn check_numeral(s: &str) -> (r: bool)
    ensures
        r == is_numeral(s@),
{
    let n = s.unicode_len();
    let start: usize = if n > 0 {
        let c = s.get_char(0);
        if c == '+' || c == '-' {
            1
        } else {
            0
        }
    } else {
        0
    };
    let t = s.substring_char(start, n);
    assert(t@ =~= if s@.len() > 0 && (s@[0] == '+' || s@[0] == '-') {
        s@.skip(1)
    } else {
        s@
    });
    let inf_spelled = eq_ignore_case(t, "inf");
    let infinity_spelled = eq_ignore_case(t, "infinity");
    let nan_spelled = eq_ignore_case(t, "nan");
    if inf_spelled || infinity_spelled || nan_spelled {
        return true;
    }
    let m = t.unicode_len();
    let e = find2(t, 'e', 'E');
    proof {
        lemma_first_of2_props(t@, 'e', 'E');
    }
    if e == m {
        check_mantissa(t)
    } else {
        let mant = t.substring_char(0, e);
        let ex = t.substring_char(e + 1, m);
        assert(mant@ =~= t@.take(e as int));
        assert(ex@ =~= t@.skip(e + 1));
        let mant_ok = check_mantissa(mant);
        let ex_ok = check_exponent(ex);
        mant_ok && ex_ok
    }
}

/// The index of the first occurrence of `c` in `s`, or the length of `s`.
pub fn find_first(s: &str, c: char) -> (r: usize)
    ensures
        r == first_of2(s@, c, c),
{
    find2(s, c, c)
}

/// Does `s` contain the character `c`?
pub fn check_has(s: &str, c: char) -> (r: bool)
    ensures
        r == (first_of2(s@, c, c) < s@.len()),
{
    let p = find2(s, c, c);
    proof {
        lemma_first_of2_props(s@, c, c);
    }
    p < s.unicode_len()
}

impl GenericValue {
    /// A numeric value must carry a valid numeral as its text; the other
    /// variants carry any text.
    pub open spec fn wf(self) -> bool {
        match self {
            GenericValue::Numeric(s) => is_numeral(s@),
            GenericValue::String(_) => true,
            GenericValue::Bool(_) => true,
        }
    }

    /// Does this value satisfy its well-formedness condition?
    pub fn is_wf(&self) -> (r: bool)
        ensures
            r == self.wf(),
    {
        match self {
            GenericValue::Numeric(s) => check_numeral(s.as_str()),
            GenericValue::String(_) => true,
            GenericValue::Bool(_) => true,
        }
    }

    /// Serializes this value into the text under which the store keeps it.
    pub fn to_text(&self) -> (r: String)
        ensures
            r@ == self@.1,
    {
        match self {
            GenericValue::Numeric(s) => s.clone(),
            GenericValue::String(s) => s.clone(),
            GenericValue::Bool(b) => if *b {
                "true".to_owned()
            } else {
                "false".to_owned()
            },
        }
    }
}

impl DataType {
    /// Parse the given string as a `GenericValue` matching this `DataType`.
    /// Succeeds exactly on the valid encodings for the type, and the parsed
    /// value serializes back to the given text.
    pub fn parse_str_as_generic_value(&self, value: &str) -> (r: Result<GenericValue, Error>)
        ensures
            r is Ok <==> valid_text(*self, value@),
            r matches Ok(v) ==> v@ == parsed_view(*self, value@) && accepts_spec(*self, v)
                && v.wf(),
            r matches Err(e) ==> e == Error::InvalidValue,
    {
        match self {
            DataType::Unit(_) | DataType::Number => {
                if check_numeral(value) {
                    Ok(GenericValue::Numeric(value.to_owned()))
                } else {
                    Err(Error::InvalidValue)
                }
            },
            DataType::Label | DataType::Text => Ok(GenericValue::String(value.to_owned())),
            DataType::Bool => {
                if str_eq(value, "true") {
                    Ok(GenericValue::Bool(true))
                } else if str_eq(value, "false") {
                    Ok(GenericValue::Bool(false))
                } else {
                    Err(Error::InvalidValue)
                }
            },
        }
    }
}

/// Serialization and parsing are mutually inverse: any well-formed value
/// that a data type accepts serializes to a valid text for that type, and
/// parsing that text yields a value with the same view (see the
/// postcondition of `parse_str_as_generic_value`).
pub proof fn lemma_value_round_trip(dt: DataType, v: GenericValue)
    requires
        v.wf(),
        accepts_spec(dt, v),
    ensures
        valid_text(dt, v@.1),
        parsed_view(dt, v@.1) == v@,
{
}

} // verus!
