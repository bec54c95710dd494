//! Per-rule value comparisons: equality, regex, kind checks, length
//! bounds, inclusion and temporal formats, on strings and on JSON nodes.

use vstd::prelude::*;
use crate::jsonval::{JsonValue, json_eq, ser_json};
use crate::models::MatchingRule;
use crate::strutil::{is_digit, all_digits};

verus! {

// ---------------------------------------------------------------------
// The regex engine, behind trusted wrappers.
// ---------------------------------------------------------------------

/// Whether a pattern compiles: what `regex::Regex::new` returns, a
/// function of the pattern alone.
pub uninterp spec fn regex_ok(pattern: Seq<char>) -> bool;

/// Whether a compiled pattern matches somewhere in a text: what
/// `regex::Regex::is_match` returns, a function of pattern and text.
pub uninterp spec fn regex_match(pattern: Seq<char>, text: Seq<char>) -> bool;

/// Relies on `regex::Regex::new` and `regex::Regex::is_match`: `new`
/// fails exactly on invalid patterns, and `is_match` reports whether the
/// pattern matches anywhere in the text; both depend on their string
/// arguments alone.
#[verifier::external_body]
fn regex_is_match(pattern: &str, text: &str) -> (r: Option<bool>)
    ensures
        r is Some <==> regex_ok(pattern@),
        r matches Some(b) ==> b == regex_match(pattern@, text@),
{
    match regex::Regex::new(pattern) {
        Ok(re) => Some(re.is_match(text)),
        Err(_) => None,
    }
}

/// The pattern wrapped so that it must cover the whole text: rule
/// matching uses full-match semantics.
pub open spec fn anchored(p: Seq<char>) -> Seq<char> {
    seq!['^', '(', '?', ':'] + p + seq![')', '$']
}

/// Whether the anchored pattern compiles and matches the whole text.
/// `None` when the pattern does not compile.
pub fn regex_full_match(pattern: &str, text: &str) -> (r: Option<bool>)
    ensures
        r is Some <==> regex_ok(anchored(pattern@)),
        r matches Some(b) ==> b == regex_match(anchored(pattern@), text@),
{
    let mut p = String::new();
    p.append("^(?:");
    p.append(pattern);
    p.append(")$");
    proof {
        reveal_strlit("^(?:");
        reveal_strlit(")$");
        assert(p@ =~= anchored(pattern@));
    }
    regex_is_match(p.as_str(), text)
}

// ---------------------------------------------------------------------
// Substring search.
// ---------------------------------------------------------------------

/// Whether the needle occurs in the haystack at position `k`.
pub open spec fn contains_at(h: Seq<char>, n: Seq<char>, k: int) -> bool {
    0 <= k && k + n.len() <= h.len() && h.subrange(k, k + n.len()) == n
}

/// Whether the needle occurs somewhere in the haystack.
pub open spec fn seq_contains(h: Seq<char>, n: Seq<char>) -> bool {
    exists|k: int| contains_at(h, n, k)
}

/// Decides whether the needle occurs in the haystack.
pub fn seq_contains_x(h: &Vec<char>, n: &Vec<char>) -> (r: bool)
    ensures
        r == seq_contains(h@, n@),
{
    if n.len() > h.len() {
        proof {
            assert(forall|k: int| !contains_at(h@, n@, k));
        }
        return false;
    }
    let last = h.len() - n.len();
    let mut k: usize = 0;
    loop
        invariant
            k <= last,
            last == h@.len() - n@.len(),
            n@.len() <= h@.len(),
            h@.len() <= usize::MAX,
            forall|k2: int| 0 <= k2 < k ==> !contains_at(h@, n@, k2),
        decreases last - k,
    {
        let mut m: usize = 0;
        let mut hit = true;
        while hit && m < n.len()
            invariant
                m <= n@.len(),
                h@.len() <= usize::MAX,
                k + n@.len() <= h@.len(),
                hit ==> forall|m2: int| 0 <= m2 < m ==> h@[k + m2] == n@[m2],
                !hit ==> !contains_at(h@, n@, k as int),
            decreases n@.len() - m,
        {
            if h[k + m] != n[m] {
                proof {
                    assert(h@.subrange(k as int, k + n@.len())[m as int] == h@[k + m]);
                    assert(!contains_at(h@, n@, k as int));
                }
                hit = false;
                m = n.len();
            } else {
                m = m + 1;
            }
        }
        if hit {
            proof {
                assert(h@.subrange(k as int, k + n@.len()) =~= n@);
                assert(contains_at(h@, n@, k as int));
            }
            return true;
        }
        if k == last {
            proof {
                assert forall|k2: int| !contains_at(h@, n@, k2) by {
                    if 0 <= k2 && k2 + n@.len() <= h@.len() {
                        if k2 < k as int {
                        } else {
                            assert(k2 == k as int);
                        }
                    }
                }
            }
            return false;
        }
        k = k + 1;
    }
}

// ---------------------------------------------------------------------
// Shapes of strings: integers, decimals, temporal formats.
// ---------------------------------------------------------------------

/// Whether a string is a decimal integer, with an optional leading minus.
pub open spec fn is_integer_str(s: Seq<char>) -> bool {
    if s.len() == 0 {
        false
    } else if s[0] == '-' {
        s.len() > 1 && all_digits(s.subrange(1, s.len() as int))
    } else {
        all_digits(s)
    }
}

/// Whether a string is a decimal number: an integer part, a point, and a
/// fraction part.
pub open spec fn is_decimal_str(s: Seq<char>) -> bool {
    exists|k: int| 0 < k < s.len() - 1 && s[k] == '.' && is_integer_str(#[trigger] s.subrange(0, k))
        && all_digits(s.subrange(k + 1, s.len() as int))
}

/// Decides whether a string is a decimal integer.
pub fn is_integer_str_x(s: &Vec<char>) -> (r: bool)
    ensures
        r == is_integer_str(s@),
{
    if s.len() == 0 {
        return false;
    }
    let start: usize = if s[0] == '-' {
        1
    } else {
        0
    };
    if start == 1 && s.len() == 1 {
        return false;
    }
    let mut i: usize = start;
    while i < s.len()
        invariant
            start <= i <= s@.len(),
            start == 0 || start == 1,
            start == 1 ==> s@[0] == '-' && s@.len() > 1,
            start == 0 ==> s@.len() > 0 && s@[0] != '-',
            forall|m: int| start <= m < i ==> is_digit(#[trigger] s@[m]),
        decreases s@.len() - i,
    {
        let c = s[i];
        if c < '0' || c > '9' {
            proof {
                if start == 1 {
                    assert(s@.subrange(1, s@.len() as int)[i - 1] == s@[i as int]);
                }
            }
            return false;
        }
        i = i + 1;
    }
    proof {
        if start == 1 {
            assert(forall|m: int| 0 <= m < s@.len() - 1 ==> s@.subrange(1, s@.len() as int)[m]
                == s@[m + 1]);
        }
    }
    true
}

/// No position after the first dot can carry a valid decimal split.
proof fn lemma_decimal_split_unique(s: Seq<char>, i: int, k: int)
    requires
        0 <= i < s.len(),
        s[i] == '.',
        forall|k2: int| 0 <= k2 < i ==> s[k2] != '.',
        0 < k < s.len() - 1,
        s[k] == '.',
        k != i,
    ensures
        !is_integer_str(s.subrange(0, k)),
{
    assert(k > i);
    let head = s.subrange(0, k);
    assert(head[i] == '.');
    if is_integer_str(head) {
        if head[0] == '-' {
            assert(all_digits(head.subrange(1, k)));
            assert(i >= 1);
            assert(head.subrange(1, k)[i - 1] == head[i]);
            assert(is_digit(head[i]));
            assert(false);
        } else {
            assert(all_digits(head));
            assert(is_digit(head[i]));
            assert(false);
        }
    }
}

/// Decides whether a string is a decimal number.
pub fn is_decimal_str_x(s: &Vec<char>) -> (r: bool)
    ensures
        r == is_decimal_str(s@),
{
    let mut i: usize = 0;
    while i < s.len()
        invariant
            i <= s@.len(),
            forall|k: int| 0 <= k < i ==> s@[k] != '.',
        decreases s@.len() - i,
    {
        if s[i] == '.' {
            if i == 0 || i >= s.len() - 1 {
                proof {
                    assert forall|k: int| !(0 < k < s@.len() - 1 && s@[k] == '.'
                        && is_integer_str(#[trigger] s@.subrange(0, k)) && all_digits(
                        s@.subrange(k + 1, s@.len() as int),
                    )) by {
                        if 0 < k < s@.len() - 1 && s@[k] == '.' {
                            if k == i as int {
                                assert(false);
                            } else {
                                lemma_decimal_split_unique(s@, i as int, k);
                            }
                        }
                    }
                }
                return false;
            }
            let mut head: Vec<char> = Vec::new();
            let mut m: usize = 0;
            while m < i
                invariant
                    m <= i <= s@.len(),
                    head@ == s@.subrange(0, m as int),
                decreases i - m,
            {
                head.push(s[m]);
                m = m + 1;
                proof {
                    assert(head@ =~= s@.subrange(0, m as int));
                }
            }
            let head_ok = is_integer_str_x(&head);
            let mut tail_ok = true;
            let mut t: usize = i + 1;
            while tail_ok && t < s.len()
                invariant
                    i + 1 <= t <= s@.len(),
                    i < s@.len(),
                    tail_ok ==> forall|m2: int| i + 1 <= m2 < t ==> is_digit(#[trigger] s@[m2]),
                    !tail_ok ==> !all_digits(s@.subrange(i + 1, s@.len() as int)),
                decreases s@.len() - t,
            {
                let c = s[t];
                if c < '0' || c > '9' {
                    proof {
                        assert(s@.subrange(i + 1, s@.len() as int)[t - i - 1] == s@[t as int]);
                    }
                    tail_ok = false;
                    t = s.len();
                } else {
                    t = t + 1;
                }
            }
            proof {
                if tail_ok {
                    assert(forall|m2: int| 0 <= m2 < s@.len() - i - 1 ==> #[trigger] s@.subrange(
                        i + 1,
                        s@.len() as int,
                    )[m2] == s@[m2 + i + 1]);
                    assert(all_digits(s@.subrange(i + 1, s@.len() as int)));
                }
            }
            if head_ok && tail_ok {
                proof {
                    assert(0 < i < s@.len() - 1 && s@[i as int] == '.' && is_integer_str(
                        s@.subrange(0, i as int),
                    ) && all_digits(s@.subrange(i + 1, s@.len() as int)));
                }
                return true;
            } else {
                proof {
                    assert forall|k: int| !(0 < k < s@.len() - 1 && s@[k] == '.'
                        && is_integer_str(#[trigger] s@.subrange(0, k)) && all_digits(
                        s@.subrange(k + 1, s@.len() as int),
                    )) by {
                        if 0 < k < s@.len() - 1 && s@[k] == '.' {
                            if k == i as int {
                            } else {
                                lemma_decimal_split_unique(s@, i as int, k);
                            }
                        }
                    }
                }
                return false;
            }
        }
        i = i + 1;
    }
    proof {
        assert forall|k: int| !(0 < k < s@.len() - 1 && s@[k] == '.' && is_integer_str(
            #[trigger] s@.subrange(0, k),
        ) && all_digits(s@.subrange(k + 1, s@.len() as int))) by {
            if 0 < k < s@.len() - 1 && s@[k] == '.' {
                assert(false);
            }
        }
    }
    false
}

/// Whether a format placeholder character stands for a digit.
pub open spec fn is_fmt_digit(c: char) -> bool {
    c == 'y' || c == 'M' || c == 'd' || c == 'H' || c == 'h' || c == 'm' || c == 's' || c == 'S'
}

/// Whether a string fits a temporal format: same length, a digit wherever
/// the format has a placeholder, the format's own character elsewhere.
pub open spec fn fmt_matches(fmt: Seq<char>, s: Seq<char>) -> bool {
    &&& s.len() == fmt.len()
    &&& forall|i: int| 0 <= i < fmt.len() ==> if is_fmt_digit(#[trigger] fmt[i]) {
        is_digit(s[i])
    } else {
        s[i] == fmt[i]
    }
}

/// Decides whether a string fits a temporal format.
pub fn fmt_matches_x(fmt: &Vec<char>, s: &Vec<char>) -> (r: bool)
    ensures
        r == fmt_matches(fmt@, s@),
{
    if s.len() != fmt.len() {
        return false;
    }
    let mut i: usize = 0;
    while i < fmt.len()
        invariant
            i <= fmt@.len(),
            s@.len() == fmt@.len(),
            forall|k: int| 0 <= k < i ==> if is_fmt_digit(#[trigger] fmt@[k]) {
                is_digit(s@[k])
            } else {
                s@[k] == fmt@[k]
            },
        decreases fmt@.len() - i,
    {
        let f = fmt[i];
        let c = s[i];
        let fd = f == 'y' || f == 'M' || f == 'd' || f == 'H' || f == 'h' || f == 'm' || f == 's'
            || f == 'S';
        if fd {
            if c < '0' || c > '9' {
                return false;
            }
        } else {
            if c != f {
                return false;
            }
        }
        i = i + 1;
    }
    true
}

// ---------------------------------------------------------------------
// Rules over strings.
// ---------------------------------------------------------------------

/// What one rule means on a pair of strings. Regex rules with patterns
/// that do not compile hold vacuously (a dead rule never fails a value).
pub open spec fn rule_str_ok(rule: MatchingRule, expected: Seq<char>, actual: Seq<char>) -> bool {
    match rule {
        MatchingRule::Equality => actual == expected,
        MatchingRule::Regex(p) => regex_ok(anchored(p@)) ==> regex_match(anchored(p@), actual),
        MatchingRule::Type => true,
        MatchingRule::MinType(n) => actual.len() >= n,
        MatchingRule::MaxType(n) => actual.len() <= n,
        MatchingRule::Include(sub) => seq_contains(actual, sub@),
        MatchingRule::Integer => is_integer_str(actual),
        MatchingRule::Decimal => is_decimal_str(actual),
        MatchingRule::Number => is_integer_str(actual) || is_decimal_str(actual),
        MatchingRule::Null => false,
        MatchingRule::Date(f) => fmt_matches(f@, actual),
        MatchingRule::Time(f) => fmt_matches(f@, actual),
        MatchingRule::Timestamp(f) => fmt_matches(f@, actual),
    }
}

/// Applies one rule to a pair of strings.
pub fn match_rule_str(rule: &MatchingRule, expected: &str, actual: &str) -> (r: bool)
    ensures
        r == rule_str_ok(*rule, expected@, actual@),
{
    match rule {
        MatchingRule::Equality => crate::strutil::str_eq(actual, expected),
        MatchingRule::Regex(p) => match regex_full_match(p.as_str(), actual) {
            Option::Some(b) => b,
            Option::None => true,
        },
        MatchingRule::Type => true,
        MatchingRule::MinType(n) => actual.unicode_len() >= *n,
        MatchingRule::MaxType(n) => actual.unicode_len() <= *n,
        MatchingRule::Include(sub) => {
            let h = crate::strutil::string_chars(actual);
            let nd = crate::strutil::string_chars(sub.as_str());
            seq_contains_x(&h, &nd)
        },
        MatchingRule::Integer => {
            let cs = crate::strutil::string_chars(actual);
            is_integer_str_x(&cs)
        },
        MatchingRule::Decimal => {
            let cs = crate::strutil::string_chars(actual);
            is_decimal_str_x(&cs)
        },
        MatchingRule::Number => {
            let cs = crate::strutil::string_chars(actual);
            let a = is_integer_str_x(&cs);
            if a {
                true
            } else {
                is_decimal_str_x(&cs)
            }
        },
        MatchingRule::Null => false,
        MatchingRule::Date(f) => {
            let fv = crate::strutil::string_chars(f.as_str());
            let cs = crate::strutil::string_chars(actual);
            fmt_matches_x(&fv, &cs)
        },
        MatchingRule::Time(f) => {
            let fv = crate::strutil::string_chars(f.as_str());
            let cs = crate::strutil::string_chars(actual);
            fmt_matches_x(&fv, &cs)
        },
        MatchingRule::Timestamp(f) => {
            let fv = crate::strutil::string_chars(f.as_str());
            let cs = crate::strutil::string_chars(actual);
            fmt_matches_x(&fv, &cs)
        },
    }
}

// ---------------------------------------------------------------------
// Rules over JSON nodes.
// ---------------------------------------------------------------------

/// The string a JSON node is read as when a textual rule applies to it:
/// the bare content for strings, the canonical rendering otherwise.
pub open spec fn json_text_of(v: JsonValue) -> Seq<char> {
    match v {
        JsonValue::Str(s) => s@,
        _ => ser_json(v),
    }
}

/// Whether two JSON nodes have the same primitive kind.
pub open spec fn same_kind(a: JsonValue, b: JsonValue) -> bool {
    match (a, b) {
        (JsonValue::Null, JsonValue::Null) => true,
        (JsonValue::Bool(_), JsonValue::Bool(_)) => true,
        (JsonValue::Int(_), JsonValue::Int(_)) => true,
        (JsonValue::Str(_), JsonValue::Str(_)) => true,
        (JsonValue::Array(_), JsonValue::Array(_)) => true,
        (JsonValue::Object(_), JsonValue::Object(_)) => true,
        _ => false,
    }
}

/// The element count of a container node, or the character count of a
/// string, used by the length-bounded kind rules.
pub open spec fn json_len_of(v: JsonValue) -> int {
    match v {
        JsonValue::Str(s) => s@.len() as int,
        JsonValue::Array(xs) => xs.len() as int,
        JsonValue::Object(xs) => xs.len() as int,
        _ => 0,
    }
}

/// What one rule means on a pair of JSON nodes.
pub open spec fn rule_json_ok(rule: MatchingRule, expected: JsonValue, actual: JsonValue) -> bool {
    match rule {
        MatchingRule::Equality => json_eq(actual, expected),
        MatchingRule::Regex(p) => regex_ok(anchored(p@)) ==> regex_match(
            anchored(p@),
            json_text_of(actual),
        ),
        MatchingRule::Type => same_kind(expected, actual),
        MatchingRule::MinType(n) => same_kind(expected, actual) && json_len_of(actual) >= n,
        MatchingRule::MaxType(n) => same_kind(expected, actual) && json_len_of(actual) <= n,
        MatchingRule::Include(sub) => seq_contains(json_text_of(actual), sub@),
        MatchingRule::Integer => actual is Int,
        MatchingRule::Decimal => actual is Int,
        MatchingRule::Number => actual is Int,
        MatchingRule::Null => actual is Null,
        MatchingRule::Date(f) => fmt_matches(f@, json_text_of(actual)),
        MatchingRule::Time(f) => fmt_matches(f@, json_text_of(actual)),
        MatchingRule::Timestamp(f) => fmt_matches(f@, json_text_of(actual)),
    }
}

/// Applies one rule to a pair of JSON nodes.
pub fn match_rule_json(rule: &MatchingRule, expected: &JsonValue, actual: &JsonValue) -> (r: bool)
    ensures
        r == rule_json_ok(*rule, *expected, *actual),
{
    match rule {
        MatchingRule::Equality => crate::jsonval::json_eq_x(actual, expected),
        MatchingRule::Regex(p) => {
            let t = json_text_string(actual);
            match regex_full_match(p.as_str(), t.as_str()) {
                Option::Some(b) => b,
                Option::None => true,
            }
        },
        MatchingRule::Type => same_kind_x(expected, actual),
        MatchingRule::MinType(n) => {
            if !same_kind_x(expected, actual) {
                false
            } else {
                json_len_x(actual) >= *n
            }
        },
        MatchingRule::MaxType(n) => {
            if !same_kind_x(expected, actual) {
                false
            } else {
                json_len_x(actual) <= *n
            }
        },
        MatchingRule::Include(sub) => {
            let t = json_text_string(actual);
            let h = crate::strutil::string_chars(t.as_str());
            let nd = crate::strutil::string_chars(sub.as_str());
            seq_contains_x(&h, &nd)
        },
        MatchingRule::Integer => match actual {
            JsonValue::Int(_) => true,
            _ => false,
        },
        MatchingRule::Decimal => match actual {
            JsonValue::Int(_) => true,
            _ => false,
        },
        MatchingRule::Number => match actual {
            JsonValue::Int(_) => true,
            _ => false,
        },
        MatchingRule::Null => match actual {
            JsonValue::Null => true,
            _ => false,
        },
        MatchingRule::Date(f) => {
            let t = json_text_string(actual);
            let fv = crate::strutil::string_chars(f.as_str());
            let cs = crate::strutil::string_chars(t.as_str());
            fmt_matches_x(&fv, &cs)
        },
        MatchingRule::Time(f) => {
            let t = json_text_string(actual);
            let fv = crate::strutil::string_chars(f.as_str());
            let cs = crate::strutil::string_chars(t.as_str());
            fmt_matches_x(&fv, &cs)
        },
        MatchingRule::Timestamp(f) => {
            let t = json_text_string(actual);
            let fv = crate::strutil::string_chars(f.as_str());
            let cs = crate::strutil::string_chars(t.as_str());
            fmt_matches_x(&fv, &cs)
        },
    }
}

/// The textual reading of a JSON node.
pub fn json_text_string(v: &JsonValue) -> (s: String)
    ensures
        s@ == json_text_of(*v),
{
    match v {
        JsonValue::Str(x) => x.clone(),
        _ => crate::jsonval::json_to_string(v),
    }
}

/// Decides whether two nodes share a primitive kind.
pub fn same_kind_x(a: &JsonValue, b: &JsonValue) -> (r: bool)
    ensures
        r == same_kind(*a, *b),
{
    match (a, b) {
        (JsonValue::Null, JsonValue::Null) => true,
        (JsonValue::Bool(_), JsonValue::Bool(_)) => true,
        (JsonValue::Int(_), JsonValue::Int(_)) => true,
        (JsonValue::Str(_), JsonValue::Str(_)) => true,
        (JsonValue::Array(_), JsonValue::Array(_)) => true,
        (JsonValue::Object(_), JsonValue::Object(_)) => true,
        _ => false,
    }
}

/// The length a bounded kind rule inspects.
pub fn json_len_x(v: &JsonValue) -> (r: usize)
    ensures
        r == json_len_of(*v),
{
    match v {
        JsonValue::Str(s) => s.as_str().unicode_len(),
        JsonValue::Array(xs) => xs.len(),
        JsonValue::Object(xs) => xs.len(),
        _ => 0,
    }
}

} // verus!
