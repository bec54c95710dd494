//! A JSON reader for the subset bodies are matched on: null, booleans,
//! 64-bit integers, strings without escape sequences, arrays and objects.
//! A body outside the subset does not parse, and the caller falls back to
//! plain-text comparison, as unparseable bodies generally do. The grammar
//! is stated as a specification-level parser (`sp_doc`), and the reader is
//! proved to decide it exactly.

use vstd::prelude::*;
use crate::jsonval::JsonValue;
use crate::matching::first_non_ws;
use crate::strutil::{digits_value, is_digit, string_chars};

verus! {

// ---------------------------------------------------------------------
// The tree a document denotes, at specification level, and what it
// means for a parsed value to denote it.
// ---------------------------------------------------------------------

/// The mathematical form of a parsed document: integers and character
/// sequences in place of machine words and heap strings.
pub enum GJson {
    Null,
    Bool(bool),
    Int(int),
    Str(Seq<char>),
    Arr(Seq<GJson>),
    Obj(Seq<(Seq<char>, GJson)>),
}

/// Whether a parsed tree denotes the specification-level tree: equal
/// shape, with each leaf read through its view.
pub open spec fn denotes(v: JsonValue, g: GJson) -> bool
    decreases v,
{
    match v {
        JsonValue::Null => g is Null,
        JsonValue::Bool(b) => g matches GJson::Bool(b2) && b2 == b,
        JsonValue::Int(n) => g matches GJson::Int(m) && m == n as int,
        JsonValue::Str(s) => g matches GJson::Str(t) && t == s@,
        JsonValue::Array(xs) => g matches GJson::Arr(items) && items.len() == xs@.len() && (forall|
            i: int,
        | 0 <= i < xs@.len() ==> denotes(#[trigger] xs@[i], items[i])),
        JsonValue::Object(xs) => g matches GJson::Obj(fs) && fs.len() == xs@.len() && (forall|
            i: int,
        | 0 <= i < xs@.len() ==> (#[trigger] fs[i]).0 == xs@[i].0@ && denotes(xs@[i].1, fs[i].1)),
    }
}

// ---------------------------------------------------------------------
// The grammar, as a specification-level parser over positions.
// ---------------------------------------------------------------------

/// The first position at or after `j` holding a quote or a backslash,
/// or the length.
pub open spec fn sp_str_end(s: Seq<char>, j: int) -> int
    decreases s.len() - j,
{
    if j < 0 || j >= s.len() {
        s.len() as int
    } else if s[j] == '"' || s[j] == '\\' {
        j
    } else {
        sp_str_end(s, j + 1)
    }
}

/// One quoted string without escape sequences starting at `i`: its
/// content and the position after the closing quote.
pub open spec fn sp_string(s: Seq<char>, i: int) -> Option<(Seq<char>, int)> {
    if !(0 <= i < s.len() && s[i] == '"') {
        None
    } else {
        let e = sp_str_end(s, i + 1);
        if e < s.len() && s[e] == '"' {
            Some((s.subrange(i + 1, e), e + 1))
        } else {
            None
        }
    }
}

/// The first position at or after `j` holding no decimal digit, or the
/// length.
pub open spec fn sp_digits_end(s: Seq<char>, j: int) -> int
    decreases s.len() - j,
{
    if j < 0 || j >= s.len() {
        s.len() as int
    } else if is_digit(s[j]) {
        sp_digits_end(s, j + 1)
    } else {
        j
    }
}

/// One integer starting at `i`: an optional minus sign, then at least
/// one digit, reading no larger than the greatest 64-bit value.
pub open spec fn sp_number(s: Seq<char>, i: int) -> Option<(GJson, int)> {
    let neg = 0 <= i < s.len() && s[i] == '-';
    let st = if neg {
        i + 1
    } else {
        i
    };
    let e = sp_digits_end(s, st);
    if e == st {
        None
    } else {
        let v = digits_value(s.subrange(st, e));
        if v > 0x7fffffffffffffff {
            None
        } else {
            Some(
                (GJson::Int(
                    if neg {
                        -v
                    } else {
                        v
                    },
                ), e),
            )
        }
    }
}

/// One value starting at `i`: the tree it denotes and the position
/// after it.
pub open spec fn sp_value(s: Seq<char>, i: int) -> Option<(GJson, int)>
    decreases s.len() - i, 0int,
{
    if i < 0 || i >= s.len() {
        None
    } else {
        let c = s[i];
        if c == 'n' {
            if s.len() - i >= 4 && s[i + 1] == 'u' && s[i + 2] == 'l' && s[i + 3] == 'l' {
                Some((GJson::Null, i + 4))
            } else {
                None
            }
        } else if c == 't' {
            if s.len() - i >= 4 && s[i + 1] == 'r' && s[i + 2] == 'u' && s[i + 3] == 'e' {
                Some((GJson::Bool(true), i + 4))
            } else {
                None
            }
        } else if c == 'f' {
            if s.len() - i >= 5 && s[i + 1] == 'a' && s[i + 2] == 'l' && s[i + 3] == 's' && s[i + 4]
                == 'e' {
                Some((GJson::Bool(false), i + 5))
            } else {
                None
            }
        } else if c == '"' {
            match sp_string(s, i) {
                Some((t, j)) => Some((GJson::Str(t), j)),
                None => None,
            }
        } else if c == '-' || is_digit(c) {
            sp_number(s, i)
        } else if c == '[' {
            let j = first_non_ws(s, i + 1);
            if j < s.len() && s[j] == ']' {
                Some((GJson::Arr(Seq::empty()), j + 1))
            } else if !(i < j <= s.len()) {
                None
            } else {
                match sp_elems(s, j) {
                    Some((items, k)) => Some((GJson::Arr(items), k)),
                    None => None,
                }
            }
        } else if c == '{' {
            let j = first_non_ws(s, i + 1);
            if j < s.len() && s[j] == '}' {
                Some((GJson::Obj(Seq::empty()), j + 1))
            } else if !(i < j <= s.len()) {
                None
            } else {
                match sp_members(s, j) {
                    Some((fields, k)) => Some((GJson::Obj(fields), k)),
                    None => None,
                }
            }
        } else {
            None
        }
    }
}

/// One or more array elements starting at `j`, up to and including the
/// closing bracket.
pub open spec fn sp_elems(s: Seq<char>, j: int) -> Option<(Seq<GJson>, int)>
    decreases s.len() - j, 1int,
{
    match sp_value(s, j) {
        None => None,
        Some((v, j2)) => {
            let j3 = first_non_ws(s, j2);
            if j3 < s.len() && s[j3] == ']' {
                Some((seq![v], j3 + 1))
            } else if j3 < s.len() && s[j3] == ',' {
                let j4 = first_non_ws(s, j3 + 1);
                if !(j < j4 <= s.len()) {
                    None
                } else {
                    match sp_elems(s, j4) {
                        Some((more, k)) => Some((seq![v] + more, k)),
                        None => None,
                    }
                }
            } else {
                None
            }
        },
    }
}

/// One or more object members starting at `j`, up to and including the
/// closing brace.
pub open spec fn sp_members(s: Seq<char>, j: int) -> Option<(Seq<(Seq<char>, GJson)>, int)>
    decreases s.len() - j, 1int,
{
    if !(0 <= j < s.len() && s[j] == '"') {
        None
    } else {
        match sp_string(s, j) {
            None => None,
            Some((key, j2)) => {
                let j3 = first_non_ws(s, j2);
                if !(j3 < s.len() && s[j3] == ':') {
                    None
                } else {
                    let j4 = first_non_ws(s, j3 + 1);
                    if !(j <= j4 <= s.len()) {
                        None
                    } else {
                        match sp_value(s, j4) {
                            None => None,
                            Some((v, j5)) => {
                                let j6 = first_non_ws(s, j5);
                                if j6 < s.len() && s[j6] == '}' {
                                    Some((seq![(key, v)], j6 + 1))
                                } else if j6 < s.len() && s[j6] == ',' {
                                    let j7 = first_non_ws(s, j6 + 1);
                                    if !(j < j7 <= s.len()) {
                                        None
                                    } else {
                                        match sp_members(s, j7) {
                                            Some((more, k)) => Some((seq![(key, v)] + more, k)),
                                            None => None,
                                        }
                                    }
                                } else {
                                    None
                                }
                            },
                        }
                    }
                }
            },
        }
    }
}

/// A whole document: one value surrounded by whitespace.
pub open spec fn sp_doc(s: Seq<char>) -> Option<GJson> {
    match sp_value(s, first_non_ws(s, 0)) {
        Some((v, j)) => if first_non_ws(s, j) == s.len() {
            Some(v)
        } else {
            None
        },
        None => None,
    }
}

// ---------------------------------------------------------------------
// The reader, proved to decide the grammar.
// ---------------------------------------------------------------------

/// The first non-whitespace position at or after `i`.
fn skip_ws(cs: &Vec<char>, i: usize) -> (r: usize)
    requires
        i <= cs@.len(),
    ensures
        r == first_non_ws(cs@, i as int),
        i <= r <= cs@.len(),
    decreases cs@.len() - i,
{
    if i >= cs.len() {
        i
    } else {
        let c = cs[i];
        if c == ' ' || c == '\t' || c == '\n' || c == '\r' {
            skip_ws(cs, i + 1)
        } else {
            i
        }
    }
}

/// Parses one value starting at `i`. Returns the value and the position
/// just after it; consumes at least one character.
fn parse_value(cs: &Vec<char>, i: usize) -> (r: Option<(JsonValue, usize)>)
    requires
        i <= cs@.len(),
    ensures
        match r {
            Some(p) => sp_value(cs@, i as int) matches Some(q) && denotes(p.0, q.0) && q.1 == p.1
                && i < p.1 <= cs@.len(),
            None => sp_value(cs@, i as int) is None,
        },
    decreases cs@.len() - i, 0int,
{
    if i >= cs.len() {
        return Option::None;
    }
    let c = cs[i];
    if c == 'n' {
        if cs.len() - i >= 4 && cs[i + 1] == 'u' && cs[i + 2] == 'l' && cs[i + 3] == 'l' {
            Option::Some((JsonValue::Null, i + 4))
        } else {
            Option::None
        }
    } else if c == 't' {
        if cs.len() - i >= 4 && cs[i + 1] == 'r' && cs[i + 2] == 'u' && cs[i + 3] == 'e' {
            Option::Some((JsonValue::Bool(true), i + 4))
        } else {
            Option::None
        }
    } else if c == 'f' {
        if cs.len() - i >= 5 && cs[i + 1] == 'a' && cs[i + 2] == 'l' && cs[i + 3] == 's' && cs[i
            + 4] == 'e' {
            Option::Some((JsonValue::Bool(false), i + 5))
        } else {
            Option::None
        }
    } else if c == '"' {
        match parse_string(cs, i) {
            Option::Some((s, j)) => Option::Some((JsonValue::Str(s), j)),
            Option::None => Option::None,
        }
    } else if c == '-' || ('0' <= c && c <= '9') {
        let neg = c == '-';
        let start: usize = if neg {
            i + 1
        } else {
            i
        };
        let mut j: usize = start;
        let mut val: u64 = 0;
        let mut overflow = false;
        while j < cs.len() && '0' <= cs[j] && cs[j] <= '9'
            invariant
                i < cs@.len(),
                start <= j <= cs@.len(),
                cs@[i as int] == c,
                neg == (c == '-'),
                start == (if neg {
                    i + 1
                } else {
                    i as int
                }),
                forall|k: int| start <= k < j ==> is_digit(#[trigger] cs@[k]),
                sp_digits_end(cs@, start as int) == sp_digits_end(cs@, j as int),
                !overflow ==> val == digits_value(cs@.subrange(start as int, j as int)),
                overflow ==> digits_value(cs@.subrange(start as int, j as int))
                    > 0x7fffffffffffffff,
            decreases cs@.len() - j,
        {
            let d = cs[j];
            let dv: u64 = (d as u32 as u64) - ('0' as u32 as u64);
            proof {
                let pre = cs@.subrange(start as int, j as int);
                let cur = cs@.subrange(start as int, j + 1);
                assert(cur.drop_last() =~= pre);
                assert(cur.last() == cs@[j as int]);
                crate::pathexp::lemma_digits_value_bound(pre);
                if digits_value(pre) > 0x7fffffffffffffff {
                    assert(digits_value(cur) == digits_value(pre) * 10 + crate::strutil::digit_val(
                        cs@[j as int],
                    ));
                    assert(digits_value(pre) * 10 > 0x7fffffffffffffff) by (nonlinear_arith)
                        requires
                            digits_value(pre) > 0x7fffffffffffffff,
                    ;
                }
            }
            if val > 1844674407370955160 {
                overflow = true;
                val = 0;
            } else {
                let next = val * 10;
                if next > 0xffffffffffffffff - dv {
                    overflow = true;
                    val = 0;
                } else {
                    val = next + dv;
                }
            }
            j = j + 1;
        }
        proof {
            assert(sp_digits_end(cs@, j as int) == j);
        }
        if j == start || overflow {
            return Option::None;
        }
        if val > 0x7fffffffffffffff {
            return Option::None;
        }
        let sv: i64 = val as i64;
        let out: i64 = if neg {
            if sv == i64::MIN {
                return Option::None;
            }
            -sv
        } else {
            sv
        };
        Option::Some((JsonValue::Int(out), j))
    } else if c == '[' {
        let j = skip_ws(cs, i + 1);
        if j < cs.len() && cs[j] == ']' {
            return Option::Some((JsonValue::Array(Vec::new()), j + 1));
        }
        match parse_elems(cs, j) {
            Option::Some((elems, k)) => Option::Some((JsonValue::Array(elems), k)),
            Option::None => Option::None,
        }
    } else if c == '{' {
        let j = skip_ws(cs, i + 1);
        if j < cs.len() && cs[j] == '}' {
            return Option::Some((JsonValue::Object(Vec::new()), j + 1));
        }
        match parse_members(cs, j) {
            Option::Some((fields, k)) => Option::Some((JsonValue::Object(fields), k)),
            Option::None => Option::None,
        }
    } else {
        Option::None
    }
}

/// Parses array elements from the first element to the closing bracket.
fn parse_elems(cs: &Vec<char>, j: usize) -> (r: Option<(Vec<JsonValue>, usize)>)
    requires
        j <= cs@.len(),
    ensures
        match r {
            Some(p) => sp_elems(cs@, j as int) matches Some(q) && q.1 == p.1 && p.0@.len()
                == q.0.len() && (forall|m: int| 0 <= m < p.0@.len() ==> denotes(
                #[trigger] p.0@[m],
                q.0[m],
            )) && j < p.1 <= cs@.len(),
            None => sp_elems(cs@, j as int) is None,
        },
    decreases cs@.len() - j, 1int,
{
    match parse_value(cs, j) {
        Option::None => Option::None,
        Option::Some((v, j2)) => {
            let j3 = skip_ws(cs, j2);
            if j3 < cs.len() && cs[j3] == ']' {
                let mut out: Vec<JsonValue> = Vec::new();
                out.push(v);
                Option::Some((out, j3 + 1))
            } else if j3 < cs.len() && cs[j3] == ',' {
                let j4 = skip_ws(cs, j3 + 1);
                if j4 <= j {
                    return Option::None;
                }
                match parse_elems(cs, j4) {
                    Option::Some((mut more, k)) => {
                        more.insert(0, v);
                        proof {
                            let q = sp_elems(cs@, j as int)->Some_0;
                            assert forall|m: int| 0 <= m < more@.len() implies denotes(
                                #[trigger] more@[m],
                                q.0[m],
                            ) by {
                                if m > 0 {
                                    assert(more@[m] == more@.subrange(1, more@.len() as int)[m
                                        - 1]);
                                }
                            }
                        }
                        Option::Some((more, k))
                    },
                    Option::None => Option::None,
                }
            } else {
                Option::None
            }
        },
    }
}

/// Parses object members from the first key to the closing brace.
fn parse_members(cs: &Vec<char>, j: usize) -> (r: Option<(Vec<(String, JsonValue)>, usize)>)
    requires
        j <= cs@.len(),
    ensures
        match r {
            Some(p) => sp_members(cs@, j as int) matches Some(q) && q.1 == p.1 && p.0@.len()
                == q.0.len() && (forall|m: int| 0 <= m < p.0@.len() ==> (#[trigger] q.0[m]).0
                == p.0@[m].0@ && denotes(p.0@[m].1, q.0[m].1)) && j < p.1 <= cs@.len(),
            None => sp_members(cs@, j as int) is None,
        },
    decreases cs@.len() - j, 1int,
{
    if !(j < cs.len() && cs[j] == '"') {
        return Option::None;
    }
    match parse_string(cs, j) {
        Option::None => Option::None,
        Option::Some((key, j2)) => {
            let j3 = skip_ws(cs, j2);
            if !(j3 < cs.len() && cs[j3] == ':') {
                return Option::None;
            }
            let j4 = skip_ws(cs, j3 + 1);
            match parse_value(cs, j4) {
                Option::None => Option::None,
                Option::Some((v, j5)) => {
                    let j6 = skip_ws(cs, j5);
                    if j6 < cs.len() && cs[j6] == '}' {
                        let mut out: Vec<(String, JsonValue)> = Vec::new();
                        out.push((key, v));
                        Option::Some((out, j6 + 1))
                    } else if j6 < cs.len() && cs[j6] == ',' {
                        let j7 = skip_ws(cs, j6 + 1);
                        if j7 <= j {
                            return Option::None;
                        }
                        match parse_members(cs, j7) {
                            Option::Some((mut more, k)) => {
                                more.insert(0, (key, v));
                                proof {
                                    let q = sp_members(cs@, j as int)->Some_0;
                                    assert forall|m: int| 0 <= m < more@.len() implies (
                                    #[trigger] q.0[m]).0 == more@[m].0@ && denotes(
                                        more@[m].1,
                                        q.0[m].1,
                                    ) by {
                                        if m > 0 {
                                            assert(more@[m] == more@.subrange(
                                                1,
                                                more@.len() as int,
                                            )[m - 1]);
                                        }
                                    }
                                }
                                Option::Some((more, k))
                            },
                            Option::None => Option::None,
                        }
                    } else {
                        Option::None
                    }
                },
            }
        },
    }
}

/// Parses a quoted string without escape sequences starting at `i`.
fn parse_string(cs: &Vec<char>, i: usize) -> (r: Option<(String, usize)>)
    requires
        i <= cs@.len(),
    ensures
        match r {
            Some(p) => sp_string(cs@, i as int) == Some((p.0@, p.1 as int)) && i < p.1
                <= cs@.len(),
            None => sp_string(cs@, i as int) is None,
        },
    decreases cs@.len() - i,
{
    if !(i < cs.len() && cs[i] == '"') {
        return Option::None;
    }
    let mut content: Vec<char> = Vec::new();
    let mut j: usize = i + 1;
    while j < cs.len() && cs[j] != '"' && cs[j] != '\\'
        invariant
            i + 1 <= j <= cs@.len(),
            sp_str_end(cs@, i + 1) == sp_str_end(cs@, j as int),
            content@ == cs@.subrange(i + 1, j as int),
        decreases cs@.len() - j,
    {
        content.push(cs[j]);
        j = j + 1;
        proof {
            assert(content@ =~= cs@.subrange(i + 1, j as int));
        }
    }
    if j < cs.len() && cs[j] == '"' {
        Option::Some((crate::strutil::chars_to_string(&content), j + 1))
    } else {
        proof {
            assert(sp_str_end(cs@, i + 1) == j || sp_str_end(cs@, i + 1) == cs@.len());
        }
        Option::None
    }
}

/// Parses a whole document: one value surrounded by whitespace. The
/// result decides the grammar: a tree denoting `sp_doc` of the text
/// when that is defined, and nothing otherwise.
pub fn parse_json(s: &str) -> (r: Option<JsonValue>)
    ensures
        match r {
            Some(v) => sp_doc(s@) matches Some(g) && denotes(v, g),
            None => sp_doc(s@) is None,
        },
        s@.len() == 0 ==> r is None,
        r is Some ==> s@.len() > 0,
{
    let cs = string_chars(s);
    let i = skip_ws(&cs, 0);
    match parse_value(&cs, i) {
        Option::Some((v, j)) => {
            let k = skip_ws(&cs, j);
            if k == cs.len() {
                Option::Some(v)
            } else {
                Option::None
            }
        },
        Option::None => Option::None,
    }
}

} // verus!
