//! Path expressions: a restricted JSONPath dialect selecting nodes inside
//! structured bodies. `$` anchors the root; segments are `.name`,
//! `['name']`, `[3]`, `.*` and `[*]`. An expression that does not fit the
//! grammar compiles to no token list (a dead path), which selects nothing.

use vstd::prelude::*;
use crate::strutil::{is_digit, digits_value, string_chars};

verus! {

/// One segment of a compiled path expression.
#[derive(Clone, Debug, PartialEq, Eq)]
pub enum PathToken {
    /// `$`
    Root,
    /// `.name` or `['name']`
    Field(String),
    /// `[3]`
    Index(u64),
    /// `.*`
    Star,
    /// `[*]`
    StarIndex,
}

/// One step of a concrete location inside a document.
#[derive(Clone, Debug, PartialEq, Eq)]
pub enum PathFrag {
    /// An object key, an attribute name, or a `#text` pseudo-child.
    Key(String),
    /// An array position.
    Num(u64),
}

// ---------------------------------------------------------------------
// Grammar, as spec functions over character sequences. The executable
// parser below is proved to compute exactly these.
// ---------------------------------------------------------------------

/// The first position at or after `i` holding `.` or `[`, or the length.
pub open spec fn scan_seg_end(s: Seq<char>, i: int) -> int
    decreases s.len() - i,
{
    if i < 0 || i >= s.len() {
        s.len() as int
    } else if s[i] == '.' || s[i] == '[' {
        i
    } else {
        scan_seg_end(s, i + 1)
    }
}

/// The first position at or after `i` holding a quote, or the length.
pub open spec fn scan_quote_end(s: Seq<char>, i: int) -> int
    decreases s.len() - i,
{
    if i < 0 || i >= s.len() {
        s.len() as int
    } else if s[i] == '\'' {
        i
    } else {
        scan_quote_end(s, i + 1)
    }
}

/// The first position at or after `i` holding a non-digit, or the length.
pub open spec fn scan_digits_end(s: Seq<char>, i: int) -> int
    decreases s.len() - i,
{
    if i < 0 || i >= s.len() {
        s.len() as int
    } else if !is_digit(s[i]) {
        i
    } else {
        scan_digits_end(s, i + 1)
    }
}

/// A spec-level path token: the same shape as `PathToken` with the field
/// name as a character sequence.
pub ghost enum SpecTok {
    Root,
    Field(Seq<char>),
    Index(int),
    Star,
    StarIndex,
}

/// A segment scan never moves backwards and never passes the end.
pub proof fn lemma_scan_seg_bounds(s: Seq<char>, i: int)
    requires
        0 <= i <= s.len(),
    ensures
        i <= scan_seg_end(s, i) <= s.len(),
    decreases s.len() - i,
{
    if i < s.len() && s[i] != '.' && s[i] != '[' {
        lemma_scan_seg_bounds(s, i + 1);
    }
}

/// A quote scan never moves backwards and never passes the end.
pub proof fn lemma_scan_quote_bounds(s: Seq<char>, i: int)
    requires
        0 <= i <= s.len(),
    ensures
        i <= scan_quote_end(s, i) <= s.len(),
    decreases s.len() - i,
{
    if i < s.len() && s[i] != '\'' {
        lemma_scan_quote_bounds(s, i + 1);
    }
}

/// A digit scan never moves backwards and never passes the end.
pub proof fn lemma_scan_digits_bounds(s: Seq<char>, i: int)
    requires
        0 <= i <= s.len(),
    ensures
        i <= scan_digits_end(s, i) <= s.len(),
    decreases s.len() - i,
{
    if i < s.len() && is_digit(s[i]) {
        lemma_scan_digits_bounds(s, i + 1);
    }
}

/// Parses the segments of an expression after the root anchor. `None` is
/// a dead path. Index segments are limited to ten digits; a longer run is
/// treated as dead.
pub open spec fn spec_parse_segs(s: Seq<char>, i: int, acc: Seq<SpecTok>) -> Option<Seq<SpecTok>>
    decreases s.len() - i,
    via spec_parse_segs_dec
{
    if i < 0 {
        None
    } else if i >= s.len() {
        Some(acc)
    } else if s[i] == '.' {
        let j = scan_seg_end(s, i + 1);
        if j == i + 1 {
            None
        } else {
            let name = s.subrange(i + 1, j);
            let tok = if name =~= seq!['*'] { SpecTok::Star } else { SpecTok::Field(name) };
            spec_parse_segs(s, j, acc.push(tok))
        }
    } else if s[i] == '[' {
        if i + 1 >= s.len() {
            None
        } else if s[i + 1] == '\'' {
            let j = scan_quote_end(s, i + 2);
            if j >= s.len() || j + 1 >= s.len() || s[j + 1] != ']' {
                None
            } else {
                spec_parse_segs(s, j + 2, acc.push(SpecTok::Field(s.subrange(i + 2, j))))
            }
        } else if s[i + 1] == '*' {
            if i + 2 >= s.len() || s[i + 2] != ']' {
                None
            } else {
                spec_parse_segs(s, i + 3, acc.push(SpecTok::StarIndex))
            }
        } else {
            let j = scan_digits_end(s, i + 1);
            if j == i + 1 || j - (i + 1) > 10 || j >= s.len() || s[j] != ']' {
                None
            } else {
                spec_parse_segs(s, j + 1, acc.push(SpecTok::Index(digits_value(s.subrange(i + 1, j)))))
            }
        }
    } else {
        None
    }
}

#[via_fn]
proof fn spec_parse_segs_dec(s: Seq<char>, i: int, acc: Seq<SpecTok>) {
    if 0 <= i && i < s.len() {
        lemma_scan_seg_bounds(s, i + 1);
        lemma_scan_digits_bounds(s, i + 1);
        if i + 2 <= s.len() {
            lemma_scan_quote_bounds(s, i + 2);
        }
    }
}

/// A successful segment parse only ever extends the accumulator.
pub proof fn lemma_parse_segs_len(s: Seq<char>, i: int, acc: Seq<SpecTok>)
    requires
        0 <= i,
    ensures
        spec_parse_segs(s, i, acc) matches Some(res) ==> res.len() >= acc.len() && (acc.len() > 0
            ==> res[0] == acc[0]),
    decreases s.len() - i,
{
    if i >= s.len() {
    } else if s[i] == '.' {
        lemma_scan_seg_bounds(s, i + 1);
        let j = scan_seg_end(s, i + 1);
        if j != i + 1 {
            let name = s.subrange(i + 1, j);
            let tok = if name =~= seq!['*'] {
                SpecTok::Star
            } else {
                SpecTok::Field(name)
            };
            lemma_parse_segs_len(s, j, acc.push(tok));
        }
    } else if s[i] == '[' {
        if i + 1 >= s.len() {
        } else if s[i + 1] == '\'' {
            lemma_scan_quote_bounds(s, i + 2);
            let j = scan_quote_end(s, i + 2);
            if !(j >= s.len() || j + 1 >= s.len() || s[j + 1] != ']') {
                lemma_parse_segs_len(s, j + 2, acc.push(SpecTok::Field(s.subrange(i + 2, j))));
            }
        } else if s[i + 1] == '*' {
            if !(i + 2 >= s.len() || s[i + 2] != ']') {
                lemma_parse_segs_len(s, i + 3, acc.push(SpecTok::StarIndex));
            }
        } else {
            lemma_scan_digits_bounds(s, i + 1);
            let j = scan_digits_end(s, i + 1);
            if !(j == i + 1 || j - (i + 1) > 10 || j >= s.len() || s[j] != ']') {
                lemma_parse_segs_len(
                    s,
                    j + 1,
                    acc.push(SpecTok::Index(digits_value(s.subrange(i + 1, j)))),
                );
            }
        }
    }
}

/// A live expression always starts with the root anchor.
pub proof fn lemma_parse_path_shape(s: Seq<char>)
    ensures
        spec_parse_path(s) matches Some(ts) ==> ts.len() >= 1 && ts[0] is Root,
{
    if s.len() > 0 && s[0] == '$' {
        lemma_parse_segs_len(s, 1, seq![SpecTok::Root]);
    }
}

/// Parses a whole path expression: `$` followed by segments.
pub open spec fn spec_parse_path(s: Seq<char>) -> Option<Seq<SpecTok>> {
    if s.len() == 0 || s[0] != '$' {
        None
    } else {
        spec_parse_segs(s, 1, seq![SpecTok::Root])
    }
}

/// The spec shape of an executable token.
pub open spec fn tok_view(t: PathToken) -> SpecTok {
    match t {
        PathToken::Root => SpecTok::Root,
        PathToken::Field(s) => SpecTok::Field(s@),
        PathToken::Index(n) => SpecTok::Index(n as int),
        PathToken::Star => SpecTok::Star,
        PathToken::StarIndex => SpecTok::StarIndex,
    }
}

/// The spec shape of an executable token list.
pub open spec fn toks_view(ts: Seq<PathToken>) -> Seq<SpecTok> {
    Seq::new(ts.len(), |i: int| tok_view(ts[i]))
}

// ---------------------------------------------------------------------
// The executable parser.
// ---------------------------------------------------------------------

fn scan_seg_end_x(s: &Vec<char>, i: usize) -> (r: usize)
    requires
        i <= s@.len(),
    ensures
        r == scan_seg_end(s@, i as int),
        i <= r <= s@.len(),
    decreases s@.len() - i,
{
    if i >= s.len() {
        s.len()
    } else {
        let c = s[i];
        if c == '.' || c == '[' {
            i
        } else {
            scan_seg_end_x(s, i + 1)
        }
    }
}

fn scan_quote_end_x(s: &Vec<char>, i: usize) -> (r: usize)
    requires
        i <= s@.len(),
    ensures
        r == scan_quote_end(s@, i as int),
        i <= r <= s@.len(),
    decreases s@.len() - i,
{
    if i >= s.len() {
        s.len()
    } else {
        let c = s[i];
        if c == '\'' {
            i
        } else {
            scan_quote_end_x(s, i + 1)
        }
    }
}

fn scan_digits_end_x(s: &Vec<char>, i: usize) -> (r: usize)
    requires
        i <= s@.len(),
    ensures
        r == scan_digits_end(s@, i as int),
        i <= r <= s@.len(),
    decreases s@.len() - i,
{
    if i >= s.len() {
        s.len()
    } else {
        let c = s[i];
        if c < '0' || c > '9' {
            i
        } else {
            scan_digits_end_x(s, i + 1)
        }
    }
}

/// The value of the digit run `s[a..b]`, for runs of at most ten digits.
fn digits_value_x(s: &Vec<char>, a: usize, b: usize) -> (r: u64)
    requires
        a <= b <= s@.len(),
        b - a <= 10,
        forall|k: int| a <= k < b ==> is_digit(#[trigger] s@[k]),
    ensures
        r == digits_value(s@.subrange(a as int, b as int)),
{
    let mut val: u64 = 0;
    let mut k: usize = a;
    proof {
        assert(s@.subrange(a as int, a as int) =~= Seq::<char>::empty());
    }
    while k < b
        invariant
            a <= k <= b <= s@.len(),
            b - a <= 10,
            forall|m: int| a <= m < b ==> is_digit(#[trigger] s@[m]),
            val == digits_value(s@.subrange(a as int, k as int)),
            val < 10000000000,
        decreases b - k,
    {
        let c = s[k];
        let d: u64 = (c as u32 as u64) - ('0' as u32 as u64);
        proof {
            let sub = s@.subrange(a as int, (k + 1) as int);
            assert(sub.drop_last() =~= s@.subrange(a as int, k as int));
            assert(sub.last() == s@[k as int]);
            crate::pathexp::lemma_digits_value_bound(s@.subrange(a as int, k as int));
        }
        val = val * 10 + d;
        k = k + 1;
    }
    val
}

/// A digit run of length `n` has value below ten to the `n`.
pub proof fn lemma_digits_value_bound(s: Seq<char>)
    requires
        forall|k: int| 0 <= k < s.len() ==> is_digit(#[trigger] s[k]),
    ensures
        digits_value(s) >= 0,
        s.len() <= 10 ==> digits_value(s) < 10000000000,
        s.len() <= 9 ==> digits_value(s) < 1000000000,
        s.len() <= 8 ==> digits_value(s) < 100000000,
        s.len() <= 7 ==> digits_value(s) < 10000000,
        s.len() <= 6 ==> digits_value(s) < 1000000,
        s.len() <= 5 ==> digits_value(s) < 100000,
        s.len() <= 4 ==> digits_value(s) < 10000,
        s.len() <= 3 ==> digits_value(s) < 1000,
        s.len() <= 2 ==> digits_value(s) < 100,
        s.len() <= 1 ==> digits_value(s) < 10,
    decreases s.len(),
{
    if s.len() > 0 {
        lemma_digits_value_bound(s.drop_last());
    }
}

fn parse_segs_x(s: &Vec<char>, i: usize, acc: Vec<PathToken>) -> (r: Option<Vec<PathToken>>)
    requires
        i <= s@.len(),
    ensures
        match r {
            Option::Some(ts) => spec_parse_segs(s@, i as int, toks_view(acc@)) == Option::Some(
                toks_view(ts@),
            ),
            Option::None => spec_parse_segs(s@, i as int, toks_view(acc@)) is None,
        },
    decreases s@.len() - i,
{
    if i >= s.len() {
        return Option::Some(acc);
    }
    let c = s[i];
    if c == '.' {
        let j = scan_seg_end_x(s, i + 1);
        if j == i + 1 {
            return Option::None;
        }
        let mut name: Vec<char> = Vec::new();
        let mut k: usize = i + 1;
        while k < j
            invariant
                i + 1 <= k <= j <= s@.len(),
                name@ == s@.subrange(i + 1, k as int),
            decreases j - k,
        {
            name.push(s[k]);
            k = k + 1;
            proof {
                assert(name@ =~= s@.subrange(i + 1, k as int));
            }
        }
        let ghost acc_v = toks_view(acc@);
        let ghost spec_name = s@.subrange(i + 1, j as int);
        let is_star = name.len() == 1 && name[0] == '*';
        let tok = if is_star {
            PathToken::Star
        } else {
            PathToken::Field(crate::strutil::chars_to_string(&name))
        };
        let ghost spec_tok = if spec_name =~= seq!['*'] {
            SpecTok::Star
        } else {
            SpecTok::Field(spec_name)
        };
        proof {
            if is_star {
                assert(name@ =~= seq!['*']);
            } else {
                if spec_name =~= seq!['*'] {
                    assert(name@.len() == 1 && name@[0] == '*');
                }
            }
            assert(tok_view(tok) == spec_tok);
        }
        let mut acc2 = acc;
        acc2.push(tok);
        proof {
            assert(toks_view(acc2@) =~= acc_v.push(spec_tok));
            assert(spec_parse_segs(s@, i as int, acc_v) == spec_parse_segs(
                s@,
                j as int,
                acc_v.push(spec_tok),
            ));
        }
        parse_segs_x(s, j, acc2)
    } else if c == '[' {
        if i + 1 >= s.len() {
            return Option::None;
        }
        let c1 = s[i + 1];
        if c1 == '\'' {
            let j = scan_quote_end_x(s, i + 2);
            if j >= s.len() || j + 1 >= s.len() {
                return Option::None;
            }
            if s[j + 1] != ']' {
                return Option::None;
            }
            let mut name: Vec<char> = Vec::new();
            let mut k: usize = i + 2;
            while k < j
                invariant
                    i + 2 <= k <= j <= s@.len(),
                    name@ == s@.subrange(i + 2, k as int),
                decreases j - k,
            {
                name.push(s[k]);
                k = k + 1;
                proof {
                    assert(name@ =~= s@.subrange(i + 2, k as int));
                }
            }
            let ghost acc_v = toks_view(acc@);
            let ghost spec_tok = SpecTok::Field(s@.subrange(i + 2, j as int));
            let tok = PathToken::Field(crate::strutil::chars_to_string(&name));
            let mut acc2 = acc;
            acc2.push(tok);
            proof {
                assert(tok_view(tok) == spec_tok);
                assert(toks_view(acc2@) =~= acc_v.push(spec_tok));
                assert(spec_parse_segs(s@, i as int, acc_v) == spec_parse_segs(
                    s@,
                    j + 2 as int,
                    acc_v.push(spec_tok),
                ));
            }
            parse_segs_x(s, j + 2, acc2)
        } else if c1 == '*' {
            if i + 2 >= s.len() {
                return Option::None;
            }
            if s[i + 2] != ']' {
                return Option::None;
            }
            let ghost acc_v = toks_view(acc@);
            let mut acc2 = acc;
            acc2.push(PathToken::StarIndex);
            proof {
                assert(toks_view(acc2@) =~= acc_v.push(SpecTok::StarIndex));
                assert(spec_parse_segs(s@, i as int, acc_v) == spec_parse_segs(
                    s@,
                    i + 3 as int,
                    acc_v.push(SpecTok::StarIndex),
                ));
            }
            parse_segs_x(s, i + 3, acc2)
        } else {
            let j = scan_digits_end_x(s, i + 1);
            if j == i + 1 || j - (i + 1) > 10 || j >= s.len() {
                return Option::None;
            }
            if s[j] != ']' {
                return Option::None;
            }
            proof {
                assert(forall|k: int| i + 1 <= k < j ==> is_digit(#[trigger] s@[k])) by {
                    lemma_scan_digits_all(s@, i + 1 as int, j as int);
                }
            }
            let v = digits_value_x(s, i + 1, j);
            let ghost acc_v = toks_view(acc@);
            let ghost spec_tok = SpecTok::Index(digits_value(s@.subrange(i + 1, j as int)));
            let mut acc2 = acc;
            acc2.push(PathToken::Index(v));
            proof {
                assert(tok_view(acc2@.last()) == spec_tok);
                assert(toks_view(acc2@) =~= acc_v.push(spec_tok));
                assert(spec_parse_segs(s@, i as int, acc_v) == spec_parse_segs(
                    s@,
                    j + 1 as int,
                    acc_v.push(spec_tok),
                ));
            }
            parse_segs_x(s, j + 1, acc2)
        }
    } else {
        Option::None
    }
}

/// Every character before the end of a digit scan is a digit.
proof fn lemma_scan_digits_all(s: Seq<char>, i: int, j: int)
    requires
        0 <= i <= s.len(),
        j == scan_digits_end(s, i),
    ensures
        forall|k: int| i <= k < j ==> is_digit(#[trigger] s[k]),
    decreases s.len() - i,
{
    if i < s.len() && is_digit(s[i]) {
        lemma_scan_digits_all(s, i + 1, j);
    }
}

/// Compiles a path expression. `None` is the dead path: it selects no node
/// and carries no weight.
pub fn parse_path(expr: &str) -> (r: Option<Vec<PathToken>>)
    ensures
        match r {
            Option::Some(ts) => spec_parse_path(expr@) == Option::Some(toks_view(ts@)),
            Option::None => spec_parse_path(expr@) is None,
        },
{
    let chars = string_chars(expr);
    if chars.len() == 0 {
        return Option::None;
    }
    if chars[0] != '$' {
        return Option::None;
    }
    let mut acc: Vec<PathToken> = Vec::new();
    acc.push(PathToken::Root);
    proof {
        assert(toks_view(acc@) =~= seq![SpecTok::Root]);
    }
    parse_segs_x(&chars, 1, acc)
}

// ---------------------------------------------------------------------
// Application to concrete locations, and weights.
// ---------------------------------------------------------------------

/// The spec shape of a concrete location step.
pub ghost enum SpecFrag {
    Key(Seq<char>),
    Num(int),
}

/// The spec shape of an executable location step.
pub open spec fn frag_view(f: PathFrag) -> SpecFrag {
    match f {
        PathFrag::Key(s) => SpecFrag::Key(s@),
        PathFrag::Num(n) => SpecFrag::Num(n as int),
    }
}

/// The spec shape of an executable location.
pub open spec fn frags_view(fs: Seq<PathFrag>) -> Seq<SpecFrag> {
    Seq::new(fs.len(), |i: int| frag_view(fs[i]))
}

/// Whether one token selects one concrete step. A literal field name or
/// index must agree exactly; `.*` selects any step and `[*]` any array
/// position.
pub open spec fn tok_selects(t: SpecTok, f: SpecFrag) -> bool {
    match t {
        SpecTok::Root => false,
        SpecTok::Field(name) => f matches SpecFrag::Key(k) && k == name,
        SpecTok::Index(n) => f matches SpecFrag::Num(m) && m == n,
        SpecTok::Star => true,
        SpecTok::StarIndex => f is Num,
    }
}

/// Whether a compiled expression addresses a concrete location: the root
/// anchor followed by one token per step, each selecting its step.
pub open spec fn expr_selects(ts: Seq<SpecTok>, path: Seq<SpecFrag>) -> bool {
    &&& ts.len() == path.len() + 1
    &&& ts.len() > 0
    &&& ts[0] is Root
    &&& forall|i: int| 0 <= i < path.len() ==> tok_selects(#[trigger] ts[i + 1], path[i])
}

/// The weight of one token: a literal segment counts two, a wildcard one.
pub open spec fn tok_weight(t: SpecTok) -> nat {
    match t {
        SpecTok::Root => 2,
        SpecTok::Field(_) => 2,
        SpecTok::Index(_) => 2,
        SpecTok::Star => 1,
        SpecTok::StarIndex => 1,
    }
}

/// The weight of an expression: the product of its token weights. A more
/// literal expression of the same length always outweighs one with a
/// wildcard.
pub open spec fn expr_weight(ts: Seq<SpecTok>) -> nat
    decreases ts.len(),
{
    if ts.len() == 0 {
        1
    } else {
        expr_weight(ts.drop_last()) * tok_weight(ts.last())
    }
}

/// Whether one executable token selects one executable step.
pub fn tok_selects_x(t: &PathToken, f: &PathFrag) -> (r: bool)
    ensures
        r == tok_selects(tok_view(*t), frag_view(*f)),
{
    match t {
        PathToken::Root => false,
        PathToken::Field(name) => match f {
            PathFrag::Key(k) => *k == *name,
            PathFrag::Num(_) => false,
        },
        PathToken::Index(n) => match f {
            PathFrag::Key(_) => false,
            PathFrag::Num(m) => m == n,
        },
        PathToken::Star => true,
        PathToken::StarIndex => match f {
            PathFrag::Key(_) => false,
            PathFrag::Num(_) => true,
        },
    }
}

/// Whether a compiled expression addresses a concrete location.
pub fn expr_selects_x(ts: &Vec<PathToken>, path: &Vec<PathFrag>) -> (r: bool)
    ensures
        r == expr_selects(toks_view(ts@), frags_view(path@)),
{
    if ts.len() == 0 || ts.len() - 1 != path.len() {
        return false;
    }
    let is_root = match &ts[0] {
        PathToken::Root => true,
        _ => false,
    };
    if !is_root {
        proof {
            assert(toks_view(ts@)[0] == tok_view(ts@[0]));
        }
        return false;
    }
    let mut i: usize = 0;
    while i < path.len()
        invariant
            i <= path@.len(),
            ts@.len() == path@.len() + 1,
            toks_view(ts@)[0] is Root,
            forall|k: int| 0 <= k < i
                ==> tok_selects(#[trigger] toks_view(ts@)[k + 1], frags_view(path@)[k]),
        decreases path@.len() - i,
    {
        let ok = tok_selects_x(&ts[i + 1], &path[i]);
        proof {
            assert(toks_view(ts@)[i + 1] == tok_view(ts@[i + 1]));
            assert(frags_view(path@)[i as int] == frag_view(path@[i as int]));
        }
        if !ok {
            return false;
        }
        i = i + 1;
    }
    true
}

/// The weight of a compiled expression. Weights of expressions short
/// enough to parse fit comfortably in 64 bits only for lengths up to 63,
/// so the weight saturates at two to the sixty-third.
pub fn expr_weight_x(ts: &Vec<PathToken>) -> (r: u64)
    ensures
        expr_weight(toks_view(ts@)) < 0x8000000000000000 ==> r == expr_weight(toks_view(ts@)),
        r <= 0x8000000000000000,
        r >= 1,
        expr_weight(toks_view(ts@)) >= 0x8000000000000000 ==> r == 0x8000000000000000,
{
    let mut w: u64 = 1;
    let mut i: usize = 0;
    while i < ts.len()
        invariant
            i <= ts@.len(),
            1 <= w <= 0x8000000000000000,
            expr_weight(toks_view(ts@).subrange(0, i as int)) < 0x8000000000000000 ==> w
                == expr_weight(toks_view(ts@).subrange(0, i as int)),
            expr_weight(toks_view(ts@).subrange(0, i as int)) >= 0x8000000000000000 ==> w
                == 0x8000000000000000,
        decreases ts@.len() - i,
    {
        let tw: u64 = match &ts[i] {
            PathToken::Root => 2,
            PathToken::Field(_) => 2,
            PathToken::Index(_) => 2,
            PathToken::Star => 1,
            PathToken::StarIndex => 1,
        };
        proof {
            let pre = toks_view(ts@).subrange(0, i as int);
            let cur = toks_view(ts@).subrange(0, i + 1 as int);
            assert(cur.drop_last() =~= pre);
            assert(cur.last() == tok_view(ts@[i as int]));
            lemma_expr_weight_pos(pre);
            assert(expr_weight(cur) == expr_weight(pre) * tok_weight(cur.last()));
            assert(tok_weight(cur.last()) == tw);
            if tw == 1 {
                assert(expr_weight(cur) == expr_weight(pre) * 1) by {
                    assert(tok_weight(cur.last()) == 1);
                }
                assert(expr_weight(cur) == expr_weight(pre));
            } else {
                assert(expr_weight(cur) == expr_weight(pre) * 2) by {
                    assert(tok_weight(cur.last()) == 2);
                }
            }
        }
        if tw == 2 {
            if w > 0x4000000000000000 {
                w = 0x8000000000000000;
            } else {
                w = w * 2;
            }
        }
        i = i + 1;
    }
    proof {
        assert(toks_view(ts@).subrange(0, ts@.len() as int) =~= toks_view(ts@));
    }
    w
}

/// An expression's weight is at least one.
pub proof fn lemma_expr_weight_pos(ts: Seq<SpecTok>)
    ensures
        expr_weight(ts) >= 1,
    decreases ts.len(),
{
    if ts.len() > 0 {
        lemma_expr_weight_pos(ts.drop_last());
    }
}

} // verus!
