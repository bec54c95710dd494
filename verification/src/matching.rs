//! Scalar matchers (method, path, status, headers, query), body
//! dispatch, and the interaction selector.

use vstd::prelude::*;
use crate::bodymatch::walk_json;
use crate::matchers::{rule_str_ok, match_rule_str, seq_contains, seq_contains_x};
use crate::mismatch::Mismatch;
use crate::models::{
    Category, DetectedContentType, Interaction, OptionalBody, Request, Response,
    RuleEntry, body_eq, headers_eq, query_eq, req_eq, resp_eq,
};
use crate::models::inter_eq;
use crate::pathexp::PathFrag;
use crate::strutil::{str_eq, string_chars, chars_to_string, u16_to_string, dec_str};

verus! {

// ---------------------------------------------------------------------
// Case folding for ASCII, used by method and header-name comparison.
// ---------------------------------------------------------------------

/// The ASCII lowercase of one character.
pub open spec fn lower_char(c: char) -> char {
    if 'A' <= c && c <= 'Z' {
        ((c as u8) + 32) as char
    } else {
        c
    }
}

/// The ASCII lowercase of a character sequence.
pub open spec fn lower_seq(s: Seq<char>) -> Seq<char> {
    Seq::new(s.len(), |i: int| lower_char(s[i]))
}

/// Folds a string to ASCII lowercase.
pub fn to_lower(s: &str) -> (r: String)
    ensures
        r@ == lower_seq(s@),
{
    let cs = string_chars(s);
    let mut out: Vec<char> = Vec::new();
    let mut i: usize = 0;
    while i < cs.len()
        invariant
            i <= cs@.len(),
            cs@ == s@,
            out@.len() == i,
            forall|k: int| 0 <= k < i ==> out@[k] == lower_char(s@[k]),
        decreases cs@.len() - i,
    {
        let c = cs[i];
        if 'A' <= c && c <= 'Z' {
            let b = (c as u8) + 32;
            out.push(b as char);
        } else {
            out.push(c);
        }
        i = i + 1;
    }
    proof {
        assert(out@ =~= lower_seq(s@));
    }
    chars_to_string(&out)
}

/// Whether two strings agree up to ASCII case.
pub open spec fn eq_ignore_case(a: Seq<char>, b: Seq<char>) -> bool {
    lower_seq(a) == lower_seq(b)
}

/// Decides case-insensitive equality.
pub fn eq_ignore_case_x(a: &str, b: &str) -> (r: bool)
    ensures
        r == eq_ignore_case(a@, b@),
{
    let la = to_lower(a);
    let lb = to_lower(b);
    str_eq(la.as_str(), lb.as_str())
}

// ---------------------------------------------------------------------
// Map well-formedness: query parameters and headers stand for maps, so
// names are unique (headers up to case). The association lists carrying
// them keep that invariant.
// ---------------------------------------------------------------------

/// Whether query-parameter names are pairwise distinct.
pub open spec fn wf_query(q: Option<Vec<(String, Vec<String>)>>) -> bool {
    match q {
        Option::Some(qs) => forall|i: int, j: int| 0 <= i < j < qs@.len()
            ==> (#[trigger] qs@[i]).0@ != (#[trigger] qs@[j]).0@,
        Option::None => true,
    }
}

/// Whether header names are pairwise distinct without regard to case.
pub open spec fn wf_headers(h: Option<Vec<(String, String)>>) -> bool {
    match h {
        Option::Some(hs) => forall|i: int, j: int| 0 <= i < j < hs@.len()
            ==> !eq_ignore_case((#[trigger] hs@[i]).0@, (#[trigger] hs@[j]).0@),
        Option::None => true,
    }
}

/// A well-formed request: its maps carry unique names.
pub open spec fn wf_request(r: Request) -> bool {
    wf_query(r.query) && wf_headers(r.headers)
}

/// A well-formed response.
pub open spec fn wf_response(r: Response) -> bool {
    wf_headers(r.headers)
}

// ---------------------------------------------------------------------
// Per-category rule collection.
// ---------------------------------------------------------------------

/// Whether the catalog holds any rule in a category.
pub open spec fn has_cat_rules(entries: Seq<RuleEntry>, cat: Category) -> bool {
    exists|i: int| 0 <= i < entries.len() && (#[trigger] entries[i]).category == cat
        && entries[i].rules@.len() > 0
}

/// Whether every rule in a category accepts the pair of strings.
pub open spec fn cat_rules_pass(
    entries: Seq<RuleEntry>,
    cat: Category,
    e: Seq<char>,
    a: Seq<char>,
) -> bool {
    forall|i: int, j: int| 0 <= i < entries.len() && (#[trigger] entries[i]).category == cat && 0
        <= j < entries[i].rules@.len() ==> rule_str_ok(#[trigger] entries[i].rules@[j], e, a)
}

/// Decides whether the catalog holds any rule in a category.
pub fn has_cat_rules_x(entries: &Vec<RuleEntry>, cat: Category) -> (r: bool)
    ensures
        r == has_cat_rules(entries@, cat),
{
    let mut i: usize = 0;
    while i < entries.len()
        invariant
            i <= entries@.len(),
            forall|k: int| 0 <= k < i ==> !((#[trigger] entries@[k]).category == cat
                && entries@[k].rules@.len() > 0),
        decreases entries@.len() - i,
    {
        if entries[i].category == cat && entries[i].rules.len() > 0 {
            return true;
        }
        i = i + 1;
    }
    false
}

/// Applies every rule of the category to the pair of strings.
pub fn cat_rules_pass_x(entries: &Vec<RuleEntry>, cat: Category, e: &str, a: &str) -> (r: bool)
    ensures
        r == cat_rules_pass(entries@, cat, e@, a@),
{
    let mut i: usize = 0;
    while i < entries.len()
        invariant
            i <= entries@.len(),
            forall|k: int, j: int| 0 <= k < i && (#[trigger] entries@[k]).category == cat && 0 <= j
                < entries@[k].rules@.len() ==> rule_str_ok(#[trigger] entries@[k].rules@[j], e@, a@),
        decreases entries@.len() - i,
    {
        if entries[i].category == cat {
            let rs = &entries[i].rules;
            let mut j: usize = 0;
            while j < rs.len()
                invariant
                    j <= rs@.len(),
                    i < entries@.len(),
                    rs@ == entries@[i as int].rules@,
                    entries@[i as int].category == cat,
                    forall|m: int| 0 <= m < j ==> rule_str_ok(#[trigger] rs@[m], e@, a@),
                decreases rs@.len() - j,
            {
                if !match_rule_str(&rs[j], e, a) {
                    proof {
                        assert(!rule_str_ok(entries@[i as int].rules@[j as int], e@, a@));
                        assert(!cat_rules_pass(entries@, cat, e@, a@)) by {
                            if cat_rules_pass(entries@, cat, e@, a@) {
                                assert(rule_str_ok(
                                    entries@[i as int].rules@[j as int],
                                    e@,
                                    a@,
                                ));
                            }
                        }
                    }
                    return false;
                }
                j = j + 1;
            }
        }
        i = i + 1;
    }
    true
}

// ---------------------------------------------------------------------
// Method, path and status.
// ---------------------------------------------------------------------

/// Whether two methods agree: compared without regard to case.
pub open spec fn method_matches(e: Seq<char>, a: Seq<char>) -> bool {
    eq_ignore_case(e, a)
}

/// Whether the actual path satisfies the expected one: the path-category
/// rules when any exist, byte equality otherwise.
pub open spec fn path_ok(entries: Seq<RuleEntry>, e: Seq<char>, a: Seq<char>) -> bool {
    if has_cat_rules(entries, Category::Path) {
        cat_rules_pass(entries, Category::Path, e, a)
    } else {
        e == a
    }
}

/// Decides whether the actual path satisfies the expected one.
pub fn path_ok_x(entries: &Vec<RuleEntry>, e: &str, a: &str) -> (r: bool)
    ensures
        r == path_ok(entries@, e@, a@),
{
    if has_cat_rules_x(entries, Category::Path) {
        cat_rules_pass_x(entries, Category::Path, e, a)
    } else {
        str_eq(e, a)
    }
}

/// Whether a candidate request is routed to by the actual request:
/// method and path both agree under their rules.
pub open spec fn routed(expected: Request, actual: Request) -> bool {
    method_matches(expected.method@, actual.method@) && path_ok(
        expected.matching_rules.entries@,
        expected.path@,
        actual.path@,
    )
}

/// Whether the actual status satisfies the expected one.
pub open spec fn status_ok(entries: Seq<RuleEntry>, e: u16, a: u16) -> bool {
    if has_cat_rules(entries, Category::Status) {
        cat_rules_pass(entries, Category::Status, dec_str(e as int), dec_str(a as int))
    } else {
        e == a
    }
}

/// Decides whether the actual status satisfies the expected one.
pub fn status_ok_x(entries: &Vec<RuleEntry>, e: u16, a: u16) -> (r: bool)
    ensures
        r == status_ok(entries@, e, a),
{
    if has_cat_rules_x(entries, Category::Status) {
        let es = u16_to_string(e);
        let as_ = u16_to_string(a);
        cat_rules_pass_x(entries, Category::Status, es.as_str(), as_.as_str())
    } else {
        e == a
    }
}

// ---------------------------------------------------------------------
// Headers and query parameters.
// ---------------------------------------------------------------------


// ---------------------------------------------------------------------
// Header value normalization: for multi-value headers, whitespace
// around the commas is insignificant.
// ---------------------------------------------------------------------

/// The first position in `[i, end)` holding something other than a
/// space or tab, or `end`.
pub open spec fn skip_sp(s: Seq<char>, i: int, end: int) -> int
    decreases end - i,
{
    if i < 0 || i >= end {
        end
    } else if i < s.len() && (s[i] == ' ' || s[i] == '\t') {
        skip_sp(s, i + 1, end)
    } else {
        i
    }
}

/// The position after the last non-blank character in `[i, end)`, or
/// `i` when all are blank.
pub open spec fn rskip_sp(s: Seq<char>, i: int, end: int) -> int
    decreases end - i,
{
    if end <= i {
        i
    } else if end - 1 < s.len() && (s[end - 1] == ' ' || s[end - 1] == '\t') {
        rskip_sp(s, i, end - 1)
    } else {
        end
    }
}

/// The slice `[i, end)` with blanks removed from both ends.
pub open spec fn trim_between(s: Seq<char>, i: int, end: int) -> Seq<char> {
    let a = skip_sp(s, i, end);
    let b = rskip_sp(s, a, end);
    s.subrange(a, b)
}

/// The first separator at or after `i`, or the length.
pub open spec fn find_sep(s: Seq<char>, sep: char, i: int) -> int
    decreases s.len() - i,
{
    if i < 0 || i >= s.len() {
        s.len() as int
    } else if s[i] == sep {
        i
    } else {
        find_sep(s, sep, i + 1)
    }
}

/// The normalized form from position `i`: separator-delimited tokens,
/// each trimmed, joined with the bare separator.
pub open spec fn sep_norm_from(s: Seq<char>, sep: char, i: int) -> Seq<char>
    decreases s.len() - i,
    via sep_norm_from_dec
{
    if i < 0 {
        Seq::empty()
    } else {
        let k = find_sep(s, sep, i);
        if k >= s.len() {
            trim_between(s, i, s.len() as int)
        } else {
            trim_between(s, i, k) + seq![sep] + sep_norm_from(s, sep, k + 1)
        }
    }
}

/// A separator scan never moves backwards and never passes the end.
proof fn lemma_find_sep_bounds(s: Seq<char>, sep: char, i: int)
    requires
        0 <= i <= s.len(),
    ensures
        i <= find_sep(s, sep, i) <= s.len(),
    decreases s.len() - i,
{
    if i < s.len() && s[i] != sep {
        lemma_find_sep_bounds(s, sep, i + 1);
    }
}

#[via_fn]
proof fn sep_norm_from_dec(s: Seq<char>, sep: char, i: int) {
    if 0 <= i <= s.len() {
        lemma_find_sep_bounds(s, sep, i);
    }
}

/// The normalized form of a multi-value header value.
pub open spec fn hnorm(s: Seq<char>) -> Seq<char> {
    sep_norm_from(s, ',', 0)
}

/// The structural form of a content-type value: the media type and its
/// parameters, with the whitespace around semicolons insignificant.
pub open spec fn ct_norm(s: Seq<char>) -> Seq<char> {
    sep_norm_from(s, ';', 0)
}

fn skip_sp_x(cs: &Vec<char>, i: usize, end: usize) -> (r: usize)
    requires
        end <= cs@.len(),
    ensures
        r == skip_sp(cs@, i as int, end as int),
        r <= end,
        i <= end ==> i <= r,
    decreases end - i,
{
    if i >= end {
        end
    } else {
        let c = cs[i];
        if c == ' ' || c == '\t' {
            skip_sp_x(cs, i + 1, end)
        } else {
            i
        }
    }
}

fn rskip_sp_x(cs: &Vec<char>, i: usize, end: usize) -> (r: usize)
    requires
        end <= cs@.len(),
    ensures
        r == rskip_sp(cs@, i as int, end as int),
        i <= end ==> i <= r <= end,
    decreases end - i,
{
    if end <= i {
        i
    } else {
        let c = cs[end - 1];
        if c == ' ' || c == '\t' {
            rskip_sp_x(cs, i, end - 1)
        } else {
            end
        }
    }
}

fn find_sep_x(cs: &Vec<char>, sep: char, i: usize) -> (r: usize)
    requires
        i <= cs@.len(),
    ensures
        r == find_sep(cs@, sep, i as int),
        i <= r <= cs@.len(),
    decreases cs@.len() - i,
{
    if i >= cs.len() {
        cs.len()
    } else {
        let c = cs[i];
        if c == sep {
            i
        } else {
            find_sep_x(cs, sep, i + 1)
        }
    }
}

fn sep_norm_push(cs: &Vec<char>, sep: char, i: usize, out: &mut Vec<char>)
    requires
        i <= cs@.len(),
    ensures
        final(out)@ == old(out)@ + sep_norm_from(cs@, sep, i as int),
    decreases cs@.len() - i,
{
    let k = find_sep_x(cs, sep, i);
    let a = skip_sp_x(cs, i, k);
    let b = rskip_sp_x(cs, a, k);
    let ghost mid0 = out@;
    let mut m: usize = a;
    while m < b
        invariant
            a <= m <= b <= cs@.len(),
            out@ == mid0 + cs@.subrange(a as int, m as int),
        decreases b - m,
    {
        out.push(cs[m]);
        m = m + 1;
        proof {
            assert(out@ =~= mid0 + cs@.subrange(a as int, m as int));
        }
    }
    if k < cs.len() {
        out.push(sep);
        proof {
            assert(skip_sp(cs@, i as int, k as int) == a);
            assert(trim_between(cs@, i as int, k as int) =~= cs@.subrange(a as int, b as int));
        }
        sep_norm_push(cs, sep, k + 1, out);
        proof {
            assert(final(out)@ =~= old(out)@ + sep_norm_from(cs@, sep, i as int));
        }
    } else {
        proof {
            assert(k == cs@.len());
            assert(trim_between(cs@, i as int, cs@.len() as int) =~= cs@.subrange(
                a as int,
                b as int,
            ));
            assert(final(out)@ =~= old(out)@ + sep_norm_from(cs@, sep, i as int));
        }
    }
}

/// The normalized form of a multi-value header value, as a string.
pub fn hnorm_x(s: &str) -> (r: String)
    ensures
        r@ == hnorm(s@),
{
    let cs = string_chars(s);
    let mut out: Vec<char> = Vec::new();
    sep_norm_push(&cs, ',', 0, &mut out);
    chars_to_string(&out)
}

/// The structural form of a content-type value, as a string.
pub fn ct_norm_x(s: &str) -> (r: String)
    ensures
        r@ == ct_norm(s@),
{
    let cs = string_chars(s);
    let mut out: Vec<char> = Vec::new();
    sep_norm_push(&cs, ';', 0, &mut out);
    chars_to_string(&out)
}

/// Whether two header values agree: byte equality, or, when either
/// holds a comma, equality with the whitespace around commas
/// normalized.
pub open spec fn header_value_ok(e: Seq<char>, a: Seq<char>) -> bool {
    if seq_contains(e, seq![',']) || seq_contains(a, seq![',']) {
        hnorm(e) == hnorm(a)
    } else {
        e == a
    }
}

/// Decides whether two header values agree.
pub fn header_value_ok_x(e: &str, a: &str) -> (r: bool)
    ensures
        r == header_value_ok(e@, a@),
{
    let ev = string_chars(e);
    let av = string_chars(a);
    let comma: Vec<char> = vec![','];
    proof {
        assert(comma@ =~= seq![',']);
    }
    if seq_contains_x(&ev, &comma) || seq_contains_x(&av, &comma) {
        let ne = hnorm_x(e);
        let na = hnorm_x(a);
        str_eq(ne.as_str(), na.as_str())
    } else {
        str_eq(e, a)
    }
}

/// Whether a header-category rule is keyed by this name. A header
/// rule's catalog expression holds the bare header name: a catalog
/// writing a path-shaped expression addresses no header.
pub open spec fn header_rules_named(entries: Seq<RuleEntry>, name: Seq<char>) -> bool {
    exists|i: int| 0 <= i < entries.len() && (#[trigger] entries[i]).category == Category::Header
        && entries[i].expression@ == name && entries[i].rules@.len() > 0
}

/// Whether every header rule keyed by this name accepts the values.
pub open spec fn header_rules_ok(
    entries: Seq<RuleEntry>,
    name: Seq<char>,
    e: Seq<char>,
    a: Seq<char>,
) -> bool {
    forall|i: int, j: int| 0 <= i < entries.len() && (#[trigger] entries[i]).category
        == Category::Header && entries[i].expression@ == name && 0 <= j < entries[i].rules@.len()
        ==> rule_str_ok(#[trigger] entries[i].rules@[j], e, a)
}

/// The first value under a header name, compared without regard to case.
pub open spec fn header_lookup(hs: Seq<(String, String)>, name: Seq<char>, i: int) -> Option<int>
    decreases hs.len() - i,
{
    if i < 0 || i >= hs.len() {
        None
    } else if eq_ignore_case(hs[i].0@, name) {
        Some(i)
    } else {
        header_lookup(hs, name, i + 1)
    }
}

/// Finds the first header with the given name, without regard to case.
pub fn header_lookup_x(hs: &Vec<(String, String)>, name: &str, i: usize) -> (r: Option<usize>)
    requires
        i <= hs@.len(),
    ensures
        match r {
            Some(k) => header_lookup(hs@, name@, i as int) == Some(k as int) && i <= k
                < hs@.len(),
            None => header_lookup(hs@, name@, i as int) is None,
        },
    decreases hs@.len() - i,
{
    if i >= hs.len() {
        return None;
    }
    let (k, _) = &hs[i];
    if eq_ignore_case_x(k.as_str(), name) {
        Some(i)
    } else {
        header_lookup_x(hs, name, i + 1)
    }
}

/// Whether two values of a named header agree when no rule is keyed by
/// the name: the content-type header compares structurally (media type
/// and parameters), any other header by `header_value_ok`.
pub open spec fn hv_ok_named(name: Seq<char>, e: Seq<char>, a: Seq<char>) -> bool {
    if eq_ignore_case(name, ct_name()) {
        ct_norm(e) == ct_norm(a)
    } else {
        header_value_ok(e, a)
    }
}

/// Whether one expected header is satisfied by the actual map: present
/// under its name, its value accepted by the rules keyed by the name,
/// or agreeing with the expected value when none are.
pub open spec fn header_ok_at(
    es: Seq<(String, String)>,
    actual: Option<Vec<(String, String)>>,
    entries: Seq<RuleEntry>,
    k: int,
) -> bool {
    match actual {
        Option::None => false,
        Option::Some(hs) => match header_lookup(hs@, es[k].0@, 0) {
            Option::Some(j) => if header_rules_named(entries, es[k].0@) {
                header_rules_ok(entries, es[k].0@, es[k].1@, hs@[j].1@)
            } else {
                hv_ok_named(es[k].0@, es[k].1@, hs@[j].1@)
            },
            Option::None => false,
        },
    }
}

/// Whether every expected header is satisfied by the actual map. Extra
/// actual headers are ignored.
pub open spec fn headers_match(
    expected: Option<Vec<(String, String)>>,
    actual: Option<Vec<(String, String)>>,
    entries: Seq<RuleEntry>,
) -> bool {
    match expected {
        Option::None => true,
        Option::Some(es) => forall|k: int| 0 <= k < es@.len() ==> #[trigger] header_ok_at(
            es@,
            actual,
            entries,
            k,
        ),
    }
}

/// Matches the expected headers against the actual ones. Header names
/// compare without regard to case; a header-category rule keyed by the
/// header name overrides value equality. Extra actual headers are
/// ignored. Nothing is appended exactly when every expected header is
/// satisfied.
pub fn match_headers(
    expected: &Option<Vec<(String, String)>>,
    actual: &Option<Vec<(String, String)>>,
    entries: &Vec<RuleEntry>,
    out: &mut Vec<Mismatch>,
)
    ensures
        final(out)@.len() >= old(out)@.len(),
        forall|i: int| 0 <= i < old(out)@.len() ==> #[trigger] final(out)@[i] == old(out)@[i],
        forall|i: int| old(out)@.len() <= i < final(out)@.len() ==> (#[trigger] final(out)@[i])
            is HeaderMismatch,
        final(out)@.len() == old(out)@.len() <==> headers_match(*expected, *actual, entries@),
        headers_eq(*expected, *actual) && wf_headers(*expected) && !has_cat_rules(
            entries@,
            Category::Header,
        ) ==> final(out)@.len() == old(out)@.len(),
{
    let ghost pre = out@;
    match expected {
        Option::None => {},
        Option::Some(es) => {
            proof {
                assert(*expected == Option::Some(*es));
            }
            let mut i: usize = 0;
            while i < es.len()
                invariant
                    i <= es@.len(),
                    *expected == Option::Some(*es),
                    out@.len() >= pre.len(),
                    forall|k: int| 0 <= k < pre.len() ==> #[trigger] out@[k] == pre[k],
                    forall|k: int| pre.len() <= k < out@.len() ==> (#[trigger] out@[k])
                        is HeaderMismatch,
                    out@.len() == pre.len() <==> (forall|k: int| 0 <= k < i
                        ==> #[trigger] header_ok_at(es@, *actual, entries@, k)),
                    headers_eq(*expected, *actual) && wf_headers(*expected) && !has_cat_rules(
                        entries@,
                        Category::Header,
                    ) ==> out@.len() == pre.len(),
                decreases es@.len() - i,
            {
                let (name, ev) = &es[i];
                let found: Option<String> = match actual {
                    Option::None => Option::None,
                    Option::Some(hs) => match header_lookup_x(hs, name.as_str(), 0) {
                        Some(j) => Option::Some(hs[j].1.clone()),
                        None => Option::None,
                    },
                };
                let has_rule = header_rule_exists(entries, name.as_str());
                match found {
                    Option::Some(av) => {
                        let ok: bool = if has_rule {
                            header_rules_pass(entries, name.as_str(), ev.as_str(), av.as_str())
                        } else {
                            proof {
                                reveal_strlit("content-type");
                                assert("content-type"@ =~= ct_name());
                            }
                            if eq_ignore_case_x(name.as_str(), "content-type") {
                                let ne = ct_norm_x(ev.as_str());
                                let na = ct_norm_x(av.as_str());
                                str_eq(ne.as_str(), na.as_str())
                            } else {
                                header_value_ok_x(ev.as_str(), av.as_str())
                            }
                        };
                        proof {
                            assert(ok == header_ok_at(es@, *actual, entries@, i as int));
                        }
                        if !ok {
                            let mut msg = String::new();
                            msg.append("Expected header '");
                            msg.append(name.as_str());
                            msg.append("' to have value '");
                            msg.append(ev.as_str());
                            msg.append("' but was '");
                            msg.append(av.as_str());
                            msg.append("'");
                            out.push(Mismatch::HeaderMismatch {
                                key: name.clone(),
                                expected: ev.clone(),
                                actual: av,
                                mismatch: msg,
                            });
                            proof {
                                if headers_eq(*expected, *actual) && wf_headers(*expected)
                                    && !has_cat_rules(entries@, Category::Header) {
                                    let hsv = (*actual).unwrap();
                                    lemma_headers_eq_value(es@, hsv@, i as int);
                                    assert(false);
                                }
                            }
                        }
                    },
                    Option::None => {
                        proof {
                            assert(!header_ok_at(es@, *actual, entries@, i as int));
                        }
                        let mut msg = String::new();
                        msg.append("Expected header '");
                        msg.append(name.as_str());
                        msg.append("' but was missing");
                        out.push(Mismatch::HeaderMismatch {
                            key: name.clone(),
                            expected: ev.clone(),
                            actual: String::new(),
                            mismatch: msg,
                        });
                        proof {
                            if headers_eq(*expected, *actual) && wf_headers(*expected) {
                                let hsv = (*actual).unwrap();
                                lemma_headers_eq_value(es@, hsv@, i as int);
                                assert(false);
                            }
                        }
                    },
                }
                i = i + 1;
            }
        },
    }
}

/// In value-equal, well-formed header maps, every expected name is
/// found at its own position, with an equal value.
proof fn lemma_headers_eq_value(es: Seq<(String, String)>, hs: Seq<(String, String)>, i: int)
    requires
        hs.len() == es.len(),
        forall|k: int| 0 <= k < es.len()
            ==> (#[trigger] hs[k]).0@ == es[k].0@ && hs[k].1@ == es[k].1@,
        forall|k: int, j: int| 0 <= k < j < es.len()
            ==> !eq_ignore_case((#[trigger] es[k]).0@, (#[trigger] es[j]).0@),
        0 <= i < es.len(),
    ensures
        header_lookup(hs, es[i].0@, 0) == Some(i),
        hs[i].1@ == es[i].1@,
{
    lemma_header_lookup_at(hs, es, es[i].0@, 0, i);
}

/// With pairwise-distinct names, the scan finds the name at its own
/// position.
proof fn lemma_header_lookup_at(
    hs: Seq<(String, String)>,
    es: Seq<(String, String)>,
    name: Seq<char>,
    s: int,
    i: int,
)
    requires
        0 <= s <= i < hs.len(),
        hs.len() == es.len(),
        forall|k: int| 0 <= k < hs.len() ==> (#[trigger] hs[k]).0@ == es[k].0@,
        forall|k: int, j: int| 0 <= k < j < es.len()
            ==> !eq_ignore_case((#[trigger] es[k]).0@, (#[trigger] es[j]).0@),
        eq_ignore_case(hs[i].0@, name),
        name == hs[i].0@,
    ensures
        header_lookup(hs, name, s) == Some(i),
    decreases i - s,
{
    if s == i {
        assert(eq_ignore_case(hs[s].0@, name));
    } else {
        assert(!eq_ignore_case(es[s].0@, es[i].0@));
        assert(!eq_ignore_case(hs[s].0@, name));
        lemma_header_lookup_at(hs, es, name, s + 1, i);
    }
}

/// Whether a header-category rule is keyed by this name.
fn header_rule_exists(entries: &Vec<RuleEntry>, name: &str) -> (r: bool)
    ensures
        r == header_rules_named(entries@, name@),
        r ==> has_cat_rules(entries@, Category::Header),
{
    let mut i: usize = 0;
    while i < entries.len()
        invariant
            i <= entries@.len(),
            forall|k: int| 0 <= k < i ==> !((#[trigger] entries@[k]).category == Category::Header
                && entries@[k].expression@ == name@ && entries@[k].rules@.len() > 0),
        decreases entries@.len() - i,
    {
        if entries[i].category == Category::Header && entries[i].rules.len() > 0 {
            if str_eq(entries[i].expression.as_str(), name) {
                proof {
                    assert(entries@[i as int].category == Category::Header
                        && entries@[i as int].rules@.len() > 0);
                }
                return true;
            }
        }
        i = i + 1;
    }
    false
}

/// Applies every header rule keyed by this name.
fn header_rules_pass(entries: &Vec<RuleEntry>, name: &str, e: &str, a: &str) -> (r: bool)
    ensures
        r == header_rules_ok(entries@, name@, e@, a@),
{
    let mut i: usize = 0;
    while i < entries.len()
        invariant
            i <= entries@.len(),
            forall|k: int, j: int| 0 <= k < i && (#[trigger] entries@[k]).category
                == Category::Header && entries@[k].expression@ == name@ && 0 <= j
                < entries@[k].rules@.len() ==> rule_str_ok(
                #[trigger] entries@[k].rules@[j],
                e@,
                a@,
            ),
        decreases entries@.len() - i,
    {
        if entries[i].category == Category::Header {
            if str_eq(entries[i].expression.as_str(), name) {
                let rs = &entries[i].rules;
                let mut j: usize = 0;
                while j < rs.len()
                    invariant
                        j <= rs@.len(),
                        i < entries@.len(),
                        rs@ == entries@[i as int].rules@,
                        entries@[i as int].category == Category::Header,
                        entries@[i as int].expression@ == name@,
                        forall|m: int| 0 <= m < j ==> rule_str_ok(#[trigger] rs@[m], e@, a@),
                    decreases rs@.len() - j,
                {
                    if !match_rule_str(&rs[j], e, a) {
                        proof {
                            assert(!rule_str_ok(entries@[i as int].rules@[j as int], e@, a@));
                            assert(!header_rules_ok(entries@, name@, e@, a@)) by {
                                if header_rules_ok(entries@, name@, e@, a@) {
                                    assert(rule_str_ok(
                                        entries@[i as int].rules@[j as int],
                                        e@,
                                        a@,
                                    ));
                                }
                            }
                        }
                        return false;
                    }
                    j = j + 1;
                }
            }
        }
        i = i + 1;
    }
    true
}

/// The first values list under a query-parameter name.
pub open spec fn query_lookup(
    qs: Seq<(String, Vec<String>)>,
    name: Seq<char>,
    i: int,
) -> Option<int>
    decreases qs.len() - i,
{
    if i < 0 || i >= qs.len() {
        None
    } else if qs[i].0@ == name {
        Some(i)
    } else {
        query_lookup(qs, name, i + 1)
    }
}

/// Finds the first query parameter with the given name.
pub fn query_lookup_x(qs: &Vec<(String, Vec<String>)>, name: &str, i: usize) -> (r: Option<usize>)
    requires
        i <= qs@.len(),
    ensures
        match r {
            Some(k) => query_lookup(qs@, name@, i as int) == Some(k as int) && i <= k < qs@.len(),
            None => query_lookup(qs@, name@, i as int) is None,
        },
    decreases qs@.len() - i,
{
    if i >= qs.len() {
        return None;
    }
    let (k, _) = &qs[i];
    if str_eq(k.as_str(), name) {
        Some(i)
    } else {
        query_lookup_x(qs, name, i + 1)
    }
}

/// Whether every query rule keyed by this name accepts the values.
pub open spec fn query_rules_ok(
    entries: Seq<RuleEntry>,
    name: Seq<char>,
    e: Seq<char>,
    a: Seq<char>,
) -> bool {
    forall|i: int, j: int| 0 <= i < entries.len() && (#[trigger] entries[i]).category
        == Category::Query && entries[i].expression@ == name && 0 <= j < entries[i].rules@.len()
        ==> rule_str_ok(#[trigger] entries[i].rules@[j], e, a)
}

/// Whether the value lists under one name agree: with a query rule
/// keyed by the name, every rule must accept each actual value (against
/// the positional expected value, or the empty string past the end);
/// without, the lists agree in length and order.
pub open spec fn query_values_match(
    entries: Seq<RuleEntry>,
    name: Seq<char>,
    evs: Seq<String>,
    avs: Seq<String>,
) -> bool {
    if has_cat_rules_named(entries, name) {
        forall|j: int| 0 <= j < avs.len() ==> query_rules_ok(
            entries,
            name,
            if j < evs.len() {
                evs[j]@
            } else {
                Seq::empty()
            },
            (#[trigger] avs[j])@,
        )
    } else {
        evs.len() == avs.len() && forall|j: int| 0 <= j < evs.len() ==> (#[trigger] evs[j])@
            == avs[j]@
    }
}

/// Whether one expected query parameter is satisfied by the actual map.
pub open spec fn query_ok_at(
    es: Seq<(String, Vec<String>)>,
    actual: Option<Vec<(String, Vec<String>)>>,
    entries: Seq<RuleEntry>,
    k: int,
) -> bool {
    match actual {
        Option::None => false,
        Option::Some(qs) => match query_lookup(qs@, es[k].0@, 0) {
            Option::Some(j) => query_values_match(entries, es[k].0@, es[k].1@, qs@[j].1@),
            Option::None => false,
        },
    }
}

/// Whether the query maps agree: every expected parameter is present
/// with agreeing values, and no actual parameter is unexpected.
pub open spec fn query_match(
    expected: Option<Vec<(String, Vec<String>)>>,
    actual: Option<Vec<(String, Vec<String>)>>,
    entries: Seq<RuleEntry>,
) -> bool {
    &&& match expected {
        Option::None => true,
        Option::Some(es) => forall|k: int| 0 <= k < es@.len() ==> #[trigger] query_ok_at(
            es@,
            actual,
            entries,
            k,
        ),
    }
    &&& match actual {
        Option::None => true,
        Option::Some(qs) => forall|k: int| 0 <= k < qs@.len() ==> (match expected {
            Option::None => false,
            Option::Some(es) => query_lookup(es@, (#[trigger] qs@[k]).0@, 0) is Some,
        }),
    }
}

/// Matches the expected query parameters against the actual ones, both
/// directions: a missing or disagreeing expected parameter is a
/// mismatch, and so is an unexpected actual one. Values under one name
/// compare in order; a query-category rule keyed by the name overrides
/// per-value equality. Nothing is appended exactly when the maps agree.
pub fn match_query(
    expected: &Option<Vec<(String, Vec<String>)>>,
    actual: &Option<Vec<(String, Vec<String>)>>,
    entries: &Vec<RuleEntry>,
    out: &mut Vec<Mismatch>,
)
    ensures
        final(out)@.len() >= old(out)@.len(),
        forall|i: int| 0 <= i < old(out)@.len() ==> #[trigger] final(out)@[i] == old(out)@[i],
        forall|i: int| old(out)@.len() <= i < final(out)@.len() ==> (#[trigger] final(out)@[i])
            is QueryMismatch,
        final(out)@.len() == old(out)@.len() <==> query_match(*expected, *actual, entries@),
        query_eq(*expected, *actual) && wf_query(*expected) && !has_cat_rules(
            entries@,
            Category::Query,
        ) ==> final(out)@.len() == old(out)@.len(),
{
    let ghost pre = out@;
    match expected {
        Option::None => {},
        Option::Some(es) => {
            proof {
                assert(*expected == Option::Some(*es));
            }
            let mut i: usize = 0;
            while i < es.len()
                invariant
                    i <= es@.len(),
                    *expected == Option::Some(*es),
                    out@.len() >= pre.len(),
                    forall|k: int| 0 <= k < pre.len() ==> #[trigger] out@[k] == pre[k],
                    forall|k: int| pre.len() <= k < out@.len() ==> (#[trigger] out@[k])
                        is QueryMismatch,
                    out@.len() == pre.len() <==> (forall|k: int| 0 <= k < i
                        ==> #[trigger] query_ok_at(es@, *actual, entries@, k)),
                    query_eq(*expected, *actual) && wf_query(*expected) && !has_cat_rules(
                        entries@,
                        Category::Query,
                    ) ==> out@.len() == pre.len(),
                decreases es@.len() - i,
            {
                let (name, evs) = &es[i];
                let found: Option<usize> = match actual {
                    Option::None => Option::None,
                    Option::Some(qs) => query_lookup_x(qs, name.as_str(), 0),
                };
                match (actual, found) {
                    (Option::Some(qs), Option::Some(j)) => {
                        let avs = &qs[j].1;
                        let ok = query_values_ok(entries, name.as_str(), evs, avs);
                        proof {
                            assert(ok == query_ok_at(es@, *actual, entries@, i as int));
                        }
                        if !ok {
                            push_query_mismatch(out, name, "query values do not match");
                            proof {
                                if query_eq(*expected, *actual) && wf_query(*expected)
                                    && !has_cat_rules(entries@, Category::Query) {
                                    let qsv = (*actual).unwrap();
                                    lemma_query_eq_value(es@, qsv@, i as int);
                                    assert(!has_cat_rules_named(entries@, es@[i as int].0@));
                                    assert(false);
                                }
                            }
                        }
                    },
                    _ => {
                        proof {
                            assert(!query_ok_at(es@, *actual, entries@, i as int));
                        }
                        push_query_mismatch(out, name, "query parameter was missing");
                        proof {
                            if query_eq(*expected, *actual) && wf_query(*expected) {
                                let qsv = (*actual).unwrap();
                                lemma_query_eq_value(es@, qsv@, i as int);
                                assert(false);
                            }
                        }
                    },
                }
                i = i + 1;
            }
        },
    }
    let ghost fwd_ok = (out@.len() == pre.len());
    proof {
        assert(fwd_ok <==> (match *expected {
            Option::None => true,
            Option::Some(es) => forall|k: int| 0 <= k < es@.len() ==> #[trigger] query_ok_at(
                es@,
                *actual,
                entries@,
                k,
            ),
        }));
    }
    match actual {
        Option::None => {},
        Option::Some(qs) => {
            proof {
                assert(*actual == Option::Some(*qs));
            }
            let mut i: usize = 0;
            while i < qs.len()
                invariant
                    i <= qs@.len(),
                    *actual == Option::Some(*qs),
                    out@.len() >= pre.len(),
                    forall|k: int| 0 <= k < pre.len() ==> #[trigger] out@[k] == pre[k],
                    forall|k: int| pre.len() <= k < out@.len() ==> (#[trigger] out@[k])
                        is QueryMismatch,
                    out@.len() == pre.len() <==> (fwd_ok && (forall|k: int| 0 <= k < i
                        ==> (match *expected {
                        Option::None => false,
                        Option::Some(es) => query_lookup(es@, (#[trigger] qs@[k]).0@, 0) is Some,
                    }))),
                    fwd_ok <==> (match *expected {
                        Option::None => true,
                        Option::Some(es) => forall|k: int| 0 <= k < es@.len()
                            ==> #[trigger] query_ok_at(es@, *actual, entries@, k),
                    }),
                    query_eq(*expected, *actual) && wf_query(*expected) && !has_cat_rules(
                        entries@,
                        Category::Query,
                    ) ==> out@.len() == pre.len(),
                decreases qs@.len() - i,
            {
                let (name, _) = &qs[i];
                let found: Option<usize> = match expected {
                    Option::None => Option::None,
                    Option::Some(es) => query_lookup_x(es, name.as_str(), 0),
                };
                if found.is_none() {
                    push_query_mismatch(out, name, "unexpected query parameter");
                    proof {
                        if query_eq(*expected, *actual) {
                            let esv = (*expected).unwrap();
                            lemma_query_eq_back(esv@, qs@, i as int);
                            assert(false);
                        }
                    }
                }
                i = i + 1;
            }
        },
    }
}

/// One query mismatch under a parameter name.
fn push_query_mismatch(out: &mut Vec<Mismatch>, name: &String, why: &str)
    ensures
        final(out)@.len() == old(out)@.len() + 1,
        forall|i: int| 0 <= i < old(out)@.len() ==> #[trigger] final(out)@[i] == old(out)@[i],
        final(out)@.last() is QueryMismatch,
{
    let mut msg = String::new();
    msg.append("Query parameter '");
    msg.append(name.as_str());
    msg.append("': ");
    msg.append(why);
    out.push(Mismatch::QueryMismatch {
        parameter: name.clone(),
        expected: String::new(),
        actual: String::new(),
        mismatch: msg,
    });
}

/// Values under one name: with a query rule keyed by the name, every
/// rule must accept each actual value; without, the lists must agree in
/// length and order.
fn query_values_ok(
    entries: &Vec<RuleEntry>,
    name: &str,
    evs: &Vec<String>,
    avs: &Vec<String>,
) -> (r: bool)
    ensures
        r == query_values_match(entries@, name@, evs@, avs@),
{
    let has_rule = query_rule_exists(entries, name);
    if has_rule {
        let mut j: usize = 0;
        while j < avs.len()
            invariant
                j <= avs@.len(),
                has_cat_rules_named(entries@, name@),
                forall|m: int| 0 <= m < j ==> query_rules_ok(
                    entries@,
                    name@,
                    if m < evs@.len() {
                        evs@[m]@
                    } else {
                        Seq::empty()
                    },
                    (#[trigger] avs@[m])@,
                ),
            decreases avs@.len() - j,
        {
            let ev: &str = if j < evs.len() {
                evs[j].as_str()
            } else {
                ""
            };
            proof {
                reveal_strlit("");
                assert(ev@ == (if j < evs@.len() {
                    evs@[j as int]@
                } else {
                    Seq::<char>::empty()
                }));
            }
            if !query_rules_pass(entries, name, ev, avs[j].as_str()) {
                proof {
                    assert(!query_rules_ok(entries@, name@, ev@, avs@[j as int]@));
                }
                return false;
            }
            j = j + 1;
        }
        true
    } else {
        if evs.len() != avs.len() {
            return false;
        }
        let mut j: usize = 0;
        while j < evs.len()
            invariant
                j <= evs@.len(),
                evs@.len() == avs@.len(),
                !has_cat_rules_named(entries@, name@),
                forall|m: int| 0 <= m < j ==> (#[trigger] evs@[m])@ == avs@[m]@,
            decreases evs@.len() - j,
        {
            if !str_eq(evs[j].as_str(), avs[j].as_str()) {
                proof {
                    assert(!((#[trigger] evs@[j as int])@ == avs@[j as int]@));
                }
                return false;
            }
            j = j + 1;
        }
        true
    }
}

/// Whether a query-category rule is keyed by this name. A query
/// rule's catalog expression holds the bare parameter name: a catalog
/// writing a path-shaped expression addresses no parameter.
pub open spec fn has_cat_rules_named(entries: Seq<RuleEntry>, name: Seq<char>) -> bool {
    exists|i: int| 0 <= i < entries.len() && (#[trigger] entries[i]).category == Category::Query
        && entries[i].expression@ == name && entries[i].rules@.len() > 0
}

/// Decides whether a query rule is keyed by this name.
fn query_rule_exists(entries: &Vec<RuleEntry>, name: &str) -> (r: bool)
    ensures
        r == has_cat_rules_named(entries@, name@),
{
    let mut i: usize = 0;
    while i < entries.len()
        invariant
            i <= entries@.len(),
            forall|k: int| 0 <= k < i ==> !((#[trigger] entries@[k]).category == Category::Query
                && entries@[k].expression@ == name@ && entries@[k].rules@.len() > 0),
        decreases entries@.len() - i,
    {
        if entries[i].category == Category::Query && entries[i].rules.len() > 0 {
            if str_eq(entries[i].expression.as_str(), name) {
                return true;
            }
        }
        i = i + 1;
    }
    false
}

/// Applies every query rule keyed by this name to one value pair.
fn query_rules_pass(entries: &Vec<RuleEntry>, name: &str, e: &str, a: &str) -> (r: bool)
    ensures
        r == query_rules_ok(entries@, name@, e@, a@),
{
    let mut i: usize = 0;
    while i < entries.len()
        invariant
            i <= entries@.len(),
            forall|k: int, j: int| 0 <= k < i && (#[trigger] entries@[k]).category
                == Category::Query && entries@[k].expression@ == name@ && 0 <= j
                < entries@[k].rules@.len() ==> rule_str_ok(
                #[trigger] entries@[k].rules@[j],
                e@,
                a@,
            ),
        decreases entries@.len() - i,
    {
        if entries[i].category == Category::Query {
            if str_eq(entries[i].expression.as_str(), name) {
                let rs = &entries[i].rules;
                let mut j: usize = 0;
                while j < rs.len()
                    invariant
                        j <= rs@.len(),
                        i < entries@.len(),
                        rs@ == entries@[i as int].rules@,
                        entries@[i as int].category == Category::Query,
                        entries@[i as int].expression@ == name@,
                        forall|m: int| 0 <= m < j ==> rule_str_ok(#[trigger] rs@[m], e@, a@),
                    decreases rs@.len() - j,
                {
                    if !match_rule_str(&rs[j], e, a) {
                        proof {
                            assert(!rule_str_ok(entries@[i as int].rules@[j as int], e@, a@));
                            assert(!query_rules_ok(entries@, name@, e@, a@)) by {
                                if query_rules_ok(entries@, name@, e@, a@) {
                                    assert(rule_str_ok(
                                        entries@[i as int].rules@[j as int],
                                        e@,
                                        a@,
                                    ));
                                }
                            }
                        }
                        return false;
                    }
                    j = j + 1;
                }
            }
        }
        i = i + 1;
    }
    true
}

/// In value-equal, well-formed query maps, every expected name is
/// found at its own position, and the value lists agree in order.
proof fn lemma_query_eq_value(
    es: Seq<(String, Vec<String>)>,
    qs: Seq<(String, Vec<String>)>,
    i: int,
)
    requires
        qs.len() == es.len(),
        forall|k: int| 0 <= k < es.len() ==> {
            &&& (#[trigger] qs[k]).0@ == es[k].0@
            &&& qs[k].1@.len() == es[k].1@.len()
            &&& forall|m: int| 0 <= m < qs[k].1@.len()
                ==> (#[trigger] qs[k].1@[m])@ == es[k].1@[m]@
        },
        forall|k: int, j: int| 0 <= k < j < es.len()
            ==> (#[trigger] es[k]).0@ != (#[trigger] es[j]).0@,
        0 <= i < es.len(),
    ensures
        query_lookup(qs, es[i].0@, 0) == Some(i),
        qs[i].1@.len() == es[i].1@.len(),
        forall|m: int| 0 <= m < qs[i].1@.len() ==> (#[trigger] qs[i].1@[m])@ == es[i].1@[m]@,
{
    lemma_query_lookup_at(qs, es, es[i].0@, 0, i);
}

/// With pairwise-distinct names, the scan finds the name at its own
/// position.
proof fn lemma_query_lookup_at(
    qs: Seq<(String, Vec<String>)>,
    es: Seq<(String, Vec<String>)>,
    name: Seq<char>,
    s: int,
    i: int,
)
    requires
        0 <= s <= i < qs.len(),
        qs.len() == es.len(),
        forall|k: int| 0 <= k < qs.len() ==> (#[trigger] qs[k]).0@ == es[k].0@,
        forall|k: int, j: int| 0 <= k < j < es.len()
            ==> (#[trigger] es[k]).0@ != (#[trigger] es[j]).0@,
        name == qs[i].0@,
    ensures
        query_lookup(qs, name, s) == Some(i),
    decreases i - s,
{
    if s == i {
    } else {
        assert(es[s].0@ != es[i].0@);
        assert(qs[s].0@ != name);
        lemma_query_lookup_at(qs, es, name, s + 1, i);
    }
}

/// A name present in the map is found.
proof fn lemma_query_lookup_some(qs: Seq<(String, Vec<String>)>, name: Seq<char>, s: int, i: int)
    requires
        0 <= s <= i < qs.len(),
        qs[i].0@ == name,
    ensures
        query_lookup(qs, name, s) is Some,
    decreases i - s,
{
    if !(qs[s].0@ == name) {
        assert(s < i);
        lemma_query_lookup_some(qs, name, s + 1, i);
    }
}

/// In value-equal query maps, every actual name is also expected.
proof fn lemma_query_eq_back(
    es: Seq<(String, Vec<String>)>,
    qs: Seq<(String, Vec<String>)>,
    i: int,
)
    requires
        qs.len() == es.len(),
        forall|k: int| 0 <= k < es.len() ==> (#[trigger] qs[k]).0@ == es[k].0@,
        0 <= i < qs.len(),
    ensures
        query_lookup(es, qs[i].0@, 0) is Some,
{
    assert(es[i].0@ == qs[i].0@);
    lemma_query_lookup_some(es, qs[i].0@, 0, i);
}


// ---------------------------------------------------------------------
// Content-type detection and body dispatch.
// ---------------------------------------------------------------------

/// The lowercase name of the content-type header.
pub open spec fn ct_name() -> Seq<char> {
    seq!['c', 'o', 'n', 't', 'e', 'n', 't', '-', 't', 'y', 'p', 'e']
}

/// The classification of a body from the headers: a content type
/// containing `json` is JSON, one containing `xml` is XML, anything
/// else, or no header, is text.
pub open spec fn detected_ctype(h: Option<Vec<(String, String)>>) -> DetectedContentType {
    match h {
        Option::None => DetectedContentType::Text,
        Option::Some(hs) => match header_lookup(hs@, ct_name(), 0) {
            Some(i) => {
                let v = lower_seq(hs@[i].1@);
                if seq_contains(v, seq!['j', 's', 'o', 'n']) {
                    DetectedContentType::Json
                } else if seq_contains(v, seq!['x', 'm', 'l']) {
                    DetectedContentType::Xml
                } else {
                    DetectedContentType::Text
                }
            },
            None => DetectedContentType::Text,
        },
    }
}

/// Classifies a body from its headers.
pub fn detect_content_type(h: &Option<Vec<(String, String)>>) -> (r: DetectedContentType)
    ensures
        r == detected_ctype(*h),
{
    match h {
        Option::None => DetectedContentType::Text,
        Option::Some(hs) => {
            proof {
                reveal_strlit("content-type");
                assert("content-type"@ =~= ct_name());
            }
            match header_lookup_x(hs, "content-type", 0) {
                Some(i) => {
                    let low = to_lower(hs[i].1.as_str());
                    let lv = string_chars(low.as_str());
                    proof {
                        reveal_strlit("json");
                        reveal_strlit("xml");
                        assert("json"@ =~= seq!['j', 's', 'o', 'n']);
                        assert("xml"@ =~= seq!['x', 'm', 'l']);
                    }
                    let jn = string_chars("json");
                    let xn = string_chars("xml");
                    if seq_contains_x(&lv, &jn) {
                        DetectedContentType::Json
                    } else if seq_contains_x(&lv, &xn) {
                        DetectedContentType::Xml
                    } else {
                        DetectedContentType::Text
                    }
                },
                None => DetectedContentType::Text,
            }
        },
    }
}

/// The first non-whitespace position at or after `i`.
pub open spec fn first_non_ws(s: Seq<char>, i: int) -> int
    decreases s.len() - i,
{
    if i < 0 || i >= s.len() {
        s.len() as int
    } else if s[i] == ' ' || s[i] == '\t' || s[i] == '\n' || s[i] == '\r' {
        first_non_ws(s, i + 1)
    } else {
        i
    }
}

/// The classification guessed from the body text itself: an object or
/// array opener reads as JSON, an angle bracket as XML.
pub open spec fn sniffed_ctype(s: Seq<char>) -> DetectedContentType {
    let i = first_non_ws(s, 0);
    if 0 <= i < s.len() {
        if s[i] == '{' || s[i] == '[' {
            DetectedContentType::Json
        } else if s[i] == '<' {
            DetectedContentType::Xml
        } else {
            DetectedContentType::Text
        }
    } else {
        DetectedContentType::Text
    }
}

/// The classification of a body: by the content-type header when one is
/// set, otherwise guessed from the body text.
pub open spec fn body_ctype(h: Option<Vec<(String, String)>>, body: OptionalBody)
    -> DetectedContentType {
    match h {
        Option::Some(hs) if header_lookup(hs@, ct_name(), 0) is Some => detected_ctype(h),
        _ => match body {
            OptionalBody::Present(t) => sniffed_ctype(t@),
            _ => DetectedContentType::Text,
        },
    }
}

fn first_non_ws_x(cs: &Vec<char>, i: usize) -> (r: usize)
    requires
        i <= cs@.len(),
    ensures
        r == first_non_ws(cs@, i as int),
        i <= r <= cs@.len(),
    decreases cs@.len() - i,
{
    if i >= cs.len() {
        cs.len()
    } else {
        let c = cs[i];
        if c == ' ' || c == '\t' || c == '\n' || c == '\r' {
            first_non_ws_x(cs, i + 1)
        } else {
            i
        }
    }
}

/// Classifies a body from its headers, or from its text when no
/// content-type header is set.
pub fn detect_body_ctype(h: &Option<Vec<(String, String)>>, body: &OptionalBody) -> (r:
    DetectedContentType)
    ensures
        r == body_ctype(*h, *body),
{
    let has_header: bool = match h {
        Option::Some(hs) => {
            proof {
                reveal_strlit("content-type");
                assert("content-type"@ =~= ct_name());
            }
            match header_lookup_x(hs, "content-type", 0) {
                Some(_) => true,
                None => false,
            }
        },
        Option::None => false,
    };
    if has_header {
        detect_content_type(h)
    } else {
        match body {
            OptionalBody::Present(t) => {
                let cs = string_chars(t.as_str());
                let i = first_non_ws_x(&cs, 0);
                if i < cs.len() {
                    let c = cs[i];
                    if c == '{' || c == '[' {
                        DetectedContentType::Json
                    } else if c == '<' {
                        DetectedContentType::Xml
                    } else {
                        DetectedContentType::Text
                    }
                } else {
                    DetectedContentType::Text
                }
            },
            _ => DetectedContentType::Text,
        }
    }
}

/// The message reported when a body was expected but absent.
pub open spec fn missing_body_msg(e: Seq<char>) -> Seq<char> {
    "Expected body '"@ + e + "' but was missing"@
}

/// Pushes the missing-body mismatch, located at the whole body.
fn push_missing_body(out: &mut Vec<Mismatch>, e: &String)
    ensures
        final(out)@.len() == old(out)@.len() + 1,
        forall|i: int| 0 <= i < old(out)@.len() ==> #[trigger] final(out)@[i] == old(out)@[i],
        ({
            &&& final(out)@.last() matches Mismatch::BodyMismatch { path, expected, actual, mismatch }
            &&& path@ == "/"@
            &&& expected matches Option::Some(es) && es@ == e@
            &&& actual is None
            &&& mismatch@ == missing_body_msg(e@)
        }),
{
    let mut msg = String::new();
    msg.append("Expected body '");
    msg.append(e.as_str());
    msg.append("' but was missing");
    out.push(Mismatch::BodyMismatch {
        path: "/".to_owned(),
        expected: Option::Some(e.clone()),
        actual: Option::None,
        mismatch: msg,
    });
}

/// One whole-body mismatch for present but disagreeing text.
fn push_text_mismatch(out: &mut Vec<Mismatch>, e: &String, a: &String)
    ensures
        final(out)@.len() == old(out)@.len() + 1,
        forall|i: int| 0 <= i < old(out)@.len() ==> #[trigger] final(out)@[i] == old(out)@[i],
        final(out)@.last() is BodyMismatch,
{
    let mut msg = String::new();
    msg.append("Expected body '");
    msg.append(e.as_str());
    msg.append("' but received '");
    msg.append(a.as_str());
    msg.append("'");
    out.push(Mismatch::BodyMismatch {
        path: "/".to_owned(),
        expected: Option::Some(e.clone()),
        actual: Option::Some(a.clone()),
        mismatch: msg,
    });
}

/// Matches bodies under the detected content type. A missing expected
/// body accepts anything; an expected body against a missing actual one
/// is the single whole-body mismatch; equal bodies with no body rules
/// always match. Structured bodies that do not parse fall back to text
/// comparison, reported as a body-type mismatch.
pub fn match_body(
    expected: &OptionalBody,
    actual: &OptionalBody,
    ctype: DetectedContentType,
    entries: &Vec<RuleEntry>,
    out: &mut Vec<Mismatch>,
)
    ensures
        final(out)@.len() >= old(out)@.len(),
        forall|i: int| 0 <= i < old(out)@.len() ==> #[trigger] final(out)@[i] == old(out)@[i],
        forall|i: int| old(out)@.len() <= i < final(out)@.len() ==> (#[trigger] final(out)@[i])
            is BodyMismatch || (#[trigger] final(out)@[i]) is BodyTypeMismatch,
        *expected is Missing ==> final(out)@.len() == old(out)@.len(),
        body_eq(*actual, *expected) && !has_cat_rules(entries@, Category::Body)
            ==> final(out)@.len() == old(out)@.len(),
        *expected matches OptionalBody::Present(e) ==> *actual matches OptionalBody::Present(
            a,
        ) ==> (ctype is Text ==> (final(out)@.len() == old(out)@.len() <==> e@ == a@)),
        *expected matches OptionalBody::Present(e) ==> (*actual is Missing || *actual is Null
            || *actual is Empty) ==> {
            &&& final(out)@.len() == old(out)@.len() + 1
            &&& final(out)@.last() matches Mismatch::BodyMismatch {
                path,
                expected: ex,
                actual: ac,
                mismatch,
            }
            &&& path@ == "/"@
            &&& ex matches Option::Some(es) && es@ == e@
            &&& ac is None
            &&& mismatch@ == missing_body_msg(e@)
        },
        (*expected is Null && !(*actual is Null) && !(*actual is Missing)) ==> final(out)@.len()
            == old(out)@.len() + 1,
        (*expected is Empty && !(*actual is Empty) && !(*actual is Missing)) ==> final(out)@.len()
            == old(out)@.len() + 1,
        (*expected is Null && (*actual is Null || *actual is Missing)) ==> final(out)@.len()
            == old(out)@.len(),
        (*expected is Empty && (*actual is Empty || *actual is Missing)) ==> final(out)@.len()
            == old(out)@.len(),
        *expected matches OptionalBody::Present(e) ==> *actual matches OptionalBody::Present(a)
            ==> (ctype is Json && !(!has_cat_rules(entries@, Category::Body) && e@ == a@)) ==> (
        crate::jsonparse::sp_doc(e@) matches Some(ge) ==> (crate::jsonparse::sp_doc(a@)
            matches Some(ga) ==> exists|ve: crate::jsonval::JsonValue, va: crate::jsonval::JsonValue|
            crate::jsonparse::denotes(ve, ge) && crate::jsonparse::denotes(va, ga)
                && crate::mismatch::mm_paths(final(out)@) == crate::mismatch::mm_paths(old(out)@)
                + #[trigger] crate::bodymatch::json_mismatches(ve, va, entries@, Seq::empty()))),
        *expected matches OptionalBody::Present(e) ==> *actual matches OptionalBody::Present(a)
            ==> (ctype is Json && (crate::jsonparse::sp_doc(e@) is None
            || crate::jsonparse::sp_doc(a@) is None)) ==> ((final(out)@.len() == old(out)@.len()
            <==> e@ == a@) && (e@ != a@ ==> final(out)@.len() == old(out)@.len() + 1
            && final(out)@.last() is BodyTypeMismatch)),
        *expected matches OptionalBody::Present(e) ==> *actual matches OptionalBody::Present(a)
            ==> (ctype is Xml && !(!has_cat_rules(entries@, Category::Body) && e@ == a@)) ==> (
        crate::xmlval::sp_xml(e@) matches Some(ge) ==> (crate::xmlval::sp_xml(a@)
            matches Some(ga) ==> exists|ve: crate::xmlval::XmlNode, va: crate::xmlval::XmlNode|
            crate::xmlval::xdenotes(ve, ge) && crate::xmlval::xdenotes(va, ga)
                && crate::mismatch::mm_paths(final(out)@) == crate::mismatch::mm_paths(old(out)@)
                + #[trigger] crate::xmlval::xml_doc_mismatches(ve, va, entries@))),
        *expected matches OptionalBody::Present(e) ==> *actual matches OptionalBody::Present(a)
            ==> (ctype is Xml && (crate::xmlval::sp_xml(e@) is None || crate::xmlval::sp_xml(a@)
            is None)) ==> ((final(out)@.len() == old(out)@.len() <==> e@ == a@) && (e@ != a@
            ==> final(out)@.len() == old(out)@.len() + 1
            && final(out)@.last() is BodyTypeMismatch)),
{
    match (expected, actual) {
        (OptionalBody::Missing, _) => {},
        (OptionalBody::Present(e), OptionalBody::Present(a)) => {
            let no_rules = !has_cat_rules_x(entries, Category::Body);
            if no_rules && str_eq(e.as_str(), a.as_str()) {
                return;
            }
            match ctype {
                DetectedContentType::Text => {
                    if !str_eq(e.as_str(), a.as_str()) {
                        push_text_mismatch(out, e, a);
                    }
                },
                DetectedContentType::Json => {
                    let te = crate::jsonparse::parse_json(e.as_str());
                    let ta = crate::jsonparse::parse_json(a.as_str());
                    match (te, ta) {
                        (Option::Some(ev), Option::Some(av)) => {
                            let path: Vec<PathFrag> = Vec::new();
                            proof {
                                assert(crate::pathexp::frags_view(path@)
                                    =~= Seq::<crate::pathexp::SpecFrag>::empty());
                            }
                            walk_json(&ev, &av, entries, &path, out);
                            proof {
                                assert(crate::mismatch::mm_paths(out@) == crate::mismatch::mm_paths(
                                    old(out)@,
                                ) + crate::bodymatch::json_mismatches(
                                    ev,
                                    av,
                                    entries@,
                                    Seq::empty(),
                                ));
                            }
                        },
                        _ => {
                            if !str_eq(e.as_str(), a.as_str()) {
                                out.push(Mismatch::BodyTypeMismatch {
                                    expected: e.clone(),
                                    actual: a.clone(),
                                });
                            }
                        },
                    }
                },
                DetectedContentType::Xml => {
                    let te = crate::xmlval::parse_xml(e.as_str());
                    let ta = crate::xmlval::parse_xml(a.as_str());
                    match (te, ta) {
                        (Option::Some(ev), Option::Some(av)) => {
                            crate::xmlval::match_xml_roots(&ev, &av, entries, out);
                            proof {
                                assert(crate::mismatch::mm_paths(out@) == crate::mismatch::mm_paths(
                                    old(out)@,
                                ) + crate::xmlval::xml_doc_mismatches(ev, av, entries@));
                            }
                        },
                        _ => {
                            if !str_eq(e.as_str(), a.as_str()) {
                                out.push(Mismatch::BodyTypeMismatch {
                                    expected: e.clone(),
                                    actual: a.clone(),
                                });
                            }
                        },
                    }
                },
            }
        },
        (OptionalBody::Present(e), _) => {
            push_missing_body(out, e);
        },
        (OptionalBody::Null, OptionalBody::Null) => {},
        (OptionalBody::Null, OptionalBody::Missing) => {},
        (OptionalBody::Empty, OptionalBody::Empty) => {},
        (OptionalBody::Empty, OptionalBody::Missing) => {},
        (OptionalBody::Null, a) => {
            let av = a.dup();
            let astr = match av {
                OptionalBody::Present(s) => s,
                _ => String::new(),
            };
            let en = String::new();
            push_text_mismatch(out, &en, &astr);
        },
        (OptionalBody::Empty, a) => {
            let av = a.dup();
            let astr = match av {
                OptionalBody::Present(s) => s,
                _ => String::new(),
            };
            let en = String::new();
            push_text_mismatch(out, &en, &astr);
        },
    }
}

// ---------------------------------------------------------------------
// Whole-request and whole-response matching, and the selector.
// ---------------------------------------------------------------------

/// The mismatches between an expected request and an actual one, over
/// query parameters, headers and body. Method and path are judged by
/// the routing step, not here. A query mismatch is reported exactly
/// when the query maps disagree, a header mismatch exactly when an
/// expected header is unsatisfied; body disagreements are located by
/// the body walk.
pub fn request_mismatches(expected: &Request, actual: &Request) -> (r: Vec<Mismatch>)
    ensures
        req_eq(*expected, *actual) && wf_request(*expected)
            && expected.matching_rules.entries@.len() == 0 ==> r@.len() == 0,
        forall|i: int| 0 <= i < r@.len() ==> ((#[trigger] r@[i]) is QueryMismatch || r@[i]
            is HeaderMismatch || r@[i] is BodyMismatch || r@[i] is BodyTypeMismatch),
        (exists|i: int| 0 <= i < r@.len() && (#[trigger] r@[i]) is QueryMismatch) <==> !query_match(
            expected.query,
            actual.query,
            expected.matching_rules.entries@,
        ),
        (exists|i: int| 0 <= i < r@.len() && (#[trigger] r@[i]) is HeaderMismatch)
            <==> !headers_match(
            expected.headers,
            actual.headers,
            expected.matching_rules.entries@,
        ),
        expected.body is Missing ==> forall|i: int| 0 <= i < r@.len() ==> !((#[trigger] r@[i])
            is BodyMismatch) && !(r@[i] is BodyTypeMismatch),
        expected.body matches OptionalBody::Present(e) ==> (actual.body is Missing || actual.body
            is Null || actual.body is Empty) ==> r@.len() > 0 && ({
            &&& r@.last() matches Mismatch::BodyMismatch { path, expected: ex, actual: ac, mismatch }
            &&& path@ == "/"@
            &&& ex matches Option::Some(es) && es@ == e@
            &&& ac is None
            &&& mismatch@ == missing_body_msg(e@)
        }),
        expected.body matches OptionalBody::Present(e) ==> actual.body
            matches OptionalBody::Present(a) ==> body_ctype(expected.headers, expected.body)
            is Text ==> ((exists|i: int| 0 <= i < r@.len() && ((#[trigger] r@[i]) is BodyMismatch
            || r@[i] is BodyTypeMismatch)) <==> e@ != a@),
        expected.body matches OptionalBody::Present(e) ==> actual.body
            matches OptionalBody::Present(a) ==> (body_ctype(expected.headers, expected.body)
            is Json && !(!has_cat_rules(expected.matching_rules.entries@, Category::Body) && e@
            == a@)) ==> (crate::jsonparse::sp_doc(e@) matches Some(ge) ==> (
        crate::jsonparse::sp_doc(a@) matches Some(ga) ==> exists|
            ve: crate::jsonval::JsonValue,
            va: crate::jsonval::JsonValue,
        |
            crate::jsonparse::denotes(ve, ge) && crate::jsonparse::denotes(va, ga) && ((exists|
                i: int,
            | 0 <= i < r@.len() && ((#[trigger] r@[i]) is BodyMismatch || r@[i]
                is BodyTypeMismatch)) <==> #[trigger] crate::bodymatch::json_mismatches(
                ve,
                va,
                expected.matching_rules.entries@,
                Seq::empty(),
            ).len() > 0))),
        expected.body matches OptionalBody::Present(e) ==> actual.body
            matches OptionalBody::Present(a) ==> (body_ctype(expected.headers, expected.body)
            is Json && (crate::jsonparse::sp_doc(e@) is None || crate::jsonparse::sp_doc(a@)
            is None)) ==> ((exists|i: int| 0 <= i < r@.len() && ((#[trigger] r@[i])
            is BodyMismatch || r@[i] is BodyTypeMismatch)) <==> e@ != a@),
        expected.body matches OptionalBody::Present(e) ==> actual.body
            matches OptionalBody::Present(a) ==> (body_ctype(expected.headers, expected.body)
            is Xml && !(!has_cat_rules(expected.matching_rules.entries@, Category::Body) && e@
            == a@)) ==> (crate::xmlval::sp_xml(e@) matches Some(ge) ==> (crate::xmlval::sp_xml(
            a@,
        ) matches Some(ga) ==> exists|ve: crate::xmlval::XmlNode, va: crate::xmlval::XmlNode|
            crate::xmlval::xdenotes(ve, ge) && crate::xmlval::xdenotes(va, ga) && ((exists|
                i: int,
            | 0 <= i < r@.len() && ((#[trigger] r@[i]) is BodyMismatch || r@[i]
                is BodyTypeMismatch)) <==> #[trigger] crate::xmlval::xml_doc_mismatches(
                ve,
                va,
                expected.matching_rules.entries@,
            ).len() > 0))),
        expected.body matches OptionalBody::Present(e) ==> actual.body
            matches OptionalBody::Present(a) ==> (body_ctype(expected.headers, expected.body)
            is Xml && (crate::xmlval::sp_xml(e@) is None || crate::xmlval::sp_xml(a@) is None))
            ==> ((exists|i: int| 0 <= i < r@.len() && ((#[trigger] r@[i]) is BodyMismatch
            || r@[i] is BodyTypeMismatch)) <==> e@ != a@),
        expected.body matches OptionalBody::Present(e) ==> actual.body
            matches OptionalBody::Present(a) ==> (e@ == a@ && !has_cat_rules(
            expected.matching_rules.entries@,
            Category::Body,
        )) ==> !(exists|i: int| 0 <= i < r@.len() && ((#[trigger] r@[i]) is BodyMismatch || r@[i]
            is BodyTypeMismatch)),
        ((expected.body is Null && (actual.body is Null || actual.body is Missing))
            || (expected.body is Empty && (actual.body is Empty || actual.body is Missing)))
            ==> !(exists|i: int| 0 <= i < r@.len() && ((#[trigger] r@[i]) is BodyMismatch
            || r@[i] is BodyTypeMismatch)),
{
    let mut out: Vec<Mismatch> = Vec::new();
    let entries = &expected.matching_rules.entries;
    match_query(&expected.query, &actual.query, entries, &mut out);
    let ghost n1 = out@.len() as int;
    match_headers(&expected.headers, &actual.headers, entries, &mut out);
    let ghost n2 = out@.len() as int;
    let ghost mid2 = out@;
    let ctype = detect_body_ctype(&expected.headers, &expected.body);
    match_body(&expected.body, &actual.body, ctype, entries, &mut out);
    proof {
        assert((exists|i: int| 0 <= i < out@.len() && (#[trigger] out@[i]) is QueryMismatch)
            <==> n1 > 0) by {
            if n1 > 0 {
                assert(out@[0] is QueryMismatch);
            }
            if exists|i: int| 0 <= i < out@.len() && (#[trigger] out@[i]) is QueryMismatch {
                let i = choose|i: int| 0 <= i < out@.len() && (#[trigger] out@[i])
                    is QueryMismatch;
                assert(i < n1);
            }
        }
        assert((exists|i: int| 0 <= i < out@.len() && (#[trigger] out@[i]) is HeaderMismatch)
            <==> n2 > n1) by {
            if n2 > n1 {
                assert(out@[n1] is HeaderMismatch);
            }
            if exists|i: int| 0 <= i < out@.len() && (#[trigger] out@[i]) is HeaderMismatch {
                let i = choose|i: int| 0 <= i < out@.len() && (#[trigger] out@[i])
                    is HeaderMismatch;
                assert(n1 <= i < n2);
            }
        }
        assert((exists|i: int| 0 <= i < out@.len() && ((#[trigger] out@[i]) is BodyMismatch
            || out@[i] is BodyTypeMismatch)) <==> out@.len() > n2) by {
            if out@.len() > n2 {
                assert(out@[n2] is BodyMismatch || out@[n2] is BodyTypeMismatch);
            }
            if exists|i: int| 0 <= i < out@.len() && ((#[trigger] out@[i]) is BodyMismatch
                || out@[i] is BodyTypeMismatch) {
                let i = choose|i: int| 0 <= i < out@.len() && ((#[trigger] out@[i])
                    is BodyMismatch || out@[i] is BodyTypeMismatch);
                assert(i >= n2);
            }
        }
        if expected.body is Present && actual.body is Present && body_ctype(
            expected.headers,
            expected.body,
        ) is Xml {
            let es = expected.body->Present_0;
            let as_ = actual.body->Present_0;
            if !(!has_cat_rules(expected.matching_rules.entries@, Category::Body) && es@ == as_@)
                && crate::xmlval::sp_xml(es@) is Some && crate::xmlval::sp_xml(as_@) is Some {
                let ge = crate::xmlval::sp_xml(es@)->Some_0;
                let ga = crate::xmlval::sp_xml(as_@)->Some_0;
                let (ve, va) = choose|ve: crate::xmlval::XmlNode, va: crate::xmlval::XmlNode|
                    crate::xmlval::xdenotes(ve, ge) && crate::xmlval::xdenotes(va, ga)
                        && crate::mismatch::mm_paths(out@) == crate::mismatch::mm_paths(mid2)
                        + crate::xmlval::xml_doc_mismatches(
                        ve,
                        va,
                        expected.matching_rules.entries@,
                    );
                assert(crate::mismatch::mm_paths(out@).len() == out@.len());
                assert(crate::mismatch::mm_paths(mid2).len() == n2);
                assert(out@.len() == n2 + crate::xmlval::xml_doc_mismatches(
                    ve,
                    va,
                    expected.matching_rules.entries@,
                ).len());
                assert(crate::xmlval::xdenotes(ve, ge) && crate::xmlval::xdenotes(va, ga) && ((
                exists|i: int|
                    0 <= i < out@.len() && ((#[trigger] out@[i]) is BodyMismatch || out@[i]
                        is BodyTypeMismatch)) <==> crate::xmlval::xml_doc_mismatches(
                    ve,
                    va,
                    expected.matching_rules.entries@,
                ).len() > 0));
            }
        }
        if expected.body is Present && actual.body is Present && body_ctype(
            expected.headers,
            expected.body,
        ) is Json {
            let es = expected.body->Present_0;
            let as_ = actual.body->Present_0;
            if !(!has_cat_rules(expected.matching_rules.entries@, Category::Body) && es@ == as_@)
                && crate::jsonparse::sp_doc(es@) is Some && crate::jsonparse::sp_doc(as_@)
                is Some {
                let ge = crate::jsonparse::sp_doc(es@)->Some_0;
                let ga = crate::jsonparse::sp_doc(as_@)->Some_0;
                let (ve, va) = choose|
                    ve: crate::jsonval::JsonValue,
                    va: crate::jsonval::JsonValue,
                |
                    crate::jsonparse::denotes(ve, ge) && crate::jsonparse::denotes(va, ga)
                        && crate::mismatch::mm_paths(out@) == crate::mismatch::mm_paths(mid2)
                        + crate::bodymatch::json_mismatches(
                        ve,
                        va,
                        expected.matching_rules.entries@,
                        Seq::empty(),
                    );
                assert(crate::mismatch::mm_paths(out@).len() == out@.len());
                assert(crate::mismatch::mm_paths(mid2).len() == n2);
                assert(out@.len() == n2 + crate::bodymatch::json_mismatches(
                    ve,
                    va,
                    expected.matching_rules.entries@,
                    Seq::empty(),
                ).len());
                assert(crate::jsonparse::denotes(ve, ge) && crate::jsonparse::denotes(va, ga) && ((
                exists|i: int|
                    0 <= i < out@.len() && ((#[trigger] out@[i]) is BodyMismatch || out@[i]
                        is BodyTypeMismatch)) <==> crate::bodymatch::json_mismatches(
                    ve,
                    va,
                    expected.matching_rules.entries@,
                    Seq::empty(),
                ).len() > 0));
            }
        }
    }
    out
}

/// The mismatches between an expected response and an actual one:
/// status, headers and body. A status mismatch is reported exactly when
/// the statuses disagree under the status rules, a header mismatch
/// exactly when an expected header is unsatisfied; body disagreements
/// are located by the body walk.
pub fn match_response(expected: &Response, actual: &Response) -> (r: Vec<Mismatch>)
    ensures
        resp_eq(*expected, *actual) && wf_response(*expected)
            && expected.matching_rules.entries@.len() == 0 ==> r@.len() == 0,
        forall|i: int| 0 <= i < r@.len() ==> ((#[trigger] r@[i]) is StatusMismatch || r@[i]
            is HeaderMismatch || r@[i] is BodyMismatch || r@[i] is BodyTypeMismatch),
        (exists|i: int| 0 <= i < r@.len() && (#[trigger] r@[i]) is StatusMismatch) <==> !status_ok(
            expected.matching_rules.entries@,
            expected.status,
            actual.status,
        ),
        (exists|i: int| 0 <= i < r@.len() && (#[trigger] r@[i]) is HeaderMismatch)
            <==> !headers_match(
            expected.headers,
            actual.headers,
            expected.matching_rules.entries@,
        ),
        expected.body is Missing ==> forall|i: int| 0 <= i < r@.len() ==> !((#[trigger] r@[i])
            is BodyMismatch) && !(r@[i] is BodyTypeMismatch),
        expected.body matches OptionalBody::Present(e) ==> (actual.body is Missing || actual.body
            is Null || actual.body is Empty) ==> r@.len() > 0 && ({
            &&& r@.last() matches Mismatch::BodyMismatch { path, expected: ex, actual: ac, mismatch }
            &&& path@ == "/"@
            &&& ex matches Option::Some(es) && es@ == e@
            &&& ac is None
            &&& mismatch@ == missing_body_msg(e@)
        }),
        expected.body matches OptionalBody::Present(e) ==> actual.body
            matches OptionalBody::Present(a) ==> body_ctype(expected.headers, expected.body)
            is Text ==> ((exists|i: int| 0 <= i < r@.len() && ((#[trigger] r@[i]) is BodyMismatch
            || r@[i] is BodyTypeMismatch)) <==> e@ != a@),
        expected.body matches OptionalBody::Present(e) ==> actual.body
            matches OptionalBody::Present(a) ==> (body_ctype(expected.headers, expected.body)
            is Json && !(!has_cat_rules(expected.matching_rules.entries@, Category::Body) && e@
            == a@)) ==> (crate::jsonparse::sp_doc(e@) matches Some(ge) ==> (
        crate::jsonparse::sp_doc(a@) matches Some(ga) ==> exists|
            ve: crate::jsonval::JsonValue,
            va: crate::jsonval::JsonValue,
        |
            crate::jsonparse::denotes(ve, ge) && crate::jsonparse::denotes(va, ga) && ((exists|
                i: int,
            | 0 <= i < r@.len() && ((#[trigger] r@[i]) is BodyMismatch || r@[i]
                is BodyTypeMismatch)) <==> #[trigger] crate::bodymatch::json_mismatches(
                ve,
                va,
                expected.matching_rules.entries@,
                Seq::empty(),
            ).len() > 0))),
        expected.body matches OptionalBody::Present(e) ==> actual.body
            matches OptionalBody::Present(a) ==> (body_ctype(expected.headers, expected.body)
            is Json && (crate::jsonparse::sp_doc(e@) is None || crate::jsonparse::sp_doc(a@)
            is None)) ==> ((exists|i: int| 0 <= i < r@.len() && ((#[trigger] r@[i])
            is BodyMismatch || r@[i] is BodyTypeMismatch)) <==> e@ != a@),
        expected.body matches OptionalBody::Present(e) ==> actual.body
            matches OptionalBody::Present(a) ==> (body_ctype(expected.headers, expected.body)
            is Xml && !(!has_cat_rules(expected.matching_rules.entries@, Category::Body) && e@
            == a@)) ==> (crate::xmlval::sp_xml(e@) matches Some(ge) ==> (crate::xmlval::sp_xml(
            a@,
        ) matches Some(ga) ==> exists|ve: crate::xmlval::XmlNode, va: crate::xmlval::XmlNode|
            crate::xmlval::xdenotes(ve, ge) && crate::xmlval::xdenotes(va, ga) && ((exists|
                i: int,
            | 0 <= i < r@.len() && ((#[trigger] r@[i]) is BodyMismatch || r@[i]
                is BodyTypeMismatch)) <==> #[trigger] crate::xmlval::xml_doc_mismatches(
                ve,
                va,
                expected.matching_rules.entries@,
            ).len() > 0))),
        expected.body matches OptionalBody::Present(e) ==> actual.body
            matches OptionalBody::Present(a) ==> (body_ctype(expected.headers, expected.body)
            is Xml && (crate::xmlval::sp_xml(e@) is None || crate::xmlval::sp_xml(a@) is None))
            ==> ((exists|i: int| 0 <= i < r@.len() && ((#[trigger] r@[i]) is BodyMismatch
            || r@[i] is BodyTypeMismatch)) <==> e@ != a@),
{
    let mut out: Vec<Mismatch> = Vec::new();
    let entries = &expected.matching_rules.entries;
    if !status_ok_x(entries, expected.status, actual.status) {
        out.push(Mismatch::StatusMismatch { expected: expected.status, actual: actual.status });
    }
    let ghost n1 = out@.len() as int;
    match_headers(&expected.headers, &actual.headers, entries, &mut out);
    let ghost n2 = out@.len() as int;
    let ghost mid2 = out@;
    let ctype = detect_body_ctype(&expected.headers, &expected.body);
    match_body(&expected.body, &actual.body, ctype, entries, &mut out);
    proof {
        assert((exists|i: int| 0 <= i < out@.len() && (#[trigger] out@[i]) is StatusMismatch)
            <==> n1 > 0) by {
            if n1 > 0 {
                assert(out@[0] is StatusMismatch);
            }
            if exists|i: int| 0 <= i < out@.len() && (#[trigger] out@[i]) is StatusMismatch {
                let i = choose|i: int| 0 <= i < out@.len() && (#[trigger] out@[i])
                    is StatusMismatch;
                assert(i < n1);
            }
        }
        assert((exists|i: int| 0 <= i < out@.len() && (#[trigger] out@[i]) is HeaderMismatch)
            <==> n2 > n1) by {
            if n2 > n1 {
                assert(out@[n1] is HeaderMismatch);
            }
            if exists|i: int| 0 <= i < out@.len() && (#[trigger] out@[i]) is HeaderMismatch {
                let i = choose|i: int| 0 <= i < out@.len() && (#[trigger] out@[i])
                    is HeaderMismatch;
                assert(n1 <= i < n2);
            }
        }
        assert((exists|i: int| 0 <= i < out@.len() && ((#[trigger] out@[i]) is BodyMismatch
            || out@[i] is BodyTypeMismatch)) <==> out@.len() > n2) by {
            if out@.len() > n2 {
                assert(out@[n2] is BodyMismatch || out@[n2] is BodyTypeMismatch);
            }
            if exists|i: int| 0 <= i < out@.len() && ((#[trigger] out@[i]) is BodyMismatch
                || out@[i] is BodyTypeMismatch) {
                let i = choose|i: int| 0 <= i < out@.len() && ((#[trigger] out@[i])
                    is BodyMismatch || out@[i] is BodyTypeMismatch);
                assert(i >= n2);
            }
        }
        if expected.body is Present && actual.body is Present && body_ctype(
            expected.headers,
            expected.body,
        ) is Xml {
            let es = expected.body->Present_0;
            let as_ = actual.body->Present_0;
            if !(!has_cat_rules(expected.matching_rules.entries@, Category::Body) && es@ == as_@)
                && crate::xmlval::sp_xml(es@) is Some && crate::xmlval::sp_xml(as_@) is Some {
                let ge = crate::xmlval::sp_xml(es@)->Some_0;
                let ga = crate::xmlval::sp_xml(as_@)->Some_0;
                let (ve, va) = choose|ve: crate::xmlval::XmlNode, va: crate::xmlval::XmlNode|
                    crate::xmlval::xdenotes(ve, ge) && crate::xmlval::xdenotes(va, ga)
                        && crate::mismatch::mm_paths(out@) == crate::mismatch::mm_paths(mid2)
                        + crate::xmlval::xml_doc_mismatches(
                        ve,
                        va,
                        expected.matching_rules.entries@,
                    );
                assert(crate::mismatch::mm_paths(out@).len() == out@.len());
                assert(crate::mismatch::mm_paths(mid2).len() == n2);
                assert(out@.len() == n2 + crate::xmlval::xml_doc_mismatches(
                    ve,
                    va,
                    expected.matching_rules.entries@,
                ).len());
                assert(crate::xmlval::xdenotes(ve, ge) && crate::xmlval::xdenotes(va, ga) && ((
                exists|i: int|
                    0 <= i < out@.len() && ((#[trigger] out@[i]) is BodyMismatch || out@[i]
                        is BodyTypeMismatch)) <==> crate::xmlval::xml_doc_mismatches(
                    ve,
                    va,
                    expected.matching_rules.entries@,
                ).len() > 0));
            }
        }
        if expected.body is Present && actual.body is Present && body_ctype(
            expected.headers,
            expected.body,
        ) is Json {
            let es = expected.body->Present_0;
            let as_ = actual.body->Present_0;
            if !(!has_cat_rules(expected.matching_rules.entries@, Category::Body) && es@ == as_@)
                && crate::jsonparse::sp_doc(es@) is Some && crate::jsonparse::sp_doc(as_@)
                is Some {
                let ge = crate::jsonparse::sp_doc(es@)->Some_0;
                let ga = crate::jsonparse::sp_doc(as_@)->Some_0;
                let (ve, va) = choose|
                    ve: crate::jsonval::JsonValue,
                    va: crate::jsonval::JsonValue,
                |
                    crate::jsonparse::denotes(ve, ge) && crate::jsonparse::denotes(va, ga)
                        && crate::mismatch::mm_paths(out@) == crate::mismatch::mm_paths(mid2)
                        + crate::bodymatch::json_mismatches(
                        ve,
                        va,
                        expected.matching_rules.entries@,
                        Seq::empty(),
                    );
                assert(crate::mismatch::mm_paths(out@).len() == out@.len());
                assert(crate::mismatch::mm_paths(mid2).len() == n2);
                assert(out@.len() == n2 + crate::bodymatch::json_mismatches(
                    ve,
                    va,
                    expected.matching_rules.entries@,
                    Seq::empty(),
                ).len());
                assert(crate::jsonparse::denotes(ve, ge) && crate::jsonparse::denotes(va, ga) && ((
                exists|i: int|
                    0 <= i < out@.len() && ((#[trigger] out@[i]) is BodyMismatch || out@[i]
                        is BodyTypeMismatch)) <==> crate::bodymatch::json_mismatches(
                    ve,
                    va,
                    expected.matching_rules.entries@,
                    Seq::empty(),
                ).len() > 0));
            }
        }
    }
    out
}

/// The result of matching a request against the candidate interactions.
#[derive(Clone, Debug, PartialEq, Eq)]
pub enum MatchResult {
    RequestMatch(Interaction),
    RequestMismatch(Interaction, Vec<Mismatch>),
    RequestNotFound(Request),
    MethodMismatch { expected: String, actual: String },
}

impl MatchResult {
    /// A short tag naming the kind of result.
    pub fn match_key(&self) -> (r: String)
        ensures
            *self is RequestMatch ==> r@ == "Request-Matched"@,
            *self is RequestMismatch ==> r@ == "Request-Mismatch"@,
            *self is RequestNotFound ==> r@ == "Unexpected-Request"@,
            *self is MethodMismatch ==> r@ == "Method-Mismatch"@,
    {
        match self {
            MatchResult::RequestMatch(_) => "Request-Matched".to_owned(),
            MatchResult::RequestMismatch(_, _) => "Request-Mismatch".to_owned(),
            MatchResult::RequestNotFound(_) => "Unexpected-Request".to_owned(),
            MatchResult::MethodMismatch { .. } => "Method-Mismatch".to_owned(),
        }
    }
}

/// A candidate whose request equals the actual one, is well formed, and
/// carries no matching rules: such a candidate always matches.
pub open spec fn easy_match(c: Interaction, actual: Request) -> bool {
    req_eq(c.request, actual) && wf_request(c.request)
        && c.request.matching_rules.entries@.len() == 0
}

/// Whether the actual request's body satisfies the expected one: an
/// absent expected body accepts anything; null and empty bodies accept
/// their own kind or a missing one; equal rule-free texts always pass;
/// text bodies compare by equality; structured bodies must both parse
/// and every pair of trees denoting the two documents must walk
/// without a mismatch.
pub open spec fn body_passes(expected: Request, actual: Request) -> bool {
    match (expected.body, actual.body) {
        (OptionalBody::Missing, _) => true,
        (OptionalBody::Null, ab) => ab is Null || ab is Missing,
        (OptionalBody::Empty, ab) => ab is Empty || ab is Missing,
        (OptionalBody::Present(e), OptionalBody::Present(a)) => if !has_cat_rules(
            expected.matching_rules.entries@,
            Category::Body,
        ) && e@ == a@ {
            true
        } else {
            match body_ctype(expected.headers, expected.body) {
                DetectedContentType::Text => e@ == a@,
                DetectedContentType::Json => crate::jsonparse::sp_doc(e@) matches Some(ge)
                    && crate::jsonparse::sp_doc(a@) matches Some(ga) && (forall|
                    ve: crate::jsonval::JsonValue,
                    va: crate::jsonval::JsonValue,
                |
                    crate::jsonparse::denotes(ve, ge) && crate::jsonparse::denotes(va, ga) ==> (
                    #[trigger] crate::bodymatch::json_mismatches(
                        ve,
                        va,
                        expected.matching_rules.entries@,
                        Seq::empty(),
                    )).len() == 0),
                DetectedContentType::Xml => crate::xmlval::sp_xml(e@) matches Some(ge)
                    && crate::xmlval::sp_xml(a@) matches Some(ga) && (forall|
                    ve: crate::xmlval::XmlNode,
                    va: crate::xmlval::XmlNode,
                |
                    crate::xmlval::xdenotes(ve, ge) && crate::xmlval::xdenotes(va, ga) ==> (
                    #[trigger] crate::xmlval::xml_doc_mismatches(
                        ve,
                        va,
                        expected.matching_rules.entries@,
                    )).len() == 0),
            }
        },
        _ => false,
    }
}

/// Whether a candidate fully satisfies the actual request, as far as
/// the matching dimensions are specified: routed, query and headers
/// agreeing, and the body passing.
pub open spec fn full_pass(c: Interaction, actual: Request) -> bool {
    &&& routed(c.request, actual)
    &&& query_match(c.request.query, actual.query, c.request.matching_rules.entries@)
    &&& headers_match(c.request.headers, actual.headers, c.request.matching_rules.entries@)
    &&& body_passes(c.request, actual)
}

/// An equal request with no rules is always routed to.
proof fn lemma_easy_routed(c: Interaction, actual: Request)
    requires
        easy_match(c, actual),
    ensures
        routed(c.request, actual),
{
    assert(c.request.method@ == actual.method@);
    assert(!has_cat_rules(c.request.matching_rules.entries@, Category::Path));
}

/// Decides the sum of severity weights of a mismatch list. The guard
/// against a sum beyond the machine word can fire only on a list too
/// long to build, so the result is the exact sum.
fn severity_sum(ms: &Vec<Mismatch>) -> (r: u64)
    ensures
        5 * ms@.len() <= u64::MAX ==> r == crate::mismatch::sev_sum(ms@),
{
    let mut total: u64 = 0;
    let mut i: usize = 0;
    while i < ms.len()
        invariant
            total <= 5 * i,
            i <= ms@.len(),
            5 * ms@.len() <= u64::MAX ==> total == crate::mismatch::sev_sum(
                ms@.subrange(0, i as int),
            ),
        decreases ms@.len() - i,
    {
        let s = ms[i].severity_x();
        proof {
            assert(crate::mismatch::severity(ms@[i as int]) <= 5);
            assert(ms@.subrange(0, i + 1).drop_last() =~= ms@.subrange(0, i as int));
            assert(ms@.subrange(0, i + 1).last() == ms@[i as int]);
        }
        if total <= 0xffffffffffffffff - 5 {
            total = total + s;
        }
        i = i + 1;
    }
    proof {
        assert(ms@.subrange(0, ms@.len() as int) =~= ms@);
    }
    total
}

/// Picks the interaction the actual request satisfies, or the most
/// diagnostic failure. Candidates whose method or path disagree are
/// never reported as mismatches: with no routed candidate the request
/// is simply not found. Among routed candidates, the first fully
/// matching one wins; otherwise the one with the fewest mismatches,
/// ties broken by the lowest total severity, then by declaration order.
pub fn match_request(actual: &Request, candidates: &Vec<Interaction>) -> (r: MatchResult)
    ensures
        (r is RequestNotFound) <==> (forall|k: int| 0 <= k < candidates@.len()
            ==> !routed((#[trigger] candidates@[k]).request, *actual)),
        r matches MatchResult::RequestNotFound(req) ==> req_eq(req, *actual),
        r matches MatchResult::RequestMatch(it) ==> exists|k: int| 0 <= k < candidates@.len()
            && inter_eq(it, #[trigger] candidates@[k]) && routed(candidates@[k].request, *actual)
            && query_match(
            candidates@[k].request.query,
            actual.query,
            candidates@[k].request.matching_rules.entries@,
        ) && headers_match(
            candidates@[k].request.headers,
            actual.headers,
            candidates@[k].request.matching_rules.entries@,
        ) && (candidates@[k].request.body is Present ==> !(actual.body is Missing || actual.body
            is Null || actual.body is Empty)),
        r matches MatchResult::RequestMismatch(it, ms) ==> ms@.len() > 0 && exists|k: int| 0 <= k
            < candidates@.len() && inter_eq(it, #[trigger] candidates@[k]) && routed(
            candidates@[k].request,
            *actual,
        ) && ((exists|m: int| 0 <= m < ms@.len() && (#[trigger] ms@[m]) is QueryMismatch)
            <==> !query_match(
            candidates@[k].request.query,
            actual.query,
            candidates@[k].request.matching_rules.entries@,
        )) && ((exists|m: int| 0 <= m < ms@.len() && (#[trigger] ms@[m]) is HeaderMismatch)
            <==> !headers_match(
            candidates@[k].request.headers,
            actual.headers,
            candidates@[k].request.matching_rules.entries@,
        )) && (candidates@[k].request.body matches OptionalBody::Present(e) ==> (actual.body
            is Missing || actual.body is Null || actual.body is Empty) ==> ({
            &&& ms@.last() matches Mismatch::BodyMismatch { path, expected: ex, actual: ac, mismatch }
            &&& path@ == "/"@
            &&& ex matches Option::Some(es) && es@ == e@
            &&& ac is None
            &&& mismatch@ == missing_body_msg(e@)
        })),
        (exists|k: int| 0 <= k < candidates@.len() && easy_match(
            #[trigger] candidates@[k],
            *actual,
        )) ==> r is RequestMatch,
        (exists|k: int| 0 <= k < candidates@.len() && full_pass(#[trigger] candidates@[k], *actual))
            ==> r is RequestMatch,
{
    let mut best: Option<usize> = None;
    let mut best_ms: Vec<Mismatch> = Vec::new();
    let mut best_sev: u64 = 0;
    let mut i: usize = 0;
    while i < candidates.len()
        invariant
            i <= candidates@.len(),
            forall|k: int| 0 <= k < i ==> !easy_match(#[trigger] candidates@[k], *actual),
            forall|k: int| 0 <= k < i ==> !full_pass(#[trigger] candidates@[k], *actual),
            match best {
                Some(b) => b < i && routed(candidates@[b as int].request, *actual)
                    && best_ms@.len() > 0 && ((exists|m: int| 0 <= m < best_ms@.len()
                    && (#[trigger] best_ms@[m]) is QueryMismatch) <==> !query_match(
                    candidates@[b as int].request.query,
                    actual.query,
                    candidates@[b as int].request.matching_rules.entries@,
                )) && ((exists|m: int| 0 <= m < best_ms@.len() && (#[trigger] best_ms@[m])
                    is HeaderMismatch) <==> !headers_match(
                    candidates@[b as int].request.headers,
                    actual.headers,
                    candidates@[b as int].request.matching_rules.entries@,
                )) && (candidates@[b as int].request.body matches OptionalBody::Present(e)
                    ==> (actual.body is Missing || actual.body is Null || actual.body is Empty)
                    ==> ({
                    &&& best_ms@.last() matches Mismatch::BodyMismatch {
                        path,
                        expected: ex,
                        actual: ac,
                        mismatch,
                    }
                    &&& path@ == "/"@
                    &&& ex matches Option::Some(es) && es@ == e@
                    &&& ac is None
                    &&& mismatch@ == missing_body_msg(e@)
                })),
                None => forall|k: int| 0 <= k < i
                    ==> !routed((#[trigger] candidates@[k]).request, *actual),
            },
        decreases candidates@.len() - i,
    {
        let c = &candidates[i];
        let is_routed = eq_ignore_case_x(c.request.method.as_str(), actual.method.as_str())
            && path_ok_x(
            &c.request.matching_rules.entries,
            c.request.path.as_str(),
            actual.path.as_str(),
        );
        if is_routed {
            let ms = request_mismatches(&c.request, actual);
            if ms.len() == 0 {
                return MatchResult::RequestMatch(crate::models::dup_interaction(c));
            }
            proof {
                if easy_match(candidates@[i as int], *actual) {
                    assert(false);
                }
                if full_pass(candidates@[i as int], *actual) {
                    let cr = candidates@[i as int].request;
                    assert(cr == c.request);
                    assert(ms@[0] is QueryMismatch || ms@[0] is HeaderMismatch || ms@[0]
                        is BodyMismatch || ms@[0] is BodyTypeMismatch);
                    if ms@[0] is QueryMismatch {
                        assert(exists|m: int| 0 <= m < ms@.len() && (#[trigger] ms@[m])
                            is QueryMismatch) by {
                            assert(ms@[0] is QueryMismatch);
                        }
                        assert(false);
                    } else if ms@[0] is HeaderMismatch {
                        assert(exists|m: int| 0 <= m < ms@.len() && (#[trigger] ms@[m])
                            is HeaderMismatch) by {
                            assert(ms@[0] is HeaderMismatch);
                        }
                        assert(false);
                    } else {
                        assert(exists|m: int| 0 <= m < ms@.len() && ((#[trigger] ms@[m])
                            is BodyMismatch || ms@[m] is BodyTypeMismatch)) by {
                            assert(ms@[0] is BodyMismatch || ms@[0] is BodyTypeMismatch);
                        }
                        if cr.body is Present && actual.body is Present {
                            let e = cr.body->Present_0;
                            let a = actual.body->Present_0;
                            {
                                if !has_cat_rules(cr.matching_rules.entries@, Category::Body)
                                    && e@ == a@ {
                                    assert(false);
                                } else {
                                    match body_ctype(cr.headers, cr.body) {
                                        DetectedContentType::Text => {
                                            assert(false);
                                        },
                                        DetectedContentType::Json => {
                                            let ge = crate::jsonparse::sp_doc(e@)->Some_0;
                                            let ga = crate::jsonparse::sp_doc(a@)->Some_0;
                                            let (ve, va) = choose|
                                                ve: crate::jsonval::JsonValue,
                                                va: crate::jsonval::JsonValue,
                                            |
                                                crate::jsonparse::denotes(ve, ge)
                                                    && crate::jsonparse::denotes(va, ga) && ((
                                                exists|m: int|
                                                    0 <= m < ms@.len() && ((#[trigger] ms@[m])
                                                        is BodyMismatch || ms@[m]
                                                        is BodyTypeMismatch))
                                                    <==> crate::bodymatch::json_mismatches(
                                                    ve,
                                                    va,
                                                    cr.matching_rules.entries@,
                                                    Seq::empty(),
                                                ).len() > 0);
                                            assert(crate::bodymatch::json_mismatches(
                                                ve,
                                                va,
                                                cr.matching_rules.entries@,
                                                Seq::empty(),
                                            ).len() == 0);
                                            assert(false);
                                        },
                                        DetectedContentType::Xml => {
                                            let ge = crate::xmlval::sp_xml(e@)->Some_0;
                                            let ga = crate::xmlval::sp_xml(a@)->Some_0;
                                            let (ve, va) = choose|
                                                ve: crate::xmlval::XmlNode,
                                                va: crate::xmlval::XmlNode,
                                            |
                                                crate::xmlval::xdenotes(ve, ge)
                                                    && crate::xmlval::xdenotes(va, ga) && ((
                                                exists|m: int|
                                                    0 <= m < ms@.len() && ((#[trigger] ms@[m])
                                                        is BodyMismatch || ms@[m]
                                                        is BodyTypeMismatch))
                                                    <==> crate::xmlval::xml_doc_mismatches(
                                                    ve,
                                                    va,
                                                    cr.matching_rules.entries@,
                                                ).len() > 0);
                                            assert(crate::xmlval::xml_doc_mismatches(
                                                ve,
                                                va,
                                                cr.matching_rules.entries@,
                                            ).len() == 0);
                                            assert(false);
                                        },
                                    }
                                }
                            }
                        } else {
                            assert(false);
                        }
                    }
                    assert(false);
                }
            }
            let sev = severity_sum(&ms);
            let better: bool = match best {
                None => true,
                Some(_) => {
                    if ms.len() < best_ms.len() {
                        true
                    } else if ms.len() == best_ms.len() && sev < best_sev {
                        true
                    } else {
                        false
                    }
                },
            };
            if better {
                best = Some(i);
                best_ms = ms;
                best_sev = sev;
            }
        } else {
            proof {
                if easy_match(candidates@[i as int], *actual) {
                    lemma_easy_routed(candidates@[i as int], *actual);
                    assert(false);
                }
                if full_pass(candidates@[i as int], *actual) {
                    assert(routed(candidates@[i as int].request, *actual));
                    assert(false);
                }
            }
        }
        i = i + 1;
    }
    match best {
        Some(b) => {
            MatchResult::RequestMismatch(crate::models::dup_interaction(&candidates[b]), best_ms)
        },
        None => {
            proof {
                assert forall|k: int| 0 <= k < candidates@.len() implies !easy_match(
                    #[trigger] candidates@[k],
                    *actual,
                ) by {
                    if easy_match(candidates@[k], *actual) {
                        lemma_easy_routed(candidates@[k], *actual);
                    }
                }
            }
            MatchResult::RequestNotFound(crate::models::dup_request(actual))
        },
    }
}

} // verus!
