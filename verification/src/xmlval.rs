//! XML element trees and their matcher: elements with attributes and
//! text children, `['#text']` addressing text nodes and `['@name']`
//! attributes. Matching pairs children positionally; rule resolution
//! mirrors the JSON matcher.

use vstd::prelude::*;
use crate::bodymatch::{best_entry, best_entry_x};
use crate::matchers::{match_rule_str, rule_str_ok};
use crate::mismatch::Mismatch;
use crate::models::{Category, MatchingRule, RuleEntry};
use crate::matching::first_non_ws;
use crate::pathexp::{PathFrag, PathToken, SpecFrag, frags_view};
use crate::strutil::{str_eq, string_chars};

verus! {

/// One XML element: a name, attributes, and children in document order.
#[derive(Debug)]
pub struct XmlNode {
    pub name: String,
    pub attrs: Vec<(String, String)>,
    pub children: Vec<XmlChild>,
}

/// A child of an element: a nested element or a text node.
#[derive(Debug)]
pub enum XmlChild {
    Elem(XmlNode),
    Text(String),
}

// ---------------------------------------------------------------------
// A small XML reader: prolog, elements, attributes, text. Entities,
// comments and CDATA are outside the subset; such documents do not
// parse and the caller falls back to text comparison. The grammar is
// stated as a specification-level parser (`sp_xml`), and the reader is
// proved to decide it exactly.
// ---------------------------------------------------------------------

/// The mathematical form of a parsed element: character sequences in
/// place of heap strings.
pub struct GXml {
    pub name: Seq<char>,
    pub attrs: Seq<(Seq<char>, Seq<char>)>,
    pub kids: Seq<GChild>,
}

/// The mathematical form of a child: a nested element or a text node.
pub enum GChild {
    Elem(GXml),
    Text(Seq<char>),
}

/// Whether a parsed element denotes the specification-level element.
pub open spec fn xdenotes(n: XmlNode, g: GXml) -> bool
    decreases n,
{
    &&& g.name == n.name@
    &&& g.attrs.len() == n.attrs@.len()
    &&& forall|i: int| 0 <= i < n.attrs@.len() ==> (#[trigger] g.attrs[i]).0 == n.attrs@[i].0@
        && g.attrs[i].1 == n.attrs@[i].1@
    &&& g.kids.len() == n.children@.len()
    &&& forall|i: int| 0 <= i < n.children@.len() ==> cdenotes(
        #[trigger] n.children@[i],
        g.kids[i],
    )
}

/// Whether a parsed child denotes the specification-level child.
pub open spec fn cdenotes(c: XmlChild, g: GChild) -> bool
    decreases c,
{
    match c {
        XmlChild::Elem(n) => g matches GChild::Elem(gn) && xdenotes(n, gn),
        XmlChild::Text(t) => g matches GChild::Text(s2) && s2 == t@,
    }
}

/// The view of an attribute list.
pub open spec fn attrs_view(v: Seq<(String, String)>) -> Seq<(Seq<char>, Seq<char>)> {
    Seq::new(v.len(), |i: int| (v[i].0@, v[i].1@))
}

/// A character that can stand in an element or attribute name.
pub open spec fn sp_name_char(c: char) -> bool {
    ('a' <= c && c <= 'z') || ('A' <= c && c <= 'Z') || ('0' <= c && c <= '9') || c == '_' || c
        == '-' || c == ':' || c == '.'
}

/// The first position at or after `j` holding no name character, or
/// the length.
pub open spec fn sp_name_end(s: Seq<char>, j: int) -> int
    decreases s.len() - j,
{
    if j < 0 || j >= s.len() {
        s.len() as int
    } else if sp_name_char(s[j]) {
        sp_name_end(s, j + 1)
    } else {
        j
    }
}

/// The first position at or after `j` closing an attribute value: the
/// opening quote again, or an angle bracket, or the length.
pub open spec fn sp_val_end(s: Seq<char>, q: char, j: int) -> int
    decreases s.len() - j,
{
    if j < 0 || j >= s.len() {
        s.len() as int
    } else if s[j] == q || s[j] == '<' {
        j
    } else {
        sp_val_end(s, q, j + 1)
    }
}

/// The first position at or after `j` holding the start of markup, or
/// the length.
pub open spec fn sp_text_end(s: Seq<char>, j: int) -> int
    decreases s.len() - j,
{
    if j < 0 || j >= s.len() {
        s.len() as int
    } else if s[j] == '<' {
        j
    } else {
        sp_text_end(s, j + 1)
    }
}

/// The first position at or after `j` closing a prolog, or the length.
pub open spec fn sp_gt(s: Seq<char>, j: int) -> int
    decreases s.len() - j,
{
    if j < 0 || j >= s.len() {
        s.len() as int
    } else if s[j] == '>' {
        j
    } else {
        sp_gt(s, j + 1)
    }
}

/// One element starting at the angle bracket in position `i`.
pub open spec fn sp_elem(s: Seq<char>, i: int) -> Option<(GXml, int)>
    decreases s.len() - i, 0int,
{
    if !(0 <= i < s.len() && s[i] == '<') {
        None
    } else {
        let ne = sp_name_end(s, i + 1);
        if !(i + 1 <= ne <= s.len()) || ne == i + 1 {
            None
        } else {
            sp_attrs(s, s.subrange(i + 1, ne), Seq::empty(), ne)
        }
    }
}

/// The attribute list of an open tag from position `j`, then the rest
/// of the element.
pub open spec fn sp_attrs(
    s: Seq<char>,
    name: Seq<char>,
    attrs: Seq<(Seq<char>, Seq<char>)>,
    j: int,
) -> Option<(GXml, int)>
    decreases s.len() - j, 1int,
{
    let j2 = first_non_ws(s, j);
    if !(j <= j2 < s.len()) {
        None
    } else if s[j2] == '/' {
        if j2 + 1 < s.len() && s[j2 + 1] == '>' {
            Some((GXml { name, attrs, kids: Seq::empty() }, j2 + 2))
        } else {
            None
        }
    } else if s[j2] == '>' {
        match sp_children(s, j2 + 1) {
            None => None,
            Some((kids, k)) => {
                if !(s.len() - k >= 2 && s[k] == '<' && s[k + 1] == '/') {
                    None
                } else {
                    let m = sp_name_end(s, k + 2);
                    if s.subrange(k + 2, m) != name {
                        None
                    } else {
                        let m2 = first_non_ws(s, m);
                        if m2 < s.len() && s[m2] == '>' {
                            Some((GXml { name, attrs, kids }, m2 + 1))
                        } else {
                            None
                        }
                    }
                }
            },
        }
    } else if !sp_name_char(s[j2]) {
        None
    } else {
        let j3 = sp_name_end(s, j2);
        let j4 = first_non_ws(s, j3);
        if !(j4 < s.len() && s[j4] == '=') {
            None
        } else {
            let j5 = first_non_ws(s, j4 + 1);
            if !(j5 < s.len() && (s[j5] == '"' || s[j5] == '\'')) {
                None
            } else {
                let j6 = sp_val_end(s, s[j5], j5 + 1);
                if !(j6 < s.len() && s[j6] == s[j5]) {
                    None
                } else if j6 + 1 <= j {
                    None
                } else {
                    sp_attrs(
                        s,
                        name,
                        attrs.push((s.subrange(j2, j3), s.subrange(j5 + 1, j6))),
                        j6 + 1,
                    )
                }
            }
        }
    }
}

/// Element content from position `k`, up to (not including) a closing
/// tag.
pub open spec fn sp_children(s: Seq<char>, k: int) -> Option<(Seq<GChild>, int)>
    decreases s.len() - k, 1int,
{
    if !(0 <= k < s.len()) {
        None
    } else if s[k] == '<' {
        if k + 1 < s.len() && s[k + 1] == '/' {
            Some((Seq::empty(), k))
        } else {
            match sp_elem(s, k) {
                None => None,
                Some((node, k2)) => {
                    if !(k < k2 <= s.len()) {
                        None
                    } else {
                        match sp_children(s, k2) {
                            Some((kids, k3)) => Some((seq![GChild::Elem(node)] + kids, k3)),
                            None => None,
                        }
                    }
                },
            }
        }
    } else {
        let t = sp_text_end(s, k);
        if !(k < t <= s.len()) {
            None
        } else {
            match sp_children(s, t) {
                Some((kids, k3)) => Some((seq![GChild::Text(s.subrange(k, t))] + kids, k3)),
                None => None,
            }
        }
    }
}

/// A whole document: an optional prolog, one root element, trailing
/// whitespace.
pub open spec fn sp_xml(s: Seq<char>) -> Option<GXml> {
    let i0 = first_non_ws(s, 0);
    if s.len() - i0 >= 2 && s[i0] == '<' && s[i0 + 1] == '?' {
        let g = sp_gt(s, i0 + 2);
        if g >= s.len() {
            None
        } else {
            sp_root(s, first_non_ws(s, g + 1))
        }
    } else {
        sp_root(s, i0)
    }
}

/// The root element at `i`, then only whitespace.
pub open spec fn sp_root(s: Seq<char>, i: int) -> Option<GXml> {
    match sp_elem(s, i) {
        Some((node, k)) => if first_non_ws(s, k) == s.len() {
            Some(node)
        } else {
            None
        },
        None => None,
    }
}

fn xml_skip_ws(cs: &Vec<char>, i: usize) -> (r: usize)
    requires
        i <= cs@.len(),
    ensures
        r == first_non_ws(cs@, i as int),
        i <= r <= cs@.len(),
    decreases cs@.len() - i,
{
    if i >= cs.len() {
        i
    } else {
        let c = cs[i];
        if c == ' ' || c == '\t' || c == '\n' || c == '\r' {
            xml_skip_ws(cs, i + 1)
        } else {
            i
        }
    }
}

/// Whether a character can stand in an element or attribute name.
fn is_name_char(c: char) -> (r: bool)
    ensures
        r == sp_name_char(c),
{
    ('a' <= c && c <= 'z') || ('A' <= c && c <= 'Z') || ('0' <= c && c <= '9') || c == '_' || c
        == '-' || c == ':' || c == '.'
}

/// Scans a name starting at `i`.
fn xml_name(cs: &Vec<char>, i: usize) -> (r: (String, usize))
    requires
        i <= cs@.len(),
    ensures
        r.1 == sp_name_end(cs@, i as int),
        i <= r.1 <= cs@.len(),
        r.0@ == cs@.subrange(i as int, r.1 as int),
    decreases cs@.len() - i,
{
    let mut out: Vec<char> = Vec::new();
    let mut j: usize = i;
    while j < cs.len() && is_name_char(cs[j])
        invariant
            i <= j <= cs@.len(),
            sp_name_end(cs@, i as int) == sp_name_end(cs@, j as int),
            out@ == cs@.subrange(i as int, j as int),
        decreases cs@.len() - j,
    {
        out.push(cs[j]);
        j = j + 1;
        proof {
            assert(out@ =~= cs@.subrange(i as int, j as int));
        }
    }
    proof {
        assert(sp_name_end(cs@, j as int) == j);
    }
    (crate::strutil::chars_to_string(&out), j)
}

fn find_gt(cs: &Vec<char>, j: usize) -> (r: usize)
    requires
        j <= cs@.len(),
    ensures
        r == sp_gt(cs@, j as int),
        j <= r <= cs@.len(),
    decreases cs@.len() - j,
{
    if j >= cs.len() {
        cs.len()
    } else if cs[j] == '>' {
        j
    } else {
        find_gt(cs, j + 1)
    }
}

/// Parses one element starting at the angle bracket in position `i`.
fn parse_elem(cs: &Vec<char>, i: usize) -> (r: Option<(XmlNode, usize)>)
    requires
        i <= cs@.len(),
    ensures
        match r {
            Some(p) => sp_elem(cs@, i as int) matches Some(q) && xdenotes(p.0, q.0) && q.1 == p.1
                && i < p.1 <= cs@.len(),
            None => sp_elem(cs@, i as int) is None,
        },
    decreases cs@.len() - i, 0int,
{
    if !(i < cs.len() && cs[i] == '<') {
        return None;
    }
    let (name, ne) = xml_name(cs, i + 1);
    if ne == i + 1 {
        return None;
    }
    let attrs: Vec<(String, String)> = Vec::new();
    proof {
        assert(attrs_view(attrs@) =~= Seq::<(Seq<char>, Seq<char>)>::empty());
    }
    parse_attrs(cs, name, attrs, ne)
}

/// Parses the attribute list of an open tag, then the rest of the
/// element.
fn parse_attrs(cs: &Vec<char>, name: String, attrs: Vec<(String, String)>, j: usize) -> (r: Option<
    (XmlNode, usize),
>)
    requires
        j <= cs@.len(),
    ensures
        match r {
            Some(p) => sp_attrs(cs@, name@, attrs_view(attrs@), j as int) matches Some(q)
                && xdenotes(p.0, q.0) && q.1 == p.1 && j < p.1 <= cs@.len(),
            None => sp_attrs(cs@, name@, attrs_view(attrs@), j as int) is None,
        },
    decreases cs@.len() - j, 1int,
{
    let j2 = xml_skip_ws(cs, j);
    if j2 >= cs.len() {
        return None;
    }
    let c = cs[j2];
    if c == '/' {
        if j2 + 1 < cs.len() && cs[j2 + 1] == '>' {
            let node = XmlNode { name, attrs, children: Vec::new() };
            return Some((node, j2 + 2));
        }
        return None;
    }
    if c == '>' {
        match parse_children(cs, j2 + 1) {
            Some((children, k)) => {
                if !(cs.len() - k >= 2 && cs[k] == '<' && cs[k + 1] == '/') {
                    return None;
                }
                let (cname, m) = xml_name(cs, k + 2);
                if !str_eq(cname.as_str(), name.as_str()) {
                    return None;
                }
                let m2 = xml_skip_ws(cs, m);
                if m2 < cs.len() && cs[m2] == '>' {
                    let node = XmlNode { name, attrs, children };
                    return Some((node, m2 + 1));
                }
                return None;
            },
            None => {
                return None;
            },
        }
    }
    if !is_name_char(c) {
        return None;
    }
    let (aname, j3) = xml_name(cs, j2);
    let j4 = xml_skip_ws(cs, j3);
    if !(j4 < cs.len() && cs[j4] == '=') {
        return None;
    }
    let j5 = xml_skip_ws(cs, j4 + 1);
    if !(j5 < cs.len() && (cs[j5] == '"' || cs[j5] == '\'')) {
        return None;
    }
    let quote = cs[j5];
    let mut val: Vec<char> = Vec::new();
    let mut j6: usize = j5 + 1;
    while j6 < cs.len() && cs[j6] != quote && cs[j6] != '<'
        invariant
            j5 + 1 <= j6 <= cs@.len(),
            quote == cs@[j5 as int],
            sp_val_end(cs@, quote, j5 + 1) == sp_val_end(cs@, quote, j6 as int),
            val@ == cs@.subrange(j5 + 1, j6 as int),
        decreases cs@.len() - j6,
    {
        val.push(cs[j6]);
        j6 = j6 + 1;
        proof {
            assert(val@ =~= cs@.subrange(j5 + 1, j6 as int));
        }
    }
    proof {
        assert(sp_val_end(cs@, quote, j6 as int) == j6 || j6 == cs@.len());
    }
    if !(j6 < cs.len() && cs[j6] == quote) {
        return None;
    }
    if j6 + 1 <= j {
        return None;
    }
    let mut attrs2 = attrs;
    attrs2.push((aname, crate::strutil::chars_to_string(&val)));
    proof {
        assert(attrs_view(attrs2@) =~= attrs_view(attrs@).push(
            (cs@.subrange(j2 as int, j3 as int), cs@.subrange(j5 + 1, j6 as int)),
        ));
    }
    parse_attrs(cs, name, attrs2, j6 + 1)
}

/// Parses element content up to (not including) a closing tag.
fn parse_children(cs: &Vec<char>, k: usize) -> (r: Option<(Vec<XmlChild>, usize)>)
    requires
        k <= cs@.len(),
    ensures
        match r {
            Some(p) => sp_children(cs@, k as int) matches Some(q) && q.1 == p.1 && p.0@.len()
                == q.0.len() && (forall|m: int| 0 <= m < p.0@.len() ==> cdenotes(
                #[trigger] p.0@[m],
                q.0[m],
            )) && k <= p.1 <= cs@.len(),
            None => sp_children(cs@, k as int) is None,
        },
    decreases cs@.len() - k, 1int,
{
    if k >= cs.len() {
        return None;
    }
    if cs[k] == '<' {
        if k + 1 < cs.len() && cs[k + 1] == '/' {
            let out: Vec<XmlChild> = Vec::new();
            return Some((out, k));
        }
        match parse_elem(cs, k) {
            Some((node, k2)) => {
                match parse_children(cs, k2) {
                    Some((mut kids, k3)) => {
                        let ghost pre = kids@;
                        kids.insert(0, XmlChild::Elem(node));
                        proof {
                            let q = sp_children(cs@, k as int)->Some_0;
                            assert forall|m: int| 0 <= m < kids@.len() implies cdenotes(
                                #[trigger] kids@[m],
                                q.0[m],
                            ) by {
                                if m > 0 {
                                    assert(kids@[m] == pre[m - 1]);
                                }
                            }
                        }
                        Some((kids, k3))
                    },
                    None => None,
                }
            },
            None => None,
        }
    } else {
        let mut text: Vec<char> = Vec::new();
        let mut t: usize = k;
        while t < cs.len() && cs[t] != '<'
            invariant
                k <= t <= cs@.len(),
                sp_text_end(cs@, k as int) == sp_text_end(cs@, t as int),
                text@ == cs@.subrange(k as int, t as int),
            decreases cs@.len() - t,
        {
            text.push(cs[t]);
            t = t + 1;
            proof {
                assert(text@ =~= cs@.subrange(k as int, t as int));
            }
        }
        proof {
            assert(sp_text_end(cs@, t as int) == t);
        }
        match parse_children(cs, t) {
            Some((mut kids, k3)) => {
                let ghost pre = kids@;
                kids.insert(0, XmlChild::Text(crate::strutil::chars_to_string(&text)));
                proof {
                    let q = sp_children(cs@, k as int)->Some_0;
                    assert forall|m: int| 0 <= m < kids@.len() implies cdenotes(
                        #[trigger] kids@[m],
                        q.0[m],
                    ) by {
                        if m > 0 {
                            assert(kids@[m] == pre[m - 1]);
                        }
                    }
                }
                Some((kids, k3))
            },
            None => None,
        }
    }
}

/// Parses a whole document: an optional `<?...?>` prolog, then one root
/// element, then trailing whitespace. The result decides the grammar:
/// an element denoting `sp_xml` of the text when that is defined, and
/// nothing otherwise.
pub fn parse_xml(s: &str) -> (r: Option<XmlNode>)
    ensures
        match r {
            Some(n) => sp_xml(s@) matches Some(g) && xdenotes(n, g),
            None => sp_xml(s@) is None,
        },
        s@.len() == 0 ==> r is None,
        r is Some ==> s@.len() > 0,
{
    let cs = string_chars(s);
    let mut i = xml_skip_ws(&cs, 0);
    if cs.len() - i >= 2 && cs[i] == '<' && cs[i + 1] == '?' {
        let g = find_gt(&cs, i + 2);
        if g >= cs.len() {
            return None;
        }
        i = xml_skip_ws(&cs, g + 1);
    }
    match parse_elem(&cs, i) {
        Some((node, k)) => {
            let k2 = xml_skip_ws(&cs, k);
            if k2 == cs.len() {
                Some(node)
            } else {
                None
            }
        },
        None => None,
    }
}

// ---------------------------------------------------------------------
// The XML matcher.
// ---------------------------------------------------------------------

/// One body mismatch at a rendered location.
fn push_xml_mismatch(out: &mut Vec<Mismatch>, path: &Vec<PathFrag>, expected: &str, actual: &str)
    ensures
        final(out)@.len() == old(out)@.len() + 1,
        forall|i: int| 0 <= i < old(out)@.len() ==> #[trigger] final(out)@[i] == old(out)@[i],
        final(out)@ == old(out)@.push(final(out)@.last()),
        final(out)@.last() is BodyMismatch,
        crate::mismatch::mm_path(final(out)@.last()) == crate::bodymatch::path_str(
            frags_view(path@),
        ),
{
    let p = crate::bodymatch::render_path(path);
    let mut msg = String::new();
    msg.append("Expected '");
    msg.append(expected);
    msg.append("' but received '");
    msg.append(actual);
    msg.append("'");
    out.push(Mismatch::BodyMismatch {
        path: p,
        expected: Some(expected.to_owned()),
        actual: Some(actual.to_owned()),
        mismatch: msg,
    });
}

/// Whether a pair of strings agrees at a location: every rule of the
/// best-matching body entry accepts them, or they are equal when no
/// entry resolves there.
pub open spec fn xml_str_ok(
    entries: Seq<RuleEntry>,
    path: Seq<SpecFrag>,
    e: Seq<char>,
    a: Seq<char>,
) -> bool {
    match best_entry(entries, Category::Body, path, entries.len() as int) {
        Option::Some(k) => forall|j: int| 0 <= j < entries[k].rules@.len() ==> rule_str_ok(
            #[trigger] entries[k].rules@[j],
            e,
            a,
        ),
        Option::None => e == a,
    }
}

/// Applies the rules resolved at a location to a pair of strings, or
/// falls back to equality when none resolve.
fn xml_str_check(
    entries: &Vec<RuleEntry>,
    path: &Vec<PathFrag>,
    e: &str,
    a: &str,
) -> (r: bool)
    ensures
        r == xml_str_ok(entries@, frags_view(path@), e@, a@),
{
    match best_entry_x(entries, Category::Body, path) {
        Some(k) => {
            let rs = &entries[k].rules;
            let mut j: usize = 0;
            while j < rs.len()
                invariant
                    j <= rs@.len(),
                    k < entries@.len(),
                    rs@ == entries@[k as int].rules@,
                    best_entry(entries@, Category::Body, frags_view(path@), entries@.len() as int)
                        == Some(k as int),
                    forall|m: int| 0 <= m < j ==> rule_str_ok(#[trigger] rs@[m], e@, a@),
                decreases rs@.len() - j,
            {
                if !match_rule_str(&rs[j], e, a) {
                    proof {
                        assert(!rule_str_ok(entries@[k as int].rules@[j as int], e@, a@));
                    }
                    return false;
                }
                j = j + 1;
            }
            true
        },
        None => str_eq(e, a),
    }
}

/// The first attribute with the given name.
pub open spec fn attr_find(ys: Seq<(String, String)>, name: Seq<char>, i: int) -> Option<int>
    decreases ys.len() - i,
{
    if i < 0 || i >= ys.len() {
        None
    } else if ys[i].0@ == name {
        Some(i)
    } else {
        attr_find(ys, name, i + 1)
    }
}

/// Finds the first attribute with the given name.
fn attr_find_x(ys: &Vec<(String, String)>, name: &str, i: usize) -> (r: Option<usize>)
    requires
        i <= ys@.len(),
    ensures
        match r {
            Some(k) => attr_find(ys@, name@, i as int) == Some(k as int) && i <= k < ys@.len(),
            None => attr_find(ys@, name@, i as int) is None,
        },
    decreases ys@.len() - i,
{
    if i >= ys.len() {
        return None;
    }
    let (k, _) = &ys[i];
    if str_eq(k.as_str(), name) {
        Some(i)
    } else {
        attr_find_x(ys, name, i + 1)
    }
}

/// The locations where the expected attributes disagree with the
/// actual ones, from position `i`: a missing or rule-rejected
/// attribute is one mismatch at its `@`-prefixed location.
pub open spec fn attrs_walk(
    xs: Seq<(String, String)>,
    ys: Seq<(String, String)>,
    entries: Seq<RuleEntry>,
    path: Seq<SpecFrag>,
    i: int,
) -> Seq<Seq<char>>
    decreases xs.len() - i,
{
    if i < 0 || i >= xs.len() {
        Seq::empty()
    } else {
        let child = path.push(SpecFrag::Key(seq!['@'] + xs[i].0@));
        let here = match attr_find(ys, xs[i].0@, 0) {
            Some(j) => if xml_str_ok(entries, child, xs[i].1@, ys[j].1@) {
                Seq::empty()
            } else {
                seq![crate::bodymatch::path_str(child)]
            },
            None => seq![crate::bodymatch::path_str(child)],
        };
        here + attrs_walk(xs, ys, entries, path, i + 1)
    }
}

/// The locations where positionally paired children disagree, from
/// position `i`: a kind or name disagreement is one mismatch at the
/// parent, a rejected text pair one at the `#text` location, and
/// same-named elements are walked recursively.
pub open spec fn kids_walk(
    xs: Vec<XmlChild>,
    ys: Vec<XmlChild>,
    entries: Seq<RuleEntry>,
    path: Seq<SpecFrag>,
    i: int,
) -> Seq<Seq<char>>
    decreases xs, xs.len() - i, 1int,
{
    if i < 0 || i >= xs.len() || i >= ys.len() {
        Seq::empty()
    } else {
        let here = match (xs[i], ys[i]) {
            (XmlChild::Text(et), XmlChild::Text(at)) => {
                let child = path.push(SpecFrag::Key("#text"@));
                if xml_str_ok(entries, child, et@, at@) {
                    Seq::empty()
                } else {
                    seq![crate::bodymatch::path_str(child)]
                }
            },
            (XmlChild::Elem(ec), XmlChild::Elem(ac)) => {
                if ec.name@ != ac.name@ {
                    seq![crate::bodymatch::path_str(path)]
                } else {
                    xml_mismatches(ec, ac, entries, path.push(SpecFrag::Key(ec.name@)))
                }
            },
            _ => seq![crate::bodymatch::path_str(path)],
        };
        here + kids_walk(xs, ys, entries, path, i + 1)
    }
}

/// The locations, in walk order, where two elements sharing a location
/// disagree under the catalog: the expected attributes, then the
/// children, paired positionally; disagreeing child counts are one
/// mismatch at the element itself.
pub open spec fn xml_mismatches(
    e: XmlNode,
    a: XmlNode,
    entries: Seq<RuleEntry>,
    path: Seq<SpecFrag>,
) -> Seq<Seq<char>>
    decreases e, 0int, 0int,
{
    attrs_walk(e.attrs@, a.attrs@, entries, path, 0) + (if e.children@.len()
        != a.children@.len() {
        seq![crate::bodymatch::path_str(path)]
    } else {
        kids_walk(e.children, a.children, entries, path, 0)
    })
}

/// The locations where two documents disagree: disagreeing root names
/// are one mismatch at the document root, else the walk from the root
/// element's location.
pub open spec fn xml_doc_mismatches(e: XmlNode, a: XmlNode, entries: Seq<RuleEntry>) -> Seq<
    Seq<char>,
> {
    if e.name@ != a.name@ {
        seq![crate::bodymatch::path_str(Seq::empty())]
    } else {
        xml_mismatches(e, a, entries, seq![SpecFrag::Key(e.name@)])
    }
}

/// Walks two elements already known to share a location. Disagreeing
/// child counts, and any clashing positional child pair — a kind or
/// name disagreement, or a text pair the resolved rules reject — are
/// always reported.
pub fn walk_xml(
    e: &XmlNode,
    a: &XmlNode,
    entries: &Vec<RuleEntry>,
    path: &Vec<PathFrag>,
    out: &mut Vec<Mismatch>,
)
    ensures
        final(out)@.len() >= old(out)@.len(),
        forall|i: int| 0 <= i < old(out)@.len() ==> #[trigger] final(out)@[i] == old(out)@[i],
        forall|i: int| old(out)@.len() <= i < final(out)@.len() ==> (#[trigger] final(out)@[i])
            is BodyMismatch,
        crate::mismatch::mm_paths(final(out)@) == crate::mismatch::mm_paths(old(out)@)
            + xml_mismatches(*e, *a, entries@, frags_view(path@)),
        e.children@.len() != a.children@.len() ==> final(out)@.len() > old(out)@.len(),
    decreases *e,
{
    let ghost base = out@;
    let ghost fp = frags_view(path@);
    // attributes expected on this element
    let mut i: usize = 0;
    while i < e.attrs.len()
        invariant
            i <= e.attrs@.len(),
            fp == frags_view(path@),
            out@.len() >= base.len(),
            forall|k: int| 0 <= k < base.len() ==> #[trigger] out@[k] == base[k],
            forall|k: int| base.len() <= k < out@.len() ==> (#[trigger] out@[k]) is BodyMismatch,
            crate::mismatch::mm_paths(out@) + attrs_walk(e.attrs@, a.attrs@, entries@, fp, i as int)
                == crate::mismatch::mm_paths(base) + attrs_walk(e.attrs@, a.attrs@, entries@, fp, 0),
        decreases e.attrs@.len() - i,
    {
        let ghost prev = out@;
        let (aname, ev) = &e.attrs[i];
        let mut key = String::new();
        key.append("@");
        key.append(aname.as_str());
        let mut child = crate::bodymatch::dup_frags(path);
        child.push(PathFrag::Key(key));
        proof {
            reveal_strlit("@");
            assert("@"@ =~= seq!['@']);
            assert(key@ == seq!['@'] + e.attrs@[i as int].0@);
            assert(frags_view(child@) =~= fp.push(
                SpecFrag::Key(seq!['@'] + e.attrs@[i as int].0@),
            ));
        }
        match attr_find_x(&a.attrs, aname.as_str(), 0) {
            Some(j) => {
                if !xml_str_check(entries, &child, ev.as_str(), a.attrs[j].1.as_str()) {
                    push_xml_mismatch(out, &child, ev.as_str(), a.attrs[j].1.as_str());
                    proof {
                        assert(crate::mismatch::mm_paths(out@) =~= crate::mismatch::mm_paths(prev)
                            + seq![crate::bodymatch::path_str(frags_view(child@))]);
                    }
                }
            },
            None => {
                push_xml_mismatch(out, &child, ev.as_str(), "");
                proof {
                    assert(crate::mismatch::mm_paths(out@) =~= crate::mismatch::mm_paths(prev)
                        + seq![crate::bodymatch::path_str(frags_view(child@))]);
                }
            },
        }
        i = i + 1;
        proof {
            assert(crate::mismatch::mm_paths(out@) + attrs_walk(
                e.attrs@,
                a.attrs@,
                entries@,
                fp,
                i as int,
            ) =~= crate::mismatch::mm_paths(base) + attrs_walk(e.attrs@, a.attrs@, entries@, fp, 0));
        }
    }
    // children, paired positionally
    if e.children.len() != a.children.len() {
        let en = crate::strutil::u64_to_string(e.children.len() as u64);
        let an = crate::strutil::u64_to_string(a.children.len() as u64);
        let ghost prev = out@;
        push_xml_mismatch(out, path, en.as_str(), an.as_str());
        proof {
            assert(crate::mismatch::mm_paths(out@) =~= crate::mismatch::mm_paths(prev) + seq![
                crate::bodymatch::path_str(fp),
            ]);
            assert(crate::mismatch::mm_paths(out@) =~= crate::mismatch::mm_paths(base)
                + xml_mismatches(*e, *a, entries@, fp));
        }
        return;
    }
    let ghost mid = out@;
    let mut i: usize = 0;
    while i < e.children.len()
        invariant
            i <= e.children@.len(),
            fp == frags_view(path@),
            e.children@.len() == a.children@.len(),
            out@.len() >= base.len(),
            forall|k: int| 0 <= k < base.len() ==> #[trigger] out@[k] == base[k],
            forall|k: int| base.len() <= k < out@.len() ==> (#[trigger] out@[k]) is BodyMismatch,
            crate::mismatch::mm_paths(mid) == crate::mismatch::mm_paths(base) + attrs_walk(
                e.attrs@,
                a.attrs@,
                entries@,
                fp,
                0,
            ),
            crate::mismatch::mm_paths(out@) + kids_walk(
                e.children,
                a.children,
                entries@,
                fp,
                i as int,
            ) == crate::mismatch::mm_paths(mid) + kids_walk(e.children, a.children, entries@, fp, 0),
        decreases e.children@.len() - i,
    {
        let ghost prev = out@;
        match (&e.children[i], &a.children[i]) {
            (XmlChild::Text(et), XmlChild::Text(at)) => {
                let mut child = crate::bodymatch::dup_frags(path);
                child.push(PathFrag::Key("#text".to_owned()));
                proof {
                    reveal_strlit("#text");
                    assert(frags_view(child@) =~= fp.push(SpecFrag::Key("#text"@)));
                }
                if !xml_str_check(entries, &child, et.as_str(), at.as_str()) {
                    push_xml_mismatch(out, &child, et.as_str(), at.as_str());
                    proof {
                        assert(crate::mismatch::mm_paths(out@) =~= crate::mismatch::mm_paths(prev)
                            + seq![crate::bodymatch::path_str(frags_view(child@))]);
                    }
                }
            },
            (XmlChild::Elem(ec), XmlChild::Elem(ac)) => {
                if !str_eq(ec.name.as_str(), ac.name.as_str()) {
                    push_xml_mismatch(out, path, ec.name.as_str(), ac.name.as_str());
                    proof {
                        assert(crate::mismatch::mm_paths(out@) =~= crate::mismatch::mm_paths(prev)
                            + seq![crate::bodymatch::path_str(fp)]);
                    }
                } else {
                    let mut child = crate::bodymatch::dup_frags(path);
                    child.push(PathFrag::Key(ec.name.clone()));
                    proof {
                        assert(frags_view(child@) =~= fp.push(SpecFrag::Key(ec.name@)));
                        assert(decreases_to!(*e => e.children));
                        assert(decreases_to!(e.children => e.children@));
                        assert(decreases_to!(e.children@ => e.children@[i as int]));
                        assert(decreases_to!(
                            e.children@[i as int] => e.children@[i as int]->Elem_0));
                        assert(decreases_to!(*e => e.children@[i as int]->Elem_0));
                    }
                    walk_xml(ec, ac, entries, &child, out);
                }
            },
            (XmlChild::Text(et), XmlChild::Elem(ac)) => {
                push_xml_mismatch(out, path, et.as_str(), ac.name.as_str());
                proof {
                    assert(crate::mismatch::mm_paths(out@) =~= crate::mismatch::mm_paths(prev)
                        + seq![crate::bodymatch::path_str(fp)]);
                }
            },
            (XmlChild::Elem(ec), XmlChild::Text(at)) => {
                push_xml_mismatch(out, path, ec.name.as_str(), at.as_str());
                proof {
                    assert(crate::mismatch::mm_paths(out@) =~= crate::mismatch::mm_paths(prev)
                        + seq![crate::bodymatch::path_str(fp)]);
                }
            },
        }
        i = i + 1;
        proof {
            assert(crate::mismatch::mm_paths(out@) + kids_walk(
                e.children,
                a.children,
                entries@,
                fp,
                i as int,
            ) =~= crate::mismatch::mm_paths(mid) + kids_walk(e.children, a.children, entries@, fp, 0));
        }
    }
    proof {
        assert(crate::mismatch::mm_paths(out@) =~= crate::mismatch::mm_paths(base)
            + xml_mismatches(*e, *a, entries@, fp));
    }
}

/// Matches two parsed documents: root names must agree, then the trees
/// are walked from the root element's location. The appended mismatch
/// locations are exactly the document walk's.
pub fn match_xml_roots(e: &XmlNode, a: &XmlNode, entries: &Vec<RuleEntry>, out: &mut Vec<Mismatch>)
    ensures
        final(out)@.len() >= old(out)@.len(),
        forall|i: int| 0 <= i < old(out)@.len() ==> #[trigger] final(out)@[i] == old(out)@[i],
        forall|i: int| old(out)@.len() <= i < final(out)@.len() ==> (#[trigger] final(out)@[i])
            is BodyMismatch,
        crate::mismatch::mm_paths(final(out)@) == crate::mismatch::mm_paths(old(out)@)
            + xml_doc_mismatches(*e, *a, entries@),
        e.name@ != a.name@ ==> final(out)@.len() == old(out)@.len() + 1,
        e.name@ == a.name@ && e.children@.len() != a.children@.len() ==> final(out)@.len()
            > old(out)@.len(),
{
    if !str_eq(e.name.as_str(), a.name.as_str()) {
        let path: Vec<PathFrag> = Vec::new();
        let ghost prev = out@;
        push_xml_mismatch(out, &path, e.name.as_str(), a.name.as_str());
        proof {
            assert(frags_view(path@) =~= Seq::<SpecFrag>::empty());
            assert(crate::mismatch::mm_paths(out@) =~= crate::mismatch::mm_paths(prev) + seq![
                crate::bodymatch::path_str(Seq::empty()),
            ]);
        }
        return;
    }
    let mut path: Vec<PathFrag> = Vec::new();
    path.push(PathFrag::Key(e.name.clone()));
    proof {
        assert(frags_view(path@) =~= seq![SpecFrag::Key(e.name@)]);
    }
    walk_xml(e, a, entries, &path, out);
}


// ---------------------------------------------------------------------
// Serialization, and generator application over the element tree.
// ---------------------------------------------------------------------

/// The markup rendering of an element's attributes from position `i`:
/// a space, the name, `="`, the value, `"`.
pub open spec fn ser_attrs(attrs: Seq<(String, String)>, i: int) -> Seq<char>
    decreases attrs.len() - i,
{
    if i < 0 || i >= attrs.len() {
        Seq::empty()
    } else {
        seq![' '] + attrs[i].0@ + seq!['=', '"'] + attrs[i].1@ + seq!['"'] + ser_attrs(
            attrs,
            i + 1,
        )
    }
}

/// The markup rendering of an element's children from position `i`:
/// text children verbatim, element children recursively.
pub open spec fn ser_kids(kids: Vec<XmlChild>, i: int) -> Seq<char>
    decreases kids, kids.len() - i, 1int,
{
    if i < 0 || i >= kids.len() {
        Seq::empty()
    } else {
        (match kids[i] {
            XmlChild::Text(t) => t@,
            XmlChild::Elem(c) => ser_xml(c),
        }) + ser_kids(kids, i + 1)
    }
}

/// The markup rendering of an element tree: the open tag with its
/// attributes, self-closed when childless, else the children and the
/// closing tag.
pub open spec fn ser_xml(node: XmlNode) -> Seq<char>
    decreases node, 0int, 0int,
{
    let open = seq!['<'] + node.name@ + ser_attrs(node.attrs@, 0);
    if node.children@.len() == 0 {
        open + seq!['/', '>']
    } else {
        open + seq!['>'] + ser_kids(node.children, 0) + seq!['<', '/'] + node.name@ + seq!['>']
    }
}

/// Renders an element tree back to markup.
fn ser_xml_into(node: &XmlNode, out: &mut Vec<char>)
    ensures
        final(out)@ == old(out)@ + ser_xml(*node),
    decreases *node,
{
    let ghost pre = out@;
    out.push('<');
    push_str_chars(node.name.as_str(), out);
    let ghost open0 = out@;
    let mut i: usize = 0;
    while i < node.attrs.len()
        invariant
            i <= node.attrs@.len(),
            out@ + ser_attrs(node.attrs@, i as int) == open0 + ser_attrs(node.attrs@, 0),
        decreases node.attrs@.len() - i,
    {
        out.push(' ');
        push_str_chars(node.attrs[i].0.as_str(), out);
        out.push('=');
        out.push('"');
        push_str_chars(node.attrs[i].1.as_str(), out);
        out.push('"');
        i = i + 1;
        proof {
            assert(out@ + ser_attrs(node.attrs@, i as int) =~= open0 + ser_attrs(
                node.attrs@,
                0,
            ));
        }
    }
    proof {
        assert(out@ =~= pre + seq!['<'] + node.name@ + ser_attrs(node.attrs@, 0));
    }
    if node.children.len() == 0 {
        out.push('/');
        out.push('>');
        proof {
            assert(final(out)@ =~= old(out)@ + ser_xml(*node));
        }
        return;
    }
    out.push('>');
    let ghost body0 = out@;
    let mut i: usize = 0;
    while i < node.children.len()
        invariant
            i <= node.children@.len(),
            out@ + ser_kids(node.children, i as int) == body0 + ser_kids(node.children, 0),
        decreases node.children@.len() - i,
    {
        match &node.children[i] {
            XmlChild::Text(t) => push_str_chars(t.as_str(), out),
            XmlChild::Elem(c) => {
                proof {
                    assert(decreases_to!(*node => node.children));
                    assert(decreases_to!(node.children => node.children@));
                    assert(decreases_to!(node.children@ => node.children@[i as int]));
                    assert(decreases_to!(
                        node.children@[i as int] => node.children@[i as int]->Elem_0));
                    assert(decreases_to!(*node => node.children@[i as int]->Elem_0));
                }
                ser_xml_into(c, out);
            },
        }
        i = i + 1;
        proof {
            assert(out@ + ser_kids(node.children, i as int) =~= body0 + ser_kids(
                node.children,
                0,
            ));
        }
    }
    out.push('<');
    out.push('/');
    push_str_chars(node.name.as_str(), out);
    out.push('>');
    proof {
        assert(final(out)@ =~= old(out)@ + ser_xml(*node));
    }
}

/// Appends a string's characters to the buffer.
fn push_str_chars(s: &str, out: &mut Vec<char>)
    ensures
        final(out)@ == old(out)@ + s@,
{
    let cs = string_chars(s);
    let mut i: usize = 0;
    while i < cs.len()
        invariant
            i <= cs@.len(),
            cs@ == s@,
            out@ == old(out)@ + s@.subrange(0, i as int),
        decreases cs@.len() - i,
    {
        out.push(cs[i]);
        i = i + 1;
        proof {
            assert(out@ =~= old(out)@ + s@.subrange(0, i as int));
        }
    }
    proof {
        assert(s@.subrange(0, s@.len() as int) =~= s@);
    }
}

/// Renders an element tree as a string.
pub fn xml_to_string(node: &XmlNode) -> (s: String)
    ensures
        s@ == ser_xml(*node),
{
    let mut out: Vec<char> = Vec::new();
    ser_xml_into(node, &mut out);
    crate::strutil::chars_to_string(&out)
}

/// The concatenated text of an element's text children.
fn text_content(node: &XmlNode) -> (s: String) {
    let mut out = String::new();
    let mut i: usize = 0;
    while i < node.children.len()
        decreases node.children@.len() - i,
    {
        match &node.children[i] {
            XmlChild::Text(t) => out.append(t.as_str()),
            XmlChild::Elem(_) => {},
        }
        i = i + 1;
    }
    out
}

/// Applies a generator inside an element along the remaining tokens.
/// `['#text']` replaces the text children, `['@name']` an attribute;
/// a path ending at an element replaces its text content.
pub fn apply_xml_at(
    node: XmlNode,
    toks: &Vec<crate::pathexp::PathToken>,
    ti: usize,
    g: &crate::models::Generator,
) -> (r: XmlNode)
    ensures
        r.name@ == node.name@,
        r.attrs@.len() == node.attrs@.len(),
        forall|i: int| 0 <= i < r.attrs@.len() ==> (#[trigger] r.attrs@[i]).0@
            == node.attrs@[i].0@,
        ti < toks@.len() ==> r.children@.len() == node.children@.len(),
    decreases node,
{
    if ti >= toks.len() {
        // the element itself: regenerate its text content
        let prev = crate::jsonval::JsonValue::Str(text_content(&node));
        let nv = crate::generate::generate_value(g, &prev);
        let txt = crate::matchers::json_text_string(&nv);
        return XmlNode { name: node.name, attrs: node.attrs, children: vec![XmlChild::Text(txt)] };
    }
    let tok_is_text: bool = match &toks[ti] {
        PathToken::Field(name) => str_eq(name.as_str(), "#text"),
        _ => false,
    };
    let attr_name: Option<String> = match &toks[ti] {
        PathToken::Field(name) => {
            let cs = string_chars(name.as_str());
            if cs.len() > 1 && cs[0] == '@' {
                Some(name.as_str().substring_char(1, name.as_str().unicode_len()).to_owned())
            } else {
                None
            }
        },
        _ => None,
    };
    let last = ti + 1 >= toks.len();
    let _nt = toks.len();
    let ghost whole = node;
    let XmlNode { name, mut attrs, mut children } = node;
    let ghost orig = children@;
    let _n0 = children.len();
    if tok_is_text && last {
        let mut out: Vec<XmlChild> = Vec::new();
        while children.len() > 0
            invariant
                out@.len() + children@.len() == orig.len(),
            decreases children@.len(),
        {
            let child = children.remove(0);
            match child {
                XmlChild::Text(t) => {
                    let prev = crate::jsonval::JsonValue::Str(t);
                    let nv = crate::generate::generate_value(g, &prev);
                    out.push(XmlChild::Text(crate::matchers::json_text_string(&nv)));
                },
                other => out.push(other),
            }
        }
        return XmlNode { name, attrs, children: out };
    }
    match attr_name {
        Some(an) => {
            if last {
                let ghost aorig = attrs@;
                let mut out_attrs: Vec<(String, String)> = Vec::new();
                while attrs.len() > 0
                    invariant
                        out_attrs@.len() + attrs@.len() == aorig.len(),
                        attrs@ == aorig.subrange(out_attrs@.len() as int, aorig.len() as int),
                        forall|m: int| 0 <= m < out_attrs@.len() ==> (#[trigger] out_attrs@[m]).0@
                            == aorig[m].0@,
                    decreases attrs@.len(),
                {
                    let ghost na = out_attrs@.len() as int;
                    let (k, v) = attrs.remove(0);
                    proof {
                        assert(aorig[na] == (k, v));
                        assert(attrs@ =~= aorig.subrange(na + 1, aorig.len() as int));
                    }
                    if str_eq(k.as_str(), an.as_str()) {
                        let prev = crate::jsonval::JsonValue::Str(v);
                        let nv = crate::generate::generate_value(g, &prev);
                        out_attrs.push((k, crate::matchers::json_text_string(&nv)));
                    } else {
                        out_attrs.push((k, v));
                    }
                }
                return XmlNode { name, attrs: out_attrs, children };
            }
            return XmlNode { name, attrs, children };
        },
        None => {},
    }
    // descend into element children the token selects
    let mut out: Vec<XmlChild> = Vec::new();
    let mut i: usize = 0;
    while children.len() > 0
        invariant
            ti < toks@.len(),
            toks@.len() <= usize::MAX,
            whole == node,
            whole matches XmlNode { children: oc, .. } && oc@ == orig,
            i + children@.len() == orig.len(),
            out@.len() == i,
            children@ == orig.subrange(i as int, orig.len() as int),
            orig.len() <= usize::MAX,
        decreases children@.len(),
    {
        let child = children.remove(0);
        proof {
            assert(orig[i as int] == child);
            assert(children@ =~= orig.subrange(i + 1, orig.len() as int));
        }
        match child {
            XmlChild::Elem(c) => {
                let selected: bool = match &toks[ti] {
                    PathToken::Field(nm) => str_eq(c.name.as_str(), nm.as_str()),
                    PathToken::Star => true,
                    PathToken::StarIndex => true,
                    _ => false,
                };
                if selected {
                    proof {
                        assert(decreases_to!(whole => whole.children));
                        assert(decreases_to!(whole.children => whole.children@));
                        assert(decreases_to!(whole.children@ => orig[i as int]));
                        assert(decreases_to!(orig[i as int] => orig[i as int]->Elem_0));
                        assert(decreases_to!(whole => orig[i as int]->Elem_0));
                    }
                    let nc = apply_xml_at(c, toks, ti + 1, g);
                    out.push(XmlChild::Elem(nc));
                } else {
                    out.push(XmlChild::Elem(c));
                }
            },
            other => out.push(other),
        }
        i = i + 1;
    }
    XmlNode { name, attrs, children: out }
}

/// Applies one generator to a document: the first token after the root
/// anchor must name the root element. The root's name, its attribute
/// names and its child count are never changed; an expression outside
/// the grammar, or one that misses the root, leaves the document
/// unchanged.
pub fn apply_xml_key(root: XmlNode, key: &str, g: &crate::models::Generator) -> (r: XmlNode)
    ensures
        r.name@ == root.name@,
        r.attrs@.len() == root.attrs@.len(),
        forall|i: int| 0 <= i < r.attrs@.len() ==> (#[trigger] r.attrs@[i]).0@
            == root.attrs@[i].0@,
        crate::pathexp::spec_parse_path(key@) is None ==> r == root,
{
    match crate::pathexp::parse_path(key) {
        Some(toks) => {
            if toks.len() >= 2 {
                let hit: bool = match &toks[1] {
                    crate::pathexp::PathToken::Field(name) => str_eq(
                        name.as_str(),
                        root.name.as_str(),
                    ),
                    crate::pathexp::PathToken::Star => true,
                    _ => false,
                };
                if hit {
                    return apply_xml_at(root, &toks, 2, g);
                }
            }
            root
        },
        None => root,
    }
}

} // verus!
