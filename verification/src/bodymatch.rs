//! The JSON body matcher: a recursive walk of the expected tree guided by
//! the actual tree, directed by the rule catalog. Rules are resolved per
//! node by the highest-weight expression addressing it; ties go to the
//! lexically least expression; rules at one expression combine
//! conjunctively.

use vstd::prelude::*;
use crate::jsonval::{JsonValue, json_eq, json_eq_x, obj_find, obj_find_x};
use crate::matchers::{rule_json_ok, match_rule_json, json_text_string};
use crate::mismatch::{Mismatch, mm_path, mm_paths};
use crate::models::{Category, MatchingRule, RuleEntry};
use crate::pathexp::{
    PathFrag, PathToken, SpecFrag, SpecTok, expr_selects, expr_selects_x, expr_weight,
    expr_weight_x, frag_view, frags_view, parse_path, spec_parse_path, toks_view,
};
use crate::strutil::dec_str;

verus! {

// ---------------------------------------------------------------------
// Lexical order of expressions, for tie-breaking.
// ---------------------------------------------------------------------

/// Strict lexicographic order on character sequences from position `i`.
pub open spec fn lex_lt_from(a: Seq<char>, b: Seq<char>, i: int) -> bool
    decreases b.len() - i,
{
    if i < 0 || i >= b.len() {
        false
    } else if i >= a.len() {
        true
    } else if a[i] != b[i] {
        (a[i] as u32) < (b[i] as u32)
    } else {
        lex_lt_from(a, b, i + 1)
    }
}

/// Strict lexicographic order on character sequences.
pub open spec fn lex_lt(a: Seq<char>, b: Seq<char>) -> bool {
    lex_lt_from(a, b, 0)
}

fn lex_lt_from_x(a: &Vec<char>, b: &Vec<char>, i: usize) -> (r: bool)
    requires
        i <= a@.len(),
        i <= b@.len(),
    ensures
        r == lex_lt_from(a@, b@, i as int),
    decreases b@.len() - i,
{
    if i >= b.len() {
        false
    } else if i >= a.len() {
        true
    } else {
        let ca = a[i];
        let cb = b[i];
        if ca != cb {
            (ca as u32) < (cb as u32)
        } else {
            lex_lt_from_x(a, b, i + 1)
        }
    }
}

/// Decides the lexicographic order of two strings.
pub fn lex_lt_x(a: &str, b: &str) -> (r: bool)
    ensures
        r == lex_lt(a@, b@),
{
    let av = crate::strutil::string_chars(a);
    let bv = crate::strutil::string_chars(b);
    lex_lt_from_x(&av, &bv, 0)
}

// ---------------------------------------------------------------------
// Rule resolution at a node.
// ---------------------------------------------------------------------

/// A weight saturated at two to the sixty-third, as the executable
/// weight computation reports it.
pub open spec fn sat_weight(w: nat) -> nat {
    if w >= 0x8000000000000000 {
        0x8000000000000000
    } else {
        w
    }
}

/// Whether a catalog entry addresses a node: right category, and a live
/// expression that selects the node's path.
pub open spec fn entry_applies(e: RuleEntry, cat: Category, path: Seq<SpecFrag>) -> bool {
    e.category == cat && match spec_parse_path(e.expression@) {
        Some(ts) => expr_selects(ts, path),
        None => false,
    }
}

/// The saturated weight of an entry's expression.
pub open spec fn entry_weight(e: RuleEntry) -> nat {
    match spec_parse_path(e.expression@) {
        Some(ts) => sat_weight(expr_weight(ts)),
        None => 0,
    }
}

/// Whether entry `a` beats entry `b`: more weight, or the lexically
/// lesser expression at equal weight.
pub open spec fn better_entry(a: RuleEntry, b: RuleEntry) -> bool {
    entry_weight(a) > entry_weight(b) || (entry_weight(a) == entry_weight(b) && lex_lt(
        a.expression@,
        b.expression@,
    ))
}

/// The index of the winning entry among the first `n`, if any applies.
/// A later entry wins only by strictly beating the incumbent.
pub open spec fn best_entry(
    entries: Seq<RuleEntry>,
    cat: Category,
    path: Seq<SpecFrag>,
    n: int,
) -> Option<int>
    decreases n,
{
    if n <= 0 {
        None
    } else {
        let prev = best_entry(entries, cat, path, n - 1);
        if entry_applies(entries[n - 1], cat, path) {
            match prev {
                None => Some(n - 1),
                Some(k) => if better_entry(entries[n - 1], entries[k]) {
                    Some(n - 1)
                } else {
                    Some(k)
                },
            }
        } else {
            prev
        }
    }
}

/// The rules resolved at a node: those of the winning entry.
pub open spec fn resolved_rules(
    entries: Seq<RuleEntry>,
    cat: Category,
    path: Seq<SpecFrag>,
) -> Seq<MatchingRule> {
    match best_entry(entries, cat, path, entries.len() as int) {
        Some(k) => entries[k].rules@,
        None => Seq::empty(),
    }
}

/// Finds the winning entry for a node.
pub fn best_entry_x(entries: &Vec<RuleEntry>, cat: Category, path: &Vec<PathFrag>) -> (r: Option<
    usize,
>)
    ensures
        match r {
            Some(k) => best_entry(entries@, cat, frags_view(path@), entries@.len() as int)
                == Some(k as int) && k < entries@.len(),
            None => best_entry(entries@, cat, frags_view(path@), entries@.len() as int) is None,
        },
{
    let mut best: Option<usize> = None;
    let mut i: usize = 0;
    while i < entries.len()
        invariant
            i <= entries@.len(),
            match best {
                Some(k) => best_entry(entries@, cat, frags_view(path@), i as int) == Some(
                    k as int,
                ) && k < i,
                None => best_entry(entries@, cat, frags_view(path@), i as int) is None,
            },
        decreases entries@.len() - i,
    {
        let e = &entries[i];
        let applies: bool = if e.category == cat {
            match parse_path(e.expression.as_str()) {
                Some(ts) => expr_selects_x(&ts, path),
                None => false,
            }
        } else {
            false
        };
        proof {
            assert(applies == entry_applies(entries@[i as int], cat, frags_view(path@)));
        }
        if applies {
            match best {
                None => {
                    best = Some(i);
                },
                Some(k) => {
                    let wi = entry_weight_x(&entries[i]);
                    let wk = entry_weight_x(&entries[k]);
                    let beats: bool = if wi > wk {
                        true
                    } else if wi == wk {
                        lex_lt_x(entries[i].expression.as_str(), entries[k].expression.as_str())
                    } else {
                        false
                    };
                    proof {
                        assert(beats == better_entry(entries@[i as int], entries@[k as int]));
                    }
                    if beats {
                        best = Some(i);
                    }
                },
            }
        }
        i = i + 1;
    }
    best
}

/// The saturated weight of one entry.
fn entry_weight_x(e: &RuleEntry) -> (r: u64)
    ensures
        r == entry_weight(*e),
{
    match parse_path(e.expression.as_str()) {
        Some(ts) => {
            let w = expr_weight_x(&ts);
            proof {
                assert(sat_weight(expr_weight(toks_view(ts@))) == w);
            }
            w
        },
        None => 0,
    }
}

// ---------------------------------------------------------------------
// Canonical path rendering.
// ---------------------------------------------------------------------

/// The canonical form of a concrete location: `$` then `.key` or `[3]`
/// per step.
pub open spec fn path_str(path: Seq<SpecFrag>) -> Seq<char>
    decreases path.len(),
{
    if path.len() == 0 {
        seq!['$']
    } else {
        path_str(path.drop_last()) + frag_str(path.last())
    }
}

/// The canonical form of one step.
pub open spec fn frag_str(f: SpecFrag) -> Seq<char> {
    match f {
        SpecFrag::Key(k) => seq!['.'] + k,
        SpecFrag::Num(n) => seq!['['] + dec_str(n) + seq![']'],
    }
}

/// Renders a concrete location canonically.
pub fn render_path(path: &Vec<PathFrag>) -> (s: String)
    ensures
        s@ == path_str(frags_view(path@)),
{
    let mut out = String::new();
    out.append("$");
    proof {
        reveal_strlit("$");
        assert(out@ =~= path_str(frags_view(path@).subrange(0, 0)));
    }
    let mut i: usize = 0;
    while i < path.len()
        invariant
            i <= path@.len(),
            out@ == path_str(frags_view(path@).subrange(0, i as int)),
        decreases path@.len() - i,
    {
        match &path[i] {
            PathFrag::Key(k) => {
                out.append(".");
                out.append(k.as_str());
                proof {
                    reveal_strlit(".");
                }
            },
            PathFrag::Num(n) => {
                out.append("[");
                let d = crate::strutil::u64_to_string(*n);
                out.append(d.as_str());
                out.append("]");
                proof {
                    reveal_strlit("[");
                    reveal_strlit("]");
                }
            },
        }
        i = i + 1;
        proof {
            let pre = frags_view(path@).subrange(0, i - 1);
            let cur = frags_view(path@).subrange(0, i as int);
            assert(cur.drop_last() =~= pre);
            assert(cur.last() == frag_view(path@[i - 1]));
            assert(out@ =~= path_str(cur));
        }
    }
    proof {
        assert(frags_view(path@).subrange(0, path@.len() as int) =~= frags_view(path@));
    }
    out
}

/// A copy of a concrete location, equal step for step.
pub fn dup_frags(path: &Vec<PathFrag>) -> (r: Vec<PathFrag>)
    ensures
        frags_view(r@) == frags_view(path@),
{
    let mut out: Vec<PathFrag> = Vec::new();
    let mut i: usize = 0;
    while i < path.len()
        invariant
            i <= path@.len(),
            out@.len() == i,
            forall|k: int| 0 <= k < i ==> frag_view(#[trigger] out@[k]) == frag_view(path@[k]),
        decreases path@.len() - i,
    {
        match &path[i] {
            PathFrag::Key(k) => out.push(PathFrag::Key(k.clone())),
            PathFrag::Num(n) => out.push(PathFrag::Num(*n)),
        }
        i = i + 1;
    }
    proof {
        assert(frags_view(out@) =~= frags_view(path@));
    }
    out
}

// ---------------------------------------------------------------------
// The walk, in spec.
// ---------------------------------------------------------------------

/// Whether every rule in the set accepts the pair of nodes.
pub open spec fn rules_pass(rs: Seq<MatchingRule>, e: JsonValue, a: JsonValue) -> bool {
    forall|j: int| 0 <= j < rs.len() ==> rule_json_ok(#[trigger] rs[j], e, a)
}

/// The node's own mismatch contribution under a rule set.
pub open spec fn rule_viol(
    rs: Seq<MatchingRule>,
    e: JsonValue,
    a: JsonValue,
    path: Seq<SpecFrag>,
) -> Seq<Seq<char>> {
    if rules_pass(rs, e, a) {
        Seq::empty()
    } else {
        seq![path_str(path)]
    }
}

/// Whether a rule set contains a kind-check rule, which switches arrays
/// to each-element comparison against the first expected element.
pub open spec fn has_type_rule(rs: Seq<MatchingRule>) -> bool {
    exists|j: int| 0 <= j < rs.len() && (#[trigger] rs[j] is Type || rs[j] is MinType || rs[j]
        is MaxType)
}

/// The locations, in walk order, where the expected tree and the actual
/// tree disagree under the catalog.
pub open spec fn json_mismatches(
    e: JsonValue,
    a: JsonValue,
    entries: Seq<RuleEntry>,
    path: Seq<SpecFrag>,
) -> Seq<Seq<char>>
    decreases e, 0int, 0int,
{
    let rs = resolved_rules(entries, Category::Body, path);
    match (e, a) {
        (JsonValue::Object(xs), JsonValue::Object(ys)) => rule_viol(rs, e, a, path) + obj_walk(
            xs,
            ys,
            entries,
            path,
            0,
        ),
        (JsonValue::Array(xs), JsonValue::Array(ys)) => {
            if has_type_rule(rs) {
                rule_viol(rs, e, a, path) + if xs.len() > 0 {
                    arr_type_walk(xs[0], ys, entries, path, 0)
                } else {
                    Seq::empty()
                }
            } else if rs.len() > 0 {
                rule_viol(rs, e, a, path)
            } else if xs.len() != ys.len() {
                seq![path_str(path)]
            } else {
                arr_walk(xs, ys, entries, path, 0)
            }
        },
        _ => {
            if rs.len() > 0 {
                rule_viol(rs, e, a, path)
            } else if json_eq(a, e) {
                Seq::empty()
            } else {
                seq![path_str(path)]
            }
        },
    }
}

/// Walks the expected object's fields: a missing key is one mismatch at
/// the child location; a present key is compared recursively.
pub open spec fn obj_walk(
    xs: Vec<(String, JsonValue)>,
    ys: Vec<(String, JsonValue)>,
    entries: Seq<RuleEntry>,
    path: Seq<SpecFrag>,
    i: int,
) -> Seq<Seq<char>>
    decreases xs, xs.len() - i, 1int,
{
    if i < 0 || i >= xs.len() {
        Seq::empty()
    } else {
        let key = xs[i].0@;
        let child = path.push(SpecFrag::Key(key));
        let here = match obj_find(ys@, key, 0) {
            Some(j) => json_mismatches(xs[i].1, ys[j].1, entries, child),
            None => seq![path_str(child)],
        };
        here + obj_walk(xs, ys, entries, path, i + 1)
    }
}

/// Walks two arrays of equal length element by element.
pub open spec fn arr_walk(
    xs: Vec<JsonValue>,
    ys: Vec<JsonValue>,
    entries: Seq<RuleEntry>,
    path: Seq<SpecFrag>,
    i: int,
) -> Seq<Seq<char>>
    decreases xs, xs.len() - i, 1int,
{
    if i < 0 || i >= xs.len() || i >= ys.len() {
        Seq::empty()
    } else {
        json_mismatches(xs[i], ys[i], entries, path.push(SpecFrag::Num(i))) + arr_walk(
            xs,
            ys,
            entries,
            path,
            i + 1,
        )
    }
}

/// One actual element against the first expected element: rules
/// resolved at the element's own location govern it; otherwise the
/// element must share the expected element's primitive kind.
pub open spec fn arr_elem_check(
    e0: JsonValue,
    y: JsonValue,
    entries: Seq<RuleEntry>,
    child: Seq<SpecFrag>,
) -> Seq<Seq<char>>
    decreases e0, 1int, 0int,
{
    if resolved_rules(entries, Category::Body, child).len() > 0 {
        json_mismatches(e0, y, entries, child)
    } else if crate::matchers::same_kind(e0, y) {
        Seq::empty()
    } else {
        seq![path_str(child)]
    }
}

/// Compares each actual element against the first expected element, the
/// kind-check semantics for arrays.
pub open spec fn arr_type_walk(
    e0: JsonValue,
    ys: Vec<JsonValue>,
    entries: Seq<RuleEntry>,
    path: Seq<SpecFrag>,
    i: int,
) -> Seq<Seq<char>>
    decreases e0, ys.len() - i, 1int,
{
    if i < 0 || i >= ys.len() {
        Seq::empty()
    } else {
        arr_elem_check(e0, ys[i], entries, path.push(SpecFrag::Num(i))) + arr_type_walk(
            e0,
            ys,
            entries,
            path,
            i + 1,
        )
    }
}

// ---------------------------------------------------------------------
// The walk, executable.
// ---------------------------------------------------------------------

/// Decides whether every rule in the set accepts the pair.
fn rules_pass_x(rs: &Vec<MatchingRule>, e: &JsonValue, a: &JsonValue) -> (r: bool)
    ensures
        r == rules_pass(rs@, *e, *a),
{
    let mut j: usize = 0;
    while j < rs.len()
        invariant
            j <= rs@.len(),
            forall|k: int| 0 <= k < j ==> rule_json_ok(#[trigger] rs@[k], *e, *a),
        decreases rs@.len() - j,
    {
        if !match_rule_json(&rs[j], e, a) {
            return false;
        }
        j = j + 1;
    }
    true
}

/// Decides whether the set contains a kind-check rule.
fn has_type_rule_x(rs: &Vec<MatchingRule>) -> (r: bool)
    ensures
        r == has_type_rule(rs@),
{
    let mut j: usize = 0;
    while j < rs.len()
        invariant
            j <= rs@.len(),
            forall|k: int| 0 <= k < j ==> !(#[trigger] rs@[k] is Type || rs@[k] is MinType
                || rs@[k] is MaxType),
        decreases rs@.len() - j,
    {
        let hit = match &rs[j] {
            MatchingRule::Type => true,
            MatchingRule::MinType(_) => true,
            MatchingRule::MaxType(_) => true,
            _ => false,
        };
        if hit {
            return true;
        }
        j = j + 1;
    }
    false
}

/// One body mismatch at the given location.
fn push_body_mismatch(
    out: &mut Vec<Mismatch>,
    path: &Vec<PathFrag>,
    e: &JsonValue,
    a: Option<&JsonValue>,
)
    ensures
        final(out)@.len() == old(out)@.len() + 1,
        forall|i: int| 0 <= i < old(out)@.len() ==> #[trigger] final(out)@[i] == old(out)@[i],
        final(out)@ == old(out)@.push(final(out)@.last()),
        final(out)@.last() is BodyMismatch,
        mm_path(final(out)@.last()) == path_str(frags_view(path@)),
        ({
            &&& final(out)@.last() matches Mismatch::BodyMismatch { expected: ex, actual: ac, .. }
            &&& ex matches Option::Some(es) && es@ == crate::matchers::json_text_of(*e)
            &&& match a {
                Option::Some(av) => ac matches Option::Some(s) && s@
                    == crate::matchers::json_text_of(*av),
                Option::None => ac is None,
            }
        }),
{
    let p = render_path(path);
    let ghost pv = p@;
    let es = json_text_string(e);
    let (actual, mut msg): (Option<String>, String) = match a {
        Option::Some(av) => {
            let s = json_text_string(av);
            let mut m = String::new();
            m.append("Expected '");
            m.append(es.as_str());
            m.append("' but received '");
            m.append(s.as_str());
            m.append("'");
            (Option::Some(s), m)
        },
        Option::None => {
            let mut m = String::new();
            m.append("Expected '");
            m.append(es.as_str());
            m.append("' but was missing");
            (Option::None, m)
        },
    };
    out.push(Mismatch::BodyMismatch {
        path: p,
        expected: Option::Some(es),
        actual,
        mismatch: msg,
    });
    proof {
        assert(final(out)@ =~= old(out)@.push(final(out)@.last()));
    }
}

/// Walks the trees, appending one body mismatch per disagreeing node.
pub fn walk_json(
    e: &JsonValue,
    a: &JsonValue,
    entries: &Vec<RuleEntry>,
    path: &Vec<PathFrag>,
    out: &mut Vec<Mismatch>,
)
    ensures
        final(out)@.len() >= old(out)@.len(),
        forall|i: int| 0 <= i < old(out)@.len() ==> #[trigger] final(out)@[i] == old(out)@[i],
        mm_paths(final(out)@) == mm_paths(old(out)@) + json_mismatches(
            *e,
            *a,
            entries@,
            frags_view(path@),
        ),
        forall|i: int| old(out)@.len() <= i < final(out)@.len()
            ==> (#[trigger] final(out)@[i]) is BodyMismatch,
    decreases *e,
{
    let ghost spec_out = json_mismatches(*e, *a, entries@, frags_view(path@));
    let rs_idx = best_entry_x(entries, Category::Body, path);
    let empty_rules: Vec<MatchingRule> = Vec::new();
    let rs: &Vec<MatchingRule> = match rs_idx {
        Some(k) => &entries[k].rules,
        None => &empty_rules,
    };
    proof {
        assert(rs@ == resolved_rules(entries@, Category::Body, frags_view(path@)));
    }
    match (e, a) {
        (JsonValue::Object(xs), JsonValue::Object(ys)) => {
            if !rules_pass_x(rs, e, a) {
                push_body_mismatch(out, path, e, Option::Some(a));
            }
            let ghost mid = out@;
            proof {
                assert(mm_paths(mid) =~= mm_paths(old(out)@) + rule_viol(
                    rs@,
                    *e,
                    *a,
                    frags_view(path@),
                ));
                assert(mm_paths(out@) =~= mm_paths(mid) + obj_walk_upto(
                    *xs,
                    *ys,
                    entries@,
                    frags_view(path@),
                    0,
                ));
            }
            let mut i: usize = 0;
            while i < xs.len()
                invariant
                    i <= xs@.len(),
                    *e == JsonValue::Object(*xs),
                    *a == JsonValue::Object(*ys),
                    out@.len() >= mid.len(),
                    forall|k: int| 0 <= k < mid.len() ==> #[trigger] out@[k] == mid[k],
                    mm_paths(out@) == mm_paths(mid) + obj_walk_upto(
                        *xs,
                        *ys,
                        entries@,
                        frags_view(path@),
                        i as int,
                    ),
                    forall|k: int| mid.len() <= k < out@.len() ==> (#[trigger] out@[k])
                        is BodyMismatch,
                decreases xs@.len() - i,
            {
                let (key, ev) = &xs[i];
                let mut child = dup_frags(path);
                child.push(PathFrag::Key(key.clone()));
                proof {
                    assert(frags_view(child@) =~= frags_view(path@).push(
                        SpecFrag::Key(key@),
                    ));
                }
                let ghost pre = out@;
                let ghost stepv: Seq<Seq<char>> = match obj_find(ys@, xs@[i as int].0@, 0) {
                    Some(j) => json_mismatches(
                        xs@[i as int].1,
                        ys@[j].1,
                        entries@,
                        frags_view(path@).push(SpecFrag::Key(xs@[i as int].0@)),
                    ),
                    None => seq![
                        path_str(frags_view(path@).push(SpecFrag::Key(xs@[i as int].0@))),
                    ],
                };
                match obj_find_x(ys, key.as_str(), 0) {
                    Some(j) => {
                        proof {
                            assert(decreases_to!(*e => (*e)->Object_0));
                            assert(decreases_to!(*xs => xs@));
                            assert(decreases_to!(xs@ => xs@[i as int]));
                            assert(decreases_to!(xs@[i as int] => xs@[i as int].1));
                            assert(decreases_to!(*e => xs@[i as int].1));
                        }
                        walk_json(ev, &ys[j].1, entries, &child, out);
                        proof {
                            assert(mm_paths(out@) =~= mm_paths(pre) + stepv);
                        }
                    },
                    None => {
                        push_body_mismatch(out, &child, ev, Option::None);
                        proof {
                            assert(mm_paths(out@) =~= mm_paths(pre) + stepv);
                        }
                    },
                }
                i = i + 1;
                proof {
                    lemma_obj_walk_upto_step(*xs, *ys, entries@, frags_view(path@), i - 1);
                    assert(obj_walk_upto(*xs, *ys, entries@, frags_view(path@), i as int)
                        == obj_walk_upto(*xs, *ys, entries@, frags_view(path@), i - 1) + stepv);
                    assert(mm_paths(out@) =~= mm_paths(mid) + obj_walk_upto(
                        *xs,
                        *ys,
                        entries@,
                        frags_view(path@),
                        i as int,
                    ));
                }
            }
            proof {
                lemma_obj_walk_upto_full(*xs, *ys, entries@, frags_view(path@));
                assert(mm_paths(mid) =~= mm_paths(old(out)@) + rule_viol(
                    rs@,
                    *e,
                    *a,
                    frags_view(path@),
                ));
                assert(mm_paths(out@) =~= mm_paths(old(out)@) + spec_out);
            }
        },
        (JsonValue::Array(xs), JsonValue::Array(ys)) => {
            if has_type_rule_x(rs) {
                if !rules_pass_x(rs, e, a) {
                    push_body_mismatch(out, path, e, Option::Some(a));
                }
                let ghost mid = out@;
                proof {
                    assert(mm_paths(mid) =~= mm_paths(old(out)@) + rule_viol(
                        rs@,
                        *e,
                        *a,
                        frags_view(path@),
                    ));
                }
                if xs.len() > 0 {
                    let e0 = &xs[0];
                    proof {
                        assert(mm_paths(out@) =~= mm_paths(mid) + arr_type_walk_upto(
                            xs@[0],
                            *ys,
                            entries@,
                            frags_view(path@),
                            0,
                        ));
                    }
                    let mut i: usize = 0;
                    while i < ys.len()
                        invariant
                            i <= ys@.len(),
                            *e == JsonValue::Array(*xs),
                            xs@.len() > 0,
                            e0 == &xs[0],
                            *e0 == xs@[0],
                            out@.len() >= mid.len(),
                            forall|k: int| 0 <= k < mid.len() ==> #[trigger] out@[k] == mid[k],
                            mm_paths(out@) == mm_paths(mid) + arr_type_walk_upto(
                                xs@[0],
                                *ys,
                                entries@,
                                frags_view(path@),
                                i as int,
                            ),
                            forall|k: int| mid.len() <= k < out@.len() ==> (#[trigger] out@[k])
                                is BodyMismatch,
                        decreases ys@.len() - i,
                    {
                        let mut child = dup_frags(path);
                        child.push(PathFrag::Num(i as u64));
                        proof {
                            assert(frags_view(child@) =~= frags_view(path@).push(
                                SpecFrag::Num(i as int),
                            ));
                            assert(decreases_to!(*e => (*e)->Array_0));
                            assert(decreases_to!(*xs => xs@));
                            assert(decreases_to!(xs@ => xs@[0]));
                            assert(decreases_to!(*e => xs@[0]));
                        }
                        let ghost pre = out@;
                        let ghost stepv = arr_elem_check(
                            xs@[0],
                            ys@[i as int],
                            entries@,
                            frags_view(child@),
                        );
                        let child_rules_live: bool = match best_entry_x(
                            entries,
                            Category::Body,
                            &child,
                        ) {
                            Some(k) => entries[k].rules.len() > 0,
                            None => false,
                        };
                        proof {
                            assert(child_rules_live == (resolved_rules(
                                entries@,
                                Category::Body,
                                frags_view(child@),
                            ).len() > 0));
                        }
                        if child_rules_live {
                            walk_json(e0, &ys[i], entries, &child, out);
                            proof {
                                assert(mm_paths(out@) =~= mm_paths(pre) + stepv);
                            }
                        } else {
                            if !crate::matchers::same_kind_x(e0, &ys[i]) {
                                push_body_mismatch(out, &child, e0, Option::Some(&ys[i]));
                                proof {
                                    assert(mm_paths(out@) =~= mm_paths(pre) + stepv);
                                }
                            } else {
                                proof {
                                    assert(mm_paths(out@) =~= mm_paths(pre) + stepv);
                                }
                            }
                        }
                        i = i + 1;
                        proof {
                            lemma_arr_type_walk_upto_step(
                                xs@[0],
                                *ys,
                                entries@,
                                frags_view(path@),
                                i - 1,
                            );
                            assert(mm_paths(out@) =~= mm_paths(mid) + arr_type_walk_upto(
                                xs@[0],
                                *ys,
                                entries@,
                                frags_view(path@),
                                i as int,
                            ));
                        }
                    }
                    proof {
                        lemma_arr_type_walk_upto_full(xs@[0], *ys, entries@, frags_view(path@));
                        assert(mm_paths(out@) =~= mm_paths(old(out)@) + spec_out);
                    }
                } else {
                    proof {
                        assert(mm_paths(out@) =~= mm_paths(old(out)@) + spec_out);
                    }
                }
            } else if rs.len() > 0 {
                if !rules_pass_x(rs, e, a) {
                    push_body_mismatch(out, path, e, Option::Some(a));
                }
                proof {
                    assert(mm_paths(out@) =~= mm_paths(old(out)@) + spec_out);
                }
            } else if xs.len() != ys.len() {
                push_body_mismatch(out, path, e, Option::Some(a));
                proof {
                    assert(mm_paths(out@) =~= mm_paths(old(out)@) + spec_out);
                }
            } else {
                let ghost mid = out@;
                proof {
                    assert(mm_paths(out@) =~= mm_paths(mid) + arr_walk_upto(
                        *xs,
                        *ys,
                        entries@,
                        frags_view(path@),
                        0,
                    ));
                }
                let mut i: usize = 0;
                while i < xs.len()
                    invariant
                        i <= xs@.len(),
                        xs@.len() == ys@.len(),
                        *e == JsonValue::Array(*xs),
                        *a == JsonValue::Array(*ys),
                        out@.len() >= mid.len(),
                        forall|k: int| 0 <= k < mid.len() ==> #[trigger] out@[k] == mid[k],
                        mm_paths(out@) == mm_paths(mid) + arr_walk_upto(
                            *xs,
                            *ys,
                            entries@,
                            frags_view(path@),
                            i as int,
                        ),
                        forall|k: int| mid.len() <= k < out@.len() ==> (#[trigger] out@[k])
                            is BodyMismatch,
                    decreases xs@.len() - i,
                {
                    let mut child = dup_frags(path);
                    child.push(PathFrag::Num(i as u64));
                    proof {
                        assert(frags_view(child@) =~= frags_view(path@).push(
                            SpecFrag::Num(i as int),
                        ));
                        assert(decreases_to!(*e => (*e)->Array_0));
                        assert(decreases_to!(*xs => xs@));
                        assert(decreases_to!(xs@ => xs@[i as int]));
                        assert(decreases_to!(*e => xs@[i as int]));
                    }
                    walk_json(&xs[i], &ys[i], entries, &child, out);
                    i = i + 1;
                    proof {
                        lemma_arr_walk_upto_step(*xs, *ys, entries@, frags_view(path@), i - 1);
                        assert(mm_paths(out@) =~= mm_paths(mid) + arr_walk_upto(
                            *xs,
                            *ys,
                            entries@,
                            frags_view(path@),
                            i as int,
                        ));
                    }
                }
                proof {
                    lemma_arr_walk_upto_full(*xs, *ys, entries@, frags_view(path@));
                    assert(mm_paths(out@) =~= mm_paths(old(out)@) + spec_out);
                }
            }
        },
        _ => {
            if rs.len() > 0 {
                if !rules_pass_x(rs, e, a) {
                    push_body_mismatch(out, path, e, Option::Some(a));
                }
            } else {
                if !json_eq_x(a, e) {
                    push_body_mismatch(out, path, e, Option::Some(a));
                }
            }
            proof {
                assert(mm_paths(out@) =~= mm_paths(old(out)@) + spec_out);
            }
        },
    }
}

// ---------------------------------------------------------------------
// Prefix forms of the walks, to state loop invariants.
// ---------------------------------------------------------------------

/// The object walk over the first `n` expected fields.
pub open spec fn obj_walk_upto(
    xs: Vec<(String, JsonValue)>,
    ys: Vec<(String, JsonValue)>,
    entries: Seq<RuleEntry>,
    path: Seq<SpecFrag>,
    n: int,
) -> Seq<Seq<char>>
    decreases n,
{
    if n <= 0 || n > xs.len() {
        Seq::empty()
    } else {
        let key = xs[n - 1].0@;
        let child = path.push(SpecFrag::Key(key));
        let here = match obj_find(ys@, key, 0) {
            Some(j) => json_mismatches(xs[n - 1].1, ys[j].1, entries, child),
            None => seq![path_str(child)],
        };
        obj_walk_upto(xs, ys, entries, path, n - 1) + here
    }
}

proof fn lemma_obj_walk_upto_step(
    xs: Vec<(String, JsonValue)>,
    ys: Vec<(String, JsonValue)>,
    entries: Seq<RuleEntry>,
    path: Seq<SpecFrag>,
    i: int,
)
    requires
        0 <= i < xs.len(),
    ensures
        obj_walk_upto(xs, ys, entries, path, i + 1) == obj_walk_upto(xs, ys, entries, path, i)
            + (match obj_find(ys@, xs[i].0@, 0) {
            Some(j) => json_mismatches(xs[i].1, ys[j].1, entries, path.push(
                SpecFrag::Key(xs[i].0@),
            )),
            None => seq![path_str(path.push(SpecFrag::Key(xs[i].0@)))],
        }),
{
}

proof fn lemma_obj_walk_upto_full(
    xs: Vec<(String, JsonValue)>,
    ys: Vec<(String, JsonValue)>,
    entries: Seq<RuleEntry>,
    path: Seq<SpecFrag>,
)
    ensures
        obj_walk_upto(xs, ys, entries, path, xs.len() as int) == obj_walk(
            xs,
            ys,
            entries,
            path,
            0,
        ),
{
    lemma_obj_walk_split(xs, ys, entries, path, 0);
    assert(obj_walk_upto(xs, ys, entries, path, 0) + obj_walk(xs, ys, entries, path, 0)
        =~= obj_walk(xs, ys, entries, path, 0));
}

proof fn lemma_obj_walk_split(
    xs: Vec<(String, JsonValue)>,
    ys: Vec<(String, JsonValue)>,
    entries: Seq<RuleEntry>,
    path: Seq<SpecFrag>,
    i: int,
)
    requires
        0 <= i <= xs.len(),
    ensures
        obj_walk_upto(xs, ys, entries, path, xs.len() as int) == obj_walk_upto(
            xs,
            ys,
            entries,
            path,
            i,
        ) + obj_walk(xs, ys, entries, path, i),
    decreases xs.len() - i,
{
    if i == xs.len() {
        assert(obj_walk(xs, ys, entries, path, i) =~= Seq::<Seq<char>>::empty());
        assert(obj_walk_upto(xs, ys, entries, path, i) + Seq::<Seq<char>>::empty()
            =~= obj_walk_upto(xs, ys, entries, path, i));
    } else {
        lemma_obj_walk_split(xs, ys, entries, path, i + 1);
        lemma_obj_walk_upto_step(xs, ys, entries, path, i);
        assert(obj_walk_upto(xs, ys, entries, path, xs.len() as int) =~= obj_walk_upto(
            xs,
            ys,
            entries,
            path,
            i,
        ) + obj_walk(xs, ys, entries, path, i));
    }
}

/// The array walk over the first `n` elements.
pub open spec fn arr_walk_upto(
    xs: Vec<JsonValue>,
    ys: Vec<JsonValue>,
    entries: Seq<RuleEntry>,
    path: Seq<SpecFrag>,
    n: int,
) -> Seq<Seq<char>>
    decreases n,
{
    if n <= 0 || n > xs.len() || n > ys.len() {
        Seq::empty()
    } else {
        arr_walk_upto(xs, ys, entries, path, n - 1) + json_mismatches(
            xs[n - 1],
            ys[n - 1],
            entries,
            path.push(SpecFrag::Num(n - 1)),
        )
    }
}

proof fn lemma_arr_walk_upto_step(
    xs: Vec<JsonValue>,
    ys: Vec<JsonValue>,
    entries: Seq<RuleEntry>,
    path: Seq<SpecFrag>,
    i: int,
)
    requires
        0 <= i < xs.len(),
        xs.len() == ys.len(),
    ensures
        arr_walk_upto(xs, ys, entries, path, i + 1) == arr_walk_upto(xs, ys, entries, path, i)
            + json_mismatches(xs[i], ys[i], entries, path.push(SpecFrag::Num(i))),
{
}

proof fn lemma_arr_walk_upto_full(
    xs: Vec<JsonValue>,
    ys: Vec<JsonValue>,
    entries: Seq<RuleEntry>,
    path: Seq<SpecFrag>,
)
    requires
        xs.len() == ys.len(),
    ensures
        arr_walk_upto(xs, ys, entries, path, xs.len() as int) == arr_walk(
            xs,
            ys,
            entries,
            path,
            0,
        ),
{
    lemma_arr_walk_split(xs, ys, entries, path, 0);
    assert(arr_walk_upto(xs, ys, entries, path, 0) + arr_walk(xs, ys, entries, path, 0)
        =~= arr_walk(xs, ys, entries, path, 0));
}

proof fn lemma_arr_walk_split(
    xs: Vec<JsonValue>,
    ys: Vec<JsonValue>,
    entries: Seq<RuleEntry>,
    path: Seq<SpecFrag>,
    i: int,
)
    requires
        0 <= i <= xs.len(),
        xs.len() == ys.len(),
    ensures
        arr_walk_upto(xs, ys, entries, path, xs.len() as int) == arr_walk_upto(
            xs,
            ys,
            entries,
            path,
            i,
        ) + arr_walk(xs, ys, entries, path, i),
    decreases xs.len() - i,
{
    if i == xs.len() {
        assert(arr_walk(xs, ys, entries, path, i) =~= Seq::<Seq<char>>::empty());
        assert(arr_walk_upto(xs, ys, entries, path, i) + Seq::<Seq<char>>::empty()
            =~= arr_walk_upto(xs, ys, entries, path, i));
    } else {
        lemma_arr_walk_split(xs, ys, entries, path, i + 1);
        lemma_arr_walk_upto_step(xs, ys, entries, path, i);
        assert(arr_walk_upto(xs, ys, entries, path, xs.len() as int) =~= arr_walk_upto(
            xs,
            ys,
            entries,
            path,
            i,
        ) + arr_walk(xs, ys, entries, path, i));
    }
}

/// The kind-check walk over the first `n` actual elements.
pub open spec fn arr_type_walk_upto(
    e0: JsonValue,
    ys: Vec<JsonValue>,
    entries: Seq<RuleEntry>,
    path: Seq<SpecFrag>,
    n: int,
) -> Seq<Seq<char>>
    decreases n,
{
    if n <= 0 || n > ys.len() {
        Seq::empty()
    } else {
        arr_type_walk_upto(e0, ys, entries, path, n - 1) + arr_elem_check(
            e0,
            ys[n - 1],
            entries,
            path.push(SpecFrag::Num(n - 1)),
        )
    }
}

proof fn lemma_arr_type_walk_upto_step(
    e0: JsonValue,
    ys: Vec<JsonValue>,
    entries: Seq<RuleEntry>,
    path: Seq<SpecFrag>,
    i: int,
)
    requires
        0 <= i < ys.len(),
    ensures
        arr_type_walk_upto(e0, ys, entries, path, i + 1) == arr_type_walk_upto(
            e0,
            ys,
            entries,
            path,
            i,
        ) + arr_elem_check(e0, ys[i], entries, path.push(SpecFrag::Num(i))),
{
}

proof fn lemma_arr_type_walk_upto_full(
    e0: JsonValue,
    ys: Vec<JsonValue>,
    entries: Seq<RuleEntry>,
    path: Seq<SpecFrag>,
)
    ensures
        arr_type_walk_upto(e0, ys, entries, path, ys.len() as int) == arr_type_walk(
            e0,
            ys,
            entries,
            path,
            0,
        ),
{
    lemma_arr_type_walk_split(e0, ys, entries, path, 0);
    assert(arr_type_walk_upto(e0, ys, entries, path, 0) + arr_type_walk(e0, ys, entries, path, 0)
        =~= arr_type_walk(e0, ys, entries, path, 0));
}

proof fn lemma_arr_type_walk_split(
    e0: JsonValue,
    ys: Vec<JsonValue>,
    entries: Seq<RuleEntry>,
    path: Seq<SpecFrag>,
    i: int,
)
    requires
        0 <= i <= ys.len(),
    ensures
        arr_type_walk_upto(e0, ys, entries, path, ys.len() as int) == arr_type_walk_upto(
            e0,
            ys,
            entries,
            path,
            i,
        ) + arr_type_walk(e0, ys, entries, path, i),
    decreases ys.len() - i,
{
    if i == ys.len() {
        assert(arr_type_walk(e0, ys, entries, path, i) =~= Seq::<Seq<char>>::empty());
        assert(arr_type_walk_upto(e0, ys, entries, path, i) + Seq::<Seq<char>>::empty()
            =~= arr_type_walk_upto(e0, ys, entries, path, i));
    } else {
        lemma_arr_type_walk_split(e0, ys, entries, path, i + 1);
        lemma_arr_type_walk_upto_step(e0, ys, entries, path, i);
        assert(arr_type_walk_upto(e0, ys, entries, path, ys.len() as int) =~= arr_type_walk_upto(
            e0,
            ys,
            entries,
            path,
            i,
        ) + arr_type_walk(e0, ys, entries, path, i));
    }
}

} // verus!
