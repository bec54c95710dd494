//! Laws of rule resolution: a fully literal expression is always more
//! specific than one with a wildcard, so adding it to a catalog puts its
//! rules in charge of the node it addresses; and adding a rule to the
//! governing rule set only ever narrows what the node accepts.

use vstd::prelude::*;
use crate::bodymatch::{
    best_entry, better_entry, entry_applies, entry_weight, resolved_rules, rules_pass, sat_weight,
};
use crate::jsonval::JsonValue;
use crate::models::{Category, MatchingRule, RuleEntry};
use crate::pathexp::{SpecFrag, SpecTok, expr_selects, expr_weight, spec_parse_path, tok_weight};

verus! {

/// Whether a token list holds no wildcard.
pub open spec fn all_literal(ts: Seq<SpecTok>) -> bool {
    forall|i: int| 0 <= i < ts.len() ==> !((#[trigger] ts[i]) is Star || ts[i] is StarIndex)
}

/// Two to the `n`.
pub open spec fn pow2(n: nat) -> nat
    decreases n,
{
    if n == 0 {
        1
    } else {
        2 * pow2((n - 1) as nat)
    }
}

/// Every expression weighs at most two to its length.
pub proof fn lemma_weight_le_pow2(ts: Seq<SpecTok>)
    ensures
        1 <= expr_weight(ts) <= pow2(ts.len()),
    decreases ts.len(),
{
    if ts.len() == 0 {
    } else {
        lemma_weight_le_pow2(ts.drop_last());
        let w = expr_weight(ts.drop_last());
        let f = tok_weight(ts.last());
        assert(expr_weight(ts) == w * f);
        assert(f == 1 || f == 2);
        assert(w * 1 == w);
        assert(w * 2 == 2 * w);
    }
}

/// A wildcard-free expression weighs exactly two to its length.
pub proof fn lemma_weight_all_literal(ts: Seq<SpecTok>)
    requires
        all_literal(ts),
    ensures
        expr_weight(ts) == pow2(ts.len()),
    decreases ts.len(),
{
    if ts.len() == 0 {
    } else {
        assert(all_literal(ts.drop_last())) by {
            assert(forall|i: int| 0 <= i < ts.len() - 1 ==> ts.drop_last()[i] == ts[i]);
        }
        lemma_weight_all_literal(ts.drop_last());
        assert(!(ts.last() is Star || ts.last() is StarIndex));
        assert(tok_weight(ts.last()) == 2);
    }
}

/// An expression with a wildcard weighs at most two to one less than
/// its length.
pub proof fn lemma_weight_with_wildcard(ts: Seq<SpecTok>, j: int)
    requires
        0 <= j < ts.len(),
        ts[j] is Star || ts[j] is StarIndex,
    ensures
        expr_weight(ts) <= pow2((ts.len() - 1) as nat),
    decreases ts.len(),
{
    let w = expr_weight(ts.drop_last());
    let f = tok_weight(ts.last());
    if j == ts.len() - 1 {
        assert(f == 1);
        lemma_weight_le_pow2(ts.drop_last());
        assert(expr_weight(ts) == w * 1);
    } else {
        assert(ts.drop_last()[j] == ts[j]);
        lemma_weight_with_wildcard(ts.drop_last(), j);
        assert(w <= pow2((ts.len() - 2) as nat));
        assert(f <= 2);
        assert(expr_weight(ts) == w * f);
        assert(w * f <= w * 2) by (nonlinear_arith)
            requires
                w >= 0,
                f <= 2,
                f >= 0,
        ;
        assert(w * 2 == 2 * w);
        assert(2 * w <= 2 * pow2((ts.len() - 2) as nat));
        assert(pow2((ts.len() - 1) as nat) == 2 * pow2((ts.len() - 2) as nat));
    }
}

/// Weight monotonicity: among expressions addressing the same node, a
/// wildcard-free expression strictly outweighs any expression that
/// carries a wildcard.
pub proof fn lemma_literal_outweighs(lit: Seq<SpecTok>, other: Seq<SpecTok>, path: Seq<SpecFrag>)
    requires
        expr_selects(lit, path),
        expr_selects(other, path),
        all_literal(lit),
        exists|j: int| 0 <= j < other.len() && ((#[trigger] other[j]) is Star || other[j]
            is StarIndex),
    ensures
        expr_weight(lit) > expr_weight(other),
{
    assert(lit.len() == path.len() + 1);
    assert(other.len() == path.len() + 1);
    lemma_weight_all_literal(lit);
    let j = choose|j: int| 0 <= j < other.len() && ((#[trigger] other[j]) is Star || other[j]
        is StarIndex);
    lemma_weight_with_wildcard(other, j);
    lemma_pow2_increases((other.len() - 1) as nat);
}

/// Two to the `n` grows strictly.
proof fn lemma_pow2_increases(n: nat)
    ensures
        pow2(n) < pow2(n + 1),
    decreases n,
{
    if n > 0 {
        lemma_pow2_increases((n - 1) as nat);
    }
}

/// The winner among the first `n` entries is unchanged by entries
/// appended after them.
proof fn lemma_best_entry_prefix(entries: Seq<RuleEntry>, e: RuleEntry, cat: Category, path: Seq<
    SpecFrag,
>, n: int)
    requires
        0 <= n <= entries.len(),
    ensures
        best_entry(entries.push(e), cat, path, n) == best_entry(entries, cat, path, n),
    decreases n,
{
    if n > 0 {
        lemma_best_entry_prefix(entries, e, cat, path, n - 1);
        assert(forall|k: int| 0 <= k < entries.len() ==> #[trigger] entries.push(e)[k]
            == entries[k]);
        let pe = entries.push(e);
        let prev = best_entry(entries, cat, path, n - 1);
        assert(best_entry(pe, cat, path, n - 1) == prev);
        assert(pe[n - 1] == entries[n - 1]);
        if entry_applies(entries[n - 1], cat, path) {
            match prev {
                None => {
                    assert(best_entry(pe, cat, path, n) == Some(n - 1));
                    assert(best_entry(entries, cat, path, n) == Some(n - 1));
                },
                Some(k) => {
                    lemma_best_entry_applies(entries, cat, path, n - 1, k);
                    assert(pe[k] == entries[k]);
                    if better_entry(entries[n - 1], entries[k]) {
                        assert(best_entry(pe, cat, path, n) == Some(n - 1));
                        assert(best_entry(entries, cat, path, n) == Some(n - 1));
                    } else {
                        assert(best_entry(pe, cat, path, n) == Some(k));
                        assert(best_entry(entries, cat, path, n) == Some(k));
                    }
                },
            }
        } else {
            assert(best_entry(pe, cat, path, n) == prev);
            assert(best_entry(entries, cat, path, n) == prev);
        }
    }
}

/// Specificity: appending rules under a wildcard-free expression that
/// addresses a node makes them the rules resolved at that node,
/// whenever every other applicable entry carries a wildcard.
pub proof fn lemma_specific_rule_governs(
    entries: Seq<RuleEntry>,
    e: RuleEntry,
    path: Seq<SpecFrag>,
)
    requires
        e.category == Category::Body,
        spec_parse_path(e.expression@) matches Some(lt) && expr_selects(lt, path) && all_literal(
            lt,
        ) && expr_weight(lt) < 0x8000000000000000,
        forall|i: int| 0 <= i < entries.len() && entry_applies(#[trigger] entries[i],
            Category::Body, path) ==> (spec_parse_path(entries[i].expression@) matches Some(ts)
            && exists|j: int| 0 <= j < ts.len() && ((#[trigger] ts[j]) is Star || ts[j]
            is StarIndex)),
    ensures
        resolved_rules(entries.push(e), Category::Body, path) == e.rules@,
{
    let all = entries.push(e);
    lemma_best_entry_prefix(entries, e, Category::Body, path, entries.len() as int);
    assert(all[all.len() - 1] == e);
    assert(entry_applies(e, Category::Body, path));
    let lt = spec_parse_path(e.expression@).unwrap();
    match best_entry(entries, Category::Body, path, entries.len() as int) {
        Some(k) => {
            lemma_best_entry_applies(entries, Category::Body, path, entries.len() as int, k);
            let ts = spec_parse_path(entries[k].expression@).unwrap();
            let j = choose|j: int| 0 <= j < ts.len() && ((#[trigger] ts[j]) is Star || ts[j]
                is StarIndex);
            lemma_literal_outweighs(lt, ts, path);
            lemma_weight_le_pow2(ts);
            assert(entry_weight(e) == sat_weight(expr_weight(lt)));
            assert(entry_weight(e) == expr_weight(lt));
            assert(entry_weight(entries[k]) == sat_weight(expr_weight(ts)));
            assert(entry_weight(entries[k]) <= expr_weight(ts));
            assert(better_entry(e, entries[k]));
            assert(best_entry(all, Category::Body, path, all.len() as int) == Some(
                all.len() - 1,
            ));
        },
        None => {
            assert(best_entry(all, Category::Body, path, all.len() as int) == Some(
                all.len() - 1,
            ));
        },
    }
}

/// A resolved winner applies to the node.
proof fn lemma_best_entry_applies(
    entries: Seq<RuleEntry>,
    cat: Category,
    path: Seq<SpecFrag>,
    n: int,
    k: int,
)
    requires
        0 <= n <= entries.len(),
        best_entry(entries, cat, path, n) == Some(k),
    ensures
        0 <= k < n,
        entry_applies(entries[k], cat, path),
    decreases n,
{
    if n > 0 {
        let prev = best_entry(entries, cat, path, n - 1);
        if entry_applies(entries[n - 1], cat, path) {
            match prev {
                None => {},
                Some(p) => {
                    lemma_best_entry_applies(entries, cat, path, n - 1, p);
                },
            }
        } else {
            lemma_best_entry_applies(entries, cat, path, n - 1, k);
        }
    }
}

/// Narrowing: a node governed by a rule set accepts no more once a rule
/// is added to that set.
pub proof fn lemma_conjunction_narrows(
    rs: Seq<MatchingRule>,
    extra: MatchingRule,
    e: JsonValue,
    a: JsonValue,
)
    ensures
        rules_pass(rs.push(extra), e, a) ==> rules_pass(rs, e, a),
{
    if rules_pass(rs.push(extra), e, a) {
        assert forall|j: int| 0 <= j < rs.len() implies crate::matchers::rule_json_ok(
            #[trigger] rs[j],
            e,
            a,
        ) by {
            assert(rs.push(extra)[j] == rs[j]);
        }
    }
}

} // verus!
