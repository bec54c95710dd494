//! The generator engine: instantiates request and response templates by
//! replacing the nodes selected by each generator's path expression with
//! freshly generated values.

use vstd::prelude::*;
use rand::RngExt;
use crate::jsonval::{JsonValue, json_eq, dup_json, lemma_json_eq_refl};
use crate::matchers::{anchored, regex_ok, regex_match};
use crate::matching::{detect_body_ctype, header_lookup_x, query_lookup_x};
use crate::models::{
    Category, DetectedContentType, Generator, GeneratorEntry, Generators, OptionalBody, Request,
    Response, body_eq, req_eq, resp_eq,
};
use crate::pathexp::{
    PathFrag, PathToken, SpecTok, tok_selects, tok_selects_x, toks_view, parse_path,
    spec_parse_path,
};
use crate::strutil::{chars_to_string, string_chars};

verus! {

// ---------------------------------------------------------------------
// Randomness and the clock, behind trusted wrappers.
// ---------------------------------------------------------------------

/// Relies on rand's `random_range` over an inclusive range: the result
/// lies in the range; the call panics only on an empty range, which the
/// precondition rules out.
#[verifier::external_body]
fn random_in_range(lo: i64, hi: i64) -> (r: i64)
    requires
        lo <= hi,
    ensures
        lo <= r <= hi,
{
    rand::rng().random_range(lo..=hi)
}

/// Relies on `std::time::SystemTime::now` and `duration_since`: seconds
/// since the epoch, or zero for a clock before it. Nothing further can
/// be promised of the clock.
#[verifier::external_body]
fn now_epoch_secs() -> (r: u64) {
    match std::time::SystemTime::now().duration_since(std::time::UNIX_EPOCH) {
        Ok(d) => d.as_secs(),
        Err(_) => 0,
    }
}

// ---------------------------------------------------------------------
// Single-value generation.
// ---------------------------------------------------------------------

/// A lowercase hexadecimal digit.
pub open spec fn is_hex_digit(c: char) -> bool {
    ('0' <= c && c <= '9') || ('a' <= c && c <= 'f')
}

/// The hyphenated UUID shape: 36 characters, hyphens exactly after the
/// 8th, 12th, 16th and 20th digit, hex digits everywhere else.
pub open spec fn uuid_shaped(s: Seq<char>) -> bool {
    s.len() == 36 && forall|i: int| 0 <= i < 36 ==> (if i == 8 || i == 13 || i == 18 || i == 23 {
        (#[trigger] s[i]) == '-'
    } else {
        is_hex_digit(s[i])
    })
}

/// What holds of a generated node, for each generator, whatever the
/// randomness or the clock produced.
pub open spec fn gen_rel(g: Generator, prev: JsonValue, next: JsonValue) -> bool {
    match g {
        Generator::RandomInt(lo, hi) => next matches JsonValue::Int(v) && (if lo <= hi {
            lo <= v <= hi
        } else {
            hi <= v <= lo
        }),
        Generator::Uuid => next matches JsonValue::Str(s) && uuid_shaped(s@),
        Generator::RandomDecimal(d) => next matches JsonValue::Str(s) && s@.len() == d
            && crate::strutil::all_digits(s@),
        Generator::RandomHex(d) => next matches JsonValue::Str(s) && s@.len() == d && (forall|
            i: int,
        | 0 <= i < s@.len() ==> is_hex_digit(#[trigger] s@[i])),
        Generator::RandomString(d) => next matches JsonValue::Str(s) && s@.len() == d,
        Generator::Regex(p) => json_eq(next, prev) || (next matches JsonValue::Str(s)
            && regex_ok(anchored(p@)) && regex_match(anchored(p@), s@)),
        Generator::Date(f) => next matches JsonValue::Str(s) && (forall|k: int| 0 <= k < s@.len()
            ==> clock_char_ok(
            if f@.len() == 0 {
                "yyyy-MM-dd"@
            } else {
                f@
            },
            #[trigger] s@[k],
        )),
        Generator::Time(f) => next matches JsonValue::Str(s) && (forall|k: int| 0 <= k < s@.len()
            ==> clock_char_ok(
            if f@.len() == 0 {
                "HH:mm:ss"@
            } else {
                f@
            },
            #[trigger] s@[k],
        )),
        Generator::DateTime(f) => next matches JsonValue::Str(s) && (forall|k: int| 0 <= k
            < s@.len() ==> clock_char_ok(
            if f@.len() == 0 {
                "yyyy-MM-dd'T'HH:mm:ss"@
            } else {
                f@
            },
            #[trigger] s@[k],
        )),
        Generator::RandomBoolean => next is Bool,
        Generator::ProviderStateGenerator(_) => json_eq(next, prev),
    }
}

/// One character from the lowercase hex alphabet.
fn hex_char(d: i64) -> (c: char)
    requires
        0 <= d < 16,
    ensures
        is_hex_digit(c),
        d < 10 ==> crate::strutil::is_digit(c),
{
    if d == 0 { '0' }
    else if d == 1 { '1' }
    else if d == 2 { '2' }
    else if d == 3 { '3' }
    else if d == 4 { '4' }
    else if d == 5 { '5' }
    else if d == 6 { '6' }
    else if d == 7 { '7' }
    else if d == 8 { '8' }
    else if d == 9 { '9' }
    else if d == 10 { 'a' }
    else if d == 11 { 'b' }
    else if d == 12 { 'c' }
    else if d == 13 { 'd' }
    else if d == 14 { 'e' }
    else { 'f' }
}

/// A string of `n` random hex digits.
fn random_hex_string(n: usize) -> (s: String)
    ensures
        s@.len() == n,
        forall|k: int| 0 <= k < s@.len() ==> is_hex_digit(#[trigger] s@[k]),
{
    let mut out: Vec<char> = Vec::new();
    let mut i: usize = 0;
    while i < n
        invariant
            i <= n,
            out@.len() == i,
            forall|k: int| 0 <= k < i ==> is_hex_digit(#[trigger] out@[k]),
        decreases n - i,
    {
        out.push(hex_char(random_in_range(0, 15)));
        i = i + 1;
    }
    chars_to_string(&out)
}

/// A string of `n` random ASCII letters and digits.
fn random_alnum_string(n: usize) -> (s: String)
    ensures
        s@.len() == n,
{
    let mut out: Vec<char> = Vec::new();
    let mut i: usize = 0;
    while i < n
        invariant
            i <= n,
            out@.len() == i,
        decreases n - i,
    {
        let d = random_in_range(0, 61);
        let c: char = if d < 10 {
            hex_char(d)
        } else if d < 36 {
            (((d - 10) as u8) + 97) as char
        } else {
            (((d - 36) as u8) + 65) as char
        };
        out.push(c);
        i = i + 1;
    }
    chars_to_string(&out)
}

/// A 36-character hyphenated UUID form: hex digits with hyphens after
/// the 8th, 12th, 16th and 20th digit.
fn random_uuid_string() -> (s: String)
    ensures
        uuid_shaped(s@),
{
    let mut out: Vec<char> = Vec::new();
    let mut i: usize = 0;
    while i < 36
        invariant
            i <= 36,
            out@.len() == i,
            forall|k: int| 0 <= k < i ==> (if k == 8 || k == 13 || k == 18 || k == 23 {
                (#[trigger] out@[k]) == '-'
            } else {
                is_hex_digit(out@[k])
            }),
        decreases 36 - i,
    {
        if i == 8 || i == 13 || i == 18 || i == 23 {
            out.push('-');
        } else {
            out.push(hex_char(random_in_range(0, 15)));
        }
        i = i + 1;
    }
    chars_to_string(&out)
}

/// The decimal rendering of `n`, left-padded with zeros to `width`.
fn zero_pad(n: u64, width: usize) -> (s: String)
    ensures
        s@.len() >= width,
        s@.len() > 0,
        crate::strutil::all_digits(s@),
{
    let digits = crate::strutil::u64_to_string(n);
    proof {
        crate::strutil::lemma_dec_str_all_digits(n as int);
    }
    let dv = string_chars(digits.as_str());
    let mut out: Vec<char> = Vec::new();
    let mut need: usize = 0;
    if dv.len() < width {
        need = width - dv.len();
    }
    let mut i: usize = 0;
    while i < need
        invariant
            i <= need,
            out@.len() == i,
            forall|k: int| 0 <= k < i ==> crate::strutil::is_digit(#[trigger] out@[k]),
        decreases need - i,
    {
        out.push('0');
        i = i + 1;
    }
    let mut j: usize = 0;
    while j < dv.len()
        invariant
            j <= dv@.len(),
            dv@ == crate::strutil::dec_str(n as int),
            crate::strutil::all_digits(dv@),
            out@.len() == need + j,
            need + dv@.len() >= width,
            forall|k: int| 0 <= k < out@.len() ==> crate::strutil::is_digit(#[trigger] out@[k]),
        decreases dv@.len() - j,
    {
        proof {
            assert(dv@[j as int] == crate::strutil::dec_str(n as int)[j as int]);
            assert(crate::strutil::is_digit(dv@[j as int]));
        }
        out.push(dv[j]);
        j = j + 1;
    }
    chars_to_string(&out)
}

/// A character a formatted clock string may hold: a decimal digit, or
/// a character of the format itself.
pub open spec fn clock_char_ok(fmt: Seq<char>, c: char) -> bool {
    crate::strutil::is_digit(c) || exists|m: int| 0 <= m < fmt.len() && fmt[m] == c
}

/// The calendar date of an epoch-second count, with out-of-range results
/// clamped to safe values.
fn civil_from_epoch(secs: u64) -> (r: (u64, u64, u64))
    ensures
        1 <= r.1 <= 12,
        1 <= r.2 <= 31,
{
    let days: i64 = (secs / 86400) as i64;
    let z: i64 = days + 719468;
    let era: i64 = z / 146097;
    let doe: i64 = z % 146097;
    if doe < 0 {
        return (1970, 1, 1);
    }
    let yoe: i64 = (doe - doe / 1460 + doe / 36524 - doe / 146096) / 365;
    if yoe < 0 || yoe > 399 {
        return (1970, 1, 1);
    }
    let sub: i64 = 365 * yoe + yoe / 4 - yoe / 100;
    if sub < 0 || sub > doe {
        return (1970, 1, 1);
    }
    let doy: i64 = doe - sub;
    let mp: i64 = (5 * doy + 2) / 153;
    if mp < 0 || mp > 11 {
        return (1970, 1, 1);
    }
    let d: i64 = doy - (153 * mp + 2) / 5 + 1;
    if d < 1 || d > 31 {
        return (1970, 1, 1);
    }
    let m: i64 = if mp < 10 {
        mp + 3
    } else {
        mp - 9
    };
    let mut y: i64 = yoe + era * 400;
    if m <= 2 {
        y = y + 1;
    }
    if y < 0 || y > 9999 {
        return (1970, m as u64, d as u64);
    }
    (y as u64, m as u64, d as u64)
}

/// Expands a temporal format against clock fields: runs of `y`, `M`,
/// `d`, `H`, `m` and `s` become the zero-padded field; anything else is
/// kept literally.
fn format_clock(fmt: &str, y: u64, mo: u64, d: u64, h: u64, mi: u64, sec: u64) -> (s: String)
    ensures
        forall|k: int| 0 <= k < s@.len() ==> clock_char_ok(fmt@, #[trigger] s@[k]),
{
    let cs = string_chars(fmt);
    let mut out = String::new();
    let mut i: usize = 0;
    while i < cs.len()
        invariant
            i <= cs@.len(),
            cs@ == fmt@,
            forall|k: int| 0 <= k < out@.len() ==> clock_char_ok(fmt@, #[trigger] out@[k]),
        decreases cs@.len() - i,
    {
        let c = cs[i];
        let mut run: usize = 1;
        while i + run < cs.len() && cs[i + run] == c
            invariant
                1 <= run,
                i < cs@.len(),
                i + run <= cs@.len(),
                cs@.len() <= usize::MAX,
            decreases cs@.len() - i - run,
        {
            run = run + 1;
        }
        let piece: Option<u64> = if c == 'y' {
            Some(y)
        } else if c == 'M' {
            Some(mo)
        } else if c == 'd' {
            Some(d)
        } else if c == 'H' {
            Some(h)
        } else if c == 'm' {
            Some(mi)
        } else if c == 's' {
            Some(sec)
        } else {
            None
        };
        match piece {
            Some(v) => out.append(zero_pad(v, run).as_str()),
            None => {
                proof {
                    assert(clock_char_ok(fmt@, c)) by {
                        assert(fmt@[i as int] == c);
                    }
                }
                let mut k: usize = 0;
                while k < run
                    invariant
                        clock_char_ok(fmt@, c),
                        forall|m: int| 0 <= m < out@.len() ==> clock_char_ok(
                            fmt@,
                            #[trigger] out@[m],
                        ),
                    decreases run - k,
                {
                    let one: Vec<char> = vec![c];
                    out.append(chars_to_string(&one).as_str());
                    k = k + 1;
                }
            },
        }
        i = i + run;
    }
    out
}

/// The current clock, formatted; an empty format falls back to the
/// given default pattern.
fn clock_string(fmt: &str, default_fmt: &str) -> (s: String)
    ensures
        forall|k: int| 0 <= k < s@.len() ==> clock_char_ok(
            if fmt@.len() == 0 {
                default_fmt@
            } else {
                fmt@
            },
            #[trigger] s@[k],
        ),
{
    let secs = now_epoch_secs();
    let (y, mo, d) = civil_from_epoch(secs);
    let h = (secs % 86400) / 3600;
    let mi = (secs % 3600) / 60;
    let sec = secs % 60;
    if fmt.unicode_len() == 0 {
        format_clock(default_fmt, y, mo, d, h, mi, sec)
    } else {
        format_clock(fmt, y, mo, d, h, mi, sec)
    }
}

/// Generates the replacement for one node. The reverse-regex
/// construction only tries a few fixed candidate strings against the
/// anchored pattern; when none satisfies it — which most patterns will
/// bring about — the construction counts as failed and the original
/// value is kept, as a failed generator must keep it.
pub fn generate_value(g: &Generator, prev: &JsonValue) -> (r: JsonValue)
    ensures
        gen_rel(*g, *prev, r),
{
    match g {
        Generator::RandomInt(lo, hi) => {
            let (a, b): (i64, i64) = if *lo <= *hi {
                (*lo, *hi)
            } else {
                (*hi, *lo)
            };
            JsonValue::Int(random_in_range(a, b))
        },
        Generator::Uuid => JsonValue::Str(random_uuid_string()),
        Generator::RandomDecimal(d) => {
            let n: usize = *d as usize;
            let mut out: Vec<char> = Vec::new();
            let mut i: usize = 0;
            while i < n
                invariant
                    i <= n,
                    out@.len() == i,
                    forall|k: int| 0 <= k < i ==> crate::strutil::is_digit(#[trigger] out@[k]),
                decreases n - i,
            {
                out.push(hex_char(random_in_range(0, 9)));
                i = i + 1;
            }
            JsonValue::Str(chars_to_string(&out))
        },
        Generator::RandomHex(d) => JsonValue::Str(random_hex_string(*d as usize)),
        Generator::RandomString(d) => JsonValue::Str(random_alnum_string(*d as usize)),
        Generator::Regex(p) => {
            let candidates: [&str; 4] = ["a", "0", "abc123", ""];
            let mut i: usize = 0;
            while i < 4
                invariant
                    i <= 4,
                    *g == Generator::Regex(*p),
                decreases 4 - i,
            {
                let c = candidates[i];
                match crate::matchers::regex_full_match(p.as_str(), c) {
                    Some(true) => {
                        return JsonValue::Str(c.to_owned());
                    },
                    _ => {},
                }
                i = i + 1;
            }
            let out = dup_json(prev);
            out
        },
        Generator::Date(f) => JsonValue::Str(clock_string(f.as_str(), "yyyy-MM-dd")),
        Generator::Time(f) => JsonValue::Str(clock_string(f.as_str(), "HH:mm:ss")),
        Generator::DateTime(f) => JsonValue::Str(
            clock_string(f.as_str(), "yyyy-MM-dd'T'HH:mm:ss"),
        ),
        Generator::RandomBoolean => JsonValue::Bool(random_in_range(0, 1) == 1),
        Generator::ProviderStateGenerator(_) => dup_json(prev),
    }
}

// ---------------------------------------------------------------------
// Applying a generator along a compiled path.
// ---------------------------------------------------------------------

/// How a tree may change under one generator applied along a token list
/// from position `ti`: only nodes selected by the remaining tokens are
/// regenerated; every other node keeps its value.
pub open spec fn apply_rel(
    prev: JsonValue,
    next: JsonValue,
    toks: Seq<SpecTok>,
    ti: int,
    g: Generator,
) -> bool
    decreases prev,
{
    if ti >= toks.len() {
        gen_rel(g, prev, next)
    } else {
        match (prev, next) {
            (JsonValue::Object(xs), JsonValue::Object(ys)) => {
                &&& xs.len() == ys.len()
                &&& forall|i: int| 0 <= i < xs.len() ==> {
                    &&& (#[trigger] ys[i]).0@ == xs[i].0@
                    &&& if tok_selects(toks[ti], crate::pathexp::SpecFrag::Key(xs[i].0@)) {
                        apply_rel(xs[i].1, ys[i].1, toks, ti + 1, g)
                    } else {
                        json_eq(ys[i].1, xs[i].1)
                    }
                }
            },
            (JsonValue::Array(xs), JsonValue::Array(ys)) => {
                &&& xs.len() == ys.len()
                &&& forall|i: int| 0 <= i < xs.len()
                    ==> if tok_selects(toks[ti], crate::pathexp::SpecFrag::Num(i)) {
                        apply_rel(#[trigger] xs[i], ys[i], toks, ti + 1, g)
                    } else {
                        json_eq(ys[i], xs[i])
                    }
            },
            _ => json_eq(next, prev),
        }
    }
}

/// Applies the generator to every node the remaining tokens select.
pub fn apply_at(v: JsonValue, toks: &Vec<PathToken>, ti: usize, g: &Generator) -> (r: JsonValue)
    requires
        ti <= toks@.len(),
    ensures
        apply_rel(v, r, toks_view(toks@), ti as int, *g),
    decreases v,
{
    let ntoks = toks.len();
    if ti >= ntoks {
        return generate_value(g, &v);
    }
    match v {
        JsonValue::Object(mut xs) => {
            let ghost orig = xs@;
            let _n0 = xs.len();
            let mut out: Vec<(String, JsonValue)> = Vec::new();
            let mut i: usize = 0;
            while xs.len() > 0
                invariant
                    ti < toks@.len(),
                    toks@.len() <= usize::MAX,
                    orig.len() <= usize::MAX,
                    i + xs@.len() == orig.len(),
                    out@.len() == i,
                    xs@ == orig.subrange(i as int, orig.len() as int),
                    v matches JsonValue::Object(ov) && ov@ == orig,
                    forall|k: int| 0 <= k < i ==> {
                        &&& (#[trigger] out@[k]).0@ == orig[k].0@
                        &&& if tok_selects(
                            toks_view(toks@)[ti as int],
                            crate::pathexp::SpecFrag::Key(orig[k].0@),
                        ) {
                            apply_rel(orig[k].1, out@[k].1, toks_view(toks@), ti + 1, *g)
                        } else {
                            json_eq(out@[k].1, orig[k].1)
                        }
                    },
                decreases xs@.len(),
            {
                let (key, val) = xs.remove(0);
                proof {
                    assert(orig[i as int] == (key, val));
                    assert(decreases_to!(v => v->Object_0));
                    assert(decreases_to!(v->Object_0 => (v->Object_0)@));
                    assert(decreases_to!((v->Object_0)@ => orig[i as int]));
                    assert(decreases_to!(orig[i as int] => orig[i as int].1));
                    assert(decreases_to!(v => orig[i as int].1));
                    assert(xs@ =~= orig.subrange(i + 1, orig.len() as int));
                }
                let frag = PathFrag::Key(key.clone());
                let nv: JsonValue = if tok_selects_x(&toks[ti], &frag) {
                    apply_at(val, toks, ti + 1, g)
                } else {
                    proof {
                        lemma_json_eq_refl(val);
                    }
                    val
                };
                out.push((key, nv));
                i = i + 1;
            }
            proof {
                assert(xs@.len() == 0);
            }
            JsonValue::Object(out)
        },
        JsonValue::Array(mut xs) => {
            let ghost orig = xs@;
            let _n0 = xs.len();
            let mut out: Vec<JsonValue> = Vec::new();
            let mut i: usize = 0;
            while xs.len() > 0
                invariant
                    ti < toks@.len(),
                    toks@.len() <= usize::MAX,
                    orig.len() <= usize::MAX,
                    i + xs@.len() == orig.len(),
                    out@.len() == i,
                    xs@ == orig.subrange(i as int, orig.len() as int),
                    v matches JsonValue::Array(ov) && ov@ == orig,
                    forall|k: int| 0 <= k < i
                        ==> if tok_selects(
                            toks_view(toks@)[ti as int],
                            crate::pathexp::SpecFrag::Num(k),
                        ) {
                            apply_rel(orig[k], #[trigger] out@[k], toks_view(toks@), ti + 1, *g)
                        } else {
                            json_eq(out@[k], orig[k])
                        },
                decreases xs@.len(),
            {
                let val = xs.remove(0);
                proof {
                    assert(orig[i as int] == val);
                    assert(decreases_to!(v => v->Array_0));
                    assert(decreases_to!(v->Array_0 => (v->Array_0)@));
                    assert(decreases_to!((v->Array_0)@ => orig[i as int]));
                    assert(decreases_to!(v => orig[i as int]));
                    assert(xs@ =~= orig.subrange(i + 1, orig.len() as int));
                }
                let frag = PathFrag::Num(i as u64);
                let nv: JsonValue = if tok_selects_x(&toks[ti], &frag) {
                    apply_at(val, toks, ti + 1, g)
                } else {
                    proof {
                        lemma_json_eq_refl(val);
                    }
                    val
                };
                out.push(nv);
                i = i + 1;
            }
            JsonValue::Array(out)
        },
        other => {
            proof {
                lemma_json_eq_refl(other);
            }
            other
        },
    }
}

/// A JSON body with its generators applied in place.
pub struct JsonHandler {
    pub value: JsonValue,
}

impl JsonHandler {
    /// Applies one generator to every node selected by the path
    /// expression. An expression outside the grammar selects nothing
    /// and leaves the value unchanged.
    pub fn apply_key(&mut self, key: &str, generator: &Generator)
        ensures
            spec_parse_path(key@) is None ==> json_eq(final(self).value, old(self).value),
            spec_parse_path(key@) matches Some(ts) ==> apply_rel(
                old(self).value,
                final(self).value,
                ts,
                1,
                *generator,
            ),
    {
        match parse_path(key) {
            Some(toks) => {
                proof {
                    crate::pathexp::lemma_parse_path_shape(key@);
                }
                let mut prev = JsonValue::Null;
                core::mem::swap(&mut prev, &mut self.value);
                let next = apply_at(prev, &toks, 1, generator);
                self.value = next;
            },
            None => {
                proof {
                    lemma_json_eq_refl(old(self).value);
                }
            },
        }
    }
}


// ---------------------------------------------------------------------
// Bodies, requests and responses.
// ---------------------------------------------------------------------

/// Whether the catalog holds a generator in a category.
pub open spec fn has_cat_gens(entries: Seq<GeneratorEntry>, cat: Category) -> bool {
    exists|i: int| 0 <= i < entries.len() && (#[trigger] entries[i]).category == cat
}

/// The first catalog entry in a category, scanning from `i`.
pub open spec fn first_cat_idx(entries: Seq<GeneratorEntry>, cat: Category, i: int) -> Option<int>
    decreases entries.len() - i,
{
    if i < 0 || i >= entries.len() {
        None
    } else if entries[i].category == cat {
        Some(i)
    } else {
        first_cat_idx(entries, cat, i + 1)
    }
}

/// One catalog entry's effect on a parsed JSON body: a body-category
/// entry is applied along its parsed path expression; any other entry,
/// or one whose expression is outside the grammar, leaves the tree
/// unchanged in value.
pub open spec fn gen_step(e: GeneratorEntry, prev: JsonValue, next: JsonValue) -> bool {
    if e.category == Category::Body {
        match spec_parse_path(e.key@) {
            Some(ts) => apply_rel(prev, next, ts, 1, e.generator),
            None => json_eq(next, prev),
        }
    } else {
        next == prev
    }
}

/// A record of the body-generator fold: a chain of trees where catalog
/// entry `i` carries tree `i` to tree `i + 1`.
pub open spec fn gens_chain(entries: Seq<GeneratorEntry>, trees: Seq<JsonValue>) -> bool {
    trees.len() == entries.len() + 1 && forall|i: int| 0 <= i < entries.len() ==> gen_step(
        entries[i],
        trees[i],
        #[trigger] trees[i + 1],
    )
}

/// Decides whether the catalog holds a generator in a category.
fn has_cat_gens_x(entries: &Vec<GeneratorEntry>, cat: Category) -> (r: bool)
    ensures
        r == has_cat_gens(entries@, cat),
{
    let mut i: usize = 0;
    while i < entries.len()
        invariant
            i <= entries@.len(),
            forall|k: int| 0 <= k < i ==> (#[trigger] entries@[k]).category != cat,
        decreases entries@.len() - i,
    {
        if entries[i].category == cat {
            return true;
        }
        i = i + 1;
    }
    false
}

/// The string form of a generated node: the bare text of a string, the
/// canonical rendering of anything else.
fn value_to_plain_string(v: &JsonValue) -> (s: String)
    ensures
        s@ == crate::matchers::json_text_of(*v),
{
    crate::matchers::json_text_string(v)
}

impl Generators {
    /// Applies the body-category generators to a body. Absent, null and
    /// empty bodies pass through unchanged, as do bodies with no body
    /// generators, text bodies, and bodies that do not parse.
    pub fn apply_body_generators(
        &self,
        body: &OptionalBody,
        content_type: DetectedContentType,
    ) -> (r: OptionalBody)
        ensures
            !(*body is Present) ==> body_eq(r, *body),
            !has_cat_gens(self.entries@, Category::Body) ==> body_eq(r, *body),
            content_type is Text ==> body_eq(r, *body),
            *body matches OptionalBody::Present(t) ==> (has_cat_gens(
                self.entries@,
                Category::Body,
            ) && content_type is Json) ==> (crate::jsonparse::sp_doc(t@) matches Some(g) ==> (
            r matches OptionalBody::Present(s) && exists|trees: Seq<JsonValue>|
                #[trigger] gens_chain(self.entries@, trees) && s@ == crate::jsonval::ser_json(
                    trees.last(),
                ) && crate::jsonparse::denotes(trees[0], g))),
            *body matches OptionalBody::Present(t) ==> content_type is Json
                ==> crate::jsonparse::sp_doc(t@) is None ==> body_eq(r, *body),
    {
        match body {
            OptionalBody::Present(text) => {
                if !has_cat_gens_x(&self.entries, Category::Body) {
                    return body.dup();
                }
                match content_type {
                    DetectedContentType::Text => body.dup(),
                    DetectedContentType::Xml => {
                        match crate::xmlval::parse_xml(text.as_str()) {
                            Some(tree) => {
                                let mut root = tree;
                                let mut i: usize = 0;
                                while i < self.entries.len()
                                    decreases self.entries@.len() - i,
                                {
                                    let e = &self.entries[i];
                                    if e.category == Category::Body {
                                        let taken = root;
                                        root = crate::xmlval::apply_xml_key(
                                            taken,
                                            e.key.as_str(),
                                            &e.generator,
                                        );
                                    }
                                    i = i + 1;
                                }
                                OptionalBody::Present(crate::xmlval::xml_to_string(&root))
                            },
                            None => body.dup(),
                        }
                    },
                    DetectedContentType::Json => {
                        match crate::jsonparse::parse_json(text.as_str()) {
                            Some(tree) => {
                                let ghost tree0 = tree;
                                let mut handler = JsonHandler { value: tree };
                                let ghost mut trees: Seq<JsonValue> = seq![handler.value];
                                let mut i: usize = 0;
                                while i < self.entries.len()
                                    invariant
                                        i <= self.entries@.len(),
                                        trees.len() == i + 1,
                                        trees[0] == tree0,
                                        trees.last() == handler.value,
                                        forall|k: int| 0 <= k < i ==> gen_step(
                                            self.entries@[k],
                                            trees[k],
                                            #[trigger] trees[k + 1],
                                        ),
                                    decreases self.entries@.len() - i,
                                {
                                    let e = &self.entries[i];
                                    let ghost mid = handler.value;
                                    if e.category == Category::Body {
                                        handler.apply_key(e.key.as_str(), &e.generator);
                                    }
                                    proof {
                                        assert(gen_step(
                                            self.entries@[i as int],
                                            mid,
                                            handler.value,
                                        ));
                                        trees = trees.push(handler.value);
                                    }
                                    i = i + 1;
                                }
                                proof {
                                    assert(gens_chain(self.entries@, trees));
                                }
                                OptionalBody::Present(
                                    crate::jsonval::json_to_string(&handler.value),
                                )
                            },
                            None => body.dup(),
                        }
                    },
                }
            },
            _ => body.dup(),
        }
    }
}

/// The first generator in a category, with its key.
fn find_cat_gen(entries: &Vec<GeneratorEntry>, cat: Category) -> (r: Option<usize>)
    ensures
        match r {
            Some(k) => first_cat_idx(entries@, cat, 0) == Some(k as int) && k < entries@.len()
                && entries@[k as int].category == cat,
            None => first_cat_idx(entries@, cat, 0) is None && !has_cat_gens(entries@, cat),
        },
{
    let mut i: usize = 0;
    while i < entries.len()
        invariant
            i <= entries@.len(),
            forall|k: int| 0 <= k < i ==> (#[trigger] entries@[k]).category != cat,
            first_cat_idx(entries@, cat, 0) == first_cat_idx(entries@, cat, i as int),
        decreases entries@.len() - i,
    {
        if entries[i].category == cat {
            return Some(i);
        }
        i = i + 1;
    }
    None
}

/// Replaces each named header value with generator output.
fn generate_headers(
    headers: Option<Vec<(String, String)>>,
    entries: &Vec<GeneratorEntry>,
) -> (r: Option<Vec<(String, String)>>)
    ensures
        !has_cat_gens(entries@, Category::Header) ==> crate::models::headers_eq(r, headers),
{
    match headers {
        Option::None => Option::None,
        Option::Some(mut hs) => {
            let ghost orig = hs@;
            let mut i: usize = 0;
            while i < entries.len()
                invariant
                    !has_cat_gens(entries@, Category::Header) ==> hs@ == orig,
                    i <= entries@.len(),
                decreases entries@.len() - i,
            {
                let e = &entries[i];
                if e.category == Category::Header {
                    proof {
                        assert(has_cat_gens(entries@, Category::Header)) by {
                            assert((#[trigger] entries@[i as int]).category == Category::Header);
                        }
                    }
                    match header_lookup_x(&hs, e.key.as_str(), 0) {
                        Some(j) => {
                            let nv = generate_value(&e.generator, &JsonValue::Str(hs[j].1.clone()));
                            let name = hs[j].0.clone();
                            hs.set(j, (name, value_to_plain_string(&nv)));
                        },
                        None => {},
                    }
                }
                i = i + 1;
            }
            proof {
                if !has_cat_gens(entries@, Category::Header) {
                    assert(crate::models::headers_eq(Option::Some(hs), headers));
                }
            }
            Option::Some(hs)
        },
    }
}

/// Replaces the first value of each named query parameter.
fn generate_query(
    query: Option<Vec<(String, Vec<String>)>>,
    entries: &Vec<GeneratorEntry>,
) -> (r: Option<Vec<(String, Vec<String>)>>)
    ensures
        !has_cat_gens(entries@, Category::Query) ==> crate::models::query_eq(r, query),
{
    match query {
        Option::None => Option::None,
        Option::Some(mut qs) => {
            let ghost orig = qs@;
            let mut i: usize = 0;
            while i < entries.len()
                invariant
                    !has_cat_gens(entries@, Category::Query) ==> qs@ == orig,
                    i <= entries@.len(),
                decreases entries@.len() - i,
            {
                let e = &entries[i];
                if e.category == Category::Query {
                    proof {
                        assert(has_cat_gens(entries@, Category::Query)) by {
                            assert((#[trigger] entries@[i as int]).category == Category::Query);
                        }
                    }
                    match query_lookup_x(&qs, e.key.as_str(), 0) {
                        Some(j) => {
                            if qs[j].1.len() > 0 {
                                let nv = generate_value(
                                    &e.generator,
                                    &JsonValue::Str(qs[j].1[0].clone()),
                                );
                                let name = qs[j].0.clone();
                                let mut vals = qs[j].1.clone();
                                vals.set(0, value_to_plain_string(&nv));
                                qs.set(j, (name, vals));
                            }
                        },
                        None => {},
                    }
                }
                i = i + 1;
            }
            proof {
                if !has_cat_gens(entries@, Category::Query) {
                    assert(crate::models::query_eq(Option::Some(qs), query));
                }
            }
            Option::Some(qs)
        },
    }
}

/// A generator's relation to its previous node depends on that node
/// only through its value.
proof fn lemma_gen_rel_str_prev(
    g: Generator,
    a: Seq<char>,
    p1: JsonValue,
    p2: JsonValue,
    v: JsonValue,
)
    requires
        gen_rel(g, p1, v),
        p1 matches JsonValue::Str(x) && x@ == a,
        p2 matches JsonValue::Str(y) && y@ == a,
    ensures
        gen_rel(g, p2, v),
{
    match g {
        Generator::Regex(_) => {
            if json_eq(v, p1) {
                assert(json_eq(v, p2));
            }
        },
        Generator::ProviderStateGenerator(_) => {
            assert(json_eq(v, p1));
            assert(json_eq(v, p2));
        },
        _ => {},
    }
}

/// Instantiates a request template: applies its generators to path,
/// headers, query parameters and body. A category with no generator
/// entry keeps its field equal in value; a path generator replaces the
/// path by the string form of the generated node; a JSON body with body
/// generators comes back as the rendering of the tree with each body
/// entry applied in catalog order. Method, rules and generators are
/// never changed.
pub fn generate_request(r: &Request) -> (out: Request)
    ensures
        r.generators.entries@.len() == 0 ==> req_eq(out, *r),
        out.method@ == r.method@,
        crate::models::rules_eq(out.matching_rules, r.matching_rules),
        crate::models::generators_eq(out.generators, r.generators),
        !has_cat_gens(r.generators.entries@, Category::Path) ==> out.path@ == r.path@,
        first_cat_idx(r.generators.entries@, Category::Path, 0) matches Some(k) ==> exists|
            v: JsonValue,
        |
            #[trigger] gen_rel(r.generators.entries@[k].generator, JsonValue::Str(r.path), v)
                && out.path@ == crate::matchers::json_text_of(v),
        !has_cat_gens(r.generators.entries@, Category::Header) ==> crate::models::headers_eq(
            out.headers,
            r.headers,
        ),
        !has_cat_gens(r.generators.entries@, Category::Query) ==> crate::models::query_eq(
            out.query,
            r.query,
        ),
        !has_cat_gens(r.generators.entries@, Category::Body) ==> body_eq(out.body, r.body),
        crate::matching::body_ctype(r.headers, r.body) is Text ==> body_eq(out.body, r.body),
        !(r.body is Present) ==> body_eq(out.body, r.body),
        r.body matches OptionalBody::Present(t) ==> (has_cat_gens(
            r.generators.entries@,
            Category::Body,
        ) && crate::matching::body_ctype(r.headers, r.body) is Json) ==> (
        crate::jsonparse::sp_doc(t@) matches Some(g) ==> (out.body
            matches OptionalBody::Present(s) && exists|trees: Seq<JsonValue>|
            #[trigger] gens_chain(r.generators.entries@, trees) && s@ == crate::jsonval::ser_json(
                trees.last(),
            ) && crate::jsonparse::denotes(trees[0], g))),
        r.body matches OptionalBody::Present(t) ==> crate::matching::body_ctype(
            r.headers,
            r.body,
        ) is Json ==> crate::jsonparse::sp_doc(t@) is None ==> body_eq(out.body, r.body),
{
    let entries = &r.generators.entries;
    let mut path = r.path.clone();
    match find_cat_gen(entries, Category::Path) {
        Some(k) => {
            let ghost path0 = path;
            let nv = generate_value(&entries[k].generator, &JsonValue::Str(path));
            path = value_to_plain_string(&nv);
            proof {
                lemma_gen_rel_str_prev(
                    r.generators.entries@[k as int].generator,
                    r.path@,
                    JsonValue::Str(path0),
                    JsonValue::Str(r.path),
                    nv,
                );
                assert(gen_rel(
                    r.generators.entries@[k as int].generator,
                    JsonValue::Str(r.path),
                    nv,
                ) && path@ == crate::matchers::json_text_of(nv));
            }
        },
        None => {},
    }
    let headers = generate_headers(crate::models::dup_headers(&r.headers), entries);
    let query = generate_query(crate::models::dup_query(&r.query), entries);
    let ctype = detect_body_ctype(&r.headers, &r.body);
    let body = r.generators.apply_body_generators(&r.body, ctype);
    proof {
        if !has_cat_gens(r.generators.entries@, Category::Header) {
            assert(crate::models::headers_eq(headers, r.headers));
        }
        if !has_cat_gens(r.generators.entries@, Category::Query) {
            assert(crate::models::query_eq(query, r.query));
        }
    }
    Request {
        method: r.method.clone(),
        path,
        query,
        headers,
        body,
        matching_rules: crate::models::dup_rules(&r.matching_rules),
        generators: crate::models::dup_generators(&r.generators),
    }
}

/// A generated status clamped into the valid status range.
pub open spec fn clamp_status(n: int) -> u16 {
    if n < 100 {
        100u16
    } else if n > 599 {
        599u16
    } else {
        n as u16
    }
}

/// Instantiates a response template: applies its generators to status,
/// headers and body. A category with no generator entry keeps its field
/// equal in value; a generated integer status is clamped into the valid
/// status range; rules and generators are never changed.
pub fn generate_response(r: &Response) -> (out: Response)
    ensures
        r.generators.entries@.len() == 0 ==> resp_eq(out, *r),
        crate::models::rules_eq(out.matching_rules, r.matching_rules),
        crate::models::generators_eq(out.generators, r.generators),
        !has_cat_gens(r.generators.entries@, Category::Status) ==> out.status == r.status,
        first_cat_idx(r.generators.entries@, Category::Status, 0) matches Some(k) ==> exists|
            v: JsonValue,
        |
            #[trigger] gen_rel(
                r.generators.entries@[k].generator,
                JsonValue::Int(r.status as i64),
                v,
            ) && (v matches JsonValue::Int(n) ==> out.status == clamp_status(n as int)) && (!(v
                is Int) ==> out.status == r.status),
        !has_cat_gens(r.generators.entries@, Category::Header) ==> crate::models::headers_eq(
            out.headers,
            r.headers,
        ),
        !has_cat_gens(r.generators.entries@, Category::Body) ==> body_eq(out.body, r.body),
        crate::matching::body_ctype(r.headers, r.body) is Text ==> body_eq(out.body, r.body),
        !(r.body is Present) ==> body_eq(out.body, r.body),
        r.body matches OptionalBody::Present(t) ==> (has_cat_gens(
            r.generators.entries@,
            Category::Body,
        ) && crate::matching::body_ctype(r.headers, r.body) is Json) ==> (
        crate::jsonparse::sp_doc(t@) matches Some(g) ==> (out.body
            matches OptionalBody::Present(s) && exists|trees: Seq<JsonValue>|
            #[trigger] gens_chain(r.generators.entries@, trees) && s@ == crate::jsonval::ser_json(
                trees.last(),
            ) && crate::jsonparse::denotes(trees[0], g))),
        r.body matches OptionalBody::Present(t) ==> crate::matching::body_ctype(
            r.headers,
            r.body,
        ) is Json ==> crate::jsonparse::sp_doc(t@) is None ==> body_eq(out.body, r.body),
{
    let entries = &r.generators.entries;
    let mut status = r.status;
    match find_cat_gen(entries, Category::Status) {
        Some(k) => {
            let nv = generate_value(&entries[k].generator, &JsonValue::Int(status as i64));
            match &nv {
                JsonValue::Int(v) => {
                    if *v < 100 {
                        status = 100;
                    } else if *v > 599 {
                        status = 599;
                    } else {
                        status = *v as u16;
                    }
                },
                _ => {},
            }
            proof {
                assert(gen_rel(
                    r.generators.entries@[k as int].generator,
                    JsonValue::Int(r.status as i64),
                    nv,
                ) && (nv matches JsonValue::Int(n) ==> status == clamp_status(n as int)) && (!(nv
                    is Int) ==> status == r.status));
            }
        },
        None => {},
    }
    let headers = generate_headers(crate::models::dup_headers(&r.headers), entries);
    let ctype = detect_body_ctype(&r.headers, &r.body);
    let body = r.generators.apply_body_generators(&r.body, ctype);
    proof {
        if !has_cat_gens(r.generators.entries@, Category::Header) {
            assert(crate::models::headers_eq(headers, r.headers));
        }
    }
    Response {
        status,
        headers,
        body,
        matching_rules: crate::models::dup_rules(&r.matching_rules),
        generators: crate::models::dup_generators(&r.generators),
    }
}

} // verus!
