//! JSON trees: the structured form bodies are matched and generated on.
//! Objects keep their fields in document order; numbers are 64-bit
//! integers (a body with other numbers falls back to text handling).

use vstd::prelude::*;
use crate::strutil::dec_str;

verus! {

/// A JSON value.
#[derive(Debug)]
pub enum JsonValue {
    Null,
    Bool(bool),
    Int(i64),
    Str(String),
    Array(Vec<JsonValue>),
    Object(Vec<(String, JsonValue)>),
}

/// Value equality of JSON trees: same shape, strings by their character
/// sequences, objects field by field in order.
pub open spec fn json_eq(a: JsonValue, b: JsonValue) -> bool
    decreases a,
{
    match (a, b) {
        (JsonValue::Null, JsonValue::Null) => true,
        (JsonValue::Bool(x), JsonValue::Bool(y)) => x == y,
        (JsonValue::Int(x), JsonValue::Int(y)) => x == y,
        (JsonValue::Str(x), JsonValue::Str(y)) => x@ == y@,
        (JsonValue::Array(xs), JsonValue::Array(ys)) => {
            &&& xs.len() == ys.len()
            &&& forall|i: int| 0 <= i < xs.len() ==> json_eq(#[trigger] xs[i], ys[i])
        },
        (JsonValue::Object(xs), JsonValue::Object(ys)) => {
            &&& xs.len() == ys.len()
            &&& forall|i: int| 0 <= i < xs.len()
                ==> (#[trigger] xs[i]).0@ == ys[i].0@ && json_eq(xs[i].1, ys[i].1)
        },
        _ => false,
    }
}

/// Every tree equals itself.
pub proof fn lemma_json_eq_refl(a: JsonValue)
    ensures
        json_eq(a, a),
    decreases a,
{
    match a {
        JsonValue::Array(xs) => {
            assert forall|i: int| 0 <= i < xs.len() implies json_eq(#[trigger] xs[i], xs[i]) by {
                lemma_json_eq_refl(xs[i]);
            }
        },
        JsonValue::Object(xs) => {
            assert forall|i: int| 0 <= i < xs.len() implies (#[trigger] xs[i]).0@ == xs[i].0@
                && json_eq(xs[i].1, xs[i].1) by {
                lemma_json_eq_refl(xs[i].1);
            }
        },
        _ => {},
    }
}

/// Equality of trees is symmetric.
pub proof fn lemma_json_eq_sym(a: JsonValue, b: JsonValue)
    requires
        json_eq(a, b),
    ensures
        json_eq(b, a),
    decreases a,
{
    match (a, b) {
        (JsonValue::Array(xs), JsonValue::Array(ys)) => {
            assert forall|i: int| 0 <= i < ys.len() implies json_eq(#[trigger] ys[i], xs[i]) by {
                assert(json_eq(xs[i], ys[i]));
                lemma_json_eq_sym(xs[i], ys[i]);
            }
        },
        (JsonValue::Object(xs), JsonValue::Object(ys)) => {
            assert forall|i: int| 0 <= i < ys.len() implies (#[trigger] ys[i]).0@ == xs[i].0@
                && json_eq(ys[i].1, xs[i].1) by {
                assert(xs[i].0@ == ys[i].0@ && json_eq(xs[i].1, ys[i].1));
                lemma_json_eq_sym(xs[i].1, ys[i].1);
            }
        },
        _ => {},
    }
}

/// Decides value equality of two trees.
pub fn json_eq_x(a: &JsonValue, b: &JsonValue) -> (r: bool)
    ensures
        r == json_eq(*a, *b),
    decreases *a,
{
    match (a, b) {
        (JsonValue::Null, JsonValue::Null) => true,
        (JsonValue::Bool(x), JsonValue::Bool(y)) => x == y,
        (JsonValue::Int(x), JsonValue::Int(y)) => x == y,
        (JsonValue::Str(x), JsonValue::Str(y)) => *x == *y,
        (JsonValue::Array(xs), JsonValue::Array(ys)) => {
            if xs.len() != ys.len() {
                return false;
            }
            let mut i: usize = 0;
            while i < xs.len()
                invariant
                    i <= xs@.len(),
                    xs@.len() == ys@.len(),
                    *a == JsonValue::Array(*xs),
                    *b == JsonValue::Array(*ys),
                    forall|k: int| 0 <= k < i ==> json_eq(#[trigger] xs@[k], ys@[k]),
                decreases xs@.len() - i,
    {
                proof {
                    assert(decreases_to!(*a => (*a)->Array_0));
                    assert(decreases_to!(*xs => xs@));
                    assert(decreases_to!(xs@ => xs@[i as int]));
                    assert(decreases_to!(*a => xs@[i as int]));
                }
                if !json_eq_x(&xs[i], &ys[i]) {
                    return false;
                }
                i = i + 1;
            }
            true
        },
        (JsonValue::Object(xs), JsonValue::Object(ys)) => {
            if xs.len() != ys.len() {
                return false;
            }
            let mut i: usize = 0;
            while i < xs.len()
                invariant
                    i <= xs@.len(),
                    xs@.len() == ys@.len(),
                    *a == JsonValue::Object(*xs),
                    *b == JsonValue::Object(*ys),
                    forall|k: int| 0 <= k < i
                        ==> (#[trigger] xs@[k]).0@ == ys@[k].0@ && json_eq(xs@[k].1, ys@[k].1),
                decreases xs@.len() - i,
            {
                let (ka, va) = &xs[i];
                let (kb, vb) = &ys[i];
                if !(*ka == *kb) {
                    return false;
                }
                proof {
                    assert(decreases_to!(*a => (*a)->Object_0));
                    assert(decreases_to!(*xs => xs@));
                    assert(decreases_to!(xs@ => xs@[i as int]));
                    assert(decreases_to!(xs@[i as int] => xs@[i as int].1));
                    assert(decreases_to!(*a => xs@[i as int].1));
                }
                if !json_eq_x(va, vb) {
                    return false;
                }
                i = i + 1;
            }
            true
        },
        _ => false,
    }
}

/// A copy of a tree, equal in value.
pub fn dup_json(a: &JsonValue) -> (r: JsonValue)
    ensures
        json_eq(r, *a),
    decreases *a,
{
    match a {
        JsonValue::Null => JsonValue::Null,
        JsonValue::Bool(x) => JsonValue::Bool(*x),
        JsonValue::Int(x) => JsonValue::Int(*x),
        JsonValue::Str(x) => JsonValue::Str(x.clone()),
        JsonValue::Array(xs) => {
            let mut out: Vec<JsonValue> = Vec::new();
            let mut i: usize = 0;
            while i < xs.len()
                invariant
                    i <= xs@.len(),
                    out@.len() == i,
                    *a == JsonValue::Array(*xs),
                    forall|k: int| 0 <= k < i ==> json_eq(#[trigger] out@[k], xs@[k]),
                decreases xs@.len() - i,
            {
                proof {
                    assert(decreases_to!(*a => (*a)->Array_0));
                    assert(decreases_to!(*xs => xs@));
                    assert(decreases_to!(xs@ => xs@[i as int]));
                    assert(decreases_to!(*a => xs@[i as int]));
                }
                out.push(dup_json(&xs[i]));
                i = i + 1;
            }
            JsonValue::Array(out)
        },
        JsonValue::Object(xs) => {
            let mut out: Vec<(String, JsonValue)> = Vec::new();
            let mut i: usize = 0;
            while i < xs.len()
                invariant
                    i <= xs@.len(),
                    out@.len() == i,
                    *a == JsonValue::Object(*xs),
                    forall|k: int| 0 <= k < i
                        ==> (#[trigger] out@[k]).0@ == xs@[k].0@ && json_eq(out@[k].1, xs@[k].1),
                decreases xs@.len() - i,
            {
                let (k, v) = &xs[i];
                proof {
                    assert(decreases_to!(*a => (*a)->Object_0));
                    assert(decreases_to!(*xs => xs@));
                    assert(decreases_to!(xs@ => xs@[i as int]));
                    assert(decreases_to!(xs@[i as int] => xs@[i as int].1));
                    assert(decreases_to!(*a => xs@[i as int].1));
                }
                out.push((k.clone(), dup_json(v)));
                i = i + 1;
            }
            JsonValue::Object(out)
        },
    }
}

/// The position of the first field with the given key, if any.
pub open spec fn obj_find(fields: Seq<(String, JsonValue)>, key: Seq<char>, i: int) -> Option<int>
    decreases fields.len() - i,
{
    if i < 0 || i >= fields.len() {
        None
    } else if fields[i].0@ == key {
        Some(i)
    } else {
        obj_find(fields, key, i + 1)
    }
}

/// Finds the first field with the given key.
pub fn obj_find_x(fields: &Vec<(String, JsonValue)>, key: &str, i: usize) -> (r: Option<usize>)
    requires
        i <= fields@.len(),
    ensures
        match r {
            Option::Some(k) => obj_find(fields@, key@, i as int) == Option::Some(k as int) && i
                <= k < fields@.len(),
            Option::None => obj_find(fields@, key@, i as int) is None,
        },
    decreases fields@.len() - i,
{
    if i >= fields.len() {
        return Option::None;
    }
    let (k, _) = &fields[i];
    if crate::strutil::str_eq(k.as_str(), key) {
        Option::Some(i)
    } else {
        obj_find_x(fields, key, i + 1)
    }
}

// ---------------------------------------------------------------------
// Serialization: the canonical compact rendering, fully specified.
// ---------------------------------------------------------------------

/// The canonical rendering of a tree: no whitespace, strings unescaped.
pub open spec fn ser_json(a: JsonValue) -> Seq<char>
    decreases a, 0int, 0int,
{
    match a {
        JsonValue::Null => seq!['n', 'u', 'l', 'l'],
        JsonValue::Bool(x) => if x {
            seq!['t', 'r', 'u', 'e']
        } else {
            seq!['f', 'a', 'l', 's', 'e']
        },
        JsonValue::Int(x) => dec_str(x as int),
        JsonValue::Str(s) => seq!['"'] + s@ + seq!['"'],
        JsonValue::Array(xs) => seq!['['] + ser_elems(xs, 0) + seq![']'],
        JsonValue::Object(xs) => seq!['{'] + ser_fields(xs, 0) + seq!['}'],
    }
}

/// The rendering of array elements from position `i`, comma separated.
pub open spec fn ser_elems(xs: Vec<JsonValue>, i: int) -> Seq<char>
    decreases xs, xs.len() - i, 1int,
{
    if i < 0 || i >= xs.len() {
        Seq::empty()
    } else if i == xs.len() - 1 {
        ser_json(xs[i])
    } else {
        ser_json(xs[i]) + seq![','] + ser_elems(xs, i + 1)
    }
}

/// The rendering of object fields from position `i`, comma separated.
pub open spec fn ser_fields(xs: Vec<(String, JsonValue)>, i: int) -> Seq<char>
    decreases xs, xs.len() - i, 1int,
{
    if i < 0 || i >= xs.len() {
        Seq::empty()
    } else {
        let one = seq!['"'] + xs[i].0@ + seq!['"', ':'] + ser_json(xs[i].1);
        if i == xs.len() - 1 {
            one
        } else {
            one + seq![','] + ser_fields(xs, i + 1)
        }
    }
}

/// Renders a tree onto the end of a character buffer.
pub fn ser_json_into(a: &JsonValue, out: &mut Vec<char>)
    ensures
        final(out)@ == old(out)@ + ser_json(*a),
    decreases *a,
{
    match a {
        JsonValue::Null => {
            out.push('n');
            out.push('u');
            out.push('l');
            out.push('l');
            proof {
                assert(final(out)@ =~= old(out)@ + ser_json(*a));
            }
        },
        JsonValue::Bool(x) => {
            if *x {
                out.push('t');
                out.push('r');
                out.push('u');
                out.push('e');
            } else {
                out.push('f');
                out.push('a');
                out.push('l');
                out.push('s');
                out.push('e');
            }
            proof {
                assert(final(out)@ =~= old(out)@ + ser_json(*a));
            }
        },
        JsonValue::Int(x) => {
            let s = crate::strutil::i64_to_string(*x);
            let cs = crate::strutil::string_chars(s.as_str());
            let mut k: usize = 0;
            while k < cs.len()
                invariant
                    k <= cs@.len(),
                    out@ == old(out)@ + cs@.subrange(0, k as int),
                decreases cs@.len() - k,
            {
                out.push(cs[k]);
                k = k + 1;
                proof {
                    assert(out@ =~= old(out)@ + cs@.subrange(0, k as int));
                }
            }
            proof {
                assert(cs@.subrange(0, cs@.len() as int) =~= cs@);
                assert(final(out)@ =~= old(out)@ + ser_json(*a));
            }
        },
        JsonValue::Str(s) => {
            out.push('"');
            let cs = crate::strutil::string_chars(s.as_str());
            let mut k: usize = 0;
            while k < cs.len()
                invariant
                    k <= cs@.len(),
                    cs@ == s@,
                    out@ == old(out)@ + seq!['"'] + cs@.subrange(0, k as int),
                decreases cs@.len() - k,
            {
                out.push(cs[k]);
                k = k + 1;
                proof {
                    assert(out@ =~= old(out)@ + seq!['"'] + cs@.subrange(0, k as int));
                }
            }
            out.push('"');
            proof {
                assert(cs@.subrange(0, cs@.len() as int) =~= cs@);
                assert(final(out)@ =~= old(out)@ + ser_json(*a));
            }
        },
        JsonValue::Array(xs) => {
            out.push('[');
            let mut i: usize = 0;
            while i < xs.len()
                invariant
                    i <= xs@.len(),
                    *a == JsonValue::Array(*xs),
                    i == 0 ==> out@ == old(out)@ + seq!['['],
                    0 < i < xs@.len() ==> out@ == old(out)@ + seq!['['] + ser_elems_upto(
                        *xs,
                        i as int,
                    ) + seq![','],
                    i > 0 && i == xs@.len() ==> out@ == old(out)@ + seq!['['] + ser_elems_upto(
                        *xs,
                        i as int,
                    ),
                decreases xs@.len() - i,
            {
                proof {
                    assert(decreases_to!(*a => (*a)->Array_0));
                    assert(decreases_to!(*xs => xs@));
                    assert(decreases_to!(xs@ => xs@[i as int]));
                    assert(decreases_to!(*a => xs@[i as int]));
                }
                ser_json_into(&xs[i], out);
                if i + 1 < xs.len() {
                    out.push(',');
                }
                proof {
                    lemma_ser_elems_upto_step(*xs, i as int);
                    if i + 1 < xs@.len() {
                        assert(out@ =~= old(out)@ + seq!['['] + ser_elems_upto(*xs, i + 1)
                            + seq![',']);
                    } else {
                        assert(out@ =~= old(out)@ + seq!['['] + ser_elems_upto(*xs, i + 1));
                    }
                }
                i = i + 1;
            }
            out.push(']');
            proof {
                if xs@.len() == 0 {
                    assert(ser_elems(*xs, 0) =~= Seq::<char>::empty());
                    assert(final(out)@ =~= old(out)@ + ser_json(*a));
                } else {
                    lemma_ser_elems_upto_full(*xs);
                    assert(final(out)@ =~= old(out)@ + ser_json(*a));
                }
            }
        },
        JsonValue::Object(xs) => {
            out.push('{');
            let mut i: usize = 0;
            while i < xs.len()
                invariant
                    i <= xs@.len(),
                    *a == JsonValue::Object(*xs),
                    i == 0 ==> out@ == old(out)@ + seq!['{'],
                    0 < i < xs@.len() ==> out@ == old(out)@ + seq!['{'] + ser_fields_upto(
                        *xs,
                        i as int,
                    ) + seq![','],
                    i > 0 && i == xs@.len() ==> out@ == old(out)@ + seq!['{'] + ser_fields_upto(
                        *xs,
                        i as int,
                    ),
                decreases xs@.len() - i,
            {
                let (k, v) = &xs[i];
                out.push('"');
                let cs = crate::strutil::string_chars(k.as_str());
                let mut m: usize = 0;
                let ghost mid = out@;
                while m < cs.len()
                    invariant
                        m <= cs@.len(),
                        out@ == mid + cs@.subrange(0, m as int),
                    decreases cs@.len() - m,
                {
                    out.push(cs[m]);
                    m = m + 1;
                    proof {
                        assert(out@ =~= mid + cs@.subrange(0, m as int));
                    }
                }
                out.push('"');
                out.push(':');
                proof {
                    assert(decreases_to!(*a => (*a)->Object_0));
                    assert(decreases_to!(*xs => xs@));
                    assert(decreases_to!(xs@ => xs@[i as int]));
                    assert(decreases_to!(xs@[i as int] => xs@[i as int].1));
                    assert(decreases_to!(*a => xs@[i as int].1));
                }
                ser_json_into(v, out);
                if i + 1 < xs.len() {
                    out.push(',');
                }
                proof {
                    assert(cs@.subrange(0, cs@.len() as int) =~= cs@);
                    lemma_ser_fields_upto_step(*xs, i as int);
                    if i + 1 < xs@.len() {
                        assert(out@ =~= old(out)@ + seq!['{'] + ser_fields_upto(*xs, i + 1)
                            + seq![',']);
                    } else {
                        assert(out@ =~= old(out)@ + seq!['{'] + ser_fields_upto(*xs, i + 1));
                    }
                }
                i = i + 1;
            }
            out.push('}');
            proof {
                if xs@.len() == 0 {
                    assert(ser_fields(*xs, 0) =~= Seq::<char>::empty());
                    assert(final(out)@ =~= old(out)@ + ser_json(*a));
                } else {
                    lemma_ser_fields_upto_full(*xs);
                    assert(final(out)@ =~= old(out)@ + ser_json(*a));
                }
            }
        },
    }
}

/// The rendering of the first `n` elements, comma separated, no trailing
/// comma.
pub open spec fn ser_elems_upto(xs: Vec<JsonValue>, n: int) -> Seq<char>
    decreases n,
{
    if n <= 0 {
        Seq::empty()
    } else if n == 1 {
        ser_json(xs[0])
    } else {
        ser_elems_upto(xs, n - 1) + seq![','] + ser_json(xs[n - 1])
    }
}

/// The rendering of the first `n` fields, comma separated, no trailing
/// comma.
pub open spec fn ser_fields_upto(xs: Vec<(String, JsonValue)>, n: int) -> Seq<char>
    decreases n,
{
    if n <= 0 {
        Seq::empty()
    } else {
        let one = seq!['"'] + xs[n - 1].0@ + seq!['"', ':'] + ser_json(xs[n - 1].1);
        if n == 1 {
            one
        } else {
            ser_fields_upto(xs, n - 1) + seq![','] + one
        }
    }
}

/// Appending the next element extends the prefix rendering.
proof fn lemma_ser_elems_upto_step(xs: Vec<JsonValue>, i: int)
    requires
        0 <= i < xs.len(),
    ensures
        i == 0 ==> ser_elems_upto(xs, 1) == ser_json(xs[0]),
        i > 0 ==> ser_elems_upto(xs, i + 1) == ser_elems_upto(xs, i) + seq![','] + ser_json(
            xs[i],
        ),
{
}

/// Appending the next field extends the prefix rendering.
proof fn lemma_ser_fields_upto_step(xs: Vec<(String, JsonValue)>, i: int)
    requires
        0 <= i < xs.len(),
    ensures
        i == 0 ==> ser_fields_upto(xs, 1) == seq!['"'] + xs[0].0@ + seq!['"', ':'] + ser_json(
            xs[0].1,
        ),
        i > 0 ==> ser_fields_upto(xs, i + 1) == ser_fields_upto(xs, i) + seq![','] + (
        seq!['"'] + xs[i].0@ + seq!['"', ':'] + ser_json(xs[i].1)),
{
}

/// The whole prefix rendering splits at any position.
proof fn lemma_ser_elems_upto_full_from(xs: Vec<JsonValue>, i: int)
    requires
        0 <= i < xs.len(),
    ensures
        ser_elems_upto(xs, xs.len() as int) == ser_elems_upto(xs, i + 1) + (if i + 1 < xs.len() {
            seq![','] + ser_elems(xs, i + 1)
        } else {
            Seq::<char>::empty()
        }),
    decreases xs.len() - i,
{
    if i + 1 >= xs.len() {
        assert(ser_elems_upto(xs, i + 1) + Seq::<char>::empty() =~= ser_elems_upto(xs, i + 1));
    } else {
        lemma_ser_elems_upto_full_from(xs, i + 1);
        assert(ser_elems_upto(xs, i + 2) == ser_elems_upto(xs, i + 1) + seq![','] + ser_json(
            xs[i + 1],
        ));
        if i + 2 < xs.len() {
            assert(ser_elems(xs, i + 1) == ser_json(xs[i + 1]) + seq![','] + ser_elems(xs, i + 2));
            assert(ser_elems_upto(xs, i + 2) + (seq![','] + ser_elems(xs, i + 2))
                =~= ser_elems_upto(xs, i + 1) + (seq![','] + ser_elems(xs, i + 1)));
        } else {
            assert(ser_elems(xs, i + 1) == ser_json(xs[i + 1]));
            assert(ser_elems_upto(xs, i + 2) + Seq::<char>::empty() =~= ser_elems_upto(xs, i + 1)
                + (seq![','] + ser_elems(xs, i + 1)));
        }
    }
}

/// The full prefix rendering equals the rendering of all elements.
proof fn lemma_ser_elems_upto_full(xs: Vec<JsonValue>)
    requires
        xs.len() > 0,
    ensures
        ser_elems_upto(xs, xs.len() as int) == ser_elems(xs, 0),
{
    lemma_ser_elems_upto_full_from(xs, 0);
    if 1 < xs.len() {
        assert(ser_elems(xs, 0) == ser_json(xs[0]) + seq![','] + ser_elems(xs, 1));
        assert(ser_elems_upto(xs, 1) + (seq![','] + ser_elems(xs, 1)) =~= ser_elems(xs, 0));
    } else {
        assert(ser_elems_upto(xs, 1) + Seq::<char>::empty() =~= ser_elems(xs, 0));
    }
}

/// The whole prefix field rendering splits at any position.
proof fn lemma_ser_fields_upto_full_from(xs: Vec<(String, JsonValue)>, i: int)
    requires
        0 <= i < xs.len(),
    ensures
        ser_fields_upto(xs, xs.len() as int) == ser_fields_upto(xs, i + 1) + (if i + 1 < xs.len() {
            seq![','] + ser_fields(xs, i + 1)
        } else {
            Seq::<char>::empty()
        }),
    decreases xs.len() - i,
{
    if i + 1 >= xs.len() {
        assert(ser_fields_upto(xs, i + 1) + Seq::<char>::empty() =~= ser_fields_upto(xs, i + 1));
    } else {
        lemma_ser_fields_upto_full_from(xs, i + 1);
        let one = seq!['"'] + xs[i + 1].0@ + seq!['"', ':'] + ser_json(xs[i + 1].1);
        assert(ser_fields_upto(xs, i + 2) == ser_fields_upto(xs, i + 1) + seq![','] + one);
        if i + 2 < xs.len() {
            assert(ser_fields(xs, i + 1) == one + seq![','] + ser_fields(xs, i + 2));
            assert(ser_fields_upto(xs, i + 2) + (seq![','] + ser_fields(xs, i + 2))
                =~= ser_fields_upto(xs, i + 1) + (seq![','] + ser_fields(xs, i + 1)));
        } else {
            assert(ser_fields(xs, i + 1) == one);
            assert(ser_fields_upto(xs, i + 2) + Seq::<char>::empty() =~= ser_fields_upto(xs, i + 1)
                + (seq![','] + ser_fields(xs, i + 1)));
        }
    }
}

/// The full prefix rendering equals the rendering of all fields.
proof fn lemma_ser_fields_upto_full(xs: Vec<(String, JsonValue)>)
    requires
        xs.len() > 0,
    ensures
        ser_fields_upto(xs, xs.len() as int) == ser_fields(xs, 0),
{
    lemma_ser_fields_upto_full_from(xs, 0);
    let one = seq!['"'] + xs[0].0@ + seq!['"', ':'] + ser_json(xs[0].1);
    if 1 < xs.len() {
        assert(ser_fields(xs, 0) == one + seq![','] + ser_fields(xs, 1));
        assert(ser_fields_upto(xs, 1) + (seq![','] + ser_fields(xs, 1)) =~= ser_fields(xs, 0));
    } else {
        assert(ser_fields_upto(xs, 1) + Seq::<char>::empty() =~= ser_fields(xs, 0));
    }
}

/// The number of interactions a pact document declares: the length of
/// the array under its first `interactions` key, or zero.
pub open spec fn spec_interaction_count(doc: JsonValue) -> int {
    match doc {
        JsonValue::Object(fields) => match obj_find(fields@, "interactions"@, 0) {
            Option::Some(i) => match fields@[i].1 {
                JsonValue::Array(items) => items@.len() as int,
                _ => 0,
            },
            Option::None => 0,
        },
        _ => 0,
    }
}

/// Counts the interactions a pact document declares.
pub fn interaction_count(doc: &JsonValue) -> (n: usize)
    ensures
        n as int == spec_interaction_count(*doc),
{
    match doc {
        JsonValue::Object(fields) => {
            proof {
                reveal_strlit("interactions");
            }
            match obj_find_x(fields, "interactions", 0) {
                Option::Some(i) => match &fields[i].1 {
                    JsonValue::Array(items) => items.len(),
                    _ => 0,
                },
                Option::None => 0,
            }
        },
        _ => 0,
    }
}

/// Renders a tree as a string.
pub fn json_to_string(a: &JsonValue) -> (s: String)
    ensures
        s@ == ser_json(*a),
{
    let mut out: Vec<char> = Vec::new();
    ser_json_into(a, &mut out);
    crate::strutil::chars_to_string(&out)
}

} // verus!
