//! Decisions behind the command-line verifier surface: port validation,
//! the interaction filter, and the list of pact sources. Argument
//! reading itself stays with the caller; these functions take and
//! return plain values.

use vstd::prelude::*;
use crate::strutil::{all_digits, digits_value, is_digit};

verus! {

/// A port value with any single leading plus sign removed.
pub open spec fn port_body(s: Seq<char>) -> Seq<char> {
    if s.len() > 0 && s[0] == '+' {
        s.skip(1)
    } else {
        s
    }
}

/// Whether a string reads as a 16-bit port: an optional leading plus
/// sign, then at least one decimal digit, no larger than the greatest
/// port number.
pub open spec fn port_valid(s: Seq<char>) -> bool {
    port_body(s).len() > 0 && all_digits(port_body(s)) && digits_value(port_body(s)) <= 65535
}

/// The rejection message for a port value, which names the value.
fn port_err(v: &str) -> (m: String)
    ensures
        crate::matchers::seq_contains(m@, v@),
{
    let mut m = String::new();
    m.append("'");
    m.append(v);
    m.append("' is not a valid port value");
    proof {
        reveal_strlit("'");
        assert(m@.subrange(1, 1 + v@.len() as int) =~= v@);
        assert(crate::matchers::contains_at(m@, v@, 1));
    }
    m
}

/// Validates a 16-bit port value: an optional leading plus sign, then
/// decimal digits reading no larger than the greatest port number.
pub fn integer_value(v: &str) -> (r: Result<(), String>)
    ensures
        r is Ok <==> port_valid(v@),
        r matches Err(m) ==> crate::matchers::seq_contains(m@, v@),
{
    let cs = crate::strutil::string_chars(v);
    let start: usize = if cs.len() > 0 && cs[0] == '+' {
        1
    } else {
        0
    };
    let ghost body = port_body(v@);
    proof {
        assert(body =~= v@.skip(start as int));
    }
    if cs.len() == start {
        return Result::Err(port_err(v));
    }
    let mut val: u64 = 0;
    let mut i: usize = start;
    while i < cs.len()
        invariant
            start <= i <= cs@.len(),
            cs@ == v@,
            body == port_body(v@),
            body == v@.skip(start as int),
            body.len() == v@.len() - start,
            forall|k: int| 0 <= k < i - start ==> is_digit(#[trigger] body[k]),
            digits_value(body.subrange(0, i - start)) <= 65535 ==> val == digits_value(
                body.subrange(0, i - start),
            ),
            digits_value(body.subrange(0, i - start)) > 65535 ==> val > 65535,
            val <= 655360,
        decreases cs@.len() - i,
    {
        let c = cs[i];
        proof {
            assert(body[i - start] == v@[i as int]);
        }
        if c < '0' || c > '9' {
            proof {
                assert(!is_digit(body[i - start]));
                assert(!all_digits(body));
                assert(!port_valid(v@));
            }
            return Result::Err(port_err(v));
        }
        let d: u64 = (c as u32 as u64) - ('0' as u32 as u64);
        proof {
            let pre = body.subrange(0, i - start);
            let cur = body.subrange(0, i + 1 - start);
            assert(cur.drop_last() =~= pre);
            assert(cur.last() == body[i - start]);
            crate::pathexp::lemma_digits_value_bound(pre);
        }
        if val > 65535 {
            val = 65536;
        } else {
            val = val * 10 + d;
        }
        i = i + 1;
    }
    proof {
        assert(body.subrange(0, body.len() as int) =~= body);
    }
    if val <= 65535 {
        Result::Ok(())
    } else {
        Result::Err(port_err(v))
    }
}

/// Where pacts are loaded from.
#[derive(Clone, Debug, PartialEq, Eq)]
pub enum PactSource {
    File(String),
    Dir(String),
    URL(String),
    BrokerUrl(String, String),
}

/// Which interactions a verification run covers.
#[derive(Clone, Debug, PartialEq, Eq)]
pub enum FilterInfo {
    NoFilter,
    Description(String),
    State(String),
    DescriptionAndState(String, String),
}

/// Chooses the interaction filter from the arguments: a description
/// filter combines with a state filter (or with the no-state flag as an
/// empty state); alone, each selects by itself; the no-state flag alone
/// selects interactions without a provider state; nothing selects all.
pub fn interaction_filter(
    filter_description: &Option<String>,
    filter_state: &Option<String>,
    filter_no_state: bool,
) -> (r: FilterInfo)
    ensures
        match (filter_description, filter_state) {
            (Option::Some(d), Option::Some(s)) => ({
                &&& r matches FilterInfo::DescriptionAndState(rd, rs)
                &&& rd@ == d@
                &&& rs@ == s@
            }),
            (Option::Some(d), Option::None) => if filter_no_state {
                r matches FilterInfo::DescriptionAndState(rd, rs) && rd@ == d@ && rs@
                    == Seq::<char>::empty()
            } else {
                r matches FilterInfo::Description(rd) && rd@ == d@
            },
            (Option::None, Option::Some(s)) => ({
                &&& r matches FilterInfo::State(rs)
                &&& rs@ == s@
            }),
            (Option::None, Option::None) => if filter_no_state {
                r matches FilterInfo::State(rs) && rs@ == Seq::<char>::empty()
            } else {
                r is NoFilter
            },
        },
{
    match (filter_description, filter_state) {
        (Option::Some(d), Option::Some(s)) => FilterInfo::DescriptionAndState(
            d.clone(),
            s.clone(),
        ),
        (Option::Some(d), Option::None) => {
            if filter_no_state {
                FilterInfo::DescriptionAndState(d.clone(), String::new())
            } else {
                FilterInfo::Description(d.clone())
            }
        },
        (Option::None, Option::Some(s)) => FilterInfo::State(s.clone()),
        (Option::None, Option::None) => {
            if filter_no_state {
                FilterInfo::State(String::new())
            } else {
                FilterInfo::NoFilter
            }
        },
    }
}

/// Collects the pact sources in order: files, then directories, then
/// direct URLs, then broker URLs paired with the provider name.
pub fn pact_source(
    files: &Vec<String>,
    dirs: &Vec<String>,
    urls: &Vec<String>,
    broker_urls: &Vec<String>,
    provider_name: &String,
) -> (r: Vec<PactSource>)
    ensures
        r@.len() == files@.len() + dirs@.len() + urls@.len() + broker_urls@.len(),
        forall|i: int| 0 <= i < files@.len() ==> ((#[trigger] r@[i]) matches PactSource::File(s)
            && s@ == files@[i]@),
        forall|i: int| 0 <= i < dirs@.len() ==> ((#[trigger] r@[files@.len() + i])
            matches PactSource::Dir(s) && s@ == dirs@[i]@),
        forall|i: int| 0 <= i < urls@.len() ==> ((#[trigger] r@[files@.len() + dirs@.len() + i])
            matches PactSource::URL(s) && s@ == urls@[i]@),
        forall|i: int| 0 <= i < broker_urls@.len() ==> ((#[trigger] r@[files@.len()
            + dirs@.len() + urls@.len() + i]) matches PactSource::BrokerUrl(n, s) && n@
            == provider_name@ && s@ == broker_urls@[i]@),
{
    let mut out: Vec<PactSource> = Vec::new();
    let mut i: usize = 0;
    while i < files.len()
        invariant
            i <= files@.len(),
            out@.len() == i,
            forall|k: int| 0 <= k < i ==> ((#[trigger] out@[k]) matches PactSource::File(s)
                && s@ == files@[k]@),
        decreases files@.len() - i,
    {
        out.push(PactSource::File(files[i].clone()));
        i = i + 1;
    }
    let mut i: usize = 0;
    while i < dirs.len()
        invariant
            i <= dirs@.len(),
            out@.len() == files@.len() + i,
            forall|k: int| 0 <= k < files@.len() ==> ((#[trigger] out@[k])
                matches PactSource::File(s) && s@ == files@[k]@),
            forall|k: int| 0 <= k < i ==> ((#[trigger] out@[files@.len() + k])
                matches PactSource::Dir(s) && s@ == dirs@[k]@),
        decreases dirs@.len() - i,
    {
        out.push(PactSource::Dir(dirs[i].clone()));
        i = i + 1;
    }
    let mut i: usize = 0;
    while i < urls.len()
        invariant
            i <= urls@.len(),
            out@.len() == files@.len() + dirs@.len() + i,
            forall|k: int| 0 <= k < files@.len() ==> ((#[trigger] out@[k])
                matches PactSource::File(s) && s@ == files@[k]@),
            forall|k: int| 0 <= k < dirs@.len() ==> ((#[trigger] out@[files@.len() + k])
                matches PactSource::Dir(s) && s@ == dirs@[k]@),
            forall|k: int| 0 <= k < i ==> ((#[trigger] out@[files@.len() + dirs@.len() + k])
                matches PactSource::URL(s) && s@ == urls@[k]@),
        decreases urls@.len() - i,
    {
        out.push(PactSource::URL(urls[i].clone()));
        i = i + 1;
    }
    let mut i: usize = 0;
    while i < broker_urls.len()
        invariant
            i <= broker_urls@.len(),
            out@.len() == files@.len() + dirs@.len() + urls@.len() + i,
            forall|k: int| 0 <= k < files@.len() ==> ((#[trigger] out@[k])
                matches PactSource::File(s) && s@ == files@[k]@),
            forall|k: int| 0 <= k < dirs@.len() ==> ((#[trigger] out@[files@.len() + k])
                matches PactSource::Dir(s) && s@ == dirs@[k]@),
            forall|k: int| 0 <= k < urls@.len() ==> ((#[trigger] out@[files@.len()
                + dirs@.len() + k]) matches PactSource::URL(s) && s@ == urls@[k]@),
            forall|k: int| 0 <= k < i ==> ((#[trigger] out@[files@.len() + dirs@.len()
                + urls@.len() + k]) matches PactSource::BrokerUrl(n, s) && n@ == provider_name@
                && s@ == broker_urls@[k]@),
        decreases broker_urls@.len() - i,
    {
        out.push(PactSource::BrokerUrl(provider_name.clone(), broker_urls[i].clone()));
        i = i + 1;
    }
    out
}

} // verus!
