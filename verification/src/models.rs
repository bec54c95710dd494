//! The data model: requests, responses, interactions, bodies, rule and
//! generator catalogs.

use vstd::prelude::*;

verus! {

/// A request or response body. `Missing` is absent from the template,
/// `Null` is an explicit null, `Empty` is present with zero length, and
/// `Present` carries the body text.
#[derive(Clone, Debug, PartialEq, Eq)]
pub enum OptionalBody {
    Missing,
    Null,
    Empty,
    Present(String),
}

/// Classification of a body derived from the `Content-Type` header,
/// driving structured matching.
#[derive(Clone, Copy, Debug, PartialEq, Eq, Structural)]
pub enum DetectedContentType {
    Json,
    Xml,
    Text,
}

/// The category a matching rule or a generator is keyed under.
#[derive(Clone, Copy, Debug, PartialEq, Eq, Structural)]
pub enum Category {
    Method,
    Path,
    Status,
    Header,
    Query,
    Body,
}

/// A matching rule: the closed set of per-node comparisons the matcher can
/// be directed to perform.
#[derive(Clone, Debug, PartialEq, Eq)]
pub enum MatchingRule {
    Equality,
    Regex(String),
    Type,
    MinType(usize),
    MaxType(usize),
    Include(String),
    Integer,
    Decimal,
    Number,
    Null,
    Date(String),
    Time(String),
    Timestamp(String),
}

/// A value generator: the closed set of replacements the generator engine
/// can apply to a node selected by a path expression.
#[derive(Clone, Debug, PartialEq, Eq)]
pub enum Generator {
    RandomInt(i64, i64),
    Uuid,
    RandomDecimal(u16),
    RandomHex(u16),
    RandomString(u16),
    Regex(String),
    Date(String),
    Time(String),
    DateTime(String),
    RandomBoolean,
    ProviderStateGenerator(String),
}

/// One entry of a rule catalog: rules for one path expression in one
/// category. Rules at the same expression combine conjunctively.
#[derive(Clone, Debug, PartialEq, Eq)]
pub struct RuleEntry {
    pub category: Category,
    pub expression: String,
    pub rules: Vec<MatchingRule>,
}

/// A categorized table of matching rules, ordered by insertion.
#[derive(Clone, Debug, PartialEq, Eq)]
pub struct MatchingRules {
    pub entries: Vec<RuleEntry>,
}

/// One entry of a generator catalog: a generator for one key (a path
/// expression for the body category, a name for headers and query
/// parameters, unused for path and status) in one category.
#[derive(Clone, Debug, PartialEq, Eq)]
pub struct GeneratorEntry {
    pub category: Category,
    pub key: String,
    pub generator: Generator,
}

/// A categorized table of generators, ordered by insertion.
#[derive(Clone, Debug, PartialEq, Eq)]
pub struct Generators {
    pub entries: Vec<GeneratorEntry>,
}

/// An HTTP request template or instance.
#[derive(Clone, Debug, PartialEq, Eq)]
pub struct Request {
    pub method: String,
    pub path: String,
    pub query: Option<Vec<(String, Vec<String>)>>,
    pub headers: Option<Vec<(String, String)>>,
    pub body: OptionalBody,
    pub matching_rules: MatchingRules,
    pub generators: Generators,
}

/// An HTTP response template or instance.
#[derive(Clone, Debug, PartialEq, Eq)]
pub struct Response {
    pub status: u16,
    pub headers: Option<Vec<(String, String)>>,
    pub body: OptionalBody,
    pub matching_rules: MatchingRules,
    pub generators: Generators,
}

/// One recorded request/response pair, with optional provider-state
/// prerequisites. Identified by its description; state does not affect
/// matching.
#[derive(Clone, Debug, PartialEq, Eq)]
pub struct Interaction {
    pub description: String,
    pub provider_states: Vec<String>,
    pub request: Request,
    pub response: Response,
}

// ---------------------------------------------------------------------
// Value equality, at the level of views. Two values are equal exactly when
// every field agrees, strings by their character sequences.
// ---------------------------------------------------------------------

/// Value equality of bodies.
pub open spec fn body_eq(a: OptionalBody, b: OptionalBody) -> bool {
    match (a, b) {
        (OptionalBody::Missing, OptionalBody::Missing) => true,
        (OptionalBody::Null, OptionalBody::Null) => true,
        (OptionalBody::Empty, OptionalBody::Empty) => true,
        (OptionalBody::Present(x), OptionalBody::Present(y)) => x@ == y@,
        _ => false,
    }
}

/// Value equality of matching rules.
pub open spec fn rule_eq(a: MatchingRule, b: MatchingRule) -> bool {
    match (a, b) {
        (MatchingRule::Equality, MatchingRule::Equality) => true,
        (MatchingRule::Regex(x), MatchingRule::Regex(y)) => x@ == y@,
        (MatchingRule::Type, MatchingRule::Type) => true,
        (MatchingRule::MinType(x), MatchingRule::MinType(y)) => x == y,
        (MatchingRule::MaxType(x), MatchingRule::MaxType(y)) => x == y,
        (MatchingRule::Include(x), MatchingRule::Include(y)) => x@ == y@,
        (MatchingRule::Integer, MatchingRule::Integer) => true,
        (MatchingRule::Decimal, MatchingRule::Decimal) => true,
        (MatchingRule::Number, MatchingRule::Number) => true,
        (MatchingRule::Null, MatchingRule::Null) => true,
        (MatchingRule::Date(x), MatchingRule::Date(y)) => x@ == y@,
        (MatchingRule::Time(x), MatchingRule::Time(y)) => x@ == y@,
        (MatchingRule::Timestamp(x), MatchingRule::Timestamp(y)) => x@ == y@,
        _ => false,
    }
}

/// Value equality of generators.
pub open spec fn generator_eq(a: Generator, b: Generator) -> bool {
    match (a, b) {
        (Generator::RandomInt(x1, x2), Generator::RandomInt(y1, y2)) => x1 == y1 && x2 == y2,
        (Generator::Uuid, Generator::Uuid) => true,
        (Generator::RandomDecimal(x), Generator::RandomDecimal(y)) => x == y,
        (Generator::RandomHex(x), Generator::RandomHex(y)) => x == y,
        (Generator::RandomString(x), Generator::RandomString(y)) => x == y,
        (Generator::Regex(x), Generator::Regex(y)) => x@ == y@,
        (Generator::Date(x), Generator::Date(y)) => x@ == y@,
        (Generator::Time(x), Generator::Time(y)) => x@ == y@,
        (Generator::DateTime(x), Generator::DateTime(y)) => x@ == y@,
        (Generator::RandomBoolean, Generator::RandomBoolean) => true,
        (Generator::ProviderStateGenerator(x), Generator::ProviderStateGenerator(y)) => x@ == y@,
        _ => false,
    }
}

/// Value equality of rule catalogs.
pub open spec fn rules_eq(a: MatchingRules, b: MatchingRules) -> bool {
    &&& a.entries@.len() == b.entries@.len()
    &&& forall|i: int| 0 <= i < a.entries@.len() ==> {
        &&& (#[trigger] a.entries@[i]).category == b.entries@[i].category
        &&& a.entries@[i].expression@ == b.entries@[i].expression@
        &&& a.entries@[i].rules@.len() == b.entries@[i].rules@.len()
        &&& forall|j: int| 0 <= j < a.entries@[i].rules@.len()
            ==> rule_eq(#[trigger] a.entries@[i].rules@[j], b.entries@[i].rules@[j])
    }
}

/// Value equality of generator catalogs.
pub open spec fn generators_eq(a: Generators, b: Generators) -> bool {
    &&& a.entries@.len() == b.entries@.len()
    &&& forall|i: int| 0 <= i < a.entries@.len() ==> {
        &&& (#[trigger] a.entries@[i]).category == b.entries@[i].category
        &&& a.entries@[i].key@ == b.entries@[i].key@
        &&& generator_eq(a.entries@[i].generator, b.entries@[i].generator)
    }
}

/// Value equality of optional query-parameter maps.
pub open spec fn query_eq(
    a: Option<Vec<(String, Vec<String>)>>,
    b: Option<Vec<(String, Vec<String>)>>,
) -> bool {
    match (a, b) {
        (Option::None, Option::None) => true,
        (Option::Some(x), Option::Some(y)) => {
            &&& x@.len() == y@.len()
            &&& forall|i: int| 0 <= i < x@.len() ==> {
                &&& (#[trigger] x@[i]).0@ == y@[i].0@
                &&& x@[i].1@.len() == y@[i].1@.len()
                &&& forall|j: int| 0 <= j < x@[i].1@.len()
                    ==> (#[trigger] x@[i].1@[j])@ == y@[i].1@[j]@
            }
        },
        _ => false,
    }
}

/// Value equality of optional header maps.
pub open spec fn headers_eq(
    a: Option<Vec<(String, String)>>,
    b: Option<Vec<(String, String)>>,
) -> bool {
    match (a, b) {
        (Option::None, Option::None) => true,
        (Option::Some(x), Option::Some(y)) => {
            &&& x@.len() == y@.len()
            &&& forall|i: int| 0 <= i < x@.len()
                ==> (#[trigger] x@[i]).0@ == y@[i].0@ && x@[i].1@ == y@[i].1@
        },
        _ => false,
    }
}

/// Value equality of requests.
pub open spec fn req_eq(a: Request, b: Request) -> bool {
    &&& a.method@ == b.method@
    &&& a.path@ == b.path@
    &&& query_eq(a.query, b.query)
    &&& headers_eq(a.headers, b.headers)
    &&& body_eq(a.body, b.body)
    &&& rules_eq(a.matching_rules, b.matching_rules)
    &&& generators_eq(a.generators, b.generators)
}

/// Value equality of responses.
pub open spec fn resp_eq(a: Response, b: Response) -> bool {
    &&& a.status == b.status
    &&& headers_eq(a.headers, b.headers)
    &&& body_eq(a.body, b.body)
    &&& rules_eq(a.matching_rules, b.matching_rules)
    &&& generators_eq(a.generators, b.generators)
}

// ---------------------------------------------------------------------
// Constructors and copies.
// ---------------------------------------------------------------------

impl MatchingRules {
    /// An empty rule catalog.
    pub fn empty() -> (r: MatchingRules)
        ensures
            r.entries@.len() == 0,
    {
        MatchingRules { entries: Vec::new() }
    }

    /// Appends the rules for one expression in one category.
    pub fn add_rules(&mut self, category: Category, expression: String, rules: Vec<MatchingRule>)
        ensures
            final(self).entries@ == old(self).entries@.push(
                RuleEntry { category, expression, rules },
            ),
    {
        self.entries.push(RuleEntry { category, expression, rules });
    }
}

impl Generators {
    /// An empty generator catalog.
    pub fn empty() -> (r: Generators)
        ensures
            r.entries@.len() == 0,
    {
        Generators { entries: Vec::new() }
    }

    /// Appends a generator under one key in one category.
    pub fn add_generator(&mut self, category: Category, key: String, generator: Generator)
        ensures
            final(self).entries@ == old(self).entries@.push(
                GeneratorEntry { category, key, generator },
            ),
    {
        self.entries.push(GeneratorEntry { category, key, generator });
    }
}

impl OptionalBody {
    /// The body text of a present body, or the empty string otherwise.
    pub fn str_value(&self) -> (r: &str)
        ensures
            match *self {
                OptionalBody::Present(s) => r@ == s@,
                _ => r@ == Seq::<char>::empty(),
            },
    {
        proof {
            reveal_strlit("");
            assert(""@ =~= Seq::<char>::empty());
        }
        match self {
            OptionalBody::Present(s) => s.as_str(),
            _ => "",
        }
    }

    /// A copy of the body, equal in value.
    pub fn dup(&self) -> (r: OptionalBody)
        ensures
            body_eq(r, *self),
    {
        match self {
            OptionalBody::Missing => OptionalBody::Missing,
            OptionalBody::Null => OptionalBody::Null,
            OptionalBody::Empty => OptionalBody::Empty,
            OptionalBody::Present(s) => OptionalBody::Present(s.clone()),
        }
    }
}

impl Request {
    /// The default request: `GET /` with no query, headers or body and
    /// empty catalogs.
    pub fn default_request() -> (r: Request)
        ensures
            r.method@ == "GET"@,
            r.path@ == "/"@,
            r.query is None,
            r.headers is None,
            r.body is Missing,
            r.matching_rules.entries@.len() == 0,
            r.generators.entries@.len() == 0,
    {
        Request {
            method: "GET".to_owned(),
            path: "/".to_owned(),
            query: Option::None,
            headers: Option::None,
            body: OptionalBody::Missing,
            matching_rules: MatchingRules::empty(),
            generators: Generators::empty(),
        }
    }
}

impl Response {
    /// The default response: status `200` with no headers or body and
    /// empty catalogs.
    pub fn default_response() -> (r: Response)
        ensures
            r.status == 200,
            r.headers is None,
            r.body is Missing,
            r.matching_rules.entries@.len() == 0,
            r.generators.entries@.len() == 0,
    {
        Response {
            status: 200,
            headers: Option::None,
            body: OptionalBody::Missing,
            matching_rules: MatchingRules::empty(),
            generators: Generators::empty(),
        }
    }
}

/// A copy of an optional header map, equal in value.
pub fn dup_headers(h: &Option<Vec<(String, String)>>) -> (r: Option<Vec<(String, String)>>)
    ensures
        headers_eq(r, *h),
{
    match h {
        Option::None => Option::None,
        Option::Some(v) => {
            let mut out: Vec<(String, String)> = Vec::new();
            let mut i: usize = 0;
            while i < v.len()
                invariant
                    i <= v@.len(),
                    out@.len() == i,
                    forall|k: int| 0 <= k < i
                        ==> (#[trigger] out@[k]).0@ == v@[k].0@ && out@[k].1@ == v@[k].1@,
                decreases v@.len() - i,
            {
                let (k, val) = &v[i];
                out.push((k.clone(), val.clone()));
                i = i + 1;
            }
            Option::Some(out)
        },
    }
}

/// A copy of an optional query map, equal in value.
pub fn dup_query(
    q: &Option<Vec<(String, Vec<String>)>>,
) -> (r: Option<Vec<(String, Vec<String>)>>)
    ensures
        query_eq(r, *q),
{
    match q {
        Option::None => Option::None,
        Option::Some(v) => {
            let mut out: Vec<(String, Vec<String>)> = Vec::new();
            let mut i: usize = 0;
            while i < v.len()
                invariant
                    i <= v@.len(),
                    out@.len() == i,
                    forall|k: int| 0 <= k < i ==> {
                        &&& (#[trigger] out@[k]).0@ == v@[k].0@
                        &&& out@[k].1@.len() == v@[k].1@.len()
                        &&& forall|j: int| 0 <= j < out@[k].1@.len()
                            ==> (#[trigger] out@[k].1@[j])@ == v@[k].1@[j]@
                    },
                decreases v@.len() - i,
            {
                let (k, vals) = &v[i];
                let mut copied: Vec<String> = Vec::new();
                let mut j: usize = 0;
                while j < vals.len()
                    invariant
                        j <= vals@.len(),
                        copied@.len() == j,
                        forall|m: int| 0 <= m < j ==> (#[trigger] copied@[m])@ == vals@[m]@,
                    decreases vals@.len() - j,
                {
                    copied.push(vals[j].clone());
                    j = j + 1;
                }
                out.push((k.clone(), copied));
                i = i + 1;
            }
            Option::Some(out)
        },
    }
}

/// A copy of a matching rule, equal in value.
pub fn dup_rule(r: &MatchingRule) -> (out: MatchingRule)
    ensures
        rule_eq(out, *r),
{
    match r {
        MatchingRule::Equality => MatchingRule::Equality,
        MatchingRule::Regex(s) => MatchingRule::Regex(s.clone()),
        MatchingRule::Type => MatchingRule::Type,
        MatchingRule::MinType(n) => MatchingRule::MinType(*n),
        MatchingRule::MaxType(n) => MatchingRule::MaxType(*n),
        MatchingRule::Include(s) => MatchingRule::Include(s.clone()),
        MatchingRule::Integer => MatchingRule::Integer,
        MatchingRule::Decimal => MatchingRule::Decimal,
        MatchingRule::Number => MatchingRule::Number,
        MatchingRule::Null => MatchingRule::Null,
        MatchingRule::Date(s) => MatchingRule::Date(s.clone()),
        MatchingRule::Time(s) => MatchingRule::Time(s.clone()),
        MatchingRule::Timestamp(s) => MatchingRule::Timestamp(s.clone()),
    }
}

/// A copy of a generator, equal in value.
pub fn dup_generator(g: &Generator) -> (out: Generator)
    ensures
        generator_eq(out, *g),
{
    match g {
        Generator::RandomInt(lo, hi) => Generator::RandomInt(*lo, *hi),
        Generator::Uuid => Generator::Uuid,
        Generator::RandomDecimal(n) => Generator::RandomDecimal(*n),
        Generator::RandomHex(n) => Generator::RandomHex(*n),
        Generator::RandomString(n) => Generator::RandomString(*n),
        Generator::Regex(s) => Generator::Regex(s.clone()),
        Generator::Date(s) => Generator::Date(s.clone()),
        Generator::Time(s) => Generator::Time(s.clone()),
        Generator::DateTime(s) => Generator::DateTime(s.clone()),
        Generator::RandomBoolean => Generator::RandomBoolean,
        Generator::ProviderStateGenerator(s) => Generator::ProviderStateGenerator(s.clone()),
    }
}

/// A copy of a rule catalog, equal in value.
pub fn dup_rules(r: &MatchingRules) -> (out: MatchingRules)
    ensures
        rules_eq(out, *r),
{
    let mut entries: Vec<RuleEntry> = Vec::new();
    let mut i: usize = 0;
    while i < r.entries.len()
        invariant
            i <= r.entries@.len(),
            entries@.len() == i,
            forall|k: int| 0 <= k < i ==> {
                &&& (#[trigger] entries@[k]).category == r.entries@[k].category
                &&& entries@[k].expression@ == r.entries@[k].expression@
                &&& entries@[k].rules@.len() == r.entries@[k].rules@.len()
                &&& forall|j: int| 0 <= j < entries@[k].rules@.len()
                    ==> rule_eq(#[trigger] entries@[k].rules@[j], r.entries@[k].rules@[j])
            },
        decreases r.entries@.len() - i,
    {
        let e = &r.entries[i];
        let mut rules: Vec<MatchingRule> = Vec::new();
        let mut j: usize = 0;
        while j < e.rules.len()
            invariant
                j <= e.rules@.len(),
                rules@.len() == j,
                forall|m: int| 0 <= m < j
                    ==> rule_eq(#[trigger] rules@[m], e.rules@[m]),
            decreases e.rules@.len() - j,
        {
            rules.push(dup_rule(&e.rules[j]));
            j = j + 1;
        }
        entries.push(RuleEntry {
            category: e.category,
            expression: e.expression.clone(),
            rules,
        });
        i = i + 1;
    }
    MatchingRules { entries }
}

/// A copy of a generator catalog, equal in value.
pub fn dup_generators(g: &Generators) -> (out: Generators)
    ensures
        generators_eq(out, *g),
{
    let mut entries: Vec<GeneratorEntry> = Vec::new();
    let mut i: usize = 0;
    while i < g.entries.len()
        invariant
            i <= g.entries@.len(),
            entries@.len() == i,
            forall|k: int| 0 <= k < i ==> {
                &&& (#[trigger] entries@[k]).category == g.entries@[k].category
                &&& entries@[k].key@ == g.entries@[k].key@
                &&& generator_eq(entries@[k].generator, g.entries@[k].generator)
            },
        decreases g.entries@.len() - i,
    {
        let e = &g.entries[i];
        entries.push(GeneratorEntry {
            category: e.category,
            key: e.key.clone(),
            generator: dup_generator(&e.generator),
        });
        i = i + 1;
    }
    Generators { entries }
}

/// Value equality of interactions.
pub open spec fn inter_eq(a: Interaction, b: Interaction) -> bool {
    &&& a.description@ == b.description@
    &&& a.provider_states@.len() == b.provider_states@.len()
    &&& forall|i: int| 0 <= i < a.provider_states@.len()
        ==> (#[trigger] a.provider_states@[i])@ == b.provider_states@[i]@
    &&& req_eq(a.request, b.request)
    &&& resp_eq(a.response, b.response)
}

/// A copy of a request, equal in value.
pub fn dup_request(r: &Request) -> (out: Request)
    ensures
        req_eq(out, *r),
{
    Request {
        method: r.method.clone(),
        path: r.path.clone(),
        query: dup_query(&r.query),
        headers: dup_headers(&r.headers),
        body: r.body.dup(),
        matching_rules: dup_rules(&r.matching_rules),
        generators: dup_generators(&r.generators),
    }
}

/// A copy of a response, equal in value.
pub fn dup_response(r: &Response) -> (out: Response)
    ensures
        resp_eq(out, *r),
{
    Response {
        status: r.status,
        headers: dup_headers(&r.headers),
        body: r.body.dup(),
        matching_rules: dup_rules(&r.matching_rules),
        generators: dup_generators(&r.generators),
    }
}

/// A copy of an interaction, equal in value.
pub fn dup_interaction(it: &Interaction) -> (out: Interaction)
    ensures
        inter_eq(out, *it),
{
    let mut states: Vec<String> = Vec::new();
    let mut i: usize = 0;
    while i < it.provider_states.len()
        invariant
            i <= it.provider_states@.len(),
            states@.len() == i,
            forall|k: int| 0 <= k < i
                ==> (#[trigger] states@[k])@ == it.provider_states@[k]@,
        decreases it.provider_states@.len() - i,
    {
        states.push(it.provider_states[i].clone());
        i = i + 1;
    }
    Interaction {
        description: it.description.clone(),
        provider_states: states,
        request: dup_request(&it.request),
        response: dup_response(&it.response),
    }
}

} // verus!
