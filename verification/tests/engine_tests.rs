use quickcheck::{quickcheck, TestResult};
use rand::RngExt;
use pact_matching::cliargs::{integer_value, interaction_filter, pact_source, FilterInfo, PactSource};
use pact_matching::matchers::regex_full_match;
use pact_matching::matching::{match_request, match_response, MatchResult};
use pact_matching::mismatch::Mismatch;
use pact_matching::models::{
    Category, Interaction, MatchingRule, MatchingRules, OptionalBody, Request, Response,
};

#[test]
fn validates_integer_value() {
    fn prop(s: String) -> TestResult {
        let mut rng = rand::rng();
        if rng.random::<bool>() && s.chars().any(|ch| !ch.is_numeric()) {
            TestResult::discard()
        } else {
            let validation = integer_value(&s);
            match validation {
                Ok(_) => TestResult::from_bool(!s.is_empty() && s.chars().all(|ch| ch.is_numeric())),
                Err(_) => TestResult::from_bool(
                    s.is_empty() || s.chars().find(|ch| !ch.is_numeric()).is_some(),
                ),
            }
        }
    }
    quickcheck(prop as fn(_) -> _);

    assert!(integer_value("1234").is_ok());
    assert!(integer_value("1234x").is_err());
}

#[test]
fn integer_value_rejects_out_of_range_ports() {
    assert!(integer_value("65535").is_ok());
    assert!(integer_value("65536").is_err());
    assert!(integer_value("").is_err());
    assert!(integer_value("007").is_ok());
}

#[test]
fn interaction_filter_combines_description_and_state() {
    let d = Some("desc.*".to_string());
    let s = Some("state.*".to_string());
    assert_eq!(
        interaction_filter(&d, &s, false),
        FilterInfo::DescriptionAndState("desc.*".to_string(), "state.*".to_string())
    );
    assert_eq!(
        interaction_filter(&d, &None, true),
        FilterInfo::DescriptionAndState("desc.*".to_string(), String::new())
    );
    assert_eq!(
        interaction_filter(&d, &None, false),
        FilterInfo::Description("desc.*".to_string())
    );
    assert_eq!(interaction_filter(&None, &s, false), FilterInfo::State("state.*".to_string()));
    assert_eq!(interaction_filter(&None, &None, true), FilterInfo::State(String::new()));
    assert_eq!(interaction_filter(&None, &None, false), FilterInfo::NoFilter);
}

#[test]
fn pact_source_collects_all_kinds_in_order() {
    let files = vec!["a.json".to_string()];
    let dirs = vec!["pacts".to_string()];
    let urls = vec!["http://host/p.json".to_string()];
    let brokers = vec!["http://broker".to_string()];
    let provider = "provider".to_string();
    let sources = pact_source(&files, &dirs, &urls, &brokers, &provider);
    assert_eq!(
        sources,
        vec![
            PactSource::File("a.json".to_string()),
            PactSource::Dir("pacts".to_string()),
            PactSource::URL("http://host/p.json".to_string()),
            PactSource::BrokerUrl("provider".to_string(), "http://broker".to_string()),
        ]
    );
}

#[test]
fn regex_rules_use_full_match_semantics() {
    assert_eq!(regex_full_match("[a-z]+", "abc"), Some(true));
    assert_eq!(regex_full_match("[a-z]+", "abc1"), Some(false));
    assert_eq!(regex_full_match("[a-z]+", ""), Some(false));
    assert_eq!(regex_full_match("(", "anything"), None);
}

#[test]
fn literal_rule_overrides_wildcard_rule_at_its_node() {
    // a wildcard kind rule alone accepts a changed value
    let actual = Request {
        body: OptionalBody::Present("{\"a\": 999}".into()),
        ..Request::default_request()
    };
    let mut loose = MatchingRules::empty();
    loose.add_rules(Category::Body, "$.*".to_string(), vec![MatchingRule::Type]);
    let expected_loose = Request {
        body: OptionalBody::Present("{\"a\": 100}".into()),
        matching_rules: loose,
        ..Request::default_request()
    };
    let it = Interaction {
        description: "loose".to_string(),
        provider_states: vec![],
        request: expected_loose,
        response: Response::default_response(),
    };
    let result = match_request(&actual, &vec![it.clone()]);
    assert_eq!(result, MatchResult::RequestMatch(it));

    // adding a literal equality rule at the same node takes it over
    let mut strict = MatchingRules::empty();
    strict.add_rules(Category::Body, "$.*".to_string(), vec![MatchingRule::Type]);
    strict.add_rules(Category::Body, "$.a".to_string(), vec![MatchingRule::Equality]);
    let expected_strict = Request {
        body: OptionalBody::Present("{\"a\": 100}".into()),
        matching_rules: strict,
        ..Request::default_request()
    };
    let it2 = Interaction {
        description: "strict".to_string(),
        provider_states: vec![],
        request: expected_strict,
        response: Response::default_response(),
    };
    let result2 = match_request(&actual, &vec![it2]);
    assert_eq!(result2.match_key(), "Request-Mismatch".to_string());
}

#[test]
fn response_status_mismatch_is_reported() {
    let expected = Response { status: 201, ..Response::default_response() };
    let actual = Response::default_response();
    let mismatches = match_response(&expected, &actual);
    assert_eq!(mismatches.len(), 1);
    assert_eq!(mismatches[0], Mismatch::StatusMismatch { expected: 201, actual: 200 });
}

#[test]
fn header_mismatch_is_reported() {
    let expected = Request {
        headers: Some(vec![("Accept".to_string(), "application/json".to_string())]),
        ..Request::default_request()
    };
    let actual = Request::default_request();
    let result = match_request(&actual, &vec![Interaction {
        description: "t".to_string(),
        provider_states: vec![],
        request: expected,
        response: Response::default_response(),
    }]);
    match result {
        MatchResult::RequestMismatch(_, mismatches) => {
            assert_eq!(mismatches.len(), 1);
            assert!(matches!(mismatches[0], Mismatch::HeaderMismatch { .. }));
        },
        other => panic!("expected a mismatch, got {:?}", other),
    }
}

#[test]
fn unparseable_json_bodies_fall_back_to_text_comparison() {
    let expected = Request {
        headers: Some(vec![("Content-Type".to_string(), "application/json".to_string())]),
        body: OptionalBody::Present("{not json".into()),
        ..Request::default_request()
    };
    let actual = Request {
        headers: Some(vec![("Content-Type".to_string(), "application/json".to_string())]),
        body: OptionalBody::Present("{also not json".into()),
        ..Request::default_request()
    };
    let result = match_request(&actual, &vec![Interaction {
        description: "t".to_string(),
        provider_states: vec![],
        request: expected,
        response: Response::default_response(),
    }]);
    match result {
        MatchResult::RequestMismatch(_, mismatches) => {
            assert_eq!(mismatches.len(), 1);
            assert!(matches!(mismatches[0], Mismatch::BodyTypeMismatch { .. }));
        },
        other => panic!("expected a mismatch, got {:?}", other),
    }
}

#[test]
fn equal_unparseable_bodies_still_match() {
    let body = OptionalBody::Present("{not json".into());
    let expected = Request {
        headers: Some(vec![("Content-Type".to_string(), "application/json".to_string())]),
        body: body.clone(),
        ..Request::default_request()
    };
    let actual = Request {
        headers: Some(vec![("Content-Type".to_string(), "application/json".to_string())]),
        body,
        ..Request::default_request()
    };
    let result = match_request(&actual, &vec![Interaction {
        description: "t".to_string(),
        provider_states: vec![],
        request: expected,
        response: Response::default_response(),
    }]);
    assert!(matches!(result, MatchResult::RequestMatch(_)));
}

#[test]
fn array_length_mismatch_is_one_body_mismatch() {
    let expected = Request {
        body: OptionalBody::Present("[1, 2, 3]".into()),
        ..Request::default_request()
    };
    let actual = Request {
        body: OptionalBody::Present("[1, 2]".into()),
        ..Request::default_request()
    };
    let result = match_request(&actual, &vec![Interaction {
        description: "t".to_string(),
        provider_states: vec![],
        request: expected,
        response: Response::default_response(),
    }]);
    match result {
        MatchResult::RequestMismatch(_, mismatches) => {
            assert_eq!(mismatches.len(), 1);
            assert!(matches!(mismatches[0], Mismatch::BodyMismatch { .. }));
        },
        other => panic!("expected a mismatch, got {:?}", other),
    }
}

#[test]
fn min_type_rule_bounds_array_length() {
    let mut rules = MatchingRules::empty();
    rules.add_rules(Category::Body, "$".to_string(), vec![MatchingRule::MinType(3)]);
    let expected = Request {
        body: OptionalBody::Present("[1]".into()),
        matching_rules: rules,
        ..Request::default_request()
    };
    let actual_long = Request {
        body: OptionalBody::Present("[5, 6, 7, 8]".into()),
        ..Request::default_request()
    };
    let actual_short = Request {
        body: OptionalBody::Present("[5, 6]".into()),
        ..Request::default_request()
    };
    let it = Interaction {
        description: "t".to_string(),
        provider_states: vec![],
        request: expected,
        response: Response::default_response(),
    };
    assert!(matches!(
        match_request(&actual_long, &vec![it.clone()]),
        MatchResult::RequestMatch(_)
    ));
    assert_eq!(
        match_request(&actual_short, &vec![it]).match_key(),
        "Request-Mismatch".to_string()
    );
}

#[test]
fn include_rule_checks_substrings() {
    let mut rules = MatchingRules::empty();
    rules.add_rules(
        Category::Body,
        "$.word".to_string(),
        vec![MatchingRule::Include("ell".to_string())],
    );
    let expected = Request {
        body: OptionalBody::Present("{\"word\": \"template\"}".into()),
        matching_rules: rules,
        ..Request::default_request()
    };
    let actual = Request {
        body: OptionalBody::Present("{\"word\": \"hello\"}".into()),
        ..Request::default_request()
    };
    let it = Interaction {
        description: "t".to_string(),
        provider_states: vec![],
        request: expected,
        response: Response::default_response(),
    };
    assert!(matches!(match_request(&actual, &vec![it]), MatchResult::RequestMatch(_)));
}

#[test]
fn applies_body_generator_to_xml_text() {
    let mut g = pact_matching::models::Generators::empty();
    g.add_generator(
        Category::Body,
        "$.foo['#text']".to_string(),
        pact_matching::models::Generator::RandomInt(1, 10),
    );
    let body = OptionalBody::Present("<foo>hello</foo>".into());
    let out = g.apply_body_generators(&body, pact_matching::models::DetectedContentType::Xml);
    match out {
        OptionalBody::Present(text) => {
            assert_ne!(text, "<foo>hello</foo>");
            assert!(text.starts_with("<foo>"));
            assert!(text.ends_with("</foo>"));
        },
        other => panic!("expected a present body, got {:?}", other),
    }
}

#[test]
fn header_values_compare_with_comma_whitespace_normalized() {
    let expected = Request {
        headers: Some(vec![("Accept".to_string(), "text/html, application/json".to_string())]),
        ..Request::default_request()
    };
    let actual = Request {
        headers: Some(vec![("Accept".to_string(), "text/html,application/json".to_string())]),
        ..Request::default_request()
    };
    let it = Interaction {
        description: "t".to_string(),
        provider_states: vec![],
        request: expected,
        response: Response::default_response(),
    };
    assert!(matches!(match_request(&actual, &vec![it]), MatchResult::RequestMatch(_)));
}

#[test]
fn body_mismatches_rank_ahead_of_query_mismatches() {
    // both candidates have one mismatch; the body disagreement is the
    // more diagnostic and should be reported
    let actual = Request {
        body: OptionalBody::Present("{\"a\": 1}".into()),
        ..Request::default_request()
    };
    let query_candidate = Request {
        query: Some(vec![("Q".to_string(), vec!["v".to_string()])]),
        body: OptionalBody::Present("{\"a\": 1}".into()),
        ..Request::default_request()
    };
    let body_candidate = Request {
        body: OptionalBody::Present("{\"a\": 2}".into()),
        ..Request::default_request()
    };
    let it_query = Interaction {
        description: "query".to_string(),
        provider_states: vec![],
        request: query_candidate,
        response: Response::default_response(),
    };
    let it_body = Interaction {
        description: "body".to_string(),
        provider_states: vec![],
        request: body_candidate,
        response: Response::default_response(),
    };
    let result = match_request(&actual, &vec![it_query, it_body.clone()]);
    match result {
        MatchResult::RequestMismatch(it, _) => assert_eq!(it.description, "body".to_string()),
        other => panic!("expected a mismatch, got {:?}", other),
    }
}

#[test]
fn status_generator_output_is_clamped_to_valid_statuses() {
    let mut g = pact_matching::models::Generators::empty();
    g.add_generator(
        Category::Status,
        String::new(),
        pact_matching::models::Generator::RandomInt(700, 700),
    );
    let response = Response { status: 200, generators: g, ..Response::default_response() };
    let generated = pact_matching::generate::generate_response(&response);
    assert_eq!(generated.status, 599);
}

#[test]
fn date_generator_follows_its_format() {
    let v = pact_matching::generate::generate_value(
        &pact_matching::models::Generator::Date("yyyy-MM-dd".to_string()),
        &pact_matching::jsonval::JsonValue::Null,
    );
    match v {
        pact_matching::jsonval::JsonValue::Str(s) => {
            let cs: Vec<char> = s.chars().collect();
            assert_eq!(cs.len(), 10);
            assert_eq!(cs[4], '-');
            assert_eq!(cs[7], '-');
            assert!(cs[0].is_ascii_digit() && cs[9].is_ascii_digit());
        },
        other => panic!("expected a string, got {:?}", other),
    }
}

#[test]
fn integer_value_accepts_a_leading_plus_sign() {
    assert!(integer_value("+123").is_ok());
    assert!(integer_value("+65535").is_ok());
    assert!(integer_value("+").is_err());
    assert!(integer_value("++1").is_err());
    assert!(integer_value("+65536").is_err());
}

#[test]
fn integer_value_errors_name_the_rejected_value() {
    match integer_value("66000") {
        Err(m) => assert!(m.contains("66000")),
        Ok(_) => panic!("expected an error"),
    }
    match integer_value("12x") {
        Err(m) => assert!(m.contains("12x")),
        Ok(_) => panic!("expected an error"),
    }
    match integer_value("") {
        Err(m) => assert!(m.contains("is not a valid port value")),
        Ok(_) => panic!("expected an error"),
    }
}
