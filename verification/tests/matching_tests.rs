use pact_matching::matching::{match_request, MatchResult};
use pact_matching::mismatch::Mismatch;
use pact_matching::models::{
    Category, Interaction, MatchingRule, MatchingRules, OptionalBody, Request, Response,
};

fn rules(entries: Vec<(Category, &str, Vec<MatchingRule>)>) -> MatchingRules {
    let mut r = MatchingRules::empty();
    for (cat, expr, rs) in entries {
        r.add_rules(cat, expr.to_string(), rs);
    }
    r
}

fn interaction(description: &str, request: Request, response: Response) -> Interaction {
    Interaction {
        description: description.to_string(),
        provider_states: vec![],
        request,
        response,
    }
}

#[test]
fn match_request_returns_a_match_for_identical_requests() {
    let request = Request::default_request();
    let response = Response::default_response();
    let it = interaction("test", request.clone(), response.clone());
    let interactions = vec![it.clone()];
    let result = match_request(&request, &interactions);
    assert_eq!(result, MatchResult::RequestMatch(it));
}

#[test]
fn match_request_returns_a_not_found_for_no_interactions() {
    let request = Request::default_request();
    let interactions = vec![];
    let result = match_request(&request, &interactions);
    assert_eq!(result, MatchResult::RequestNotFound(request));
}

#[test]
fn match_request_returns_a_match_for_multiple_identical_requests() {
    let request = Request::default_request();
    let response = Response::default_response();
    let it = interaction("test", request.clone(), response.clone());
    let interactions = vec![
        it.clone(),
        interaction("test2", request.clone(), response.clone()),
    ];
    let result = match_request(&request, &interactions);
    assert_eq!(result, MatchResult::RequestMatch(it));
}

#[test]
fn match_request_returns_a_match_for_multiple_requests() {
    let request = Request { method: "GET".to_string(), ..Request::default_request() };
    let request2 = Request {
        method: "POST".to_string(),
        path: "/post".to_string(),
        ..Request::default_request()
    };
    let response = Response::default_response();
    let it = interaction("test", request.clone(), response.clone());
    let interactions = vec![it.clone(), interaction("test2", request2.clone(), response.clone())];
    let result = match_request(&request, &interactions);
    assert_eq!(result, MatchResult::RequestMatch(it));
}

#[test]
fn match_request_returns_a_mismatch_for_incorrect_request() {
    let request = Request::default_request();
    let response = Response::default_response();
    let expected_request = Request {
        query: Some(vec![("QueryA".to_string(), vec!["Value A".to_string()])]),
        ..Request::default_request()
    };
    let interactions = vec![interaction("test", expected_request, response.clone())];
    let result = match_request(&request, &interactions);
    assert_eq!(result.match_key(), "Request-Mismatch".to_string());
}

#[test]
fn match_request_returns_request_not_found_if_method_or_path_do_not_match() {
    let request = Request {
        method: "GET".to_string(),
        path: "/path".to_string(),
        ..Request::default_request()
    };
    let response = Response::default_response();
    let expected_request = Request {
        method: "POST".to_string(),
        path: "/otherpath".to_string(),
        ..Request::default_request()
    };
    let interactions = vec![interaction("test", expected_request, response.clone())];
    let result = match_request(&request, &interactions);
    assert_eq!(result, MatchResult::RequestNotFound(request));
}

#[test]
fn match_request_returns_the_most_appropriate_mismatch_for_multiple_requests() {
    let request = Request {
        method: "GET".to_string(),
        path: "/".to_string(),
        body: OptionalBody::Present("This is a body".into()),
        ..Request::default_request()
    };
    let request2 = Request {
        method: "GET".to_string(),
        path: "/".to_string(),
        query: Some(vec![("QueryA".to_string(), vec!["Value A".to_string()])]),
        body: OptionalBody::Present("This is a body".into()),
        ..Request::default_request()
    };
    let request3 = Request {
        method: "GET".to_string(),
        path: "/".to_string(),
        query: Some(vec![("QueryA".to_string(), vec!["Value A".to_string()])]),
        body: OptionalBody::Missing,
        ..Request::default_request()
    };
    let response = Response::default_response();
    let it = interaction("test", request.clone(), response.clone());
    let it2 = interaction("test2", request2.clone(), response.clone());
    let interactions = vec![it.clone(), it2.clone()];
    let result = match_request(&request3, &interactions);
    assert_eq!(
        result,
        MatchResult::RequestMismatch(
            it2,
            vec![Mismatch::BodyMismatch {
                path: "/".to_string(),
                expected: Some("This is a body".into()),
                actual: None,
                mismatch: "Expected body 'This is a body' but was missing".to_string(),
            }],
        )
    );
}

#[test]
fn match_request_supports_v2_matchers() {
    let request = Request {
        method: "GET".to_string(),
        path: "/".to_string(),
        headers: Some(vec![("Content-Type".to_string(), "application/json".to_string())]),
        body: OptionalBody::Present(
            r#"
            {
                "a": 100,
                "b": "one hundred"
            }
            "#
            .into(),
        ),
        ..Request::default_request()
    };
    let response = Response::default_response();
    let expected_request = Request {
        method: "GET".to_string(),
        path: "/".to_string(),
        headers: Some(vec![("Content-Type".to_string(), "application/json".to_string())]),
        body: OptionalBody::Present(
            r#"
            {
                "a": 1000,
                "b": "One Thousand"
            }
            "#
            .into(),
        ),
        matching_rules: rules(vec![(Category::Body, "$.*", vec![MatchingRule::Type])]),
        ..Request::default_request()
    };
    let it = interaction("test", expected_request, response.clone());
    let result = match_request(&request, &vec![it.clone()]);
    assert_eq!(result, MatchResult::RequestMatch(it));
}

#[test]
fn match_request_supports_v2_matchers_with_xml() {
    let request = Request {
        method: "GET".to_string(),
        path: "/".to_string(),
        query: None,
        headers: Some(vec![("Content-Type".to_string(), "application/xml".to_string())]),
        body: OptionalBody::Present(
            r#"<?xml version="1.0" encoding="UTF-8"?>
            <foo>hello<bar/>world</foo>
            "#
            .into(),
        ),
        ..Request::default_request()
    };
    let response = Response::default_response();
    let expected_request = Request {
        method: "GET".to_string(),
        path: "/".to_string(),
        query: None,
        headers: Some(vec![("Content-Type".to_string(), "application/xml".to_string())]),
        body: OptionalBody::Present(
            r#"<?xml version="1.0" encoding="UTF-8"?>
            <foo>hello<bar/>mars </foo>
            "#
            .into(),
        ),
        matching_rules: rules(vec![(
            Category::Body,
            "$.foo['#text']",
            vec![MatchingRule::Regex("[a-z]+".to_string())],
        )]),
        ..Request::default_request()
    };
    let it = interaction("test", expected_request, response.clone());
    let result = match_request(&request, &vec![it.clone()]);
    assert_eq!(result, MatchResult::RequestMatch(it));
}

#[test]
fn content_type_header_compares_structurally() {
    let expected = Request {
        headers: Some(vec![(
            "Content-Type".to_string(),
            "application/json; charset=utf-8".to_string(),
        )]),
        ..Request::default_request()
    };
    let actual = Request {
        headers: Some(vec![(
            "content-type".to_string(),
            "application/json;charset=utf-8".to_string(),
        )]),
        ..Request::default_request()
    };
    let it = interaction("test", expected, Response::default_response());
    let result = match_request(&actual, &vec![it.clone()]);
    assert_eq!(result, MatchResult::RequestMatch(it));
}

#[test]
fn content_type_header_mismatches_on_differing_parameters() {
    let expected = Request {
        headers: Some(vec![(
            "Content-Type".to_string(),
            "application/json; charset=utf-8".to_string(),
        )]),
        ..Request::default_request()
    };
    let actual = Request {
        headers: Some(vec![(
            "Content-Type".to_string(),
            "application/json; charset=ascii".to_string(),
        )]),
        ..Request::default_request()
    };
    let it = interaction("test", expected, Response::default_response());
    match match_request(&actual, &vec![it]) {
        MatchResult::RequestMismatch(_, ms) => {
            assert!(ms.iter().any(|m| matches!(m, Mismatch::HeaderMismatch { .. })));
        },
        other => panic!("expected a mismatch, got {:?}", other),
    }
}
