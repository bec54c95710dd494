use pact_matching::generate::{generate_request, generate_response, JsonHandler};
use pact_matching::jsonval::{json_eq_x, JsonValue};
use pact_matching::jsonparse::parse_json;
use pact_matching::models::{
    Category, Generator, Generators, OptionalBody, Request, Response, DetectedContentType,
};

fn jstr(s: &str) -> JsonValue {
    JsonValue::Str(s.to_string())
}

fn jint(i: i64) -> JsonValue {
    JsonValue::Int(i)
}

fn jobj(fields: Vec<(&str, JsonValue)>) -> JsonValue {
    JsonValue::Object(fields.into_iter().map(|(k, v)| (k.to_string(), v)).collect())
}

fn jarr(items: Vec<JsonValue>) -> JsonValue {
    JsonValue::Array(items)
}

fn field<'a>(v: &'a JsonValue, k: &str) -> &'a JsonValue {
    match v {
        JsonValue::Object(fields) => {
            for (name, val) in fields {
                if name == k {
                    return val;
                }
            }
            panic!("no field {}", k);
        },
        _ => panic!("not an object"),
    }
}

fn item(v: &JsonValue, i: usize) -> &JsonValue {
    match v {
        JsonValue::Array(items) => &items[i],
        _ => panic!("not an array"),
    }
}

fn gens(entries: Vec<(Category, &str, Generator)>) -> Generators {
    let mut g = Generators::empty();
    for (cat, key, gen) in entries {
        g.add_generator(cat, key.to_string(), gen);
    }
    g
}

#[test]
fn returns_original_response_if_there_are_no_generators() {
    let response = Response::default_response();
    assert_eq!(generate_response(&response), response);
}

#[test]
fn applies_status_generator_for_status_to_the_copy_of_the_response() {
    let response = Response {
        status: 200,
        generators: gens(vec![(Category::Status, "", Generator::RandomInt(400, 499))]),
        ..Response::default_response()
    };
    assert!(generate_response(&response).status >= 400);
}

#[test]
fn applies_header_generator_for_headers_to_the_copy_of_the_response() {
    let response = Response {
        headers: Some(vec![
            ("A".to_string(), "a".to_string()),
            ("B".to_string(), "b".to_string()),
        ]),
        generators: gens(vec![(Category::Header, "A", Generator::Uuid)]),
        ..Response::default_response()
    };
    let headers = generate_response(&response).headers.unwrap();
    let a = headers.iter().find(|(k, _)| k == "A").map(|(_, v)| v.clone()).unwrap();
    assert_ne!(a, "a");
}

#[test]
fn returns_original_request_if_there_are_no_generators() {
    let request = Request::default_request();
    assert_eq!(generate_request(&request), request);
}

#[test]
fn applies_path_generator_for_the_path_to_the_copy_of_the_request() {
    let request = Request {
        path: "/path".to_string(),
        generators: gens(vec![(Category::Path, "", Generator::RandomInt(1, 10))]),
        ..Request::default_request()
    };
    assert_ne!(generate_request(&request).path, "/path");
}

#[test]
fn applies_header_generator_for_headers_to_the_copy_of_the_request() {
    let request = Request {
        headers: Some(vec![
            ("A".to_string(), "a".to_string()),
            ("B".to_string(), "b".to_string()),
        ]),
        generators: gens(vec![(Category::Header, "A", Generator::Uuid)]),
        ..Request::default_request()
    };
    let headers = generate_request(&request).headers.unwrap();
    let a = headers.iter().find(|(k, _)| k == "A").map(|(_, v)| v.clone()).unwrap();
    assert_ne!(a, "a");
}

#[test]
fn applies_query_generator_for_query_parameters_to_the_copy_of_the_request() {
    let request = Request {
        query: Some(vec![
            ("A".to_string(), vec!["a".to_string()]),
            ("B".to_string(), vec!["b".to_string()]),
        ]),
        generators: gens(vec![(Category::Query, "A", Generator::Uuid)]),
        ..Request::default_request()
    };
    let query = generate_request(&request).query.unwrap();
    let vals = query.iter().find(|(k, _)| k == "A").map(|(_, v)| v.clone()).unwrap();
    assert_ne!(vals[0], "a");
}

#[test]
fn apply_generator_to_empty_body_test() {
    let generators = Generators::empty();
    assert_eq!(
        generators.apply_body_generators(&OptionalBody::Empty, DetectedContentType::Text),
        OptionalBody::Empty
    );
    assert_eq!(
        generators.apply_body_generators(&OptionalBody::Null, DetectedContentType::Text),
        OptionalBody::Null
    );
    assert_eq!(
        generators.apply_body_generators(&OptionalBody::Missing, DetectedContentType::Text),
        OptionalBody::Missing
    );
}

#[test]
fn do_not_apply_generators_if_there_are_no_body_generators() {
    let generators = Generators::empty();
    let body = OptionalBody::Present("{\"a\": 100, \"b\": \"B\"}".into());
    assert_eq!(
        generators.apply_body_generators(&body, DetectedContentType::Json),
        body
    );
}

#[test]
fn apply_generator_to_text_body_test() {
    let generators = Generators::empty();
    let body = OptionalBody::Present("some text".into());
    assert_eq!(
        generators.apply_body_generators(&body, DetectedContentType::Text),
        body
    );
}

#[test]
fn applies_body_generator_to_the_copy_of_the_request() {
    let request = Request {
        body: OptionalBody::Present("{\"a\": 100, \"b\": \"B\"}".into()),
        generators: gens(vec![(Category::Body, "$.a", Generator::RandomInt(1, 10))]),
        ..Request::default_request()
    };
    let generated_request = generate_request(&request);
    let body = parse_json(generated_request.body.str_value()).unwrap();
    assert!(!json_eq_x(field(&body, "a"), &jint(100)));
    assert!(json_eq_x(field(&body, "b"), &jstr("B")));
}

#[test]
fn applies_body_generator_to_the_copy_of_the_response() {
    let response = Response {
        body: OptionalBody::Present("{\"a\": 100, \"b\": \"B\"}".into()),
        generators: gens(vec![(Category::Body, "$.a", Generator::RandomInt(1, 10))]),
        ..Response::default_response()
    };
    let body = parse_json(generate_response(&response).body.str_value()).unwrap();
    assert!(!json_eq_x(field(&body, "a"), &jint(100)));
    assert!(json_eq_x(field(&body, "b"), &jstr("B")));
}

#[test]
fn does_not_change_body_if_there_are_no_generators() {
    let body = OptionalBody::Present("{\"a\": 100, \"b\": \"B\"}".into());
    let generators = Generators::empty();
    let processed = generators.apply_body_generators(&body, DetectedContentType::Json);
    assert_eq!(processed, body);
}

#[test]
fn applies_the_generator_to_a_json_map_entry() {
    let map = jobj(vec![("a", jint(100)), ("b", jstr("B")), ("c", jstr("C"))]);
    let mut json_handler = JsonHandler { value: map };

    json_handler.apply_key("$.b", &Generator::RandomInt(0, 10));

    assert!(!json_eq_x(field(&json_handler.value, "b"), &jstr("B")));
}

#[test]
fn json_generator_handles_invalid_path_expressions() {
    let map = jobj(vec![("a", jint(100)), ("b", jstr("B")), ("c", jstr("C"))]);
    let mut json_handler = JsonHandler { value: map };

    json_handler.apply_key("$[", &Generator::RandomInt(0, 10));

    let expected = jobj(vec![("a", jint(100)), ("b", jstr("B")), ("c", jstr("C"))]);
    assert!(json_eq_x(&json_handler.value, &expected));
}

#[test]
fn does_not_apply_the_generator_when_field_is_not_in_map() {
    let map = jobj(vec![("a", jint(100)), ("b", jstr("B")), ("c", jstr("C"))]);
    let mut json_handler = JsonHandler { value: map };

    json_handler.apply_key("$.d", &Generator::RandomInt(0, 10));

    let expected = jobj(vec![("a", jint(100)), ("b", jstr("B")), ("c", jstr("C"))]);
    assert!(json_eq_x(&json_handler.value, &expected));
}

#[test]
fn does_not_apply_the_generator_when_not_a_map() {
    let map = jint(100);
    let mut json_handler = JsonHandler { value: map };

    json_handler.apply_key("$.d", &Generator::RandomInt(0, 10));

    assert!(json_eq_x(&json_handler.value, &jint(100)));
}

#[test]
fn applies_the_generator_to_a_list_item() {
    let list = jarr(vec![jint(100), jint(200), jint(300)]);
    let mut json_handler = JsonHandler { value: list };

    json_handler.apply_key("$[1]", &Generator::RandomInt(0, 10));

    assert!(!json_eq_x(item(&json_handler.value, 1), &jint(200)));
}

#[test]
fn does_not_apply_the_generator_when_index_is_not_in_list() {
    let list = jarr(vec![jint(100), jint(200), jint(300)]);
    let mut json_handler = JsonHandler { value: list };

    json_handler.apply_key("$[3]", &Generator::RandomInt(0, 10));

    let expected = jarr(vec![jint(100), jint(200), jint(300)]);
    assert!(json_eq_x(&json_handler.value, &expected));
}

#[test]
fn does_not_apply_the_generator_when_not_a_list() {
    let list = jint(100);
    let mut json_handler = JsonHandler { value: list };

    json_handler.apply_key("$[3]", &Generator::RandomInt(0, 10));

    assert!(json_eq_x(&json_handler.value, &jint(100)));
}

#[test]
fn applies_the_generator_to_the_root() {
    let value = jint(100);
    let mut json_handler = JsonHandler { value };

    json_handler.apply_key("$", &Generator::RandomInt(0, 10));

    assert!(!json_eq_x(&json_handler.value, &jint(100)));
}

#[test]
fn applies_the_generator_to_the_object_graph() {
    let value = jobj(vec![
        (
            "a",
            jarr(vec![
                jstr("A"),
                jobj(vec![
                    ("a", jstr("A")),
                    ("b", jobj(vec![("1", jstr("1")), ("2", jstr("2"))])),
                    ("c", jstr("C")),
                ]),
                jstr("C"),
            ]),
        ),
        ("b", jstr("B")),
        ("c", jstr("C")),
    ]);
    let mut json_handler = JsonHandler { value };

    json_handler.apply_key("$.a[1].b['2']", &Generator::RandomInt(3, 10));

    let two = field(field(item(field(&json_handler.value, "a"), 1), "b"), "2");
    assert!(!json_eq_x(two, &jstr("2")));
}

#[test]
fn does_not_apply_the_generator_to_the_object_graph_when_the_expression_does_not_match() {
    let value = jobj(vec![("a", jstr("A")), ("b", jstr("B")), ("c", jstr("C"))]);
    let mut json_handler = JsonHandler { value };

    json_handler.apply_key("$.a[1].b['2']", &Generator::RandomInt(0, 10));

    let expected = jobj(vec![("a", jstr("A")), ("b", jstr("B")), ("c", jstr("C"))]);
    assert!(json_eq_x(&json_handler.value, &expected));
}

#[test]
fn applies_the_generator_to_all_map_entries() {
    let value = jobj(vec![("a", jstr("A")), ("b", jstr("B")), ("c", jstr("C"))]);
    let mut json_handler = JsonHandler { value };

    json_handler.apply_key("$.*", &Generator::RandomInt(0, 10));

    assert!(!json_eq_x(field(&json_handler.value, "a"), &jstr("A")));
    assert!(!json_eq_x(field(&json_handler.value, "b"), &jstr("B")));
    assert!(!json_eq_x(field(&json_handler.value, "c"), &jstr("C")));
}

#[test]
fn applies_the_generator_to_all_list_items() {
    let value = jarr(vec![jstr("A"), jstr("B"), jstr("C")]);
    let mut json_handler = JsonHandler { value };

    json_handler.apply_key("$[*]", &Generator::RandomInt(0, 10));

    assert!(!json_eq_x(item(&json_handler.value, 0), &jstr("A")));
    assert!(!json_eq_x(item(&json_handler.value, 1), &jstr("B")));
    assert!(!json_eq_x(item(&json_handler.value, 2), &jstr("C")));
}

#[test]
fn applies_the_generator_to_the_object_graph_with_wildcard() {
    let value = jobj(vec![
        (
            "a",
            jarr(vec![
                jstr("A"),
                jobj(vec![
                    ("a", jstr("A")),
                    ("b", jarr(vec![jstr("1"), jstr("2")])),
                    ("c", jstr("C")),
                ]),
                jstr("C"),
            ]),
        ),
        ("b", jstr("B")),
        ("c", jstr("C")),
    ]);
    let mut json_handler = JsonHandler { value };

    json_handler.apply_key("$.*[1].b[*]", &Generator::RandomInt(3, 10));

    let a = field(&json_handler.value, "a");
    assert!(json_eq_x(item(a, 0), &jstr("A")));
    assert!(json_eq_x(field(item(a, 1), "a"), &jstr("A")));
    assert!(!json_eq_x(item(field(item(a, 1), "b"), 0), &jstr("1")));
    assert!(!json_eq_x(item(field(item(a, 1), "b"), 1), &jstr("2")));
    assert!(json_eq_x(field(item(a, 1), "c"), &jstr("C")));
    assert!(json_eq_x(item(a, 2), &jstr("C")));
    assert!(json_eq_x(field(&json_handler.value, "b"), &jstr("B")));
    assert!(json_eq_x(field(&json_handler.value, "c"), &jstr("C")));
}

#[test]
fn canonical_rendering_parses_back_to_the_same_tree() {
    let tree = jobj(vec![
        ("n", JsonValue::Null),
        ("t", JsonValue::Bool(true)),
        ("i", jint(-42)),
        ("s", jstr("hello")),
        ("a", jarr(vec![jint(1), jstr("two"), jobj(vec![("k", jint(3))])])),
    ]);
    let rendered = pact_matching::jsonval::json_to_string(&tree);
    assert_eq!(
        rendered,
        "{\"n\":null,\"t\":true,\"i\":-42,\"s\":\"hello\",\"a\":[1,\"two\",{\"k\":3}]}"
    );
    let back = parse_json(&rendered).unwrap();
    assert!(json_eq_x(&back, &tree));
}

#[test]
fn uuid_generator_produces_the_hyphenated_shape() {
    let v = pact_matching::generate::generate_value(&Generator::Uuid, &jstr("x"));
    match v {
        JsonValue::Str(s) => {
            let cs: Vec<char> = s.chars().collect();
            assert_eq!(cs.len(), 36);
            for (i, c) in cs.iter().enumerate() {
                if i == 8 || i == 13 || i == 18 || i == 23 {
                    assert_eq!(*c, '-');
                } else {
                    assert!(c.is_ascii_hexdigit() && !c.is_ascii_uppercase());
                }
            }
        },
        other => panic!("expected a string, got {:?}", other),
    }
}

#[test]
fn generated_status_is_clamped_into_the_valid_range() {
    let response = Response {
        status: 200,
        generators: gens(vec![(Category::Status, "", Generator::RandomInt(700, 800))]),
        ..Response::default_response()
    };
    assert_eq!(generate_response(&response).status, 599);
}

#[test]
fn counts_the_interactions_of_a_pact_document() {
    let doc = parse_json("{\"interactions\": [{\"a\": 1}, {\"a\": 2}]}").unwrap();
    assert_eq!(pact_matching::jsonval::interaction_count(&doc), 2);
    let none = parse_json("{\"consumer\": {}}").unwrap();
    assert_eq!(pact_matching::jsonval::interaction_count(&none), 0);
}

#[test]
fn date_generator_formats_the_clock_with_the_default_pattern() {
    let v = pact_matching::generate::generate_value(
        &Generator::Date(String::new()),
        &jstr("2000-01-01"),
    );
    match v {
        JsonValue::Str(s) => {
            assert!(!s.is_empty());
            assert!(s.chars().all(|c| c.is_ascii_digit() || c == '-'));
        },
        other => panic!("expected a string, got {:?}", other),
    }
}
