use mejl::collection::{ignored_directory, ignored_file};
use mejl::error::ExtractError;
use mejl::extractor::{self, get_type, merge_extracted, ExtractorTypes};
use mejl::headers;
use mejl::json;
use mejl::response::{Response, ResponseBuilder};
use mejl::string_map::StringMap;

fn get_basic_string() -> &'static str {
    r#"
        {
            "name": "John Doe",
            "age": 43,
            "phones": [
                "+44 1234567",
                "+44 2345678"
            ]
        }"#
}

fn get_deep_object() -> &'static str {
    r#"
        {
            "foo": {
                "bar": {
                    "baz": {
                        "a": {
                            "b": {
                                "c": {
                                    "d": 1066
                                },
                                "x": 6
                            },
                            "y": 5
                        },
                        "z": 4
                    },
                    "zab": 3
                },
                "rab": 2
            },
            "oof": 1
        }"#
}

fn response_with_body(body: &str) -> Response {
    ResponseBuilder::new()
        .body(body.as_bytes().to_vec())
        .build()
}

fn map_of(pairs: &[(&str, &str)]) -> StringMap {
    let mut map = StringMap::new();
    for (k, v) in pairs {
        map.insert(k.to_string(), v.to_string());
    }
    map
}

#[test]
fn basic_string() {
    let response = ResponseBuilder::new()
        .body(get_basic_string().as_bytes().to_vec())
        .build();
    let to_extract = "name";
    let value = json::extract(to_extract, &response);
    assert!(value.is_ok(), "Extracting failed: {:?}", value.unwrap_err());
    assert_eq!(value.unwrap(), "John Doe");
}

#[test]
fn basic_int() {
    let response = ResponseBuilder::new()
        .body(get_basic_string().as_bytes().to_vec())
        .build();
    let to_extract = "age";
    let value = json::extract(to_extract, &response);
    assert!(value.is_ok(), "Extracting failed: {:?}", value.unwrap_err());
    assert_eq!(value.unwrap(), "43");
}

#[test]
fn basic_index() {
    let response = ResponseBuilder::new()
        .body(get_basic_string().as_bytes().to_vec())
        .build();
    let to_extract = "phones[1]";
    let value = json::extract(to_extract, &response);
    assert!(value.is_ok(), "Extracting failed: {:?}", value.unwrap_err());
    assert_eq!(value.unwrap(), "+44 2345678");
}

#[test]
fn deep_object() {
    let response = ResponseBuilder::new()
        .body(get_deep_object().as_bytes().to_vec())
        .build();
    let to_extract = "foo.bar.baz.a.b.c.d";
    let value = json::extract(to_extract, &response);
    assert!(value.is_ok(), "Extracting failed: {:?}", value.unwrap_err());
    assert_eq!(value.unwrap(), "1066");
}

#[test]
fn first_phone_and_whole_array() {
    let response = response_with_body(get_basic_string());
    assert_eq!(json::extract("phones[0]", &response).unwrap(), "+44 1234567");
    assert_eq!(
        json::extract("phones", &response).unwrap(),
        "[\"+44 1234567\",\"+44 2345678\"]"
    );
}

#[test]
fn objects_and_literals_come_out_as_json_text() {
    let response = response_with_body(
        r#"{"o": {"b": 1, "a": [true, null]}, "t": false, "n": null, "f": -2.5, "s": "q\"x"}"#,
    );
    assert_eq!(json::extract("o", &response).unwrap(), "{\"a\":[true,null],\"b\":1}");
    assert_eq!(json::extract("t", &response).unwrap(), "false");
    assert_eq!(json::extract("n", &response).unwrap(), "null");
    assert_eq!(json::extract("f", &response).unwrap(), "-2.5");
    assert_eq!(json::extract("s", &response).unwrap(), "q\"x");
    assert_eq!(json::extract("o.a[0]", &response).unwrap(), "true");
}

#[test]
fn index_in_nested_segments() {
    let response = response_with_body(r#"{"list": [{"items": [10, 20, {"v": "deep"}]}]}"#);
    assert_eq!(json::extract("list[0].items[2].v", &response).unwrap(), "deep");
    assert_eq!(json::extract("list[0].items[1]", &response).unwrap(), "20");
}

#[test]
fn out_of_range_index_fails() {
    let response = response_with_body(get_basic_string());
    match json::extract("phones[2]", &response) {
        Err(ExtractError::IndexOutOfRange { segment, index }) => {
            assert_eq!(segment, "phones[2]");
            assert_eq!(index, 2);
        }
        other => panic!("unexpected {:?}", other),
    }
}

#[test]
fn missing_key_names_segment_and_selector() {
    let response = response_with_body(get_deep_object());
    match json::extract("foo.bar.nope.a", &response) {
        Err(ExtractError::MissingKey { segment, selector }) => {
            assert_eq!(segment, "nope");
            assert_eq!(selector, "foo.bar.nope.a");
        }
        other => panic!("unexpected {:?}", other),
    }
}

#[test]
fn index_on_a_non_array_fails() {
    let response = response_with_body(get_basic_string());
    assert!(matches!(
        json::extract("name[0]", &response),
        Err(ExtractError::NotAnArray { .. })
    ));
}

#[test]
fn index_too_large_fails() {
    let response = response_with_body(get_basic_string());
    assert!(matches!(
        json::extract("phones[99999999999999999999999]", &response),
        Err(ExtractError::BadIndex { .. })
    ));
}

#[test]
fn key_into_an_array_fails() {
    let response = response_with_body(get_basic_string());
    assert!(matches!(
        json::extract("phones.0", &response),
        Err(ExtractError::MissingKey { .. })
    ));
}

#[test]
fn body_that_is_not_text_fails() {
    let response = ResponseBuilder::new().body(vec![0x7b, 0xff, 0x7d]).build();
    assert!(matches!(json::extract("a", &response), Err(ExtractError::NotText)));
}

#[test]
fn body_that_is_not_json_fails() {
    let response = response_with_body("{\"a\": ");
    assert!(matches!(
        json::extract("a", &response),
        Err(ExtractError::InvalidJson { .. })
    ));
}

#[test]
fn header_extraction() {
    let response = ResponseBuilder::new()
        .headers(map_of(&[("A_HEADER", "some_value")]))
        .build();
    assert_eq!(headers::extract("A_HEADER", &response).unwrap(), "some_value");
    assert!(matches!(
        headers::extract("a_header", &response),
        Err(ExtractError::MissingHeader { .. })
    ));
}

#[test]
fn directive_kinds() {
    let d1 = "json:a.b".to_owned();
    let (kind, view) = get_type(&d1);
    assert_eq!(kind, ExtractorTypes::Json);
    assert_eq!(view, "a.b");
    let d2 = "header:X-Id".to_owned();
    let (kind, view) = get_type(&d2);
    assert_eq!(kind, ExtractorTypes::Header);
    assert_eq!(view, "X-Id");
    let d3 = "xml:a".to_owned();
    let (kind, view) = get_type(&d3);
    assert_eq!(kind, ExtractorTypes::Unknown);
    assert_eq!(view, "xml:a");
    let d4 = "json".to_owned();
    let (kind, view) = get_type(&d4);
    assert_eq!(kind, ExtractorTypes::Unknown);
    assert_eq!(view, "json");
}

#[test]
fn failed_directive_leaves_siblings_alone() {
    let response = ResponseBuilder::new()
        .status(200)
        .headers(map_of(&[("A_HEADER", "some_value")]))
        .body(get_basic_string().as_bytes().to_vec())
        .build();
    let directives = map_of(&[
        ("h", "header:A_HEADER"),
        ("missing", "header:B_HEADER"),
        ("age", "json:age"),
        ("phone", "json:phones[5]"),
        ("odd", "yaml:age"),
    ]);
    let result = extractor::extract(&directives, &response);
    assert_eq!(result.properties.len(), 2);
    assert_eq!(result.properties.get("h"), Some(&"some_value".to_owned()));
    assert_eq!(result.properties.get("age"), Some(&"43".to_owned()));
    assert_eq!(result.properties.get("missing"), None);
    assert_eq!(result.failures.len(), 3);
    let mut names: Vec<&str> = result.failures.iter().map(|(n, _)| n.as_str()).collect();
    names.sort();
    assert_eq!(names, vec!["missing", "odd", "phone"]);
    for (name, error) in &result.failures {
        match name.as_str() {
            "missing" => assert!(matches!(error, ExtractError::MissingHeader { .. })),
            "odd" => assert!(matches!(error, ExtractError::UnknownExtractor { .. })),
            _ => assert!(matches!(error, ExtractError::IndexOutOfRange { .. })),
        }
    }
}

#[test]
fn extracted_values_win_in_the_cache() {
    let response = ResponseBuilder::new()
        .body(r#"{"token": "new", "id": 7}"#.as_bytes().to_vec())
        .build();
    let mut cached = map_of(&[("token", "old"), ("keep", "k")]);
    let failures = merge_extracted(
        &mut cached,
        &map_of(&[("token", "json:token"), ("id", "json:id"), ("gone", "json:gone")]),
        &response,
    );
    assert_eq!(failures.len(), 1);
    assert_eq!(failures[0].0, "gone");
    assert_eq!(cached.get("token"), Some(&"new".to_owned()));
    assert_eq!(cached.get("id"), Some(&"7".to_owned()));
    assert_eq!(cached.get("keep"), Some(&"k".to_owned()));
    assert_eq!(cached.get("gone"), None);
}

#[test]
fn response_accessors() {
    let response = ResponseBuilder::new()
        .status(404)
        .body(vec![1, 2])
        .headers(map_of(&[("k", "v")]))
        .build();
    assert_eq!(response.status(), 404);
    assert_eq!(response.body(), &vec![1, 2]);
    assert_eq!(response.headers().get("k"), Some(&"v".to_owned()));
    let empty = ResponseBuilder::new().build();
    assert_eq!(empty.status(), 0);
    assert!(empty.body().is_empty());
    assert_eq!(empty.headers().len(), 0);
}

#[test]
fn store_merge_prefers_later_layer() {
    let mut store = map_of(&[("a", "global"), ("b", "global")]);
    store.merge(&map_of(&[("b", "local"), ("c", "local")]));
    store.insert("a".to_owned(), "dynamic".to_owned());
    assert_eq!(store.len(), 3);
    assert_eq!(store.get("a"), Some(&"dynamic".to_owned()));
    assert_eq!(store.get("b"), Some(&"local".to_owned()));
    assert_eq!(store.get("c"), Some(&"local".to_owned()));
    assert!(store.contains_key("c"));
    assert!(!store.contains_key("d"));
    assert_eq!(store.key_at(0), "a");
    assert_eq!(store.value_at(1), "local");
}

#[test]
fn collection_layout_rules() {
    assert!(ignored_directory("_data"));
    assert!(!ignored_directory("api"));
    assert!(!ignored_directory(""));
    assert!(ignored_file("mejl"));
    assert!(!ignored_file("json"));
    assert!(!ignored_file("mejlx"));
}

#[test]
fn index_key_is_everything_before_the_brackets() {
    let response = response_with_body(
        r#"{"user_ids": [5, 6], "ids": [7], "a[1]b": "whole", "[0]": "bare", "k": [1, 2]}"#,
    );
    assert_eq!(json::extract("user_ids[1]", &response).unwrap(), "6");
    assert_eq!(json::extract("a[1]b", &response).unwrap(), "whole");
    assert_eq!(json::extract("[0]", &response).unwrap(), "bare");
    assert_eq!(json::extract("k[01]", &response).unwrap(), "2");
    assert!(matches!(
        json::extract("k[1]x", &response),
        Err(ExtractError::MissingKey { .. })
    ));
}

#[test]
fn extract_from_parsed_value() {
    let value: serde_json::Value = serde_json::from_str(get_basic_string()).unwrap();
    assert_eq!(json::extract_value(&value, "phones[1]").unwrap(), "+44 2345678");
    assert_eq!(json::extract_value(&value, "age").unwrap(), "43");
    assert_eq!(json::extract_value(&value, "name").unwrap(), "John Doe");
    match json::extract_value(&value, "phones.x") {
        Err(ExtractError::MissingKey { segment, selector }) => {
            assert_eq!(segment, "x");
            assert_eq!(selector, "phones.x");
        }
        other => panic!("unexpected {:?}", other),
    }
}
