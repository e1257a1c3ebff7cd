use mejl::request::{ContentType, Request, Verb};
use mejl::string_map::StringMap;

struct RequestBuilder {
    uri: String,
    properties: StringMap,
    headers: StringMap,
    body: String,
    verb: Verb,
    extract: StringMap,
    content_type: ContentType,
}

impl RequestBuilder {
    fn new() -> Self {
        RequestBuilder {
            uri: String::new(),
            properties: StringMap::new(),
            headers: StringMap::new(),
            body: String::new(),
            verb: Verb::GET,
            extract: StringMap::new(),
            content_type: ContentType::default(),
        }
    }

    fn uri(mut self, uri: String) -> RequestBuilder {
        self.uri = uri;
        self
    }

    fn properties(mut self, properties: StringMap) -> RequestBuilder {
        self.properties = properties;
        self
    }

    fn header(mut self, header: String, value: String) -> RequestBuilder {
        self.headers.insert(header, value);
        self
    }

    fn body(mut self, body: String) -> RequestBuilder {
        self.body = body;
        self
    }

    fn content_type(mut self, content_type: ContentType) -> RequestBuilder {
        self.content_type = content_type;
        self
    }

    fn build(self) -> Request {
        Request::new(
            self.uri,
            self.verb,
            self.properties,
            self.headers,
            self.body,
            self.extract,
            self.content_type,
        )
    }
}

fn map_of(pairs: &[(&str, &str)]) -> StringMap {
    let mut map = StringMap::new();
    for (k, v) in pairs {
        map.insert(k.to_string(), v.to_string());
    }
    map
}

#[test]
fn uri_replaced() {
    let mut props = StringMap::new();
    props.insert("some_key".to_owned(), "some_value".to_owned());

    let request = RequestBuilder::new()
        .uri("URI/{some_key}/URI".to_owned())
        .properties(props)
        .build();

    assert_eq!(
        request.replaced_uri(&StringMap::new()),
        "URI/some_value/URI"
    );
}

#[test]
fn uri_replaced_escaped_braces() {
    let mut props = StringMap::new();
    props.insert("some_key".to_owned(), "some_value".to_owned());

    let request = RequestBuilder::new()
        .uri("URI/{{some_key}}/URI".to_owned())
        .properties(props)
        .build();

    assert_eq!(
        request.replaced_uri(&StringMap::new()),
        "URI/{some_key}/URI"
    );
}

#[test]
fn uri_replaced_empty_escaped_braces() {
    let request = RequestBuilder::new().uri("URI/{{}}/URI".to_owned()).build();

    assert_eq!(request.replaced_uri(&StringMap::new()), "URI/{}/URI");
}

#[test]
fn uri_replaced_unknown_key() {
    let request = RequestBuilder::new()
        .uri("URI/{some_key}/URI".to_owned())
        .build();

    assert_eq!(
        request.replaced_uri(&StringMap::new()),
        "URI/{some_key}/URI"
    );
}

#[test]
fn uri_replaced_empty_key() {
    let request = RequestBuilder::new().uri("URI/{}/URI".to_owned()).build();

    assert_eq!(request.replaced_uri(&StringMap::new()), "URI/{}/URI");
}

#[test]
fn headers_replaced() {
    let mut props = StringMap::new();
    props.insert("some_key".to_owned(), "some_value".to_owned());

    let request = RequestBuilder::new()
        .header("A_HEADER".to_owned(), "{some_key}".to_owned())
        .properties(props)
        .build();

    assert_eq!(
        request.replaced_headers(&StringMap::new()).get("A_HEADER"),
        Some(&"some_value".to_owned())
    );
}

#[test]
fn headers_replaced_unknown_key() {
    let request = RequestBuilder::new()
        .header("A_HEADER".to_owned(), "{some_key}".to_owned())
        .build();

    assert_eq!(
        request.replaced_headers(&StringMap::new()).get("A_HEADER"),
        Some(&"{some_key}".to_owned())
    );
}

#[test]
fn headers_replaced_empty_key() {
    let request = RequestBuilder::new()
        .header("A_HEADER".to_owned(), "{}".to_owned())
        .build();

    assert_eq!(
        request.replaced_headers(&StringMap::new()).get("A_HEADER"),
        Some(&"{}".to_owned())
    );
}

#[test]
fn headers_replaced_escaped_key() {
    let request = RequestBuilder::new()
        .header("A_HEADER".to_owned(), "{{some_key}}".to_owned())
        .build();

    assert_eq!(
        request.replaced_headers(&StringMap::new()).get("A_HEADER"),
        Some(&"{some_key}".to_owned())
    );
}

#[test]
fn escaped_placeholder_ignores_cached_value() {
    let request = RequestBuilder::new()
        .uri("a{{x}}b{{}}c".to_owned())
        .build();
    let cached = map_of(&[("x", "X"), ("", "E")]);
    assert_eq!(request.replaced_uri(&cached), "a{x}b{}c");
}

#[test]
fn placeholder_uses_cached_value() {
    let request = RequestBuilder::new()
        .uri("/users/{id}/posts/{post}".to_owned())
        .build();
    let cached = map_of(&[("id", "42")]);
    assert_eq!(request.replaced_uri(&cached), "/users/42/posts/{post}");
}

#[test]
fn substituted_value_is_not_resolved_again() {
    let request = RequestBuilder::new().uri("<{x}>".to_owned()).build();
    let cached = map_of(&[("x", "{y}"), ("y", "Y")]);
    assert_eq!(request.replaced_uri(&cached), "<{y}>");
}

#[test]
fn request_property_shadows_cached_property() {
    let request = RequestBuilder::new()
        .uri("{k}-{other}".to_owned())
        .properties(map_of(&[("k", "local")]))
        .build();
    let cached = map_of(&[("k", "cached"), ("other", "o")]);
    assert_eq!(request.replaced_uri(&cached), "local-o");
}

#[test]
fn unbalanced_braces_follow_the_scanner() {
    let request = RequestBuilder::new()
        .uri("{{a}|{b}}|{{{c}}}|{ d}|{e".to_owned())
        .build();
    let cached = map_of(&[("a", "A"), ("b", "B"), ("c", "C"), ("e", "E")]);
    assert_eq!(request.replaced_uri(&cached), "A|B|{{c}}|{ d}|{e");
}

#[test]
fn punctuation_ends_a_name() {
    let request = RequestBuilder::new().uri("{a-b}{a.b}".to_owned()).build();
    let cached = map_of(&[("a-b", "no"), ("a.b", "no")]);
    assert_eq!(request.replaced_uri(&cached), "{a-b}{a.b}");
}

#[test]
fn unicode_letters_are_word_characters() {
    let request = RequestBuilder::new().uri("{café}/{ünï_9}".to_owned()).build();
    let cached = map_of(&[("café", "1"), ("ünï_9", "2")]);
    assert_eq!(request.replaced_uri(&cached), "1/2");
}

#[test]
fn text_body_is_resolved() {
    let request = RequestBuilder::new()
        .body("{\"id\": \"{id}\", \"x\": \"{{id}}\"}".to_owned())
        .build();
    let cached = map_of(&[("id", "é7")]);
    assert_eq!(
        request.replaced_body(&cached),
        "{\"id\": \"é7\", \"x\": \"{id}\"}".as_bytes().to_vec()
    );
}

#[test]
fn binary_body_is_not_resolved() {
    let request = RequestBuilder::new()
        .body("raw {id}".to_owned())
        .content_type(ContentType::Binary)
        .build();
    let cached = map_of(&[("id", "7")]);
    assert_eq!(request.replaced_body(&cached), b"raw {id}".to_vec());
    assert_eq!(request.body(), b"raw {id}".to_vec());
}

#[test]
fn headers_keep_their_names() {
    let request = RequestBuilder::new()
        .header("Authorization".to_owned(), "Bearer {token}".to_owned())
        .header("X-Plain".to_owned(), "plain".to_owned())
        .build();
    let resolved = request.replaced_headers(&map_of(&[("token", "t0k")]));
    assert_eq!(resolved.len(), 2);
    assert_eq!(resolved.get("Authorization"), Some(&"Bearer t0k".to_owned()));
    assert_eq!(resolved.get("X-Plain"), Some(&"plain".to_owned()));
    assert_eq!(resolved.get("x-plain"), None);
}

#[test]
fn get_property_prefers_request_properties() {
    let request = RequestBuilder::new()
        .properties(map_of(&[("a", "1")]))
        .build();
    let cached = map_of(&[("a", "2"), ("b", "3")]);
    assert_eq!(request.get_property("a", &cached), Some(&"1".to_owned()));
    assert_eq!(request.get_property("b", &cached), Some(&"3".to_owned()));
    assert_eq!(request.get_property("c", &cached), None);
}

#[test]
fn file_body_reference() {
    let mut request = RequestBuilder::new()
        .body("file:data/hello.txt".to_owned())
        .build();
    assert_eq!(request.body_file(), Some("data/hello.txt".to_owned()));
    request.replace_body("hello".to_owned());
    assert_eq!(request.body(), "hello".as_bytes().to_vec());
    assert_eq!(request.body_file(), None);

    let plain = RequestBuilder::new().body("fil:e".to_owned()).build();
    assert_eq!(plain.body_file(), None);
}

#[test]
fn accessors_return_what_was_given() {
    let request = Request::new(
        "u".to_owned(),
        Verb::DELETE,
        map_of(&[("p", "1")]),
        map_of(&[("h", "2")]),
        "b".to_owned(),
        map_of(&[("e", "json:x")]),
        ContentType::Binary,
    );
    assert_eq!(request.uri(), "u");
    assert_eq!(request.verb(), Verb::DELETE);
    assert_eq!(request.properties().get("p"), Some(&"1".to_owned()));
    assert_eq!(request.headers().get("h"), Some(&"2".to_owned()));
    assert_eq!(request.extract().get("e"), Some(&"json:x".to_owned()));
    assert_eq!(request.content_type(), ContentType::Binary);
    assert_eq!(ContentType::default(), ContentType::Text);
}

#[test]
fn escaped_braces_with_empty_store() {
    let request = RequestBuilder::new()
        .uri("URI/{{some_key}}/URI".to_owned())
        .build();
    assert_eq!(
        request.replaced_uri(&StringMap::new()),
        "URI/{some_key}/URI"
    );
}

#[test]
fn cached_value_fills_uri() {
    let request = RequestBuilder::new()
        .uri("URI/{some_key}/URI".to_owned())
        .build();
    let cached = map_of(&[("some_key", "some_value")]);
    assert_eq!(request.replaced_uri(&cached), "URI/some_value/URI");
}

#[test]
fn empty_placeholder_stays_with_empty_name_present() {
    let request = RequestBuilder::new()
        .uri("a{}b{{}c{}}d".to_owned())
        .properties(map_of(&[("", "X")]))
        .build();
    let cached = map_of(&[("", "Y")]);
    assert_eq!(request.replaced_uri(&cached), "a{}b{{}c{}}d");
    let header = RequestBuilder::new()
        .header("H".to_owned(), "{}".to_owned())
        .build();
    assert_eq!(
        header.replaced_headers(&cached).get("H"),
        Some(&"{}".to_owned())
    );
    assert_eq!(request.get_property("", &cached), Some(&"X".to_owned()));
}

#[test]
fn word_class_takes_marks_and_connectors() {
    let request = RequestBuilder::new()
        .uri("{e\u{301}}|{a\u{203F}b}|{x\u{B2}}".to_owned())
        .build();
    let cached = map_of(&[("e\u{301}", "1"), ("a\u{203F}b", "2"), ("x\u{B2}", "3")]);
    assert_eq!(request.replaced_uri(&cached), "1|2|{x\u{B2}}");
}
