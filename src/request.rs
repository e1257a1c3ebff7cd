//! Declarative description of one request, and its views resolved against
//! the properties known at the time it runs.

use crate::string_map::StringMap;
use crate::template::{
    has_token, is_word, lemma_placeholder, lemma_word_end_bounds, name_end, opens, placeholder,
    replacement, resolve, resolve_from, token_end, token_name, word_end,
};
use crate::text::{chars_of, has_prefix, push_char, string_of, word_char};
use vstd::prelude::*;
use vstd::utf8::encode_utf8;

verus! {

/// HTTP method of a request.
#[derive(Clone, Copy, Debug, PartialEq, Eq, Structural)]
pub enum Verb {
    GET,
    POST,
    DELETE,
}

/// How a request body is treated: text is resolved as a template, binary
/// content is sent as it is.
#[derive(Clone, Copy, Debug, PartialEq, Eq, Structural)]
pub enum ContentType {
    Text,
    Binary,
}

impl ContentType {
    pub fn default() -> (r: ContentType)
        ensures
            r == ContentType::Text,
    {
        ContentType::Text
    }
}

/// The properties that resolution sees: those of the request itself win over
/// those supplied from outside.
pub open spec fn effective_properties(
    local: Map<Seq<char>, Seq<char>>,
    cached: Map<Seq<char>, Seq<char>>,
) -> Map<Seq<char>, Seq<char>> {
    cached.union_prefer_right(local)
}

/// `file:`, the prefix of a body that names a file to load.
pub open spec fn file_prefix() -> Seq<char> {
    seq!['f', 'i', 'l', 'e', ':']
}

/// A property that the request holds itself is what its placeholder becomes,
/// whatever the properties supplied from outside hold for the same name.
pub proof fn lemma_request_properties_win(
    local: Map<Seq<char>, Seq<char>>,
    cached: Map<Seq<char>, Seq<char>>,
    pre: Seq<char>,
    name: Seq<char>,
    post: Seq<char>,
)
    requires
        local.contains_key(name),
        name.len() > 0,
        is_word(name),
        pre.len() == 0 || pre.last() != '{',
        post.len() == 0 || post[0] != '}',
    ensures
        effective_properties(local, cached)[name] == local[name],
        resolve(pre + placeholder(name) + post, effective_properties(local, cached)) == resolve(
            pre,
            effective_properties(local, cached),
        ) + local[name] + resolve(post, effective_properties(local, cached)),
{
    lemma_placeholder(pre, name, post, effective_properties(local, cached));
}

pub struct RequestView {
    pub uri: Seq<char>,
    pub verb: Verb,
    pub properties: Map<Seq<char>, Seq<char>>,
    pub headers: Map<Seq<char>, Seq<char>>,
    pub body: Seq<char>,
    pub extract: Map<Seq<char>, Seq<char>>,
    pub content_type: ContentType,
}

pub struct Request {
    uri: String,
    verb: Verb,
    properties: StringMap,
    headers: StringMap,
    body: String,
    extract: StringMap,
    content_type: ContentType,
}

impl View for Request {
    type V = RequestView;

    closed spec fn view(&self) -> RequestView {
        RequestView {
            uri: self.uri@,
            verb: self.verb,
            properties: self.properties@,
            headers: self.headers@,
            body: self.body@,
            extract: self.extract@,
            content_type: self.content_type,
        }
    }
}

/// For the placeholder that starts at `i`, if any: the number of braces that
/// open it, where its name ends and where it ends.
fn find_token(cs: &Vec<char>, i: usize) -> (r: Option<(usize, usize, usize)>)
    requires
        i < cs@.len(),
    ensures
        match r {
            Some((o, e, end)) => has_token(cs@, i as int) && o == opens(cs@, i as int) && e
                == name_end(cs@, i as int) && end == token_end(cs@, i as int),
            None => !has_token(cs@, i as int),
        },
{
    let n = cs.len();
    if cs[i] != '{' {
        return None;
    }
    let o: usize = if i + 1 < n && cs[i + 1] == '{' {
        2
    } else {
        1
    };
    let mut e: usize = i + o;
    let ghost start = e as int;
    while e < n && word_char(cs[e])
        invariant
            start <= e <= n,
            n == cs@.len(),
            word_end(cs@, start) == word_end(cs@, e as int),
        decreases n - e,
    {
        e += 1;
    }
    if e < n && cs[e] == '}' {
        let c: usize = if e + 1 < n && cs[e + 1] == '}' {
            2
        } else {
            1
        };
        Some((o, e, e + c))
    } else {
        None
    }
}

impl Request {
    pub fn new(
        uri: String,
        verb: Verb,
        properties: StringMap,
        headers: StringMap,
        body: String,
        extract: StringMap,
        content_type: ContentType,
    ) -> (r: Request)
        ensures
            r@ == (RequestView {
                uri: uri@,
                verb,
                properties: properties@,
                headers: headers@,
                body: body@,
                extract: extract@,
                content_type,
            }),
    {
        Request { uri, verb, properties, headers, body, extract, content_type }
    }

    pub fn uri(&self) -> (r: &String)
        ensures
            r@ == self@.uri,
    {
        &self.uri
    }

    pub fn headers(&self) -> (r: &StringMap)
        ensures
            r@ == self@.headers,
    {
        &self.headers
    }

    /// The body template, as UTF-8 bytes.
    pub fn body(&self) -> (r: Vec<u8>)
        ensures
            r@ == encode_utf8(self@.body),
    {
        self.body.as_str().as_bytes_vec()
    }

    pub fn verb(&self) -> (r: Verb)
        ensures
            r == self@.verb,
    {
        self.verb
    }

    /// Extraction directives: output property name to directive.
    pub fn extract(&self) -> (r: &StringMap)
        ensures
            r@ == self@.extract,
    {
        &self.extract
    }

    pub fn content_type(&self) -> (r: ContentType)
        ensures
            r == self@.content_type,
    {
        self.content_type
    }

    /// The request's own properties.
    pub fn properties(&self) -> (r: &StringMap)
        ensures
            r@ == self@.properties,
    {
        &self.properties
    }

    /// Value of a property: the request's own first, then `cached_properties`.
    pub fn get_property<'a>(&'a self, name: &str, cached_properties: &'a StringMap) -> (r: Option<
        &'a String,
    >)
        ensures
            match r {
                Some(v) => effective_properties(self@.properties, cached_properties@).contains_key(
                    name@,
                ) && v@ == effective_properties(self@.properties, cached_properties@)[name@],
                None => !effective_properties(self@.properties, cached_properties@).contains_key(
                    name@,
                ),
            },
    {
        match self.properties.get(name) {
            Some(value) => Some(value),
            None => cached_properties.get(name),
        }
    }

    /// `text` with its placeholders resolved.
    pub fn replace_text(&self, text: &String, cached_properties: &StringMap) -> (r: String)
        ensures
            r@ == resolve(text@, effective_properties(self@.properties, cached_properties@)),
    {
        let ghost props = effective_properties(self@.properties, cached_properties@);
        let cs = chars_of(text.as_str());
        let n = cs.len();
        let mut out = String::new();
        let mut i: usize = 0;
        while i < n
            invariant
                n == cs@.len(),
                i <= n,
                cs@ == text@,
                props == effective_properties(self@.properties, cached_properties@),
                resolve(cs@, props) == out@ + resolve_from(cs@, i as int, props),
            decreases n - i,
        {
            let ghost before = out@;
            match find_token(&cs, i) {
                Some((o, e, end)) => {
                    proof {
                        lemma_word_end_bounds(cs@, i + o);
                    }
                    let name = string_of(&cs, i + o, e);
                    assert(name@ == token_name(cs@, i as int));
                    if o == 2 && end - e == 2 {
                        push_char(&mut out, '{');
                        out.append(name.as_str());
                        push_char(&mut out, '}');
                    } else {
                        let value = if e > i + o {
                            self.get_property(name.as_str(), cached_properties)
                        } else {
                            None
                        };
                        match value {
                            Some(value) => out.append(value.as_str()),
                            None => {
                                let kept = string_of(&cs, i, end);
                                out.append(kept.as_str());
                            },
                        }
                    }
                    assert(out@ =~= before + replacement(cs@, i as int, props));
                    i = end;
                },
                None => {
                    push_char(&mut out, cs[i]);
                    assert(out@ =~= before + seq![cs@[i as int]]);
                    i += 1;
                },
            }
        }
        assert(out@ + resolve_from(cs@, n as int, props) =~= out@);
        out
    }

    pub fn replaced_uri(&self, cached_properties: &StringMap) -> (r: String)
        ensures
            r@ == resolve(self@.uri, effective_properties(self@.properties, cached_properties@)),
    {
        self.replace_text(&self.uri, cached_properties)
    }

    /// The headers, each value resolved.
    pub fn replaced_headers(&self, cached_properties: &StringMap) -> (r: StringMap)
        ensures
            r@.dom() == self@.headers.dom(),
            forall|k: Seq<char>|
                #[trigger] r@.contains_key(k) ==> r@[k] == resolve(
                    self@.headers[k],
                    effective_properties(self@.properties, cached_properties@),
                ),
    {
        let ghost props = effective_properties(self@.properties, cached_properties@);
        let mut map = StringMap::new();
        let n = self.headers.len();
        let mut i: usize = 0;
        while i < n
            invariant
                n == self.headers.size(),
                i <= n,
                self.headers.lists_entries(),
                props == effective_properties(self@.properties, cached_properties@),
                forall|q: Seq<char>|
                    #[trigger] map@.contains_key(q) <==> exists|j: int|
                        0 <= j < i && self.headers.key(j) == q,
                forall|q: Seq<char>|
                    #[trigger] map@.contains_key(q) ==> map@[q] == resolve(self.headers@[q], props),
            decreases n - i,
        {
            let key = self.headers.key_at(i).clone();
            let value = self.replace_text(self.headers.value_at(i), cached_properties);
            map.insert(key, value);
            proof {
                assert(self.headers@.contains_key(self.headers.key(i as int)));
                assert(self.headers@[key@] == self.headers.val(i as int));
                assert forall|q: Seq<char>|
                    #[trigger] map@.contains_key(q) <==> exists|j: int|
                        0 <= j < i + 1 && self.headers.key(j) == q by {
                    if exists|j: int| 0 <= j < i + 1 && self.headers.key(j) == q {
                        let j = choose|j: int| 0 <= j < i + 1 && self.headers.key(j) == q;
                        if j < i {
                            assert(exists|j: int| 0 <= j < i && self.headers.key(j) == q);
                        }
                    }
                    if map@.contains_key(q) && q != key@ {
                        let j = choose|j: int| 0 <= j < i && self.headers.key(j) == q;
                        assert(0 <= j < i + 1 && self.headers.key(j) == q);
                    }
                }
            }
            i += 1;
        }
        proof {
            assert forall|q: Seq<char>| self.headers@.contains_key(q) implies #[trigger] map@.contains_key(
                q,
            ) by {
                let j = choose|j: int| 0 <= j < self.headers.size() && #[trigger] self.headers.key(j) == q;
                assert(exists|j: int| 0 <= j < i && self.headers.key(j) == q);
            }
            assert forall|q: Seq<char>| map@.contains_key(q) implies #[trigger] self.headers@.contains_key(
                q,
            ) by {
                let j = choose|j: int| 0 <= j < i && self.headers.key(j) == q;
            }
        }
        assert(map@.dom() =~= self@.headers.dom());
        map
    }

    /// The body as bytes: a text body resolved, a binary body as it is.
    pub fn replaced_body(&self, cached_properties: &StringMap) -> (r: Vec<u8>)
        ensures
            r@ == match self@.content_type {
                ContentType::Text => encode_utf8(
                    resolve(self@.body, effective_properties(self@.properties, cached_properties@)),
                ),
                ContentType::Binary => encode_utf8(self@.body),
            },
    {
        match self.content_type {
            ContentType::Text => {
                let replaced = self.replace_text(&self.body, cached_properties);
                replaced.as_str().as_bytes_vec()
            },
            ContentType::Binary => self.body.as_str().as_bytes_vec(),
        }
    }

    /// The path that a `file:` body names, relative to the collection.
    pub fn body_file(&self) -> (r: Option<String>)
        ensures
            match r {
                Some(path) => self@.body == file_prefix() + path@,
                None => !(file_prefix().len() <= self@.body.len() && self@.body.subrange(
                    0,
                    file_prefix().len() as int,
                ) == file_prefix()),
            },
    {
        let cs = chars_of(self.body.as_str());
        let prefix = chars_of("file:");
        proof {
            reveal_strlit("file:");
        }
        assert(prefix@ =~= file_prefix());
        if has_prefix(&cs, &prefix) {
            let path = string_of(&cs, prefix.len(), cs.len());
            assert(cs@ =~= file_prefix() + path@);
            Some(path)
        } else {
            None
        }
    }

    /// Puts the loaded contents of a `file:` body in its place.
    pub fn replace_body(&mut self, contents: String)
        ensures
            final(self)@ == (RequestView { body: contents@, ..old(self)@ }),
    {
        self.body = contents;
    }
}

} // verus!
