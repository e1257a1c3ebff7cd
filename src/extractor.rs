//! Extraction directives: `json:<path>` or `header:<name>`, applied to a
//! response one by one.

use crate::error::{ExtractError, ExtractFailure, outcome};
use crate::headers::{self, header_extraction};
use crate::json::{self, json_extraction};
use crate::response::{Response, ResponseView};
use crate::string_map::StringMap;
use crate::text::{chars_of, has_prefix};
use vstd::prelude::*;

verus! {

/// Kind of a directive, told by its prefix.
#[derive(Clone, Copy, Debug, PartialEq, Eq, Structural)]
pub enum ExtractorTypes {
    Unknown,
    Header,
    Json,
}

/// `json:`
pub open spec fn json_prefix() -> Seq<char> {
    seq!['j', 's', 'o', 'n', ':']
}

/// `header:`
pub open spec fn header_prefix() -> Seq<char> {
    seq!['h', 'e', 'a', 'd', 'e', 'r', ':']
}

pub open spec fn starts_with(s: Seq<char>, p: Seq<char>) -> bool {
    p.len() <= s.len() && s.subrange(0, p.len() as int) == p
}

/// Kind of a directive.
pub open spec fn directive_kind(d: Seq<char>) -> ExtractorTypes {
    if starts_with(d, json_prefix()) {
        ExtractorTypes::Json
    } else if starts_with(d, header_prefix()) {
        ExtractorTypes::Header
    } else {
        ExtractorTypes::Unknown
    }
}

/// What a directive selects: the text after its prefix, or all of it when
/// its kind is unknown.
pub open spec fn directive_selector(d: Seq<char>) -> Seq<char> {
    if starts_with(d, json_prefix()) {
        d.subrange(json_prefix().len() as int, d.len() as int)
    } else if starts_with(d, header_prefix()) {
        d.subrange(header_prefix().len() as int, d.len() as int)
    } else {
        d
    }
}

/// Result of one directive on a response.
pub open spec fn directive_outcome(d: Seq<char>, response: ResponseView) -> Result<
    Seq<char>,
    ExtractFailure,
> {
    match directive_kind(d) {
        ExtractorTypes::Json => json_extraction(directive_selector(d), response.body),
        ExtractorTypes::Header => header_extraction(directive_selector(d), response.headers),
        ExtractorTypes::Unknown => Err(ExtractFailure::UnknownExtractor { directive: d }),
    }
}

/// The properties that the directives yield: one for each directive that
/// succeeds, under its output name.
pub open spec fn extracted(directives: Map<Seq<char>, Seq<char>>, response: ResponseView) -> Map<
    Seq<char>,
    Seq<char>,
> {
    Map::new(
        |k: Seq<char>| directives.contains_key(k) && directive_outcome(directives[k], response) is Ok,
        |k: Seq<char>| directive_outcome(directives[k], response)->Ok_0,
    )
}

/// Kind of a directive and the text it selects.
pub fn get_type(extract: &String) -> (r: (ExtractorTypes, &str))
    ensures
        r.0 == directive_kind(extract@),
        r.1@ == directive_selector(extract@),
{
    let cs = chars_of(extract.as_str());
    let json = chars_of("json:");
    let header = chars_of("header:");
    proof {
        reveal_strlit("json:");
        reveal_strlit("header:");
        assert(json@ =~= json_prefix());
        assert(header@ =~= header_prefix());
    }
    let n = extract.as_str().unicode_len();
    if has_prefix(&cs, &json) {
        (ExtractorTypes::Json, extract.as_str().substring_char(json.len(), n))
    } else if has_prefix(&cs, &header) {
        (ExtractorTypes::Header, extract.as_str().substring_char(header.len(), n))
    } else {
        (ExtractorTypes::Unknown, extract.as_str())
    }
}

/// One directive applied to a response.
pub fn extract_one(directive: &String, response: &Response) -> (r: Result<String, ExtractError>)
    ensures
        outcome(r) == directive_outcome(directive@, response@),
{
    let (kind, view) = get_type(directive);
    match kind {
        ExtractorTypes::Json => json::extract(view, response),
        ExtractorTypes::Header => headers::extract(view, response),
        ExtractorTypes::Unknown => Err(ExtractError::UnknownExtractor { directive: directive.clone() }),
    }
}

/// What a batch of directives gave: the values of those that succeeded, and
/// the output name and error of each that failed.
pub struct Extraction {
    pub properties: StringMap,
    pub failures: Vec<(String, ExtractError)>,
}

/// Applies each directive (output name to directive) to the response. A
/// directive that fails leaves its property out and does not affect the
/// others.
pub fn extract(to_extract: &StringMap, response: &Response) -> (r: Extraction)
    ensures
        r.properties@ == extracted(to_extract@, response@),
        forall|i: int|
            0 <= i < r.failures@.len() ==> #[trigger] to_extract@.contains_key(r.failures@[i].0@)
                && directive_outcome(to_extract@[r.failures@[i].0@], response@) == Err::<
                Seq<char>,
                ExtractFailure,
            >(r.failures@[i].1@),
        forall|k: Seq<char>|
            to_extract@.contains_key(k) && (#[trigger] directive_outcome(to_extract@[k], response@)) is Err
                ==> exists|i: int| 0 <= i < r.failures@.len() && r.failures@[i].0@ == k,
{
    let mut map = StringMap::new();
    let mut failures: Vec<(String, ExtractError)> = Vec::new();
    let n = to_extract.len();
    let mut i: usize = 0;
    while i < n
        invariant
            n == to_extract.size(),
            i <= n,
            to_extract.lists_entries(),
            forall|q: Seq<char>|
                #[trigger] map@.contains_key(q) <==> (exists|j: int|
                    0 <= j < i && to_extract.key(j) == q) && directive_outcome(
                    to_extract@[q],
                    response@,
                ) is Ok,
            forall|q: Seq<char>|
                #[trigger] map@.contains_key(q) ==> directive_outcome(to_extract@[q], response@)
                    == Ok::<Seq<char>, ExtractFailure>(map@[q]),
            forall|j: int|
                0 <= j < failures@.len() ==> #[trigger] to_extract@.contains_key(failures@[j].0@)
                    && directive_outcome(to_extract@[failures@[j].0@], response@) == Err::<
                    Seq<char>,
                    ExtractFailure,
                >(failures@[j].1@),
            forall|j: int|
                0 <= j < i && (#[trigger] directive_outcome(to_extract@[to_extract.key(j)], response@)) is Err
                    ==> exists|f: int| 0 <= f < failures@.len() && failures@[f].0@ == to_extract.key(j),
        decreases n - i,
    {
        let prop = to_extract.key_at(i);
        let directive = to_extract.value_at(i);
        proof {
            assert(to_extract@.contains_key(to_extract.key(i as int)));
        }
        let ghost before = map@;
        let ghost failed_before = failures@;
        match extract_one(directive, response) {
            Ok(value) => {
                map.insert(prop.clone(), value);
            },
            Err(e) => {
                failures.push((prop.clone(), e));
                assert(failures@[failures@.len() - 1].0@ == prop@);
            },
        }
        proof {
            assert forall|q: Seq<char>|
                #[trigger] map@.contains_key(q) <==> (exists|j: int|
                    0 <= j < i + 1 && to_extract.key(j) == q) && directive_outcome(
                    to_extract@[q],
                    response@,
                ) is Ok by {
                if exists|j: int| 0 <= j < i + 1 && to_extract.key(j) == q {
                    let j = choose|j: int| 0 <= j < i + 1 && to_extract.key(j) == q;
                    if j < i {
                        assert(exists|j: int| 0 <= j < i && to_extract.key(j) == q);
                    }
                }
                if before.contains_key(q) {
                    let j = choose|j: int| 0 <= j < i && to_extract.key(j) == q;
                    assert(0 <= j < i + 1 && to_extract.key(j) == q);
                }
                if q == prop@ {
                    assert(0 <= i < i + 1 && to_extract.key(i as int) == q);
                }
            }
            assert forall|j: int|
                0 <= j < i + 1 && (#[trigger] directive_outcome(to_extract@[to_extract.key(j)], response@)) is Err
                    implies exists|f: int| 0 <= f < failures@.len() && failures@[f].0@ == to_extract.key(j) by {
                if j < i {
                    let f = choose|f: int| 0 <= f < failed_before.len() && failed_before[f].0@ == to_extract.key(j);
                    assert(failures@[f] == failed_before[f]);
                } else {
                    assert(failures@[failures@.len() - 1].0@ == to_extract.key(j));
                }
            }
        }
        i += 1;
    }
    proof {
        assert forall|q: Seq<char>| to_extract@.contains_key(q) implies exists|j: int|
            0 <= j < i && to_extract.key(j) == q by {
            let j = choose|j: int| 0 <= j < to_extract.size() && #[trigger] to_extract.key(j) == q;
        }
        assert forall|k: Seq<char>|
            to_extract@.contains_key(k) && (#[trigger] directive_outcome(to_extract@[k], response@)) is Err
                implies exists|f: int| 0 <= f < failures@.len() && failures@[f].0@ == k by {
            let j = choose|j: int| 0 <= j < i && to_extract.key(j) == k;
            assert(directive_outcome(to_extract@[to_extract.key(j)], response@) is Err);
        }
    }
    assert(map@ =~= extracted(to_extract@, response@));
    Extraction { properties: map, failures }
}

/// Applies the directives to the response and merges the values they yield
/// into `cached_properties`, where they win over values held before. Returns
/// the failures.
pub fn merge_extracted(
    cached_properties: &mut StringMap,
    to_extract: &StringMap,
    response: &Response,
) -> (r: Vec<(String, ExtractError)>)
    ensures
        final(cached_properties)@ == old(cached_properties)@.union_prefer_right(
            extracted(to_extract@, response@),
        ),
        forall|i: int|
            0 <= i < r@.len() ==> #[trigger] to_extract@.contains_key(r@[i].0@) && directive_outcome(
                to_extract@[r@[i].0@],
                response@,
            ) == Err::<Seq<char>, ExtractFailure>(r@[i].1@),
        forall|k: Seq<char>|
            to_extract@.contains_key(k) && (#[trigger] directive_outcome(to_extract@[k], response@)) is Err
                ==> exists|i: int| 0 <= i < r@.len() && r@[i].0@ == k,
{
    let extraction = extract(to_extract, response);
    cached_properties.merge(&extraction.properties);
    let failures = extraction.failures;
    assert forall|i: int| 0 <= i < failures@.len() implies #[trigger] to_extract@.contains_key(
        failures@[i].0@,
    ) && directive_outcome(to_extract@[failures@[i].0@], response@) == Err::<
        Seq<char>,
        ExtractFailure,
    >(failures@[i].1@) by {
        assert(to_extract@.contains_key(extraction.failures@[i].0@));
    }
    failures
}

/// Whether a directive yields its property, and what value, does not depend
/// on the other directives of the batch.
pub proof fn lemma_directives_independent(
    directives: Map<Seq<char>, Seq<char>>,
    other: Seq<char>,
    other_directive: Seq<char>,
    response: ResponseView,
    k: Seq<char>,
)
    requires
        k != other,
    ensures
        extracted(directives.insert(other, other_directive), response).contains_key(k)
            == extracted(directives, response).contains_key(k),
        extracted(directives, response).contains_key(k) ==> extracted(
            directives.insert(other, other_directive),
            response,
        )[k] == extracted(directives, response)[k],
{
}

/// A directive that fails leaves its property out, and the batch yields
/// what it would have yielded without that directive.
pub proof fn lemma_failed_directive_dropped(
    directives: Map<Seq<char>, Seq<char>>,
    response: ResponseView,
    p: Seq<char>,
)
    requires
        directives.contains_key(p),
        directive_outcome(directives[p], response) is Err,
    ensures
        !extracted(directives, response).contains_key(p),
        extracted(directives, response) == extracted(directives.remove(p), response),
{
    assert(extracted(directives, response) =~= extracted(directives.remove(p), response));
}

} // verus!
