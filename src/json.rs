//! Extraction of a value from a JSON body by a dotted path.
//!
//! The selector is split on `.` into segments. A segment made of a non-empty
//! key followed by one bracketed decimal index (`phones[1]`) looks up the key
//! and then takes that element (counted from 0) of the array found there. Any
//! other segment is a key as a whole.
//! The value reached is returned bare when it is a string, and as JSON text
//! otherwise.

use crate::error::{ExtractError, ExtractFailure, outcome};
use crate::response::Response;
use crate::text::{
    ascii_digit, chars_of, is_ascii_digit, string_of, utf8_text,
};
use vstd::prelude::*;
use vstd::utf8::{decode_utf8, valid_utf8};

verus! {

#[verifier::external_type_specification]
#[verifier::external_body]
pub struct ExValue(serde_json::Value);

#[verifier::external_type_specification]
#[verifier::external_body]
pub struct ExJsonError(serde_json::Error);

/// A JSON value as plain data. A number is held as the text that
/// `serde_json` writes for it.
pub enum JsonTree {
    Null,
    Bool(bool),
    Number(Seq<char>),
    Str(Seq<char>),
    Array(Seq<JsonTree>),
    Object(Map<Seq<char>, JsonTree>),
}

/// What a `serde_json::Value` holds.
pub uninterp spec fn json_tree(v: serde_json::Value) -> JsonTree;

/// The value that `serde_json` reads from a text, if the text is JSON.
pub uninterp spec fn parsed_json(text: Seq<char>) -> Option<JsonTree>;

/// The compact JSON text that `serde_json` writes for a value.
pub uninterp spec fn json_text(v: JsonTree) -> Seq<char>;

/// Relies on `serde_json::from_str`: reads one JSON value from the text.
#[verifier::external_body]
fn parse_value(text: &str) -> (r: Result<serde_json::Value, serde_json::Error>)
    ensures
        r is Ok <==> parsed_json(text@) is Some,
        r matches Ok(v) ==> parsed_json(text@) == Some(json_tree(v)),
{
    serde_json::from_str(text)
}

/// Relies on `serde_json::Value::get` with a string key: the member of an
/// object under that key; nothing for any other kind of value.
#[verifier::external_body]
fn member(v: &serde_json::Value, key: &str) -> (r: Option<serde_json::Value>)
    ensures
        match json_tree(*v) {
            JsonTree::Object(m) => match r {
                Some(c) => m.contains_key(key@) && json_tree(c) == m[key@],
                None => !m.contains_key(key@),
            },
            _ => r is None,
        },
{
    v.get(key).cloned()
}

/// Relies on `serde_json::Value::as_array`: the length of an array; nothing
/// for any other kind of value.
#[verifier::external_body]
fn array_len(v: &serde_json::Value) -> (r: Option<usize>)
    ensures
        match json_tree(*v) {
            JsonTree::Array(items) => r matches Some(n) && n as int == items.len(),
            _ => r is None,
        },
{
    match v.as_array() {
        Some(items) => Some(items.len()),
        None => None,
    }
}

/// Relies on `serde_json::Value::get` with an index: an element of an array.
#[verifier::external_body]
fn element(v: &serde_json::Value, index: usize) -> (r: serde_json::Value)
    requires
        json_tree(*v) is Array,
        index < json_tree(*v)->Array_0.len(),
    ensures
        json_tree(r) == json_tree(*v)->Array_0[index as int],
{
    v.get(index).cloned().unwrap()
}

/// Relies on `serde_json::Value::as_str`: the contents of a JSON string;
/// nothing for any other kind of value.
#[verifier::external_body]
fn string_contents(v: &serde_json::Value) -> (r: Option<String>)
    ensures
        match json_tree(*v) {
            JsonTree::Str(s) => r matches Some(t) && t@ == s,
            _ => r is None,
        },
{
    v.as_str().map(String::from)
}

/// Relies on `Display` for `serde_json::Value`: its compact JSON text. A
/// number is written as `Display` for `serde_json::Number` writes it (`itoa`
/// for integers, `zmij` for the always finite floats).
#[verifier::external_body]
fn value_text(v: &serde_json::Value) -> (r: String)
    ensures
        r@ == json_text(json_tree(*v)),
        json_tree(*v) matches JsonTree::Number(t) ==> r@ == t,
{
    v.to_string()
}

/// The segments of a selector: the text between dots, in order.
pub open spec fn split_dots(s: Seq<char>) -> Seq<Seq<char>>
    decreases s.len(),
{
    if s.len() == 0 {
        seq![seq![]]
    } else if s.last() == '.' {
        split_dots(s.drop_last()).push(seq![])
    } else {
        let p = split_dots(s.drop_last());
        p.update(p.len() - 1, p.last().push(s.last()))
    }
}

pub proof fn lemma_split_dots_len(s: Seq<char>)
    ensures
        split_dots(s).len() >= 1,
    decreases s.len(),
{
    if s.len() > 0 {
        lemma_split_dots_len(s.drop_last());
    }
}

/// Start of the run of ASCII digits that ends at `k`.
pub open spec fn digits_begin(s: Seq<char>, k: int) -> int
    decreases k,
{
    if 0 < k <= s.len() && is_ascii_digit(s[k - 1]) {
        digits_begin(s, k - 1)
    } else {
        k
    }
}

proof fn lemma_digits_begin(s: Seq<char>, k: int)
    requires
        0 <= k <= s.len(),
    ensures
        0 <= digits_begin(s, k) <= k,
        forall|j: int| digits_begin(s, k) <= j < k ==> is_ascii_digit(#[trigger] s[j]),
        digits_begin(s, k) > 0 ==> !is_ascii_digit(s[digits_begin(s, k) - 1]),
    decreases k,
{
    if 0 < k && is_ascii_digit(s[k - 1]) {
        lemma_digits_begin(s, k - 1);
    }
}

proof fn lemma_digits_begin_at(s: Seq<char>, b: int, k: int)
    requires
        0 < b <= k <= s.len(),
        forall|j: int| b <= j < k ==> is_ascii_digit(#[trigger] s[j]),
        !is_ascii_digit(s[b - 1]),
    ensures
        digits_begin(s, k) == b,
    decreases k,
{
    if b < k {
        lemma_digits_begin_at(s, b, k - 1);
    }
}

/// Where the digits of the index begin, when the segment is a non-empty key
/// followed by `[digits]`.
pub open spec fn index_start(seg: Seq<char>) -> Option<int> {
    if seg.len() >= 4 && seg.last() == ']' {
        let b = digits_begin(seg, seg.len() - 1);
        if b < seg.len() - 1 && b >= 2 && seg[b - 1] == '[' {
            Some(b)
        } else {
            None
        }
    } else {
        None
    }
}

/// Value of a decimal digit.
pub open spec fn digit_value(c: char) -> nat {
    (c as u32 - '0' as u32) as nat
}

/// Value of a string of decimal digits.
pub open spec fn decimal_value(d: Seq<char>) -> nat
    decreases d.len(),
{
    if d.len() == 0 {
        0
    } else {
        decimal_value(d.drop_last()) * 10 + digit_value(d.last())
    }
}

/// The member of an object under `key`.
pub open spec fn lookup(t: JsonTree, key: Seq<char>) -> Option<JsonTree> {
    match t {
        JsonTree::Object(m) => if m.contains_key(key) {
            Some(m[key])
        } else {
            None
        },
        _ => None,
    }
}

/// One segment of the path applied to `t`.
pub open spec fn step(t: JsonTree, seg: Seq<char>, selector: Seq<char>) -> Result<
    JsonTree,
    ExtractFailure,
> {
    match index_start(seg) {
        Some(b) => {
            let index = decimal_value(seg.subrange(b, seg.len() - 1));
            if index > usize::MAX {
                Err(ExtractFailure::BadIndex { segment: seg })
            } else {
                match lookup(t, seg.subrange(0, b - 1)) {
                    None => Err(ExtractFailure::MissingKey { segment: seg, selector }),
                    Some(JsonTree::Array(items)) => if index < items.len() {
                        Ok(items[index as int])
                    } else {
                        Err(ExtractFailure::IndexOutOfRange { segment: seg, index })
                    },
                    Some(_) => Err(ExtractFailure::NotAnArray { segment: seg }),
                }
            }
        },
        None => match lookup(t, seg) {
            None => Err(ExtractFailure::MissingKey { segment: seg, selector }),
            Some(c) => Ok(c),
        },
    }
}

/// The segments from the `i`-th on applied to `t`.
pub open spec fn walk(t: JsonTree, segs: Seq<Seq<char>>, i: int, selector: Seq<char>) -> Result<
    JsonTree,
    ExtractFailure,
>
    decreases segs.len() - i,
{
    if i < 0 || i >= segs.len() {
        Ok(t)
    } else {
        match step(t, segs[i], selector) {
            Ok(c) => walk(c, segs, i + 1, selector),
            Err(e) => Err(e),
        }
    }
}

/// How an extracted value is handed out: a string bare, a number as its
/// text, anything else as its JSON text.
pub open spec fn rendered(t: JsonTree) -> Seq<char> {
    match t {
        JsonTree::Str(s) => s,
        JsonTree::Number(n) => n,
        _ => json_text(t),
    }
}

/// Result of extracting `selector` from the JSON value `t`.
pub open spec fn value_extraction(t: JsonTree, selector: Seq<char>) -> Result<
    Seq<char>,
    ExtractFailure,
> {
    match walk(t, split_dots(selector), 0, selector) {
        Ok(v) => Ok(rendered(v)),
        Err(e) => Err(e),
    }
}

/// Result of extracting `selector` from a JSON `body`.
pub open spec fn json_extraction(selector: Seq<char>, body: Seq<u8>) -> Result<
    Seq<char>,
    ExtractFailure,
> {
    if !valid_utf8(body) {
        Err(ExtractFailure::NotText)
    } else {
        match parsed_json(decode_utf8(body)) {
            None => Err(ExtractFailure::InvalidJson),
            Some(t) => value_extraction(t, selector),
        }
    }
}

/// `key[digits]`
pub open spec fn indexed(key: Seq<char>, digits: Seq<char>) -> Seq<char> {
    key + seq!['['] + digits + seq![']']
}

/// A segment `key[i]` looks up `key` and takes element `i` of the array
/// found there; a missing key, a value that is no array, or an index past
/// its end fails, the missing key with the segment and the whole selector.
pub proof fn lemma_indexed_step(t: JsonTree, key: Seq<char>, digits: Seq<char>, selector: Seq<char>)
    requires
        key.len() > 0,
        digits.len() > 0,
        forall|j: int| 0 <= j < digits.len() ==> is_ascii_digit(#[trigger] digits[j]),
        decimal_value(digits) <= usize::MAX,
    ensures
        step(t, indexed(key, digits), selector) == match lookup(t, key) {
            None => Err(ExtractFailure::MissingKey { segment: indexed(key, digits), selector }),
            Some(JsonTree::Array(items)) => if decimal_value(digits) < items.len() {
                Ok(items[decimal_value(digits) as int])
            } else {
                Err(
                    ExtractFailure::IndexOutOfRange {
                        segment: indexed(key, digits),
                        index: decimal_value(digits),
                    },
                )
            },
            Some(_) => Err(ExtractFailure::NotAnArray { segment: indexed(key, digits) }),
        },
{
    let seg = indexed(key, digits);
    let b = key.len() as int + 1;
    assert(seg[key.len() as int] == '[');
    assert(!is_ascii_digit('['));
    assert forall|j: int| b <= j < seg.len() - 1 implies is_ascii_digit(#[trigger] seg[j]) by {
        assert(seg[j] == digits[j - b]);
    }
    lemma_digits_begin_at(seg, b, seg.len() - 1);
    assert(seg.last() == ']');
    assert(index_start(seg) == Some(b));
    assert(seg.subrange(0, b - 1) =~= key);
    assert(seg.subrange(b, seg.len() - 1) =~= digits);
}

/// A segment without a bracketed index is a key as a whole; a missing key
/// fails with the segment and the whole selector.
pub proof fn lemma_key_step(t: JsonTree, seg: Seq<char>, selector: Seq<char>)
    requires
        index_start(seg) is None,
    ensures
        step(t, seg, selector) == match lookup(t, seg) {
            None => Err(ExtractFailure::MissingKey { segment: seg, selector }),
            Some(c) => Ok::<JsonTree, ExtractFailure>(c),
        },
{
}

/// A path is followed segment by segment, to any depth: each step goes on
/// from the value the previous one reached, and the first failing step ends
/// the walk with its failure.
pub proof fn lemma_walk_step(t: JsonTree, segs: Seq<Seq<char>>, i: int, selector: Seq<char>)
    requires
        0 <= i < segs.len(),
    ensures
        step(t, segs[i], selector) matches Ok(c) ==> walk(t, segs, i, selector) == walk(
            c,
            segs,
            i + 1,
            selector,
        ),
        step(t, segs[i], selector) matches Err(e) ==> walk(t, segs, i, selector) == Err::<
            JsonTree,
            ExtractFailure,
        >(e),
{
}

/// The segments of a selector.
fn split_segments(sel: &Vec<char>) -> (r: Vec<Vec<char>>)
    ensures
        r@.len() == split_dots(sel@).len(),
        forall|j: int| 0 <= j < r@.len() ==> #[trigger] r@[j]@ == split_dots(sel@)[j],
{
    let mut segs: Vec<Vec<char>> = Vec::new();
    let mut cur: Vec<char> = Vec::new();
    let n = sel.len();
    let mut i: usize = 0;
    proof {
        assert(sel@.take(0) =~= Seq::<char>::empty());
    }
    while i < n
        invariant
            n == sel@.len(),
            i <= n,
            segs@.len() + 1 == split_dots(sel@.take(i as int)).len(),
            forall|j: int| 0 <= j < segs@.len() ==> #[trigger] segs@[j]@ == split_dots(sel@.take(i as int))[j],
            cur@ == split_dots(sel@.take(i as int)).last(),
        decreases n - i,
    {
        let ghost before = sel@.take(i as int);
        proof {
            lemma_split_dots_len(before);
            assert(sel@.take(i + 1).drop_last() =~= before);
            assert(sel@.take(i + 1).last() == sel@[i as int]);
        }
        if sel[i] == '.' {
            segs.push(cur);
            cur = Vec::new();
        } else {
            cur.push(sel[i]);
        }
        i += 1;
    }
    proof {
        assert(sel@.take(n as int) =~= sel@);
        lemma_split_dots_len(sel@);
    }
    segs.push(cur);
    segs
}

/// Where the digits of the segment's index begin, if it has one.
fn find_index(seg: &Vec<char>) -> (r: Option<usize>)
    ensures
        match r {
            Some(b) => index_start(seg@) == Some(b as int),
            None => index_start(seg@) is None,
        },
{
    let n = seg.len();
    if n < 4 || seg[n - 1] != ']' {
        return None;
    }
    let mut b = n - 1;
    while b > 0 && ascii_digit(seg[b - 1])
        invariant
            b <= n - 1,
            n == seg@.len(),
            digits_begin(seg@, n - 1) == digits_begin(seg@, b as int),
        decreases b,
    {
        b -= 1;
    }
    if b < n - 1 && b >= 2 && seg[b - 1] == '[' {
        Some(b)
    } else {
        None
    }
}

proof fn lemma_decimal_prefix(d: Seq<char>, j: int)
    requires
        0 <= j <= d.len(),
    ensures
        decimal_value(d.take(j)) <= decimal_value(d),
    decreases d.len(),
{
    if j < d.len() {
        lemma_decimal_prefix(d.drop_last(), j);
        assert(d.drop_last().take(j) =~= d.take(j));
    } else {
        assert(d.take(j) =~= d);
    }
}

/// Value of the digits `s[from..to]`, unless it exceeds `usize::MAX`.
fn decimal(s: &Vec<char>, from: usize, to: usize) -> (r: Option<usize>)
    requires
        from <= to <= s@.len(),
        forall|j: int| from <= j < to ==> is_ascii_digit(#[trigger] s@[j]),
    ensures
        match r {
            Some(v) => v == decimal_value(s@.subrange(from as int, to as int)),
            None => decimal_value(s@.subrange(from as int, to as int)) > usize::MAX,
        },
{
    let ghost d = s@.subrange(from as int, to as int);
    let mut value: usize = 0;
    let mut k: usize = from;
    proof {
        assert(d.take(0) =~= Seq::<char>::empty());
    }
    while k < to
        invariant
            from <= k <= to <= s@.len(),
            d == s@.subrange(from as int, to as int),
            forall|j: int| from <= j < to ==> is_ascii_digit(#[trigger] s@[j]),
            value == decimal_value(d.take(k - from)),
        decreases to - k,
    {
        let ghost i = k - from;
        proof {
            assert(d.take(i + 1).drop_last() =~= d.take(i));
            assert(d.take(i + 1).last() == s@[k as int]);
            assert(is_ascii_digit(s@[k as int]));
        }
        let digit = (s[k] as u32 - '0' as u32) as usize;
        assert(digit == digit_value(s@[k as int]));
        assert(decimal_value(d.take(i + 1)) == value * 10 + digit);
        match value.checked_mul(10) {
            Some(m) => match m.checked_add(digit) {
                Some(v) => {
                    value = v;
                },
                None => {
                    proof {
                        lemma_decimal_prefix(d, i + 1);
                    }
                    return None;
                },
            },
            None => {
                proof {
                    lemma_decimal_prefix(d, i + 1);
                }
                return None;
            },
        }
        k += 1;
    }
    proof {
        assert(d.take(to - from) =~= d);
    }
    Some(value)
}

/// One segment of the path applied to `v`.
fn step_value(v: &serde_json::Value, seg: &Vec<char>, selector: &str) -> (r: Result<
    serde_json::Value,
    ExtractError,
>)
    ensures
        match r {
            Ok(c) => step(json_tree(*v), seg@, selector@) == Ok::<JsonTree, ExtractFailure>(
                json_tree(c),
            ),
            Err(e) => step(json_tree(*v), seg@, selector@) == Err::<JsonTree, ExtractFailure>(e@),
        },
{
    let segment = string_of(seg, 0, seg.len());
    assert(segment@ =~= seg@);
    match find_index(seg) {
        Some(b) => {
            let n = seg.len();
            proof {
                lemma_digits_begin(seg@, n - 1);
            }
            let index = match decimal(seg, b, n - 1) {
                Some(index) => index,
                None => return Err(ExtractError::BadIndex { segment }),
            };
            let key = string_of(seg, 0, b - 1);
            let found = match member(v, key.as_str()) {
                Some(found) => found,
                None => return Err(
                    ExtractError::MissingKey { segment, selector: selector.to_owned() },
                ),
            };
            match array_len(&found) {
                Some(len) => {
                    if index < len {
                        Ok(element(&found, index))
                    } else {
                        Err(ExtractError::IndexOutOfRange { segment, index })
                    }
                },
                None => Err(ExtractError::NotAnArray { segment }),
            }
        },
        None => match member(v, segment.as_str()) {
            Some(found) => Ok(found),
            None => Err(ExtractError::MissingKey { segment, selector: selector.to_owned() }),
        },
    }
}

/// The value that `selector` selects in a parsed JSON value: a string bare,
/// a number as its text, anything else as its JSON text.
pub fn extract_value(value: &serde_json::Value, selector: &str) -> (r: Result<String, ExtractError>)
    ensures
        outcome(r) == value_extraction(json_tree(*value), selector@),
{
    let ghost t = json_tree(*value);
    let sel = chars_of(selector);
    let segs = split_segments(&sel);
    let ghost specs = split_dots(selector@);
    // `None` while still at `value` itself.
    let mut reached: Option<serde_json::Value> = None;
    let mut i: usize = 0;
    while i < segs.len()
        invariant
            segs@.len() == specs.len(),
            forall|j: int| 0 <= j < segs@.len() ==> #[trigger] segs@[j]@ == specs[j],
            i <= segs@.len(),
            walk(t, specs, 0, selector@) == walk(
                current_tree(*value, reached),
                specs,
                i as int,
                selector@,
            ),
            specs == split_dots(selector@),
            t == json_tree(*value),
        decreases segs@.len() - i,
    {
        assert(segs@[i as int]@ == specs[i as int]);
        let ghost here = current_tree(*value, reached);
        let next = match &reached {
            Some(c) => step_value(c, &segs[i], selector),
            None => step_value(value, &segs[i], selector),
        };
        match next {
            Ok(c) => {
                reached = Some(c);
            },
            Err(e) => {
                assert(walk(here, specs, i as int, selector@) == Err::<JsonTree, ExtractFailure>(
                    e@,
                ));
                return Err(e);
            },
        }
        i += 1;
    }
    let v = match &reached {
        Some(c) => c,
        None => value,
    };
    match string_contents(v) {
        Some(s) => Ok(s),
        None => Ok(value_text(v)),
    }
}

/// The value last reached by a walk that starts at `start`.
spec fn current_tree(start: serde_json::Value, reached: Option<serde_json::Value>) -> JsonTree {
    match reached {
        Some(c) => json_tree(c),
        None => json_tree(start),
    }
}

/// The value that `extract_string` selects in the JSON body of `response`:
/// a string bare, a number as its text, anything else as its JSON text.
pub fn extract(extract_string: &str, response: &Response) -> (r: Result<String, ExtractError>)
    ensures
        outcome(r) == json_extraction(extract_string@, response@.body),
{
    let body = match utf8_text(response.body()) {
        Some(body) => body,
        None => return Err(ExtractError::NotText),
    };
    let root = match parse_value(body.as_str()) {
        Ok(v) => v,
        Err(e) => return Err(ExtractError::InvalidJson { message: e.to_string() }),
    };
    extract_value(&root, extract_string)
}

} // verus!
