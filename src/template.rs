//! Placeholder resolution: `{name}` is looked up, `{{name}}` is an escape.
//!
//! The text is scanned from left to right. At a `{`, a placeholder opens with
//! one or two braces (two when the next character is also `{`), holds the
//! longest run of word characters that follows, and closes with one or two
//! `}`. A placeholder opened and closed with two braces each is an escape and
//! becomes its single-brace form; any other placeholder is replaced by the
//! value of its name, or kept as it stands when the name has no value. An
//! empty name never has a value, so `{}` always stays. Text that was put in
//! is never scanned again.

use crate::text::is_word_char;
use vstd::prelude::*;

verus! {

/// End of the run of word characters that starts at `k`.
pub open spec fn word_end(s: Seq<char>, k: int) -> int
    decreases s.len() - k,
{
    if 0 <= k < s.len() && is_word_char(s[k]) {
        word_end(s, k + 1)
    } else {
        k
    }
}

/// Number of braces that open a placeholder at `i`.
pub open spec fn opens(s: Seq<char>, i: int) -> int {
    if i + 1 < s.len() && s[i + 1] == '{' {
        2
    } else {
        1
    }
}

/// End of the name of a placeholder that opens at `i`.
pub open spec fn name_end(s: Seq<char>, i: int) -> int {
    word_end(s, i + opens(s, i))
}

/// Whether a placeholder starts at `i`.
pub open spec fn has_token(s: Seq<char>, i: int) -> bool {
    &&& 0 <= i < s.len()
    &&& s[i] == '{'
    &&& name_end(s, i) < s.len()
    &&& s[name_end(s, i)] == '}'
}

/// Number of braces that close the placeholder at `i`.
pub open spec fn closes(s: Seq<char>, i: int) -> int {
    if name_end(s, i) + 1 < s.len() && s[name_end(s, i) + 1] == '}' {
        2
    } else {
        1
    }
}

/// End of the placeholder at `i`.
pub open spec fn token_end(s: Seq<char>, i: int) -> int {
    name_end(s, i) + closes(s, i)
}

/// Name of the placeholder at `i`.
pub open spec fn token_name(s: Seq<char>, i: int) -> Seq<char> {
    s.subrange(i + opens(s, i), name_end(s, i))
}

/// Whether the placeholder at `i` is written with two braces on each side.
pub open spec fn is_escape(s: Seq<char>, i: int) -> bool {
    opens(s, i) == 2 && closes(s, i) == 2
}

/// What the placeholder at `i` becomes.
pub open spec fn replacement(s: Seq<char>, i: int, props: Map<Seq<char>, Seq<char>>) -> Seq<char> {
    if is_escape(s, i) {
        seq!['{'] + token_name(s, i) + seq!['}']
    } else if token_name(s, i).len() > 0 && props.contains_key(token_name(s, i)) {
        props[token_name(s, i)]
    } else {
        s.subrange(i, token_end(s, i))
    }
}

/// The text from position `i` on, with its placeholders resolved.
pub open spec fn resolve_from(s: Seq<char>, i: int, props: Map<Seq<char>, Seq<char>>) -> Seq<char>
    decreases s.len() - i,
    via resolve_from_decreases
{
    if i < 0 || i >= s.len() {
        seq![]
    } else if has_token(s, i) {
        replacement(s, i, props) + resolve_from(s, token_end(s, i), props)
    } else {
        seq![s[i]] + resolve_from(s, i + 1, props)
    }
}

#[via_fn]
proof fn resolve_from_decreases(s: Seq<char>, i: int, props: Map<Seq<char>, Seq<char>>) {
    if 0 <= i < s.len() && has_token(s, i) {
        lemma_word_end_bounds(s, i + opens(s, i));
    }
}

/// The text with its placeholders resolved against `props`.
pub open spec fn resolve(s: Seq<char>, props: Map<Seq<char>, Seq<char>>) -> Seq<char> {
    resolve_from(s, 0, props)
}

pub proof fn lemma_word_end_bounds(s: Seq<char>, k: int)
    requires
        0 <= k,
    ensures
        k <= word_end(s, k),
        k <= s.len() ==> word_end(s, k) <= s.len(),
        forall|j: int| k <= j < word_end(s, k) ==> is_word_char(#[trigger] s[j]),
        word_end(s, k) < s.len() ==> !is_word_char(s[word_end(s, k)]),
    decreases s.len() - k,
{
    if 0 <= k < s.len() && is_word_char(s[k]) {
        lemma_word_end_bounds(s, k + 1);
    }
}

/// A run of word characters followed by one that is not ends where expected.
proof fn lemma_word_end_at(s: Seq<char>, k: int, e: int)
    requires
        0 <= k <= e < s.len(),
        forall|j: int| k <= j < e ==> is_word_char(#[trigger] s[j]),
        !is_word_char(s[e]),
    ensures
        word_end(s, k) == e,
    decreases e - k,
{
    if k < e {
        lemma_word_end_at(s, k + 1, e);
    }
}

proof fn lemma_word_end_shift(a: Seq<char>, b: Seq<char>, k: int)
    requires
        0 <= k,
    ensures
        word_end(a + b, a.len() + k) == a.len() + word_end(b, k),
    decreases b.len() - k,
{
    if k < b.len() {
        assert((a + b)[a.len() + k] == b[k]);
        if is_word_char(b[k]) {
            lemma_word_end_shift(a, b, k + 1);
        }
    }
}

/// Resolution at a position looks only forward.
proof fn lemma_resolve_shift(a: Seq<char>, b: Seq<char>, j: int, props: Map<Seq<char>, Seq<char>>)
    requires
        0 <= j,
    ensures
        resolve_from(a + b, a.len() + j, props) == resolve_from(b, j, props),
    decreases b.len() - j,
{
    let s = a + b;
    let i = a.len() + j;
    if j < b.len() {
        assert(s[i] == b[j]);
        if j + 1 < b.len() {
            assert(s[i + 1] == b[j + 1]);
        }
        assert(opens(s, i) == opens(b, j));
        lemma_word_end_shift(a, b, j + opens(b, j));
        assert(name_end(s, i) == a.len() + name_end(b, j));
        lemma_word_end_bounds(b, j + opens(b, j));
        let e = name_end(b, j);
        if e < b.len() {
            assert(s[a.len() + e] == b[e]);
            if e + 1 < b.len() {
                assert(s[a.len() + e + 1] == b[e + 1]);
            }
        }
        assert(has_token(s, i) == has_token(b, j));
        if has_token(b, j) {
            assert(closes(s, i) == closes(b, j));
            assert(token_name(s, i) =~= token_name(b, j));
            assert(s.subrange(i, token_end(s, i)) =~= b.subrange(j, token_end(b, j)));
            assert(replacement(s, i, props) == replacement(b, j, props));
            lemma_resolve_shift(a, b, token_end(b, j), props);
        } else {
            lemma_resolve_shift(a, b, j + 1, props);
        }
    }
}

/// Text that ends before a `{` resolves on its own, provided that its last
/// character and that brace cannot open a placeholder together.
pub open spec fn clean_boundary(a: Seq<char>, b: Seq<char>) -> bool {
    &&& b.len() > 0
    &&& b[0] == '{'
    &&& (a.len() == 0 || a.last() != '{' || (b.len() > 1 && b[1] == '{'))
}

proof fn lemma_word_end_prefix(a: Seq<char>, b: Seq<char>, k: int)
    requires
        0 <= k <= a.len(),
        b.len() > 0,
        !is_word_char(b[0]),
    ensures
        word_end(a + b, k) == word_end(a, k),
    decreases a.len() - k,
{
    if k < a.len() {
        assert((a + b)[k] == a[k]);
        if is_word_char(a[k]) {
            lemma_word_end_prefix(a, b, k + 1);
        }
    } else {
        assert((a + b)[k] == b[0]);
    }
}

proof fn lemma_resolve_prefix(a: Seq<char>, b: Seq<char>, i: int, props: Map<Seq<char>, Seq<char>>)
    requires
        0 <= i <= a.len(),
        clean_boundary(a, b),
    ensures
        resolve_from(a + b, i, props) == resolve_from(a, i, props) + resolve_from(
            a + b,
            a.len() as int,
            props,
        ),
    decreases a.len() - i,
{
    let s = a + b;
    assert(!is_word_char('{'));
    if i == a.len() {
        assert(resolve_from(a, i, props) == Seq::<char>::empty());
        assert(seq![] + resolve_from(s, i, props) =~= resolve_from(s, i, props));
    } else {
        assert(s[i] == a[i]);
        if i + 1 == a.len() {
            assert(s[i + 1] == b[0]);
            if a[i] == '{' {
                assert(b.len() > 1 && b[1] == '{');
                assert(s[i + 2] == b[1]);
                lemma_word_end_at(s, i + 2, i + 2);
                lemma_word_end_bounds(a, i + 1);
            }
            assert(!has_token(s, i));
            assert(!has_token(a, i));
            lemma_resolve_prefix(a, b, i + 1, props);
            assert(resolve_from(a, i + 1, props) == Seq::<char>::empty());
            assert(resolve_from(s, i, props) =~= resolve_from(a, i, props) + resolve_from(
                s,
                a.len() as int,
                props,
            ));
        } else {
            assert(s[i + 1] == a[i + 1]);
            assert(opens(s, i) == opens(a, i));
            lemma_word_end_prefix(a, b, i + opens(a, i));
            lemma_word_end_bounds(a, i + opens(a, i));
            let e = name_end(a, i);
            if e < a.len() {
                assert(s[e] == a[e]);
                if e + 1 < a.len() {
                    assert(s[e + 1] == a[e + 1]);
                } else {
                    assert(s[e + 1] == b[0]);
                }
            } else {
                assert(s[e] == b[0]);
            }
            assert(has_token(s, i) == has_token(a, i));
            if has_token(a, i) {
                assert(closes(s, i) == closes(a, i));
                assert(token_name(s, i) =~= token_name(a, i));
                assert(s.subrange(i, token_end(s, i)) =~= a.subrange(i, token_end(a, i)));
                assert(replacement(s, i, props) == replacement(a, i, props));
                lemma_resolve_prefix(a, b, token_end(a, i), props);
                assert(resolve_from(s, i, props) =~= resolve_from(a, i, props) + resolve_from(
                    s,
                    a.len() as int,
                    props,
                ));
            } else {
                lemma_resolve_prefix(a, b, i + 1, props);
                assert(resolve_from(s, i, props) =~= resolve_from(a, i, props) + resolve_from(
                    s,
                    a.len() as int,
                    props,
                ));
            }
        }
    }
}

/// Resolving `a + b` resolves `a` and `b` apart, when `b` starts with a
/// brace that cannot join the end of `a` into a placeholder.
pub proof fn lemma_resolve_concat(a: Seq<char>, b: Seq<char>, props: Map<Seq<char>, Seq<char>>)
    requires
        clean_boundary(a, b),
    ensures
        resolve(a + b, props) == resolve(a, props) + resolve(b, props),
{
    lemma_resolve_prefix(a, b, 0, props);
    lemma_resolve_shift(a, b, 0, props);
}

/// Every character of `name` is a word character.
pub open spec fn is_word(name: Seq<char>) -> bool {
    forall|i: int| 0 <= i < name.len() ==> is_word_char(#[trigger] name[i])
}

/// `{name}`
pub open spec fn placeholder(name: Seq<char>) -> Seq<char> {
    seq!['{'] + name + seq!['}']
}

/// `{{name}}`
pub open spec fn escaped(name: Seq<char>) -> Seq<char> {
    seq!['{', '{'] + name + seq!['}', '}']
}

/// The escaped form `{{name}}` resolves to `{name}`, whatever the properties
/// hold and whatever text surrounds it.
pub proof fn lemma_escape(
    pre: Seq<char>,
    name: Seq<char>,
    post: Seq<char>,
    props: Map<Seq<char>, Seq<char>>,
)
    requires
        is_word(name),
    ensures
        resolve(pre + escaped(name) + post, props) == resolve(pre, props) + placeholder(name)
            + resolve(post, props),
{
    let tok = escaped(name);
    let x = tok + post;
    let n = name.len() as int;
    assert(pre + tok + post =~= pre + x);
    assert(x[0] == '{' && x[1] == '{');
    lemma_resolve_concat(pre, x, props);
    assert forall|j: int| 2 <= j < 2 + n implies is_word_char(#[trigger] x[j]) by {
        assert(x[j] == name[j - 2]);
    }
    assert(x[2 + n] == '}' && x[3 + n] == '}');
    assert(!is_word_char('}'));
    lemma_word_end_at(x, 2, 2 + n);
    assert(has_token(x, 0));
    assert(token_name(x, 0) =~= name);
    assert(token_end(x, 0) == tok.len());
    lemma_resolve_shift(tok, post, 0, props);
    assert(resolve(x, props) == placeholder(name) + resolve(post, props));
    assert(resolve(pre, props) + (placeholder(name) + resolve(post, props)) =~= resolve(pre, props)
        + placeholder(name) + resolve(post, props));
}

/// What the placeholder `{name}` stands for: the value of `name`, or the
/// placeholder itself when `name` is empty or has no value.
pub open spec fn lookup_or_keep(name: Seq<char>, props: Map<Seq<char>, Seq<char>>) -> Seq<char> {
    if name.len() > 0 && props.contains_key(name) {
        props[name]
    } else {
        placeholder(name)
    }
}

/// The placeholder `{name}` resolves to the value of `name`, or stays as it
/// is when `name` is empty or has no value. Braces next to it would make it part of a
/// two-brace form, so the text before it does not end with `{` and the text
/// after it does not start with `}`.
pub proof fn lemma_placeholder(
    pre: Seq<char>,
    name: Seq<char>,
    post: Seq<char>,
    props: Map<Seq<char>, Seq<char>>,
)
    requires
        is_word(name),
        pre.len() == 0 || pre.last() != '{',
        post.len() == 0 || post[0] != '}',
    ensures
        resolve(pre + placeholder(name) + post, props) == resolve(pre, props) + lookup_or_keep(
            name,
            props,
        ) + resolve(post, props),
{
    let tok = placeholder(name);
    let x = tok + post;
    let n = name.len() as int;
    assert(pre + tok + post =~= pre + x);
    assert(x[0] == '{');
    lemma_resolve_concat(pre, x, props);
    assert forall|j: int| 1 <= j < 1 + n implies is_word_char(#[trigger] x[j]) by {
        assert(x[j] == name[j - 1]);
    }
    assert(x[1 + n] == '}');
    assert(!is_word_char('{'));
    assert(!is_word_char('}'));
    assert(opens(x, 0) == 1);
    lemma_word_end_at(x, 1, 1 + n);
    assert(has_token(x, 0));
    if 2 + n < x.len() {
        assert(x[2 + n] == post[0]);
    }
    assert(closes(x, 0) == 1);
    assert(token_name(x, 0) =~= name);
    assert(token_end(x, 0) == tok.len());
    assert(x.subrange(0, tok.len() as int) =~= tok);
    assert(replacement(x, 0, props) == lookup_or_keep(name, props));
    lemma_resolve_shift(tok, post, 0, props);
    assert(resolve(x, props) == lookup_or_keep(name, props) + resolve(post, props));
    assert(resolve(pre, props) + (lookup_or_keep(name, props) + resolve(post, props))
        =~= resolve(pre, props) + lookup_or_keep(name, props) + resolve(post, props));
}

/// A value put in for a placeholder comes out as it is: placeholders inside
/// it are not resolved in turn.
pub proof fn lemma_no_recursive_expansion(name: Seq<char>, props: Map<Seq<char>, Seq<char>>)
    requires
        is_word(name),
        name.len() > 0,
        props.contains_key(name),
    ensures
        resolve(placeholder(name), props) == props[name],
{
    let e = Seq::<char>::empty();
    lemma_placeholder(e, name, e, props);
    assert(e + placeholder(name) + e =~= placeholder(name));
    assert(resolve(e, props) == e);
    assert(e + props[name] + e =~= props[name]);
}

/// The empty placeholder `{}` always stays as it is, even where the
/// properties hold a value under the empty name.
pub proof fn lemma_empty_placeholder(
    pre: Seq<char>,
    post: Seq<char>,
    props: Map<Seq<char>, Seq<char>>,
)
    requires
        pre.len() == 0 || pre.last() != '{',
        post.len() == 0 || post[0] != '}',
    ensures
        resolve(pre + seq!['{', '}'] + post, props) == resolve(pre, props) + seq!['{', '}']
            + resolve(post, props),
{
    let e = Seq::<char>::empty();
    lemma_placeholder(pre, e, post, props);
    assert(placeholder(e) =~= seq!['{', '}']);
}

} // verus!
