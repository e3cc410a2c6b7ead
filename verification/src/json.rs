//! JSON values, as the `serde_json` crate holds them.
use crate::text;
use vstd::prelude::*;

verus! {

/// A JSON value of the `serde_json` crate.
#[verifier::external_type_specification]
#[verifier::external_body]
pub struct ExternalValue(serde_json::Value);

/// An error of the `serde_json` crate.
#[verifier::external_type_specification]
#[verifier::external_body]
pub struct ExternalError(serde_json::Error);

/// What a JSON value holds. A number that is kept as a whole number, from
/// -2^63 to 2^64 - 1, is that number; one that is kept as a fraction is `None`.
pub enum JsonView {
    Null,
    Bool(bool),
    Number(Option<int>),
    Text(Seq<char>),
    Items(Seq<serde_json::Value>),
    Members(Map<Seq<char>, serde_json::Value>),
}

/// What a JSON value holds: the members of an object by key, the items of an
/// array in order.
pub uninterp spec fn json_content(v: serde_json::Value) -> JsonView;

/// The value that a text of JSON stands for; `None` where it is no JSON.
pub uninterp spec fn json_parsed(text: Seq<char>) -> Option<serde_json::Value>;

/// The text of JSON, on several lines, that stands for a value.
pub uninterp spec fn json_pretty(v: serde_json::Value) -> Seq<char>;

/// The value is nested at most this deep, and its numbers are kept as whole
/// numbers.
pub open spec fn plain(v: serde_json::Value, depth: nat) -> bool
    decreases depth,
{
    match json_content(v) {
        JsonView::Number(n) => n is Some,
        JsonView::Items(items) => depth > 0 && forall|i: int|
            0 <= i < items.len() ==> plain(#[trigger] items[i], (depth - 1) as nat),
        JsonView::Members(m) => depth > 0 && forall|k: Seq<char>|
            #[trigger] m.contains_key(k) ==> plain(m[k], (depth - 1) as nat),
        _ => true,
    }
}

/// How deep a text of JSON can be nested that is read.
pub open spec fn read_depth() -> nat {
    127
}

/// The value is nested at most this deep.
pub open spec fn nested(v: serde_json::Value, depth: nat) -> bool
    decreases depth,
{
    match json_content(v) {
        JsonView::Items(items) => depth > 0 && forall|i: int|
            0 <= i < items.len() ==> nested(#[trigger] items[i], (depth - 1) as nat),
        JsonView::Members(m) => depth > 0 && forall|k: Seq<char>|
            #[trigger] m.contains_key(k) ==> nested(m[k], (depth - 1) as nat),
        _ => true,
    }
}

/// The numbers of the value, as far down as this, are kept as whole numbers.
pub open spec fn whole(v: serde_json::Value, depth: nat) -> bool
    decreases depth,
{
    match json_content(v) {
        JsonView::Number(n) => n is Some,
        JsonView::Items(items) => depth > 0 ==> forall|i: int|
            0 <= i < items.len() ==> whole(#[trigger] items[i], (depth - 1) as nat),
        JsonView::Members(m) => depth > 0 ==> forall|k: Seq<char>|
            #[trigger] m.contains_key(k) ==> whole(m[k], (depth - 1) as nat),
        _ => true,
    }
}

/// A value that is not nested too deep is plain exactly where its numbers are
/// kept as whole numbers.
pub proof fn whole_values_are_plain(v: serde_json::Value, depth: nat)
    requires
        nested(v, depth),
    ensures
        plain(v, depth) == whole(v, depth),
    decreases depth,
{
    match json_content(v) {
        JsonView::Items(items) => {
            assert forall|i: int| 0 <= i < items.len() implies plain(
                #[trigger] items[i],
                (depth - 1) as nat,
            ) == whole(items[i], (depth - 1) as nat) by {
                whole_values_are_plain(items[i], (depth - 1) as nat);
            }
        },
        JsonView::Members(m) => {
            assert forall|k: Seq<char>| #[trigger] m.contains_key(k) implies plain(
                m[k],
                (depth - 1) as nat,
            ) == whole(m[k], (depth - 1) as nat) by {
                whole_values_are_plain(m[k], (depth - 1) as nat);
            }
        },
        _ => {},
    }
}

/// The index that a token of a pointer stands for in an array: a number
/// without a sign and without leading zeros.
pub open spec fn token_index(token: Seq<char>) -> Option<nat> {
    if token.len() > 0 && (token[0] == '+' || (token[0] == '0' && token.len() != 1)) {
        None
    } else {
        text::parsed(token, usize::MAX as nat)
    }
}

/// What a token leads to in a value: the member of an object, or the item of
/// an array.
pub open spec fn stepped(v: serde_json::Value, token: Seq<char>) -> Option<serde_json::Value> {
    match json_content(v) {
        JsonView::Members(m) => if m.contains_key(token) {
            Some(m[token])
        } else {
            None
        },
        JsonView::Items(items) => match token_index(token) {
            Some(i) => if i < items.len() {
                Some(items[i as int])
            } else {
                None
            },
            None => None,
        },
        _ => None,
    }
}

/// What several tokens lead to in a value, one after the other.
pub open spec fn walked(v: serde_json::Value, tokens: Seq<Seq<char>>) -> Option<serde_json::Value>
    decreases tokens.len(),
{
    if tokens.len() == 0 {
        Some(v)
    } else {
        match stepped(v, tokens[0]) {
            Some(next) => walked(next, tokens.drop_first()),
            None => None,
        }
    }
}

/// What a pointer, as of RFC 6901, leads to in a value. The pointer holds no
/// escapes.
pub open spec fn pointed(v: serde_json::Value, at: Seq<char>) -> Option<serde_json::Value> {
    if at.len() == 0 {
        Some(v)
    } else if at[0] != '/' {
        None
    } else {
        walked(v, text::split(at, '/').drop_first())
    }
}

/// `serde_json::from_str`: the value that a text stands for, by name of that
/// result. A text that is nested deeper than 127 is not read.
#[verifier::external_body]
pub(crate) fn parse(text: &str) -> (r: Result<serde_json::Value, serde_json::Error>)
    ensures
        match r {
            Ok(v) => json_parsed(text@) == Some(v) && nested(v, read_depth()),
            Err(_) => json_parsed(text@) is None,
        },
{
    serde_json::from_str(text)
}

/// `serde_json::to_string_pretty` on a value: its text, by name of that
/// result. Every value has one. Reading it gives the value back, also with a
/// line break at the end, where the value is plain: fractions can come back
/// changed, and nesting deeper than 127 is not read.
#[verifier::external_body]
pub(crate) fn pretty(v: &serde_json::Value) -> (r: Result<String, serde_json::Error>)
    ensures
        r is Ok,
        r->Ok_0@ == json_pretty(*v),
        plain(*v, read_depth()) ==> json_parsed(r->Ok_0@ + "\n"@) == Some(*v),
{
    serde_json::to_string_pretty(v)
}

/// `serde_json::Value::pointer`: a copy of what a pointer without escapes leads
/// to.
#[verifier::external_body]
pub(crate) fn lookup(v: &serde_json::Value, at: &str) -> (r: Option<serde_json::Value>)
    requires
        !at@.contains('~'),
    ensures
        r == pointed(*v, at@),
{
    v.pointer(at).cloned()
}

/// `serde_json::Value::is_object`: whether the value is an object.
#[verifier::external_body]
pub(crate) fn is_object(v: &serde_json::Value) -> (r: bool)
    ensures
        r == (json_content(*v) is Members),
{
    v.is_object()
}

/// `serde_json::Value::is_null`: whether the value is null.
#[verifier::external_body]
pub(crate) fn is_null(v: &serde_json::Value) -> (r: bool)
    ensures
        r == (json_content(*v) is Null),
{
    v.is_null()
}

/// `serde_json::Value::as_str`: the text of a string.
#[verifier::external_body]
pub(crate) fn as_text(v: &serde_json::Value) -> (r: Option<String>)
    ensures
        match r {
            Some(s) => json_content(*v) == JsonView::Text(s@),
            None => !(json_content(*v) is Text),
        },
{
    v.as_str().map(|s| s.to_string())
}

/// `serde_json::Value::as_array`: copies of the items of an array.
#[verifier::external_body]
pub(crate) fn as_items(v: &serde_json::Value) -> (r: Option<Vec<serde_json::Value>>)
    ensures
        match r {
            Some(items) => json_content(*v) == JsonView::Items(items@),
            None => !(json_content(*v) is Items),
        },
{
    v.as_array().cloned()
}

/// `serde_json::Value::get` with a key: a copy of the member of an object with
/// this key; none for another value.
#[verifier::external_body]
pub(crate) fn member(v: &serde_json::Value, key: &str) -> (r: Option<serde_json::Value>)
    ensures
        r == member_of(*v, key@),
{
    v.get(key).cloned()
}

/// The member of an object with this key.
pub open spec fn member_of(v: serde_json::Value, key: Seq<char>) -> Option<serde_json::Value> {
    match json_content(v) {
        JsonView::Members(m) => if m.contains_key(key) {
            Some(m[key])
        } else {
            None
        },
        _ => None,
    }
}

/// `serde_json::Value::clone`: a value that holds the same.
#[verifier::external_body]
pub(crate) fn copy(v: &serde_json::Value) -> (r: serde_json::Value)
    ensures
        r == *v,
{
    v.clone()
}

/// `serde_json::Map::new`, as a value: an object without members.
#[verifier::external_body]
pub(crate) fn empty_object() -> (r: serde_json::Value)
    ensures
        json_content(r) == JsonView::Members(Map::empty()),
{
    serde_json::Value::Object(serde_json::Map::new())
}

/// `serde_json::Value::from` on a text: the string that holds it.
#[verifier::external_body]
pub(crate) fn text_value(s: &str) -> (r: serde_json::Value)
    ensures
        json_content(r) == JsonView::Text(s@),
{
    serde_json::Value::from(s)
}

/// `serde_json::Value::from` on a number: the number.
#[verifier::external_body]
pub(crate) fn number_value(n: u64) -> (r: serde_json::Value)
    ensures
        json_content(r) == JsonView::Number(Some(n as int)),
{
    serde_json::Value::from(n)
}

/// Assignment through the index of a `serde_json::Value`: the member of an
/// object with this key becomes `x`. On a value that is neither an object nor
/// null it panics.
#[verifier::external_body]
pub(crate) fn set_member(v: &mut serde_json::Value, key: &str, x: serde_json::Value)
    requires
        json_content(*old(v)) is Members,
    ensures
        json_content(*final(v)) == JsonView::Members(
            json_content(*old(v))->Members_0.insert(key@, x),
        ),
{
    v[key] = x;
}

} // verus!
