//! JSON: writing strings and reading documents.
//!
//! Reading and string escaping are done by `serde_json`. A parsed document
//! stays a `serde_json::Value`; [`json_tree`] names what it holds, and the
//! accessors below say what they find in it.

use serde_json::Value;
use vstd::prelude::*;
use vstd::string::*;

verus! {

/// A parsed JSON document.
#[verifier::external_type_specification]
#[verifier::external_body]
pub struct ExValue(serde_json::Value);

/// What a JSON document holds. A number keeps only what the crate reads of it:
/// its value where it is a whole number from 0 to 2^64 - 1, written as one.
pub enum JsonTree {
    Null,
    Bool(bool),
    Number(Option<u64>),
    Text(Seq<char>),
    List(Seq<JsonTree>),
    Object(Map<Seq<char>, JsonTree>),
}

/// What the document `value` holds.
pub uninterp spec fn json_tree(value: Value) -> JsonTree;

/// What `serde_json::from_str` makes of a text: the document it spells, or the
/// message that says why it spells none.
pub uninterp spec fn json_document(text: Seq<char>) -> Result<JsonTree, Seq<char>>;

/// `serde_json::from_str` parses a text as one JSON document. Whether it
/// succeeds, what the document holds and the text of the error depend on the
/// text alone.
#[verifier::external_body]
pub(crate) fn parse_json(text: &str) -> (res: Result<Value, String>)
    ensures
        match res {
            Ok(value) => json_document(text@) == Ok::<JsonTree, Seq<char>>(json_tree(value)),
            Err(message) => json_document(text@) == Err::<JsonTree, Seq<char>>(message@),
        },
{
    serde_json::from_str(text).map_err(|e| e.to_string())
}

/// The member of an object under `key`, if the tree is an object and has one.
pub open spec fn member_of(tree: JsonTree, key: Seq<char>) -> Option<JsonTree> {
    match tree {
        JsonTree::Object(members) => if members.dom().contains(key) {
            Some(members[key])
        } else {
            None
        },
        _ => None,
    }
}

/// The characters of a string, if the tree is one.
pub open spec fn text_of(tree: JsonTree) -> Option<Seq<char>> {
    match tree {
        JsonTree::Text(s) => Some(s),
        _ => None,
    }
}

/// The value of a number, if the tree is a number that fits.
pub open spec fn u64_of(tree: JsonTree) -> Option<u64> {
    match tree {
        JsonTree::Number(n) => n,
        _ => None,
    }
}

/// `Value::get` with a string finds the member of an object under that key,
/// and nothing in a document that is not an object.
#[verifier::external_body]
pub(crate) fn json_member<'a>(value: &'a Value, key: &str) -> (res: Option<&'a Value>)
    ensures
        res is Some <==> member_of(json_tree(*value), key@) is Some,
        res matches Some(member) ==> member_of(json_tree(*value), key@) == Some(json_tree(*member)),
{
    value.get(key)
}

/// `Value::as_str` gives the characters of a string, and nothing of a document
/// that is not a string.
#[verifier::external_body]
pub(crate) fn json_str(value: &Value) -> (res: Option<&str>)
    ensures
        res is Some <==> text_of(json_tree(*value)) is Some,
        res matches Some(s) ==> text_of(json_tree(*value)) == Some(s@),
{
    value.as_str()
}

/// `Value::as_u64` gives the value of a number that is a whole number from 0
/// to 2^64 - 1, and nothing of any other document.
#[verifier::external_body]
pub(crate) fn json_u64(value: &Value) -> (res: Option<u64>)
    ensures
        res == u64_of(json_tree(*value)),
{
    value.as_u64()
}

/// `Value::as_array` gives the items of an array, and nothing of a document
/// that is not an array.
#[verifier::external_body]
pub(crate) fn json_items(value: &Value) -> (res: Option<&Vec<Value>>)
    ensures
        res is Some <==> json_tree(*value) is List,
        res matches Some(items) ==> json_tree(*value) == JsonTree::List(
            Seq::new(items@.len(), |i: int| json_tree(items@[i])),
        ),
{
    value.as_array()
}

/// The JSON spelling of one character inside a string.
pub open spec fn json_char(c: char) -> Seq<char> {
    if c == '"' {
        seq!['\\', '"']
    } else if c == '\\' {
        seq!['\\', '\\']
    } else if c as u32 == 0x08 {
        seq!['\\', 'b']
    } else if c as u32 == 0x09 {
        seq!['\\', 't']
    } else if c as u32 == 0x0a {
        seq!['\\', 'n']
    } else if c as u32 == 0x0c {
        seq!['\\', 'f']
    } else if c as u32 == 0x0d {
        seq!['\\', 'r']
    } else if (c as u32) < 0x20 {
        seq![
            '\\',
            'u',
            '0',
            '0',
            crate::text::hex_digit((c as u32 / 16) as nat),
            crate::text::hex_digit((c as u32 % 16) as nat),
        ]
    } else {
        seq![c]
    }
}

/// The JSON spelling of the characters of a string, without the quotes.
pub open spec fn escaped(s: Seq<char>) -> Seq<char>
    decreases s.len(),
{
    if s.len() == 0 {
        Seq::empty()
    } else {
        json_char(s[0]) + escaped(s.drop_first())
    }
}

/// The JSON spelling of a string.
pub open spec fn json_text(s: Seq<char>) -> Seq<char> {
    seq!['"'] + escaped(s) + seq!['"']
}

/// `serde_json::to_string` of a string writes it between quotes, with a
/// backslash before quotes and backslashes, the short escapes for backspace,
/// tab, line feed, form feed and carriage return, `\u00xx` for the other
/// characters below U+0020, and every other character as it is.
#[verifier::external_body]
pub(crate) fn json_string(s: &str) -> (res: String)
    ensures
        res@ == json_text(s@),
{
    serde_json::to_string(s).expect("a string is serialisable")
}

/// The spelling of one character tells which character it is, whatever
/// follows.
proof fn lemma_json_char_unique(c: char, d: char, x: Seq<char>, y: Seq<char>)
    requires
        json_char(c) + x == json_char(d) + y,
    ensures
        c == d,
        x == y,
{
    let left = json_char(c) + x;
    let right = json_char(d) + y;
    assert(left[0] == json_char(c)[0]);
    assert(right[0] == json_char(d)[0]);
    if json_char(c).len() > 1 && json_char(d).len() > 1 {
        assert(left[1] == json_char(c)[1]);
        assert(right[1] == json_char(d)[1]);
        if json_char(c).len() == 6 && json_char(d).len() == 6 {
            assert(left[4] == json_char(c)[4]);
            assert(right[4] == json_char(d)[4]);
            assert(left[5] == json_char(c)[5]);
            assert(right[5] == json_char(d)[5]);
        }
    }
    assert(c == d);
    assert(x =~= left.skip(json_char(c).len() as int));
    assert(y =~= right.skip(json_char(d).len() as int));
}

proof fn lemma_escaped_unique(a: Seq<char>, b: Seq<char>, x: Seq<char>, y: Seq<char>)
    requires
        escaped(a) + (seq!['"'] + x) == escaped(b) + (seq!['"'] + y),
    ensures
        a == b,
        x == y,
    decreases a.len(),
{
    let tail_x = seq!['"'] + x;
    let tail_y = seq!['"'] + y;
    let left = escaped(a) + tail_x;
    let right = escaped(b) + tail_y;
    if a.len() == 0 && b.len() == 0 {
        assert(left =~= tail_x);
        assert(right =~= tail_y);
        assert(x =~= tail_x.skip(1));
        assert(y =~= tail_y.skip(1));
        assert(a =~= b);
    } else if a.len() == 0 {
        assert(left[0] == '"');
        assert(right[0] == json_char(b[0])[0]);
    } else if b.len() == 0 {
        assert(right[0] == '"');
        assert(left[0] == json_char(a[0])[0]);
    } else {
        let rest_a = escaped(a.drop_first()) + tail_x;
        let rest_b = escaped(b.drop_first()) + tail_y;
        assert(left =~= json_char(a[0]) + rest_a);
        assert(right =~= json_char(b[0]) + rest_b);
        lemma_json_char_unique(a[0], b[0], rest_a, rest_b);
        lemma_escaped_unique(a.drop_first(), b.drop_first(), x, y);
        assert(a =~= seq![a[0]] + a.drop_first());
        assert(b =~= seq![b[0]] + b.drop_first());
    }
}

/// The spelling of a string tells which string it is and where it ends,
/// whatever follows.
pub proof fn law_json_text_unique(a: Seq<char>, b: Seq<char>, x: Seq<char>, y: Seq<char>)
    requires
        json_text(a) + x == json_text(b) + y,
    ensures
        a == b,
        x == y,
{
    let left = json_text(a) + x;
    let right = json_text(b) + y;
    assert(left.skip(1) =~= escaped(a) + (seq!['"'] + x));
    assert(right.skip(1) =~= escaped(b) + (seq!['"'] + y));
    lemma_escaped_unique(a, b, x, y);
}

} // verus!
