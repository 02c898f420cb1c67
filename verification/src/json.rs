//! JSON documents as plain data.
//!
//! Parsing itself is the work of `serde_json`; this module turns the parsed value into [`Json`], a
//! tree of plain values that verified code can read.
use vstd::prelude::*;

use crate::text::{first_index, lemma_is_first_index, str_eq};

verus! {

/// `serde_json::Value`, the value that a document is parsed into.
#[verifier::external_type_specification]
#[verifier::external_body]
pub struct ExValue(serde_json::Value);

/// `serde_json::Number`, a number inside such a value.
#[verifier::external_type_specification]
#[verifier::external_body]
pub struct ExNumber(serde_json::Number);

/// What a JSON number reads as, in each of the three forms that it may have.
#[derive(Clone, Copy, Debug, PartialEq, Eq)]
pub struct JsonNumber {
    /// The number as a signed integer, if it is an integer that fits.
    pub signed: Option<i64>,
    /// The number as an unsigned integer, if it is an integer that fits.
    pub unsigned: Option<u64>,
    /// The bits of the number as an IEEE 754 double.
    pub double_bits: Option<u64>,
}

/// A JSON document.
#[derive(Debug)]
pub enum Json {
    Null,
    Bool(bool),
    Number(JsonNumber),
    String(String),
    Array(Vec<Json>),
    /// The members with their names, in the order in which the document's map gives them.
    Object(Vec<(String, Json)>),
}

/// The mathematical model of a JSON document.
pub enum JsonTree {
    Null,
    Bool(bool),
    Number(JsonNumber),
    String(Seq<char>),
    Array(Seq<JsonTree>),
    Object(Seq<(Seq<char>, JsonTree)>),
}

impl View for Json {
    type V = JsonTree;

    open spec fn view(&self) -> JsonTree {
        json_view(*self)
    }
}

pub open spec fn json_view(j: Json) -> JsonTree
    decreases j,
{
    match j {
        Json::Null => JsonTree::Null,
        Json::Bool(b) => JsonTree::Bool(b),
        Json::Number(n) => JsonTree::Number(n),
        Json::String(s) => JsonTree::String(s@),
        Json::Array(items) => JsonTree::Array(
            Seq::new(
                items@.len(),
                |i: int|
                    if 0 <= i < items@.len() {
                        json_view(items@[i])
                    } else {
                        JsonTree::Null
                    },
            ),
        ),
        Json::Object(members) => JsonTree::Object(
            Seq::new(
                members@.len(),
                |i: int|
                    if 0 <= i < members@.len() {
                        (members@[i].0@, json_view(members@[i].1))
                    } else {
                        (Seq::empty(), JsonTree::Null)
                    },
            ),
        ),
    }
}

/// A member of the given name.
pub open spec fn named(key: Seq<char>) -> spec_fn((Seq<char>, JsonTree)) -> bool {
    |m: (Seq<char>, JsonTree)| m.0 == key
}

/// The member of an object with the name `key`; no value but an object has one.
pub open spec fn member(tree: JsonTree, key: Seq<char>) -> Option<JsonTree> {
    match tree {
        JsonTree::Object(members) => {
            let n = first_index(members, named(key));
            if n < members.len() {
                Some(members[n].1)
            } else {
                None
            }
        },
        _ => None,
    }
}

/// The member `key` of what is there, if anything is.
pub open spec fn member_of(tree: Option<JsonTree>, key: Seq<char>) -> Option<JsonTree> {
    match tree {
        Some(tree) => member(tree, key),
        None => None,
    }
}

/// The text of a string.
pub open spec fn text_of(tree: Option<JsonTree>) -> Option<Seq<char>> {
    match tree {
        Some(JsonTree::String(s)) => Some(s),
        _ => None,
    }
}

/// The forms of a number.
pub open spec fn number_of(tree: Option<JsonTree>) -> Option<JsonNumber> {
    match tree {
        Some(JsonTree::Number(n)) => Some(n),
        _ => None,
    }
}

/// The model of what is there, if anything is.
pub open spec fn tree_of(json: Option<&Json>) -> Option<JsonTree> {
    match json {
        Some(json) => Some(json@),
        None => None,
    }
}

impl Json {
    /// The member of an object with the name `key`.
    pub fn get(&self, key: &str) -> (r: Option<&Json>)
        ensures
            tree_of(r) == member(self@, key@),
    {
        match self {
            Json::Object(members) => {
                let ghost trees = self@->Object_0;
                for i in 0..members.len()
                    invariant
                        self@ == JsonTree::Object(trees),
                        trees.len() == members@.len(),
                        forall|k: int|
                            0 <= k < trees.len() ==> #[trigger] trees[k] == (
                                members@[k].0@,
                                json_view(members@[k].1),
                            ),
                        forall|k: int| 0 <= k < i ==> !named(key@)(#[trigger] trees[k]),
                {
                    if str_eq(members[i].0.as_str(), key) {
                        proof {
                            lemma_is_first_index(trees, named(key@), i as int);
                        }
                        return Some(&members[i].1);
                    }
                }
                proof {
                    lemma_is_first_index(trees, named(key@), trees.len() as int);
                }
                None
            },
            _ => None,
        }
    }
}

/// The member `key` of what is there, if anything is.
pub fn get_in<'a>(json: Option<&'a Json>, key: &str) -> (r: Option<&'a Json>)
    ensures
        tree_of(r) == member_of(tree_of(json), key@),
{
    match json {
        Some(json) => json.get(key),
        None => None,
    }
}

/// The text of a string.
pub fn read_text(json: Option<&Json>) -> (r: Option<String>)
    ensures
        match r {
            Some(s) => text_of(tree_of(json)) == Some(s@),
            None => text_of(tree_of(json)) is None,
        },
{
    match json {
        Some(Json::String(s)) => Some(s.as_str().to_owned()),
        _ => None,
    }
}

/// The forms of a number.
pub fn read_number(json: Option<&Json>) -> (r: Option<JsonNumber>)
    ensures
        r == number_of(tree_of(json)),
{
    match json {
        Some(Json::Number(n)) => Some(*n),
        _ => None,
    }
}

/// What a `serde_json::Value` holds: the variant, with what is in it. The members of an object come
/// in the order in which its map is walked.
pub uninterp spec fn value_tree(value: serde_json::Value) -> JsonTree;

/// What `serde_json::Number::as_i64` gives.
pub uninterp spec fn number_signed(number: serde_json::Number) -> Option<i64>;

/// What `serde_json::Number::as_u64` gives.
pub uninterp spec fn number_unsigned(number: serde_json::Number) -> Option<u64>;

/// The bits of what `serde_json::Number::as_f64` gives.
pub uninterp spec fn number_bits(number: serde_json::Number) -> Option<u64>;

/// What a `serde_json::Number` reads as.
pub open spec fn number_forms(number: serde_json::Number) -> JsonNumber {
    JsonNumber {
        signed: number_signed(number),
        unsigned: number_unsigned(number),
        double_bits: number_bits(number),
    }
}

/// The document that `serde_json::from_str` reads from a text; `None` where it reports an error.
pub uninterp spec fn document_tree(text: Seq<char>) -> Option<JsonTree>;

/// One level of a `serde_json` value.
enum Node<'a> {
    Null,
    Bool(bool),
    Number(&'a serde_json::Number),
    String(&'a String),
    Array(Vec<&'a serde_json::Value>),
    Object(Vec<(&'a String, &'a serde_json::Value)>),
}

/// `node` is the top level of `tree`, and what stands below it are the values that hold the rest.
spec fn node_matches(node: Node, tree: JsonTree) -> bool {
    match node {
        Node::Null => tree == JsonTree::Null,
        Node::Bool(b) => tree == JsonTree::Bool(b),
        Node::Number(n) => tree == JsonTree::Number(number_forms(*n)),
        Node::String(s) => tree == JsonTree::String(s@),
        Node::Array(items) => {
            &&& tree is Array
            &&& tree->Array_0.len() == items@.len()
            &&& forall|i: int|
                0 <= i < items@.len() ==> #[trigger] tree->Array_0[i] == value_tree(*items@[i])
        },
        Node::Object(members) => {
            &&& tree is Object
            &&& tree->Object_0.len() == members@.len()
            &&& forall|i: int|
                0 <= i < members@.len() ==> #[trigger] tree->Object_0[i] == (
                    members@[i].0@,
                    value_tree(*members@[i].1),
                )
        },
    }
}

/// Calls `serde_json::from_str`. Whether it succeeds, and what the value then holds, depends on the
/// text alone. Not said: which texts are documents, and which value each of them stands for.
#[verifier::external_body]
fn parse_value(text: &str) -> (r: Option<serde_json::Value>)
    ensures
        match r {
            Some(value) => document_tree(text@) == Some(value_tree(value)),
            None => document_tree(text@) is None,
        },
{
    serde_json::from_str(text).ok()
}

/// Tells the variants of `serde_json::Value` apart, and walks its `Vec` or its `Map`. What comes
/// out is the top level of what the value holds.
#[verifier::external_body]
fn open_value<'a>(value: &'a serde_json::Value) -> (r: Node<'a>)
    ensures
        node_matches(r, value_tree(*value)),
{
    match value {
        serde_json::Value::Null => Node::Null,
        serde_json::Value::Bool(b) => Node::Bool(*b),
        serde_json::Value::Number(n) => Node::Number(n),
        serde_json::Value::String(s) => Node::String(s),
        serde_json::Value::Array(items) => Node::Array(items.iter().collect()),
        serde_json::Value::Object(members) => Node::Object(members.iter().collect()),
    }
}

/// Calls `serde_json::Number::as_i64`. The result depends on the number alone.
#[verifier::external_body]
fn number_as_i64(number: &serde_json::Number) -> (r: Option<i64>)
    ensures
        r == number_signed(*number),
{
    number.as_i64()
}

/// Calls `serde_json::Number::as_u64`. The result depends on the number alone.
#[verifier::external_body]
fn number_as_u64(number: &serde_json::Number) -> (r: Option<u64>)
    ensures
        r == number_unsigned(*number),
{
    number.as_u64()
}

/// Calls `serde_json::Number::as_f64` and gives the bits of the result, which depend on the number
/// alone.
#[verifier::external_body]
fn number_double_bits(number: &serde_json::Number) -> (r: Option<u64>)
    ensures
        r == number_bits(*number),
{
    number.as_f64().map(|x| x.to_bits())
}

/// What a `serde_json::Value` holds, as a document of plain values.
fn document_of_value(value: &serde_json::Value) -> (r: Json)
    ensures
        r@ == value_tree(*value),
    decreases value_tree(*value),
{
    match open_value(value) {
        Node::Null => Json::Null,
        Node::Bool(b) => Json::Bool(b),
        Node::Number(n) => Json::Number(
            JsonNumber {
                signed: number_as_i64(n),
                unsigned: number_as_u64(n),
                double_bits: number_double_bits(n),
            },
        ),
        Node::String(s) => Json::String(s.clone()),
        Node::Array(items) => {
            let ghost trees = value_tree(*value)->Array_0;
            let mut out: Vec<Json> = Vec::new();
            for i in 0..items.len()
                invariant
                    value_tree(*value) == JsonTree::Array(trees),
                    trees.len() == items@.len(),
                    forall|k: int|
                        0 <= k < items@.len() ==> #[trigger] trees[k] == value_tree(*items@[k]),
                    out@.len() == i,
                    forall|k: int| 0 <= k < i ==> json_view(#[trigger] out@[k]) == trees[k],
            {
                proof {
                    let tree = value_tree(*value);
                    assert(decreases_to!(tree => tree->Array_0[i as int]));
                }
                let item = document_of_value(items[i]);
                out.push(item);
            }
            let r = Json::Array(out);
            assert(json_view(r)->Array_0 =~= trees);
            r
        },
        Node::Object(members) => {
            let ghost trees = value_tree(*value)->Object_0;
            let mut out: Vec<(String, Json)> = Vec::new();
            for i in 0..members.len()
                invariant
                    value_tree(*value) == JsonTree::Object(trees),
                    trees.len() == members@.len(),
                    forall|k: int|
                        0 <= k < members@.len() ==> #[trigger] trees[k] == (
                            members@[k].0@,
                            value_tree(*members@[k].1),
                        ),
                    out@.len() == i,
                    forall|k: int|
                        0 <= k < i ==> (#[trigger] out@[k].0@, json_view(out@[k].1)) == trees[k],
            {
                proof {
                    let tree = value_tree(*value);
                    assert(decreases_to!(tree => tree->Object_0[i as int].1));
                }
                let item = document_of_value(members[i].1);
                out.push((members[i].0.clone(), item));
            }
            let r = Json::Object(out);
            assert(json_view(r)->Object_0 =~= trees);
            r
        },
    }
}

/// Reads a JSON document; `None` where `serde_json` reports an error.
pub fn parse_document(text: &str) -> (r: Option<Json>)
    ensures
        match r {
            Some(json) => document_tree(text@) == Some(json@),
            None => document_tree(text@) is None,
        },
{
    match parse_value(text) {
        Some(value) => Some(document_of_value(&value)),
        None => None,
    }
}

// ---------------------------------------------------------------------------
// Laws
// ---------------------------------------------------------------------------
/// The member of a name is the first one with that name, wherever it stands among the members; a
/// name that no member has gives none, and neither does a value that is no object.
pub proof fn law_members_are_found_by_name(
    front: Seq<(Seq<char>, JsonTree)>,
    key: Seq<char>,
    value: JsonTree,
    back: Seq<(Seq<char>, JsonTree)>,
)
    requires
        forall|i: int| 0 <= i < front.len() ==> (#[trigger] front[i]).0 != key,
    ensures
        member(JsonTree::Object(front + seq![(key, value)] + back), key) == Some(value),
        member(JsonTree::Object(front), key) is None,
        forall|tree: JsonTree| tree !is Object ==> #[trigger] member(tree, key) is None,
{
    let all = front + seq![(key, value)] + back;
    assert forall|i: int| 0 <= i < front.len() implies !named(key)(#[trigger] all[i]) by {
        assert(all[i] == front[i]);
    }
    assert(all[front.len() as int] == (key, value));
    lemma_is_first_index(all, named(key), front.len() as int);
    assert forall|i: int| 0 <= i < front.len() implies !named(key)(#[trigger] front[i]) by {}
    lemma_is_first_index(front, named(key), front.len() as int);
}

/// A string has its text, a number its forms, and nothing else has either.
pub proof fn law_texts_and_numbers(s: Seq<char>, n: JsonNumber, tree: JsonTree)
    ensures
        text_of(Some(JsonTree::String(s))) == Some(s),
        number_of(Some(JsonTree::Number(n))) == Some(n),
        tree !is String ==> text_of(Some(tree)) is None,
        tree !is Number ==> number_of(Some(tree)) is None,
        text_of(None) is None,
        number_of(None) is None,
{
}

/// A value that is missing has no members; one that is there has its own.
pub proof fn law_missing_values_have_no_members(tree: JsonTree, json: &Json, key: Seq<char>)
    ensures
        member_of(None, key) is None,
        member_of(Some(tree), key) == member(tree, key),
        tree_of(None) is None,
        tree_of(Some(json)) == Some(json@),
{
}

} // verus!
