//! JSON documents as plain data.

use crate::seqs::{find_where, first_where_is, first_where_none};
use crate::text::same_text;
use serde_json::Value;
use vstd::prelude::*;

verus! {

/// A JSON number, as far as it can be represented in each way.
#[derive(Debug, Clone, Copy, PartialEq, Eq, Structural)]
pub struct Number {
    pub unsigned: Option<u64>,
    pub signed: Option<i64>,
    /// Bits of the IEEE 754 binary64 number.
    pub double: Option<u64>,
}

/// A JSON value.
#[derive(Debug)]
pub enum Json {
    Null,
    Bool(bool),
    Number(Number),
    Text(String),
    List(Vec<Json>),
    Object(Vec<Member>),
}

/// A named value of a JSON object.
#[derive(Debug)]
pub struct Member {
    pub name: String,
    pub value: Json,
}

/// What a JSON value holds.
pub enum Tree {
    Null,
    Bool(bool),
    Number(Number),
    Text(Seq<char>),
    List(Seq<Tree>),
    Object(Seq<(Seq<char>, Tree)>),
}

/// What a JSON value holds.
pub open spec fn tree(j: Json) -> Tree
    decreases j,
{
    match j {
        Json::Null => Tree::Null,
        Json::Bool(b) => Tree::Bool(b),
        Json::Number(n) => Tree::Number(n),
        Json::Text(s) => Tree::Text(s@),
        Json::List(v) => Tree::List(
            Seq::new(
                v@.len(),
                |i: int|
                    if 0 <= i < v@.len() {
                        tree(v@[i])
                    } else {
                        Tree::Null
                    },
            ),
        ),
        Json::Object(v) => Tree::Object(
            Seq::new(
                v@.len(),
                |i: int|
                    if 0 <= i < v@.len() {
                        (v@[i].name@, tree(v@[i].value))
                    } else {
                        (Seq::empty(), Tree::Null)
                    },
            ),
        ),
    }
}

/// A parsed document of serde_json, carried from parsing to conversion.
#[verifier::external_type_specification]
#[verifier::external_body]
pub struct ExValue(serde_json::Value);

/// What a parsed document of serde_json holds.
pub uninterp spec fn value_tree(v: Value) -> Tree;

/// What serde_json reads from a text: what the document holds, or the message
/// of the error.
pub uninterp spec fn json_in(text: Seq<char>) -> Result<Tree, Seq<char>>;

/// `serde_json::from_str`: the document, or the error's message, is a function
/// of the text alone, named [`json_in`]; nothing is claimed of the grammar.
#[verifier::external_body]
fn read_value(text: &str) -> (r: Result<Value, String>)
    ensures
        match r {
            Ok(v) => json_in(text@) == Ok::<Tree, Seq<char>>(value_tree(v)),
            Err(e) => json_in(text@) == Err::<Tree, Seq<char>>(e@),
        },
{
    serde_json::from_str::<Value>(text).map_err(|e| e.to_string())
}

/// Takes a `serde_json::Value` apart, variant by variant: the result holds what
/// the document holds, named [`value_tree`]. A number is kept as its `as_u64`,
/// its `as_i64` and the bits of its `as_f64`.
#[verifier::external_body]
fn from_value(v: Value) -> (r: Json)
    ensures
        tree(r) == value_tree(v),
{
    match v {
        Value::Null => Json::Null,
        Value::Bool(b) => Json::Bool(b),
        Value::Number(n) => Json::Number(
            Number { unsigned: n.as_u64(), signed: n.as_i64(), double: n.as_f64().map(|x| x.to_bits()) },
        ),
        Value::String(s) => Json::Text(s),
        Value::Array(a) => Json::List(a.into_iter().map(from_value).collect()),
        Value::Object(o) => Json::Object(
            o.into_iter().map(|(name, v)| Member { name, value: from_value(v) }).collect(),
        ),
    }
}

/// Read a JSON document.
pub fn parse_json(text: &str) -> (r: Result<Json, String>)
    ensures
        match r {
            Ok(j) => json_in(text@) == Ok::<Tree, Seq<char>>(tree(j)),
            Err(e) => json_in(text@) == Err::<Tree, Seq<char>>(e@),
        },
{
    match read_value(text) {
        Ok(v) => Ok(from_value(v)),
        Err(e) => Err(e),
    }
}

// ---------------------------------------------------------------- accessors

/// The condition that a member has the given name.
pub open spec fn member_named(name: Seq<char>) -> spec_fn((Seq<char>, Tree)) -> bool {
    |m: (Seq<char>, Tree)| m.0 == name
}

/// The member of an object with a name.
pub open spec fn member(t: Tree, name: Seq<char>) -> Option<Tree> {
    match t {
        Tree::Object(m) => match find_where(m, member_named(name)) {
            Some(found) => Some(found.1),
            None => None,
        },
        _ => None,
    }
}

/// The truth value that an optional value is.
pub open spec fn bool_of(t: Option<Tree>) -> Option<bool> {
    match t {
        Some(Tree::Bool(b)) => Some(b),
        _ => None,
    }
}

/// The text that an optional value is.
pub open spec fn text_of(t: Option<Tree>) -> Option<Seq<char>> {
    match t {
        Some(Tree::Text(s)) => Some(s),
        _ => None,
    }
}

/// The elements of an optional value that is a list.
pub open spec fn list_of(t: Option<Tree>) -> Option<Seq<Tree>> {
    match t {
        Some(Tree::List(s)) => Some(s),
        _ => None,
    }
}

/// The unsigned number that an optional value is.
pub open spec fn unsigned_of(t: Option<Tree>) -> Option<u64> {
    match t {
        Some(Tree::Number(n)) => n.unsigned,
        _ => None,
    }
}

/// The signed number that an optional value is.
pub open spec fn signed_of(t: Option<Tree>) -> Option<i64> {
    match t {
        Some(Tree::Number(n)) => n.signed,
        _ => None,
    }
}

/// The bits of the binary64 number that an optional value is.
pub open spec fn double_of(t: Option<Tree>) -> Option<u64> {
    match t {
        Some(Tree::Number(n)) => n.double,
        _ => None,
    }
}

/// The member of a member.
pub open spec fn nested(t: Tree, outer: Seq<char>, inner: Seq<char>) -> Option<Tree> {
    match member(t, outer) {
        Some(m) => member(m, inner),
        None => None,
    }
}

/// What an optional reference to a JSON value holds.
pub open spec fn tree_of(j: Option<&Json>) -> Option<Tree> {
    match j {
        Some(v) => Some(tree(*v)),
        None => None,
    }
}

impl Json {
    /// The member with a name, of an object.
    pub fn get(&self, name: &str) -> (r: Option<&Json>)
        ensures
            tree_of(r) == member(tree(*self), name@),
    {
        match self {
            Json::Object(members) => {
                let ghost list = tree(*self)->Object_0;
                for i in 0..members.len()
                    invariant
                        *self == Json::Object(*members),
                        list == tree(*self)->Object_0,
                        list.len() == members@.len(),
                        forall|j: int|
                            0 <= j < members@.len() ==> #[trigger] list[j] == (
                                members@[j].name@,
                                tree(members@[j].value),
                            ),
                        forall|j: int| 0 <= j < i ==> !member_named(name@)(list[j]),
                {
                    if same_text(members[i].name.as_str(), name) {
                        proof {
                            assert(list[i as int].0 == name@);
                            first_where_is(list, member_named(name@), i as int);
                        }
                        return Some(&members[i].value);
                    }
                    assert(list[i as int].0 != name@);
                }
                proof {
                    first_where_none(list, member_named(name@));
                }
                None
            },
            _ => None,
        }
    }

    /// The member of a member.
    pub fn get_nested(&self, outer: &str, inner: &str) -> (r: Option<&Json>)
        ensures
            tree_of(r) == nested(tree(*self), outer@, inner@),
    {
        match self.get(outer) {
            Some(m) => m.get(inner),
            None => None,
        }
    }
}

/// The truth value that an optional value is.
pub fn as_bool(j: Option<&Json>) -> (r: Option<bool>)
    ensures
        r == bool_of(tree_of(j)),
{
    match j {
        Some(Json::Bool(b)) => Some(*b),
        _ => None,
    }
}

/// The text that an optional value is.
pub fn as_text<'a>(j: Option<&'a Json>) -> (r: Option<&'a str>)
    ensures
        match (r, text_of(tree_of(j))) {
            (Some(s), Some(want)) => s@ == want,
            (None, None) => true,
            _ => false,
        },
{
    match j {
        Some(Json::Text(s)) => Some(s.as_str()),
        _ => None,
    }
}

/// The elements of an optional value that is a list.
pub fn as_list<'a>(j: Option<&'a Json>) -> (r: Option<&'a Vec<Json>>)
    ensures
        match (r, list_of(tree_of(j))) {
            (Some(v), Some(want)) => {
                &&& v@.len() == want.len()
                &&& forall|i: int| 0 <= i < want.len() ==> tree(#[trigger] v@[i]) == want[i]
            },
            (None, None) => true,
            _ => false,
        },
{
    match j {
        Some(Json::List(v)) => Some(v),
        _ => None,
    }
}

/// The unsigned number that an optional value is.
pub fn as_unsigned(j: Option<&Json>) -> (r: Option<u64>)
    ensures
        r == unsigned_of(tree_of(j)),
{
    match j {
        Some(Json::Number(n)) => n.unsigned,
        _ => None,
    }
}

/// The signed number that an optional value is.
pub fn as_signed(j: Option<&Json>) -> (r: Option<i64>)
    ensures
        r == signed_of(tree_of(j)),
{
    match j {
        Some(Json::Number(n)) => n.signed,
        _ => None,
    }
}

/// The bits of the binary64 number that an optional value is.
pub fn as_double(j: Option<&Json>) -> (r: Option<u64>)
    ensures
        r == double_of(tree_of(j)),
{
    match j {
        Some(Json::Number(n)) => n.double,
        _ => None,
    }
}

/// A member of an object is the first of that name, and nothing else has members.
pub proof fn member_is_the_first_of_its_name(
    t: Tree,
    name: Seq<char>,
    members: Seq<(Seq<char>, Tree)>,
    k: int,
)
    ensures
        !(t is Object) ==> member(t, name) is None,
        0 <= k < members.len() && members[k].0 == name && (forall|j: int|
            0 <= j < k ==> (#[trigger] members[j]).0 != name) ==> member(
            Tree::Object(members),
            name,
        ) == Some(members[k].1),
        (forall|j: int| 0 <= j < members.len() ==> (#[trigger] members[j]).0 != name) ==> member(
            Tree::Object(members),
            name,
        ) is None,
        text_of(Some(t)) is Some <==> t is Text,
        bool_of(Some(t)) is Some <==> t is Bool,
        list_of(Some(t)) is Some <==> t is List,
        t matches Tree::Text(s) ==> text_of(Some(t)) == Some(s),
        t matches Tree::Bool(b) ==> bool_of(Some(t)) == Some(b),
        t matches Tree::List(s) ==> list_of(Some(t)) == Some(s),
        t matches Tree::Number(n) ==> unsigned_of(Some(t)) == n.unsigned && signed_of(Some(t))
            == n.signed && double_of(Some(t)) == n.double,
{
    let p = member_named(name);
    if 0 <= k < members.len() && members[k].0 == name && (forall|j: int|
        0 <= j < k ==> (#[trigger] members[j]).0 != name) {
        first_where_is(members, p, k);
    }
    if forall|j: int| 0 <= j < members.len() ==> (#[trigger] members[j]).0 != name {
        first_where_none(members, p);
    }
}

} // verus!
