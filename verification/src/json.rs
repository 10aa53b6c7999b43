//! JSON documents as plain data.
//!
//! A [`Json`] is what the rest of the library reads and builds. Its view, a [`JsonView`], is
//! what the contracts speak of. Reading a document from text and writing it out are left to
//! `serde_json`.

use serde_json::Value;
use vstd::prelude::*;

use crate::text::{same_text, str_view};

verus! {

/// `serde_json::Number`, carried through without being looked at.
#[verifier::external_type_specification]
#[verifier::external_body]
pub struct ExNumber(serde_json::Number);

/// `serde_json::Value`, the tree that `serde_json` writes out.
#[verifier::external_type_specification]
#[verifier::external_body]
pub struct ExValue(serde_json::Value);

/// `Clone` of `serde_json::Number` gives the same number.
pub assume_specification[ <serde_json::Number as std::clone::Clone>::clone ](
    number: &serde_json::Number,
) -> (copy: serde_json::Number)
    ensures
        copy == *number,
;

/// A JSON number: an integer that is not negative and fits 64 bits, a negative integer that
/// does, or any other number in the form in which it was read.
#[derive(Debug, PartialEq)]
pub enum JsonNumber {
    Unsigned(u64),
    Negative(i64),
    Other(serde_json::Number),
}

/// A JSON document. An object is the list of its members in their order.
#[derive(Debug, PartialEq)]
pub enum Json {
    Null,
    Bool(bool),
    Number(JsonNumber),
    String(String),
    Array(Vec<Json>),
    Object(Vec<(String, Json)>),
}

/// What a [`Json`] stands for.
#[verifier::ext_equal]
pub enum JsonView {
    Null,
    Bool(bool),
    Number(JsonNumber),
    String(Seq<char>),
    Array(Seq<JsonView>),
    Object(Seq<(Seq<char>, JsonView)>),
}

/// The view of a document.
pub open spec fn json_view(value: Json) -> JsonView
    decreases value,
{
    match value {
        Json::Null => JsonView::Null,
        Json::Bool(b) => JsonView::Bool(b),
        Json::Number(n) => JsonView::Number(n),
        Json::String(s) => JsonView::String(s@),
        Json::Array(items) => JsonView::Array(
            Seq::new(
                items@.len(),
                |i: int|
                    if 0 <= i < items@.len() {
                        json_view(items@[i])
                    } else {
                        JsonView::Null
                    },
            ),
        ),
        Json::Object(members) => JsonView::Object(
            Seq::new(
                members@.len(),
                |i: int|
                    if 0 <= i < members@.len() {
                        (members@[i].0@, json_view(members@[i].1))
                    } else {
                        (Seq::empty(), JsonView::Null)
                    },
            ),
        ),
    }
}

impl View for Json {
    type V = JsonView;

    open spec fn view(&self) -> JsonView {
        json_view(*self)
    }
}

/// The views of documents.
pub open spec fn views(items: Seq<Json>) -> Seq<JsonView> {
    items.map_values(|item: Json| item@)
}

/// The views of the members of an object.
pub open spec fn member_views(members: Seq<(String, Json)>) -> Seq<(Seq<char>, JsonView)> {
    members.map_values(|member: (String, Json)| (member.0@, member.1@))
}

/// The view of a document that may be missing.
pub open spec fn owned_view(value: Option<Json>) -> Option<JsonView> {
    match value {
        Some(value) => Some(value@),
        None => None,
    }
}

/// The view of a borrowed document that may be missing.
pub open spec fn ref_view(value: Option<&Json>) -> Option<JsonView> {
    match value {
        Some(value) => Some(value@),
        None => None,
    }
}

/// The views of the items of a borrowed array that may be missing.
pub open spec fn items_view(items: Option<&Vec<Json>>) -> Option<Seq<JsonView>> {
    match items {
        Some(items) => Some(views(items@)),
        None => None,
    }
}

pub proof fn lemma_array_view(items: Vec<Json>)
    ensures
        Json::Array(items)@ == JsonView::Array(views(items@)),
{
    assert(Json::Array(items)@->Array_0 == views(items@));
}

pub proof fn lemma_object_view(members: Vec<(String, Json)>)
    ensures
        Json::Object(members)@ == JsonView::Object(member_views(members@)),
{
    assert(Json::Object(members)@->Object_0 == member_views(members@));
}

/// An item of an array is smaller than the array.
pub proof fn lemma_item_smaller(items: Vec<Json>, i: int)
    requires
        0 <= i < items@.len(),
    ensures
        decreases_to!(Json::Array(items) => items@[i]),
{
    let array = Json::Array(items);
    assert(decreases_to!(array => array->Array_0));
    assert(decreases_to!(items => items@));
    assert(decreases_to!(items@ => items@[i]));
}

/// What a member of an object holds is smaller than the object.
pub proof fn lemma_member_smaller(members: Vec<(String, Json)>, i: int)
    requires
        0 <= i < members@.len(),
    ensures
        decreases_to!(Json::Object(members) => members@[i].1),
{
    let object = Json::Object(members);
    assert(decreases_to!(object => object->Object_0));
    assert(decreases_to!(members => members@));
    assert(decreases_to!(members@ => members@[i]));
    assert(decreases_to!(members@[i] => members@[i].1));
}

/// Where the member `key` stands among `members`; their number where there is none.
pub open spec fn position(members: Seq<(Seq<char>, JsonView)>, key: Seq<char>) -> int
    decreases members.len(),
{
    if members.len() == 0 || members[0].0 == key {
        0
    } else {
        1 + position(members.drop_first(), key)
    }
}

/// The members with the member `key` set to `value`: in its place, or at the end.
pub open spec fn with_member(
    members: Seq<(Seq<char>, JsonView)>,
    key: Seq<char>,
    value: JsonView,
) -> Seq<(Seq<char>, JsonView)> {
    let at = position(members, key);
    if at < members.len() {
        members.update(at, (key, value))
    } else {
        members.push((key, value))
    }
}

/// Whether no key stands twice.
pub open spec fn distinct_keys(members: Seq<(Seq<char>, JsonView)>) -> bool {
    forall|i: int, j: int|
        0 <= i < j < members.len() ==> (#[trigger] members[i]).0 != (#[trigger] members[j]).0
}

impl JsonView {
    /// The member `key` of an object.
    pub open spec fn get(self, key: Seq<char>) -> Option<JsonView> {
        match self {
            JsonView::Object(members) => {
                let at = position(members, key);
                if at < members.len() {
                    Some(members[at].1)
                } else {
                    None
                }
            },
            _ => None,
        }
    }

    /// The characters of a string.
    pub open spec fn as_text(self) -> Option<Seq<char>> {
        match self {
            JsonView::String(s) => Some(s),
            _ => None,
        }
    }

    /// The items of an array.
    pub open spec fn as_items(self) -> Option<Seq<JsonView>> {
        match self {
            JsonView::Array(items) => Some(items),
            _ => None,
        }
    }

    /// The truth value of a Boolean.
    pub open spec fn as_truth(self) -> Option<bool> {
        match self {
            JsonView::Bool(b) => Some(b),
            _ => None,
        }
    }

    /// The value of an integer that is not negative and fits 64 bits.
    pub open spec fn as_unsigned(self) -> Option<u64> {
        match self {
            JsonView::Number(JsonNumber::Unsigned(n)) => Some(n),
            _ => None,
        }
    }

    /// The string that the member `key` of an object is.
    pub open spec fn get_text(self, key: Seq<char>) -> Option<Seq<char>> {
        match self.get(key) {
            Some(value) => value.as_text(),
            None => None,
        }
    }

    /// The items of the array that the member `key` of an object is.
    pub open spec fn get_items(self, key: Seq<char>) -> Option<Seq<JsonView>> {
        match self.get(key) {
            Some(value) => value.as_items(),
            None => None,
        }
    }

    /// The object with its member `key` set to `value`.
    pub open spec fn with(self, key: Seq<char>, value: JsonView) -> JsonView {
        match self {
            JsonView::Object(members) => JsonView::Object(with_member(members, key, value)),
            _ => self,
        }
    }

    /// Whether no object anywhere in the document has the same key twice.
    pub open spec fn well_formed(self) -> bool
        decreases self,
    {
        match self {
            JsonView::Array(items) => forall|i: int|
                0 <= i < items.len() ==> (#[trigger] items[i]).well_formed(),
            JsonView::Object(members) => distinct_keys(members) && forall|i: int|
                0 <= i < members.len() ==> (#[trigger] members[i]).1.well_formed(),
            _ => true,
        }
    }
}

/// The first member with a key stands where [`position`] says.
pub proof fn lemma_position(members: Seq<(Seq<char>, JsonView)>, key: Seq<char>)
    ensures
        0 <= position(members, key) <= members.len(),
        position(members, key) < members.len() ==> members[position(members, key)].0 == key,
        forall|i: int| 0 <= i < position(members, key) ==> (#[trigger] members[i]).0 != key,
    decreases members.len(),
{
    if members.len() > 0 && members[0].0 != key {
        let rest = members.drop_first();
        lemma_position(rest, key);
        assert forall|i: int| 0 <= i < position(members, key) implies (#[trigger] members[i]).0
            != key by {
            if i > 0 {
                assert(members[i] == rest[i - 1]);
            }
        }
    }
}

/// A place that holds `key`, with no `key` before it, is where [`position`] says.
pub proof fn lemma_position_is(members: Seq<(Seq<char>, JsonView)>, key: Seq<char>, at: int)
    requires
        0 <= at <= members.len(),
        at < members.len() ==> members[at].0 == key,
        forall|i: int| 0 <= i < at ==> (#[trigger] members[i]).0 != key,
    ensures
        position(members, key) == at,
{
    lemma_position(members, key);
}

/// Setting a member makes a later look at it give the new value, and changes no other member.
pub proof fn lemma_with_get(object: JsonView, key: Seq<char>, value: JsonView, other: Seq<char>)
    requires
        object is Object,
    ensures
        object.with(key, value).get(key) == Some(value),
        other != key ==> object.with(key, value).get(other) == object.get(other),
{
    let members = object->Object_0;
    let changed = with_member(members, key, value);
    let at = position(members, key);
    lemma_position(members, key);
    lemma_position(members, other);
    lemma_position_is(changed, key, at);
    if other != key {
        let there = position(members, other);
        if there < members.len() {
            lemma_position_is(changed, other, there);
        } else {
            lemma_position_is(changed, other, changed.len() as int);
        }
    }
}

/// Setting a member to what it has been set to changes nothing.
pub proof fn lemma_with_twice(object: JsonView, key: Seq<char>, value: JsonView)
    ensures
        object.with(key, value).with(key, value) == object.with(key, value),
{
    if object is Object {
        let members = object->Object_0;
        let changed = with_member(members, key, value);
        let at = position(members, key);
        lemma_position(members, key);
        lemma_position_is(changed, key, at);
        assert(with_member(changed, key, value) == changed);
    }
}

/// The text that `serde_json` writes for a tree.
pub uninterp spec fn tree_text(tree: Value) -> Seq<char>;

/// The text that `serde_json` writes for the tree that is built of a document.
pub uninterp spec fn json_text(value: JsonView) -> Seq<char>;

/// Builds the `serde_json::Value` of a document, variant for variant, by `serde_json::Value`'s
/// variants, its `From` and its `FromIterator`. Documents that are the same give the same tree,
/// so its text depends on the document alone. The text of an object starts with a brace, that
/// of an array with a bracket. How the rest of the text is made up is left unsaid.
#[verifier::external_body]
fn to_value(value: &Json) -> (tree: Value)
    ensures
        tree_text(tree) == json_text(value@),
        value@ is Object ==> tree_text(tree).len() > 0 && tree_text(tree)[0] == '{',
        value@ is Array ==> tree_text(tree).len() > 0 && tree_text(tree)[0] == '[',
{
    match value {
        Json::Null => Value::Null,
        Json::Bool(b) => Value::Bool(*b),
        Json::Number(JsonNumber::Unsigned(n)) => Value::from(*n),
        Json::Number(JsonNumber::Negative(n)) => Value::from(*n),
        Json::Number(JsonNumber::Other(n)) => Value::Number(n.clone()),
        Json::String(s) => Value::from(s.as_str()),
        Json::Array(items) => items.iter().map(to_value).collect(),
        Json::Object(members) => members.iter().map(|m| (m.0.clone(), to_value(&m.1))).collect(),
    }
}

/// `to_string` of `serde_json::Value`, its `Display`: the compact text of the tree.
#[verifier::external_body]
fn value_text(tree: &Value) -> (text: String)
    ensures
        text@ == tree_text(*tree),
{
    tree.to_string()
}

/// What a tree of `serde_json` holds.
pub uninterp spec fn tree_content(tree: Value) -> JsonView;

/// What `serde_json` reads in a text: a document, or why the text is none.
pub uninterp spec fn parsed_json(text: Seq<char>) -> Result<JsonView, Seq<char>>;

/// A document that is an object with one member, a string.
pub open spec fn record(key: Seq<char>, value: Seq<char>) -> JsonView {
    JsonView::Object(seq![(key, JsonView::String(value))])
}

/// What was read in a text that may have been refused.
pub open spec fn tree_view(read: Result<Value, String>) -> Result<JsonView, Seq<char>> {
    match read {
        Ok(tree) => Ok(tree_content(tree)),
        Err(error) => Err(error@),
    }
}

/// The view of a document that was read in a text, or of why the text is none.
pub open spec fn parse_view(read: Result<Json, String>) -> Result<JsonView, Seq<char>> {
    match read {
        Ok(value) => Ok(value@),
        Err(error) => Err(error@),
    }
}

/// Whether `serde_json` gave back the record whose text it read, if it read one's.
pub open spec fn reads_back_record(text: Seq<char>, read: Result<Value, String>) -> bool {
    forall|key: Seq<char>, value: Seq<char>|
        text == #[trigger] json_text(record(key, value)) ==> tree_view(read) == Ok::<
            JsonView,
            Seq<char>,
        >(record(key, value))
}

/// `serde_json::from_str`, into a `serde_json::Value`; the error as its text. The outcome depends
/// on the text alone. The text of an object with one member, a string, is read back as that
/// object. What is read in other texts is left unsaid.
#[verifier::external_body]
fn read_value(text: &str) -> (read: Result<Value, String>)
    ensures
        tree_view(read) == parsed_json(text@),
        reads_back_record(text@, read),
{
    match serde_json::from_str::<Value>(text) {
        Ok(tree) => Ok(tree),
        Err(error) => Err(serde_json::Error::to_string(&error)),
    }
}

/// Takes a `serde_json::Value` apart, variant for variant. A number is asked by `as_u64` and
/// `as_i64` which kind of number it is. No key occurs twice in an object, whose members are those
/// of a `serde_json::Map`.
#[verifier::external_body]
fn from_value(tree: &Value) -> (value: Json)
    ensures
        value@ == tree_content(*tree),
        value@.well_formed(),
{
    match tree {
        Value::Null => Json::Null,
        Value::Bool(b) => Json::Bool(*b),
        Value::Number(n) => Json::Number(match (n.as_u64(), n.as_i64()) {
            (Some(n), _) => JsonNumber::Unsigned(n),
            (None, Some(n)) => JsonNumber::Negative(n),
            (None, None) => JsonNumber::Other(n.clone()),
        }),
        Value::String(s) => Json::String(s.clone()),
        Value::Array(items) => Json::Array(items.iter().map(from_value).collect()),
        Value::Object(members) => {
            Json::Object(members.iter().map(|m| (m.0.clone(), from_value(m.1))).collect())
        },
    }
}

impl Clone for JsonNumber {
    fn clone(&self) -> (copy: JsonNumber)
        ensures
            copy == *self,
    {
        match self {
            JsonNumber::Unsigned(n) => JsonNumber::Unsigned(*n),
            JsonNumber::Negative(n) => JsonNumber::Negative(*n),
            JsonNumber::Other(n) => JsonNumber::Other(n.clone()),
        }
    }
}

impl Clone for Json {
    fn clone(&self) -> (copy: Json)
        ensures
            copy@ == self@,
        decreases self,
    {
        match self {
            Json::Null => Json::Null,
            Json::Bool(b) => Json::Bool(*b),
            Json::Number(n) => Json::Number(n.clone()),
            Json::String(s) => Json::String(s.clone()),
            Json::Array(items) => {
                let mut copies: Vec<Json> = Vec::new();
                let mut i: usize = 0;
                while i < items.len()
                    invariant
                        i <= items@.len(),
                        *self == Json::Array(*items),
                        copies@.len() == i,
                        forall|j: int| 0 <= j < i ==> (#[trigger] copies@[j])@ == items@[j]@,
                    decreases items@.len() - i,
                {
                    proof {
                        lemma_item_smaller(*items, i as int);
                    }
                    copies.push(items[i].clone());
                    i = i + 1;
                }
                let copy = Json::Array(copies);
                assert(copy@->Array_0 == self@->Array_0);
                copy
            },
            Json::Object(members) => {
                let mut copies: Vec<(String, Json)> = Vec::new();
                let mut i: usize = 0;
                while i < members.len()
                    invariant
                        i <= members@.len(),
                        *self == Json::Object(*members),
                        copies@.len() == i,
                        forall|j: int|
                            0 <= j < i ==> (#[trigger] copies@[j]).0@ == members@[j].0@
                                && copies@[j].1@ == members@[j].1@,
                    decreases members@.len() - i,
                {
                    proof {
                        lemma_member_smaller(*members, i as int);
                    }
                    copies.push((members[i].0.clone(), members[i].1.clone()));
                    i = i + 1;
                }
                let copy = Json::Object(copies);
                assert(copy@->Object_0 == self@->Object_0);
                copy
            },
        }
    }
}

/// Where the member `key` stands among `members`; their number where there is none.
fn find_member(members: &Vec<(String, Json)>, key: &str) -> (at: usize)
    ensures
        at <= members@.len(),
        at == position(member_views(members@), key@),
{
    let ghost fields = member_views(members@);
    let mut i: usize = 0;
    while i < members.len() && !same_text(members[i].0.as_str(), key)
        invariant
            i <= members@.len(),
            fields == member_views(members@),
            forall|j: int| 0 <= j < i ==> (#[trigger] fields[j]).0 != key@,
        decreases members@.len() - i,
    {
        i = i + 1;
    }
    proof {
        lemma_position_is(fields, key@, i as int);
    }
    i
}

/// Adds a member at the end.
pub fn push_member(members: &mut Vec<(String, Json)>, key: &str, value: Json)
    ensures
        member_views(final(members)@) == member_views(old(members)@).push((key@, value@)),
{
    members.push((key.to_owned(), value));
    assert(member_views(members@) == member_views(old(members)@).push((key@, value@)));
}

impl Json {
    /// The string `s` as a document.
    pub fn text(s: &str) -> (value: Json)
        ensures
            value@ == JsonView::String(s@),
    {
        Json::String(s.to_owned())
    }

    /// The object of the given members.
    pub fn object(members: Vec<(String, Json)>) -> (value: Json)
        ensures
            value@ == JsonView::Object(member_views(members@)),
    {
        proof {
            lemma_object_view(members);
        }
        Json::Object(members)
    }

    /// The array of the given items.
    pub fn array(items: Vec<Json>) -> (value: Json)
        ensures
            value@ == JsonView::Array(views(items@)),
    {
        proof {
            lemma_array_view(items);
        }
        Json::Array(items)
    }

    /// The document that a text holds, or why it holds none.
    pub fn parse(text: &str) -> (read: Result<Json, String>)
        ensures
            parse_view(read) == parsed_json(text@),
            read is Ok ==> read->Ok_0@.well_formed(),
            forall|key: Seq<char>, value: Seq<char>|
                text@ == #[trigger] json_text(record(key, value)) ==> parse_view(read) == Ok::<
                    JsonView,
                    Seq<char>,
                >(record(key, value)),
    {
        match read_value(text) {
            Ok(tree) => Ok(from_value(&tree)),
            Err(error) => Err(error),
        }
    }

    /// The document as compact text.
    pub fn to_text(&self) -> (text: String)
        ensures
            text@ == json_text(self@),
            self@ is Object ==> text@.len() > 0 && text@[0] == '{',
            self@ is Array ==> text@.len() > 0 && text@[0] == '[',
    {
        value_text(&to_value(self))
    }

    /// The member `key` of an object.
    pub fn get(&self, key: &str) -> (member: Option<&Json>)
        ensures
            ref_view(member) == self@.get(key@),
    {
        match self {
            Json::Object(members) => {
                let at = find_member(members, key);
                proof {
                    lemma_object_view(*members);
                }
                if at < members.len() {
                    Some(&members[at].1)
                } else {
                    None
                }
            },
            _ => None,
        }
    }

    /// The characters of a string.
    pub fn as_str(&self) -> (s: Option<&str>)
        ensures
            str_view(s) == self@.as_text(),
    {
        match self {
            Json::String(s) => Some(s.as_str()),
            _ => None,
        }
    }

    /// The items of an array.
    pub fn as_array(&self) -> (items: Option<&Vec<Json>>)
        ensures
            items_view(items) == self@.as_items(),
    {
        match self {
            Json::Array(items) => {
                proof {
                    lemma_array_view(*items);
                }
                Some(items)
            },
            _ => None,
        }
    }

    /// The truth value of a Boolean.
    pub fn as_bool(&self) -> (b: Option<bool>)
        ensures
            b == self@.as_truth(),
    {
        match self {
            Json::Bool(b) => Some(*b),
            _ => None,
        }
    }

    /// The value of an integer that is not negative and fits 64 bits.
    pub fn as_u64(&self) -> (n: Option<u64>)
        ensures
            n == self@.as_unsigned(),
    {
        match self {
            Json::Number(JsonNumber::Unsigned(n)) => Some(*n),
            _ => None,
        }
    }

    /// The string that the member `key` of an object is.
    pub fn get_str(&self, key: &str) -> (s: Option<&str>)
        ensures
            str_view(s) == self@.get_text(key@),
    {
        match self.get(key) {
            Some(value) => value.as_str(),
            None => None,
        }
    }

    /// The items of the array that the member `key` of an object is.
    pub fn get_array(&self, key: &str) -> (items: Option<&Vec<Json>>)
        ensures
            items_view(items) == self@.get_items(key@),
    {
        match self.get(key) {
            Some(value) => value.as_array(),
            None => None,
        }
    }

    /// A copy of the object in which the member `key` is `value`; what is no object stays as
    /// it is.
    pub fn with(&self, key: &str, value: Json) -> (object: Json)
        ensures
            object@ == self@.with(key@, value@),
    {
        match self.clone() {
            Json::Object(list) => {
                let mut members = list;
                let ghost before = member_views(members@);
                proof {
                    lemma_object_view(members);
                }
                let at = find_member(&members, key);
                if at < members.len() {
                    members[at] = (key.to_owned(), value);
                    assert(member_views(members@) == before.update(at as int, (key@, value@)));
                } else {
                    push_member(&mut members, key, value);
                }
                Json::object(members)
            },
            other => other,
        }
    }
}

} // verus!
