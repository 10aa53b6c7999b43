//! What looking into documents and changing them promises, said of the members of objects.

use vstd::prelude::*;

use crate::json::{distinct_keys, lemma_position, lemma_position_is, lemma_with_get, JsonNumber, JsonView};

verus! {

/// Law: the member of an object under a key is the first that stands there. Where none stands
/// there, and where the document is no object, there is no such member.
pub proof fn law_members_are_found(value: JsonView, key: Seq<char>)
    ensures
        match value {
            JsonView::Object(members) => {
                &&& forall|i: int|
                    0 <= i < members.len() && (#[trigger] members[i]).0 == key && (forall|j: int|
                        0 <= j < i ==> (#[trigger] members[j]).0 != key) ==> value.get(key)
                        == Some(members[i].1)
                &&& (forall|i: int| 0 <= i < members.len() ==> (#[trigger] members[i]).0 != key)
                    ==> value.get(key) is None
            },
            _ => value.get(key) is None,
        },
{
    if let JsonView::Object(members) = value {
        lemma_position(members, key);
        assert forall|i: int|
            0 <= i < members.len() && (#[trigger] members[i]).0 == key && (forall|j: int|
                0 <= j < i ==> (#[trigger] members[j]).0 != key) implies value.get(key) == Some(
            members[i].1,
        ) by {
            lemma_position_is(members, key, i);
        }
    }
}

/// Law: where no key stands twice, every member of an object is found under its key.
pub proof fn law_every_member_is_found(members: Seq<(Seq<char>, JsonView)>, i: int)
    requires
        0 <= i < members.len(),
        distinct_keys(members),
    ensures
        JsonView::Object(members).get(members[i].0) == Some(members[i].1),
{
    lemma_position_is(members, members[i].0, i);
}

/// Law: a string, a list, a truth value and a number are each had only from a document that is
/// one, and a string or a list of a member only where the member is one.
pub proof fn law_each_kind_is_told_apart(
    value: JsonView,
    key: Seq<char>,
    text: Seq<char>,
    items: Seq<JsonView>,
    truth: bool,
    number: u64,
)
    ensures
        value.as_text() == Some(text) <==> value == JsonView::String(text),
        value.as_items() == Some(items) <==> value == JsonView::Array(items),
        value.as_truth() == Some(truth) <==> value == JsonView::Bool(truth),
        value.as_unsigned() == Some(number) <==> value == JsonView::Number(
            JsonNumber::Unsigned(number),
        ),
        value.get_text(key) == Some(text) <==> value.get(key) == Some(JsonView::String(text)),
        value.get_items(key) == Some(items) <==> value.get(key) == Some(JsonView::Array(items)),
{
}

/// Law: setting a member of an object gives the new value under its key and leaves the other
/// members; keys keep their places, and a new one comes last. A document that is no object stays
/// as it is.
pub proof fn law_setting_a_member(
    value: JsonView,
    key: Seq<char>,
    new: JsonView,
    other: Seq<char>,
)
    ensures
        match value {
            JsonView::Object(members) => {
                let changed = value.with(key, new);
                &&& changed.get(key) == Some(new)
                &&& other != key ==> changed.get(other) == value.get(other)
                &&& changed matches JsonView::Object(after) && {
                    &&& value.get(key) is Some ==> after.len() == members.len()
                    &&& value.get(key) is None ==> after == members.push((key, new))
                    &&& forall|i: int|
                        0 <= i < members.len() ==> (#[trigger] after[i]).0 == members[i].0
                }
            },
            _ => value.with(key, new) == value,
        },
{
    if let JsonView::Object(members) = value {
        lemma_with_get(value, key, new, other);
        lemma_position(members, key);
    }
}

} // verus!
