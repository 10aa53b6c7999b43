//! What rewriting a request promises, said of the members of its items and of the paths to them.

use vstd::prelude::*;

use crate::json::{json_text, JsonView};
use crate::text::{trimmed, trimmed_start, whitespace};
use crate::text_laws::{blank, law_blank_texts};
use crate::transform_codex_responses_third_party::{
    compatible, has_carrier, input_text, instruction, lemma_user_message_members, output_text,
    part_text, plain_content, plain_part, promoted, rewritten, synthetic_instruction, Carrier,
};

verus! {

/// A step from a document to one of its parts.
pub enum Step {
    /// To the item of an array at this place.
    Item(int),
    /// To the member of an object at this place.
    Member(int),
}

/// The part of a document that a step leads to.
pub open spec fn part_at(value: JsonView, step: Step) -> Option<JsonView> {
    match step {
        Step::Item(i) => match value {
            JsonView::Array(items) => if 0 <= i < items.len() {
                Some(items[i])
            } else {
                None
            },
            _ => None,
        },
        Step::Member(i) => match value {
            JsonView::Object(members) => if 0 <= i < members.len() {
                Some(members[i].1)
            } else {
                None
            },
            _ => None,
        },
    }
}

/// The part of a document that a path of steps leads to.
pub open spec fn reached(value: JsonView, path: Seq<Step>) -> Option<JsonView>
    decreases path.len(),
{
    if path.len() == 0 {
        Some(value)
    } else {
        match part_at(value, path[0]) {
            Some(part) => reached(part, path.drop_first()),
            None => None,
        }
    }
}

/// Whether a part of a content says `text`: under `encrypted_content` where the part is of that
/// type and has such a member, and else under `text`.
pub open spec fn says(part: JsonView, text: Seq<char>) -> bool {
    let is_encrypted = (part.get("type"@) matches Some(JsonView::String(name)) && trimmed(name)
        == "encrypted_content"@) && part.get("encrypted_content"@) is Some;
    &&& text.len() > 0
    &&& is_encrypted ==> part.get("encrypted_content"@) == Some(JsonView::String(text))
    &&& !is_encrypted ==> part.get("text"@) == Some(JsonView::String(text))
}

/// Whether an item is an agent message that says something.
pub open spec fn is_agent_message(item: JsonView) -> bool {
    &&& item.get("type"@) matches Some(JsonView::String(name))
    &&& trimmed(name) == "agent_message"@
    &&& match item.get("content"@) {
        Some(JsonView::String(text)) => text.len() > 0,
        Some(JsonView::Array(parts)) => exists|i: int, text: Seq<char>|
            0 <= i < parts.len() && #[trigger] says(parts[i], text),
        _ => false,
    }
}

/// Whether a text has, behind whitespace up to `n`, one of the tags of an instruction.
pub open spec fn has_tag_at(text: Seq<char>, n: int) -> bool {
    &&& 0 <= n <= text.len()
    &&& forall|i: int| 0 <= i < n ==> whitespace(#[trigger] text[i])
    &&& "<codex_delegation>"@.is_prefix_of(text.skip(n)) || "<heartbeat>"@.is_prefix_of(
        text.skip(n),
    ) || "<automation>"@.is_prefix_of(text.skip(n)) || "<automation_update>"@.is_prefix_of(
        text.skip(n),
    )
}

/// Whether an item is an output that answers no call and instructs by `text`.
pub open spec fn instructs(item: JsonView, text: Seq<char>) -> bool {
    &&& item.get("type"@) matches Some(JsonView::String(name))
    &&& trimmed(name) == "function_call_output"@
    &&& !(item.get("call_id"@) matches Some(JsonView::String(id)) && id.len() > 0)
    &&& match item.get("output"@) {
        Some(JsonView::String(output)) => output == text,
        Some(JsonView::Object(members)) => JsonView::Object(members).get("text"@) == Some(
            JsonView::String(text),
        ),
        _ => false,
    }
    &&& exists|n: int| has_tag_at(text, n)
}

/// Whether an item is to be made a user message.
pub open spec fn is_to_be_rewritten(carrier: Carrier, item: JsonView) -> bool {
    match carrier {
        Carrier::AgentMessage => is_agent_message(item),
        Carrier::CallOutput => exists|text: Seq<char>| instructs(item, text),
    }
}

/// Trimming the start drops leading whitespace.
proof fn lemma_start_behind(text: Seq<char>, n: int)
    requires
        0 <= n < text.len(),
        forall|i: int| 0 <= i < n ==> whitespace(#[trigger] text[i]),
        !whitespace(text[n]),
    ensures
        trimmed_start(text) == text.skip(n),
    decreases n,
{
    if n == 0 {
        assert(text.skip(0) == text);
    } else {
        let rest = text.drop_first();
        assert forall|i: int| 0 <= i < n - 1 implies whitespace(#[trigger] rest[i]) by {
            assert(rest[i] == text[i + 1]);
        }
        assert(whitespace(text[0]));
        lemma_start_behind(rest, n - 1);
        assert(rest.skip(n - 1) == text.skip(n));
    }
}

/// What trimming the start drops is whitespace.
proof fn lemma_start_dropped(text: Seq<char>) -> (n: int)
    ensures
        0 <= n <= text.len(),
        forall|i: int| 0 <= i < n ==> whitespace(#[trigger] text[i]),
        trimmed_start(text) == text.skip(n),
    decreases text.len(),
{
    if text.len() > 0 && whitespace(text[0]) {
        let rest = text.drop_first();
        let n = lemma_start_dropped(rest);
        assert forall|i: int| 0 <= i < n + 1 implies whitespace(#[trigger] text[i]) by {
            if i > 0 {
                assert(text[i] == rest[i - 1]);
            }
        }
        assert(rest.skip(n) == text.skip(n + 1));
        n + 1
    } else {
        assert(text.skip(0) == text);
        0
    }
}

/// Law: a text is an instruction if and only if one of four tags stands in it with nothing but
/// whitespace before it: that of a delegation, of a heartbeat, of an automation or of an update of
/// one.
pub proof fn law_instructions_open_with_a_tag(text: Seq<char>)
    ensures
        synthetic_instruction(text) <==> exists|n: int| has_tag_at(text, n),
{
    if synthetic_instruction(text) {
        let n = lemma_start_dropped(text);
        assert(has_tag_at(text, n));
    }
    if exists|n: int| has_tag_at(text, n) {
        let n = choose|n: int| has_tag_at(text, n);
        reveal_strlit("<codex_delegation>");
        reveal_strlit("<heartbeat>");
        reveal_strlit("<automation>");
        reveal_strlit("<automation_update>");
        let rest = text.skip(n);
        assert("<codex_delegation>"@[0] == '<' && "<heartbeat>"@[0] == '<' && "<automation>"@[0]
            == '<' && "<automation_update>"@[0] == '<');
        assert(rest.len() > 0 && rest[0] == '<');
        assert(text[n] == rest[0]);
        lemma_start_behind(text, n);
    }
}

/// Law: whatever whitespace stands before one of the four tags, and whatever stands behind it, the
/// text is an instruction.
pub proof fn law_tagged_texts_are_instructions(before: Seq<char>, tag: Seq<char>, behind: Seq<char>)
    requires
        forall|i: int| 0 <= i < before.len() ==> whitespace(#[trigger] before[i]),
        tag == "<codex_delegation>"@ || tag == "<heartbeat>"@ || tag == "<automation>"@ || tag
            == "<automation_update>"@,
    ensures
        synthetic_instruction(before + tag + behind),
{
    let text = before + tag + behind;
    let n = before.len() as int;
    assert forall|i: int| 0 <= i < n implies whitespace(#[trigger] text[i]) by {
        assert(text[i] == before[i]);
    }
    assert(text.skip(n) == tag + behind);
    assert(tag.is_prefix_of(tag + behind));
    assert(has_tag_at(text, n));
    law_instructions_open_with_a_tag(text);
}

/// A part becomes plain text if and only if it says something.
proof fn lemma_part(part: JsonView)
    ensures
        plain_part(part) is Some <==> exists|text: Seq<char>| says(part, text),
        forall|text: Seq<char>| #[trigger]
            says(part, text) ==> plain_part(part) == Some(input_text(text)),
{
    assert forall|text: Seq<char>| #[trigger] says(part, text) implies plain_part(part) == Some(
        input_text(text),
    ) by {}
    if plain_part(part) is Some {
        let text = part_text(part)->0;
        assert(says(part, text));
    }
}

/// Law: the content of an agent message is made plain part by part: what a part says stands in its
/// place as plain text, and a part that says nothing is dropped. A string that is not empty is one
/// such part.
pub proof fn law_content_is_made_plain_part_by_part(
    parts: Seq<JsonView>,
    part: JsonView,
    text: Seq<char>,
)
    ensures
        plain_content(Some(JsonView::Array(Seq::empty()))) == Seq::<JsonView>::empty(),
        says(part, text) ==> plain_content(Some(JsonView::Array(parts.push(part))))
            == plain_content(Some(JsonView::Array(parts))).push(
            JsonView::Object(
                seq![
                    ("type"@, JsonView::String("input_text"@)),
                    ("text"@, JsonView::String(text)),
                ],
            ),
        ),
        (forall|other: Seq<char>| !says(part, other)) ==> plain_content(
            Some(JsonView::Array(parts.push(part))),
        ) == plain_content(Some(JsonView::Array(parts))),
        text.len() > 0 ==> plain_content(Some(JsonView::String(text))) == seq![
            JsonView::Object(
                seq![
                    ("type"@, JsonView::String("input_text"@)),
                    ("text"@, JsonView::String(text)),
                ],
            ),
        ],
        plain_content(Some(JsonView::String(Seq::empty()))) == Seq::<JsonView>::empty(),
        plain_content(None) == Seq::<JsonView>::empty(),
{
    lemma_part(part);
    let plain = |part: JsonView| plain_part(part);
    let all = parts.push(part);
    all.lemma_filter_map_take_succ(plain, parts.len() as int);
    assert(all.take(parts.len() as int) == parts);
    assert(all.take(all.len() as int) == all);
}

/// Content has a plain part if and only if some part says something.
proof fn lemma_content(parts: Seq<JsonView>)
    ensures
        plain_content(Some(JsonView::Array(parts))).len() > 0 <==> exists|i: int, text: Seq<char>|
            0 <= i < parts.len() && #[trigger] says(parts[i], text),
    decreases parts.len(),
{
    if parts.len() == 0 {
        law_content_is_made_plain_part_by_part(parts, JsonView::Null, Seq::empty());
        assert(parts == Seq::<JsonView>::empty());
    } else {
        let rest = parts.drop_last();
        let last = parts.last();
        lemma_content(rest);
        assert(rest.push(last) == parts);
        if exists|text: Seq<char>| says(last, text) {
            let text = choose|text: Seq<char>| says(last, text);
            law_content_is_made_plain_part_by_part(rest, last, text);
            assert(says(parts[parts.len() - 1], text));
        } else {
            law_content_is_made_plain_part_by_part(rest, last, Seq::empty());
            if exists|i: int, text: Seq<char>|
                0 <= i < rest.len() && #[trigger] says(rest[i], text) {
                let (i, text) = choose|i: int, text: Seq<char>|
                    0 <= i < rest.len() && #[trigger] says(rest[i], text);
                assert(says(parts[i], text));
            }
            if exists|i: int, text: Seq<char>|
                0 <= i < parts.len() && #[trigger] says(parts[i], text) {
                let (i, text) = choose|i: int, text: Seq<char>|
                    0 <= i < parts.len() && #[trigger] says(parts[i], text);
                assert(says(rest[i], text));
            }
        }
    }
}

/// Law: the items that are made user messages are the agent messages that say something, and the
/// outputs that answer no call and instruct; and no other.
pub proof fn law_which_items_are_rewritten(carrier: Carrier, item: JsonView)
    ensures
        promoted(carrier, item) is Some <==> is_to_be_rewritten(carrier, item),
{
    match carrier {
        Carrier::AgentMessage => {
            match item.get("content"@) {
                Some(JsonView::Array(parts)) => {
                    lemma_content(parts);
                },
                _ => {},
            }
        },
        Carrier::CallOutput => {
            if promoted(carrier, item) is Some {
                let text = instruction(item.get("output"@))->0;
                law_instructions_open_with_a_tag(text);
                assert(instructs(item, text));
            }
            if exists|text: Seq<char>| instructs(item, text) {
                let text = choose|text: Seq<char>| instructs(item, text);
                law_instructions_open_with_a_tag(text);
            }
        },
    }
}

/// Law: the message that an agent message or an instruction becomes has its text as its content,
/// and its `id` where it has one; it is a message of the user, and has nothing else.
pub proof fn law_what_an_item_becomes(
    carrier: Carrier,
    item: JsonView,
    text: Seq<char>,
    key: Seq<char>,
)
    requires
        is_to_be_rewritten(carrier, item),
    ensures
        promoted(carrier, item) is Some,
        ({
            let message = promoted(carrier, item)->0;
            &&& message.get("type"@) == Some(JsonView::String("message"@))
            &&& message.get("role"@) == Some(JsonView::String("user"@))
            &&& message.get("id"@) == item.get("id"@)
            &&& key != "type"@ && key != "role"@ && key != "id"@ && key != "content"@
                ==> message.get(key) is None
            &&& carrier == Carrier::AgentMessage ==> message.get("content"@) == Some(
                JsonView::Array(plain_content(item.get("content"@))),
            )
            &&& carrier == Carrier::CallOutput && instructs(item, text) ==> message.get(
                "content"@,
            ) == Some(
                JsonView::Array(
                    seq![
                        JsonView::Object(
                            seq![
                                ("type"@, JsonView::String("input_text"@)),
                                ("text"@, JsonView::String(text)),
                            ],
                        ),
                    ],
                ),
            )
        }),
{
    law_which_items_are_rewritten(carrier, item);
    match carrier {
        Carrier::AgentMessage => {
            lemma_user_message_members(plain_content(item.get("content"@)), item.get("id"@), key);
        },
        Carrier::CallOutput => {
            let found = instruction(item.get("output"@))->0;
            lemma_user_message_members(seq![input_text(found)], item.get("id"@), key);
        },
    }
}

/// Law: wherever an item that is to be made a user message stands in a request, at the end of
/// any path on which no such item stands before it, the message that it becomes stands there
/// afterwards, and a change is told. Whatever else a path of this kind leads to stays: a value as it
/// is, an array with as many items, an object with the same keys in the same order.
pub proof fn law_rewriting_reaches_every_path(carrier: Carrier, value: JsonView, path: Seq<Step>)
    requires
        reached(value, path) is Some,
        forall|k: int|
            0 <= k < path.len() ==> !is_to_be_rewritten(
                carrier,
                (#[trigger] reached(value, path.take(k)))->0,
            ),
    ensures
        reached(rewritten(carrier, value), path) is Some,
        ({
            let item = reached(value, path)->0;
            let now = reached(rewritten(carrier, value), path)->0;
            if is_to_be_rewritten(carrier, item) {
                &&& promoted(carrier, item) == Some(now)
                &&& has_carrier(carrier, value)
            } else {
                match item {
                    JsonView::Array(items) => now is Array && now->Array_0.len() == items.len(),
                    JsonView::Object(members) => now is Object && now->Object_0.len()
                        == members.len() && forall|i: int|
                        0 <= i < members.len() ==> (#[trigger] now->Object_0[i]).0
                            == members[i].0,
                    _ => now == item,
                }
            }
        }),
    decreases path.len(),
{
    law_which_items_are_rewritten(carrier, value);
    if path.len() > 0 {
        assert(path.take(0) == Seq::<Step>::empty());
        assert(reached(value, path.take(0)) == Some(value));
        assert(promoted(carrier, value) is None);
        let step = path[0];
        let rest = path.drop_first();
        let part = part_at(value, step)->0;
        assert forall|k: int| 0 <= k < rest.len() implies !is_to_be_rewritten(
            carrier,
            (#[trigger] reached(part, rest.take(k)))->0,
        ) by {
            assert(path.take(k + 1).drop_first() == rest.take(k));
            assert(path.take(k + 1)[0] == step);
            assert(reached(value, path.take(k + 1)) == reached(part, rest.take(k)));
        }
        law_rewriting_reaches_every_path(carrier, part, rest);
        assert(part_at(rewritten(carrier, value), step) == Some(rewritten(carrier, part)));
        if has_carrier(carrier, part) {
            match step {
                Step::Item(i) => {
                    assert(has_carrier(carrier, value->Array_0[i]));
                },
                Step::Member(i) => {
                    assert(has_carrier(carrier, value->Object_0[i].1));
                },
            }
        }
    }
}

/// Law: a change is told only where some path leads to an item that is to be made a user message,
/// with no such item before it on the path.
pub proof fn law_a_change_has_a_cause(carrier: Carrier, value: JsonView) -> (path: Seq<Step>)
    requires
        has_carrier(carrier, value),
    ensures
        reached(value, path) is Some,
        is_to_be_rewritten(carrier, reached(value, path)->0),
        forall|k: int|
            0 <= k < path.len() ==> !is_to_be_rewritten(
                carrier,
                (#[trigger] reached(value, path.take(k)))->0,
            ),
    decreases value,
{
    law_which_items_are_rewritten(carrier, value);
    if promoted(carrier, value) is Some {
        Seq::empty()
    } else {
        let (step, part) = match value {
            JsonView::Array(items) => {
                let i = choose|i: int|
                    0 <= i < items.len() && has_carrier(carrier, #[trigger] items[i]);
                (Step::Item(i), items[i])
            },
            JsonView::Object(members) => {
                let i = choose|i: int|
                    0 <= i < members.len() && has_carrier(carrier, (#[trigger] members[i]).1);
                (Step::Member(i), members[i].1)
            },
            _ => (Step::Item(0), value),
        };
        let rest = law_a_change_has_a_cause(carrier, part);
        let path = seq![step] + rest;
        assert(path.drop_first() == rest);
        assert(part_at(value, step) == Some(part));
        assert forall|k: int| 0 <= k < path.len() implies !is_to_be_rewritten(
            carrier,
            (#[trigger] reached(value, path.take(k)))->0,
        ) by {
            if k == 0 {
                assert(path.take(0) == Seq::<Step>::empty());
            } else {
                assert(path.take(k).drop_first() == rest.take(k - 1));
                assert(path.take(k)[0] == step);
                assert(reached(value, path.take(k)) == reached(part, rest.take(k - 1)));
            }
        }
        path
    }
}

/// Law: the text of an output is the string that it is, or the one under `text` of the object that
/// it is, where that is not blank. An object without one and an array are written out, and
/// anything else, a blank string among it, has no text.
pub proof fn law_the_text_of_an_output(output: JsonView)
    ensures
        output_text(None) is None,
        match output {
            JsonView::String(text) => {
                &&& blank(text) ==> output_text(Some(output)) is None
                &&& !blank(text) ==> output_text(Some(output)) == Some(text)
            },
            JsonView::Object(_) => match output.get("text"@) {
                Some(JsonView::String(text)) => {
                    &&& blank(text) ==> output_text(Some(output)) == Some(json_text(output))
                    &&& !blank(text) ==> output_text(Some(output)) == Some(text)
                },
                _ => output_text(Some(output)) == Some(json_text(output)),
            },
            JsonView::Array(_) => output_text(Some(output)) == Some(json_text(output)),
            _ => output_text(Some(output)) is None,
        },
{
    match output {
        JsonView::String(text) => {
            law_blank_texts(text);
        },
        JsonView::Object(_) => {
            if let Some(JsonView::String(text)) = output.get("text"@) {
                law_blank_texts(text);
            }
        },
        _ => {},
    }
}

/// Law: both rewrites are made, that of the agent messages first.
pub proof fn law_both_rewrites_are_made(body: JsonView)
    ensures
        compatible(body) == rewritten(
            Carrier::CallOutput,
            rewritten(Carrier::AgentMessage, body),
        ),
{
}

} // verus!
