//! Synthetic Codex input items, made fit for providers other than OpenAI.
//!
//! Codex delivers the task of a subagent in an `agent_message` item, whose text may stand under
//! `encrypted_content`. The desktop application delivers thread delegations and heartbeat
//! wakeups as `function_call_output` items without a `call_id`. OpenAI takes both; a provider
//! that holds to the Responses format drops or refuses them. Both carry plain instruction text,
//! so each is made an ordinary user message before a request is passed on. The items are looked
//! for in the whole request body, since they may stand under later collaboration turns.

use vstd::prelude::*;

use crate::json::{
    distinct_keys, json_text, lemma_array_view, lemma_item_smaller, lemma_member_smaller,
    lemma_position, lemma_position_is, owned_view, position, push_member,
    ref_view, views, Json, JsonView,
};
use crate::text::{
    is_blank, same_text, starts_with, string_view, trim, trim_start, trimmed, trimmed_end, trimmed_start,
    whitespace,
};

verus! {

/// The two kinds of items that carry synthetic instructions.
#[derive(Clone, Copy)]
pub enum Carrier {
    /// An `agent_message` item.
    AgentMessage,
    /// A `function_call_output` item that answers no call.
    CallOutput,
}

/// The type that an item states, without the whitespace around it.
pub open spec fn type_of(value: JsonView) -> Option<Seq<char>> {
    match value.get_text("type"@) {
        Some(name) => Some(trimmed(name)),
        None => None,
    }
}

/// The content part that holds `text`.
pub open spec fn input_text(text: Seq<char>) -> JsonView {
    JsonView::Object(
        seq![
            ("type"@, JsonView::String("input_text"@)),
            ("text"@, JsonView::String(text)),
        ],
    )
}

/// The user message with the given content, and with the `id` of the item it stands for.
pub open spec fn user_message(content: Seq<JsonView>, id: Option<JsonView>) -> JsonView {
    let members = seq![
        ("type"@, JsonView::String("message"@)),
        ("role"@, JsonView::String("user"@)),
        ("content"@, JsonView::Array(content)),
    ];
    match id {
        Some(id) => JsonView::Object(members.push(("id"@, id))),
        None => JsonView::Object(members),
    }
}

/// The text of a content part. A part of type `encrypted_content` has it under that name first.
pub open spec fn part_text(part: JsonView) -> Option<Seq<char>> {
    if type_of(part) == Some("encrypted_content"@) && part.get("encrypted_content"@) is Some {
        part.get_text("encrypted_content"@)
    } else {
        part.get_text("text"@)
    }
}

/// What a content part becomes; nothing where it has no text.
pub open spec fn plain_part(part: JsonView) -> Option<JsonView> {
    match part_text(part) {
        Some(text) => if text.len() > 0 {
            Some(input_text(text))
        } else {
            None
        },
        None => None,
    }
}

/// The content of an agent message as parts that hold its text.
pub open spec fn plain_content(content: Option<JsonView>) -> Seq<JsonView> {
    match content {
        Some(JsonView::Array(parts)) => parts.filter_map(|part: JsonView| plain_part(part)),
        Some(JsonView::String(text)) => if text.len() > 0 {
            seq![input_text(text)]
        } else {
            Seq::empty()
        },
        _ => Seq::empty(),
    }
}

/// Whether `text` opens with one of the tags by which Codex marks an instruction.
pub open spec fn synthetic_instruction(text: Seq<char>) -> bool {
    let start = trimmed_start(text);
    ||| "<codex_delegation>"@.is_prefix_of(start)
    ||| "<heartbeat>"@.is_prefix_of(start)
    ||| "<automation>"@.is_prefix_of(start)
    ||| "<automation_update>"@.is_prefix_of(start)
}

/// The instruction that a call output holds: as a string, or as the `text` of an object.
pub open spec fn instruction(output: Option<JsonView>) -> Option<Seq<char>> {
    let text = match output {
        Some(JsonView::String(text)) => Some(text),
        Some(value) => value.get_text("text"@),
        None => None,
    };
    match text {
        Some(text) => if synthetic_instruction(text) {
            Some(text)
        } else {
            None
        },
        None => None,
    }
}

/// Whether an item answers a call: it states an identifier that is not empty.
pub open spec fn answers_call(item: JsonView) -> bool {
    match item.get_text("call_id"@) {
        Some(call_id) => call_id.len() > 0,
        None => false,
    }
}

/// The user message that an item becomes; nothing where it is not of the kind `carrier`.
pub open spec fn promoted(carrier: Carrier, item: JsonView) -> Option<JsonView> {
    match carrier {
        Carrier::AgentMessage => {
            let content = plain_content(item.get("content"@));
            if type_of(item) == Some("agent_message"@) && content.len() > 0 {
                Some(user_message(content, item.get("id"@)))
            } else {
                None
            }
        },
        Carrier::CallOutput => match instruction(item.get("output"@)) {
            Some(text) => if type_of(item) == Some("function_call_output"@) && !answers_call(item) {
                Some(user_message(seq![input_text(text)], item.get("id"@)))
            } else {
                None
            },
            None => None,
        },
    }
}

/// The document with each item of the kind `carrier` made a user message. What such an item
/// holds is not looked into further.
pub open spec fn rewritten(carrier: Carrier, value: JsonView) -> JsonView
    decreases value,
{
    match promoted(carrier, value) {
        Some(message) => message,
        None => match value {
            JsonView::Array(items) => JsonView::Array(
                Seq::new(
                    items.len(),
                    |i: int|
                        if 0 <= i < items.len() {
                            rewritten(carrier, items[i])
                        } else {
                            JsonView::Null
                        },
                ),
            ),
            JsonView::Object(members) => JsonView::Object(
                Seq::new(
                    members.len(),
                    |i: int|
                        if 0 <= i < members.len() {
                            (members[i].0, rewritten(carrier, members[i].1))
                        } else {
                            (Seq::empty(), JsonView::Null)
                        },
                ),
            ),
            _ => value,
        },
    }
}

/// Whether an item of the kind `carrier` stands anywhere in the document.
pub open spec fn has_carrier(carrier: Carrier, value: JsonView) -> bool
    decreases value,
{
    ||| promoted(carrier, value) is Some
    ||| match value {
        JsonView::Array(items) => exists|i: int|
            0 <= i < items.len() && has_carrier(carrier, #[trigger] items[i]),
        JsonView::Object(members) => exists|i: int|
            0 <= i < members.len() && has_carrier(carrier, (#[trigger] members[i]).1),
        _ => false,
    }
}

/// The request body made fit for a provider other than OpenAI.
pub open spec fn compatible(body: JsonView) -> JsonView {
    rewritten(Carrier::CallOutput, rewritten(Carrier::AgentMessage, body))
}

/// The type that an item states, without the whitespace around it.
fn json_type(value: &Json) -> (name: Option<String>)
    ensures
        string_view(name) == type_of(value@),
{
    match value.get_str("type") {
        Some(name) => Some(trim(name)),
        None => None,
    }
}

/// Whether an item states the type `name`.
fn has_type(value: &Json, name: &str) -> (yes: bool)
    ensures
        yes == (type_of(value@) == Some(name@)),
{
    match json_type(value) {
        Some(stated) => same_text(stated.as_str(), name),
        None => false,
    }
}

/// The content part that holds `text`.
pub fn input_text_part(text: &str) -> (part: Json)
    ensures
        part@ == input_text(text@),
{
    let mut members: Vec<(String, Json)> = Vec::new();
    push_member(&mut members, "type", Json::text("input_text"));
    push_member(&mut members, "text", Json::text(text));
    let part = Json::object(members);
    assert(part@->Object_0 == input_text(text@)->Object_0);
    part
}

/// What a content part becomes; nothing where it has no text.
pub fn part_to_input_text(part: &Json) -> (plain: Option<Json>)
    ensures
        owned_view(plain) == plain_part(part@),
{
    let text = if has_type(part, "encrypted_content") && part.get("encrypted_content").is_some() {
        part.get_str("encrypted_content")
    } else {
        part.get_str("text")
    };
    match text {
        Some(text) => {
            if text.is_empty() {
                None
            } else {
                Some(input_text_part(text))
            }
        },
        None => None,
    }
}

/// The content of an agent message as parts that hold its text.
pub fn flatten_agent_message_content(content: Option<&Json>) -> (parts: Vec<Json>)
    ensures
        views(parts@) == plain_content(ref_view(content)),
{
    let mut flat: Vec<Json> = Vec::new();
    match content {
        Some(Json::Array(parts)) => {
            proof {
                lemma_array_view(*parts);
            }
            let ghost all = views(parts@);
            let ghost plain = |part: JsonView| plain_part(part);
            let mut i: usize = 0;
            assert(all.take(0).filter_map(plain) == views(flat@));
            while i < parts.len()
                invariant
                    i <= parts@.len(),
                    all == views(parts@),
                    plain == (|part: JsonView| plain_part(part)),
                    views(flat@) == all.take(i as int).filter_map(plain),
                decreases parts@.len() - i,
            {
                let ghost before = views(flat@);
                proof {
                    all.lemma_filter_map_take_succ(plain, i as int);
                }
                match part_to_input_text(&parts[i]) {
                    Some(part) => {
                        flat.push(part);
                        assert(views(flat@) == before.push(part@));
                    },
                    None => {},
                }
                i = i + 1;
                assert(views(flat@) == all.take(i as int).filter_map(plain));
            }
            assert(all.take(all.len() as int) == all);
        },
        Some(Json::String(text)) => {
            if !text.as_str().is_empty() {
                flat.push(input_text_part(text.as_str()));
                assert(views(flat@) == seq![input_text(text@)]);
            }
        },
        _ => {},
    }
    flat
}

/// The user message with the given content, and with the `id` of the item it stands for.
fn message_of(content: Vec<Json>, id: Option<&Json>) -> (message: Json)
    ensures
        message@ == user_message(views(content@), ref_view(id)),
{
    let mut members: Vec<(String, Json)> = Vec::new();
    push_member(&mut members, "type", Json::text("message"));
    push_member(&mut members, "role", Json::text("user"));
    push_member(&mut members, "content", Json::array(content));
    if let Some(id) = id {
        push_member(&mut members, "id", id.clone());
    }
    let message = Json::object(members);
    assert(message@->Object_0 == user_message(views(content@), ref_view(id))->Object_0);
    message
}

/// The user message that an agent message becomes.
fn agent_message_promotion(item: &Json) -> (message: Option<Json>)
    ensures
        owned_view(message) == promoted(Carrier::AgentMessage, item@),
{
    if !has_type(item, "agent_message") {
        return None;
    }
    let content = flatten_agent_message_content(item.get("content"));
    if content.is_empty() {
        return None;
    }
    Some(message_of(content, item.get("id")))
}

/// Whether `text` opens with one of the tags by which Codex marks an instruction.
pub fn is_synthetic_instruction(text: &str) -> (yes: bool)
    ensures
        yes == synthetic_instruction(text@),
{
    let start = trim_start(text);
    starts_with(start.as_str(), "<codex_delegation>") || starts_with(start.as_str(), "<heartbeat>")
        || starts_with(start.as_str(), "<automation>") || starts_with(
        start.as_str(),
        "<automation_update>",
    )
}

/// The text of a call output: a string that is not blank, the `text` of an object where that is
/// not blank, and else the object or the array written out.
pub open spec fn output_text(output: Option<JsonView>) -> Option<Seq<char>> {
    match output {
        Some(JsonView::String(text)) => if trimmed(text).len() > 0 {
            Some(text)
        } else {
            None
        },
        Some(JsonView::Object(members)) => match JsonView::Object(members).get_text("text"@) {
            Some(text) => if trimmed(text).len() > 0 {
                Some(text)
            } else {
                Some(json_text(JsonView::Object(members)))
            },
            None => Some(json_text(JsonView::Object(members))),
        },
        Some(JsonView::Array(items)) => Some(json_text(JsonView::Array(items))),
        _ => None,
    }
}

/// An instruction starts with an angle bracket, whitespace aside.
proof fn lemma_synthetic_start(text: Seq<char>)
    requires
        synthetic_instruction(text),
    ensures
        trimmed_start(text).len() > 0,
        trimmed_start(text)[0] == '<',
        trimmed(text).len() > 0,
{
    reveal_strlit("<codex_delegation>");
    reveal_strlit("<heartbeat>");
    reveal_strlit("<automation>");
    reveal_strlit("<automation_update>");
    let start = trimmed_start(text);
    assert("<codex_delegation>"@[0] == '<');
    assert("<heartbeat>"@[0] == '<');
    assert("<automation>"@[0] == '<');
    assert("<automation_update>"@[0] == '<');
    lemma_trimmed_end_keeps(start);
}

/// Trimming the end keeps a text that starts with something other than whitespace.
proof fn lemma_trimmed_end_keeps(text: Seq<char>)
    requires
        text.len() > 0,
        !whitespace(text[0]),
    ensures
        trimmed_end(text).len() > 0,
    decreases text.len(),
{
    if whitespace(text.last()) {
        assert(text.len() > 1);
        assert(text.drop_last()[0] == text[0]);
        lemma_trimmed_end_keeps(text.drop_last());
    }
}

/// The text of a call output.
pub fn tool_output_text(output: Option<&Json>) -> (text: Option<String>)
    ensures
        string_view(text) == output_text(ref_view(output)),
        instruction(ref_view(output)) == if text is Some && synthetic_instruction(text->0@) {
            Some(text->0@)
        } else {
            None
        },
{
    let ghost shown = ref_view(output);
    let text = match output {
        Some(Json::String(text)) => {
            if is_blank(text.as_str()) {
                None
            } else {
                Some(text.clone())
            }
        },
        Some(Json::Object(members)) => {
            let value = output.unwrap();
            match value.get_str("text") {
                Some(inner) => {
                    if is_blank(inner) {
                        Some(value.to_text())
                    } else {
                        Some(inner.to_owned())
                    }
                },
                None => Some(value.to_text()),
            }
        },
        Some(Json::Array(items)) => Some(output.unwrap().to_text()),
        _ => None,
    };
    proof {
        if instruction(shown) is Some {
            lemma_synthetic_start(instruction(shown)->0);
        }
        if text is Some && synthetic_instruction(text->0@) {
            lemma_synthetic_start(text->0@);
        }
    }
    text
}

/// The user message that a call output becomes which answers no call and whose text is
/// `output`.
pub fn output_promotion(output: &str, id: Option<&Json>) -> (message: Option<Json>)
    ensures
        owned_view(message) == if synthetic_instruction(output@) {
            Some(user_message(seq![input_text(output@)], ref_view(id)))
        } else {
            None
        },
{
    if !is_synthetic_instruction(output) {
        return None;
    }
    let mut content: Vec<Json> = Vec::new();
    content.push(input_text_part(output));
    assert(views(content@) == seq![input_text(output@)]);
    Some(message_of(content, id))
}

/// The user message that a call output becomes.
fn call_output_promotion(item: &Json) -> (message: Option<Json>)
    ensures
        owned_view(message) == promoted(Carrier::CallOutput, item@),
{
    if !has_type(item, "function_call_output") {
        return None;
    }
    let has_call_id = match item.get_str("call_id") {
        Some(call_id) => !call_id.is_empty(),
        None => false,
    };
    if has_call_id {
        return None;
    }
    match tool_output_text(item.get("output")) {
        Some(output) => output_promotion(output.as_str(), item.get("id")),
        None => None,
    }
}

/// Makes an item of the kind `carrier` a user message.
fn rewrite_item(item: &mut Json, carrier: Carrier) -> (changed: bool)
    ensures
        changed == (promoted(carrier, old(item)@) is Some),
        changed ==> Some(final(item)@) == promoted(carrier, old(item)@),
        !changed ==> *final(item) == *old(item),
{
    let promotion = match carrier {
        Carrier::AgentMessage => agent_message_promotion(item),
        Carrier::CallOutput => call_output_promotion(item),
    };
    match promotion {
        Some(message) => {
            *item = message;
            true
        },
        None => false,
    }
}

/// Makes each item of the kind `carrier` in the document a user message.
fn rewrite_value(value: &mut Json, carrier: Carrier) -> (changed: bool)
    ensures
        final(value)@ == rewritten(carrier, old(value)@),
        changed == has_carrier(carrier, old(value)@),
    decreases *old(value),
{
    if rewrite_item(value, carrier) {
        return true;
    }
    let ghost before = *value;
    let mut taken = Json::Null;
    std::mem::swap(&mut taken, value);
    match taken {
        Json::Array(list) => {
            let mut items = list;
            let mut changed = false;
            let mut i: usize = 0;
            while i < items.len()
                invariant
                    i <= items@.len(),
                    before == Json::Array(list),
                    before == *old(value),
                    list@.len() == items@.len(),
                    forall|j: int|
                        0 <= j < i ==> (#[trigger] items@[j])@ == rewritten(carrier, list@[j]@),
                    forall|j: int| i <= j < items@.len() ==> #[trigger] items@[j] == list@[j],
                    changed == exists|j: int|
                        0 <= j < i && has_carrier(carrier, #[trigger] before@->Array_0[j]),
                decreases items@.len() - i,
            {
                proof {
                    lemma_item_smaller(list, i as int);
                }
                assert(before@->Array_0[i as int] == list@[i as int]@);
                if rewrite_value(&mut items[i], carrier) {
                    changed = true;
                }
                i = i + 1;
            }
            *value = Json::Array(items);
            assert(value@->Array_0 == rewritten(carrier, before@)->Array_0);
            changed
        },
        Json::Object(list) => {
            let mut members = list;
            let mut changed = false;
            let mut i: usize = 0;
            while i < members.len()
                invariant
                    i <= members@.len(),
                    before == Json::Object(list),
                    before == *old(value),
                    list@.len() == members@.len(),
                    forall|j: int|
                        0 <= j < i ==> (#[trigger] members@[j]).0 == list@[j].0 && members@[j].1@
                            == rewritten(carrier, list@[j].1@),
                    forall|j: int| i <= j < members@.len() ==> #[trigger] members@[j] == list@[j],
                    changed == exists|j: int|
                        0 <= j < i && has_carrier(carrier, (#[trigger] before@->Object_0[j]).1),
                decreases members@.len() - i,
            {
                proof {
                    lemma_member_smaller(list, i as int);
                }
                assert(before@->Object_0[i as int].1 == list@[i as int].1@);
                if rewrite_value(&mut members[i].1, carrier) {
                    changed = true;
                }
                i = i + 1;
            }
            *value = Json::Object(members);
            assert(value@->Object_0 == rewritten(carrier, before@)->Object_0);
            changed
        },
        other => {
            *value = other;
            false
        },
    }
}

/// Makes each `agent_message` item of a request body that holds text a user message, wherever it
/// stands. Says whether there was one.
pub fn rewrite_codex_agent_message_input_items(body: &mut Json) -> (changed: bool)
    ensures
        final(body)@ == rewritten(Carrier::AgentMessage, old(body)@),
        changed == has_carrier(Carrier::AgentMessage, old(body)@),
{
    rewrite_value(body, Carrier::AgentMessage)
}

/// Makes each `function_call_output` item of a request body that answers no call and holds a
/// synthetic instruction a user message, wherever it stands. Says whether there was one.
pub fn rewrite_standalone_function_call_outputs(body: &mut Json) -> (changed: bool)
    ensures
        final(body)@ == rewritten(Carrier::CallOutput, old(body)@),
        changed == has_carrier(Carrier::CallOutput, old(body)@),
{
    rewrite_value(body, Carrier::CallOutput)
}

/// Makes the synthetic items of a request body user messages. Says whether there was one; the
/// caller may then log it, with the provider it is about to ask.
pub fn apply_codex_third_party_request_compat(body: &mut Json, _provider_id: &str) -> (changed:
    bool)
    ensures
        final(body)@ == compatible(old(body)@),
        changed == (has_carrier(Carrier::AgentMessage, old(body)@) || has_carrier(
            Carrier::CallOutput,
            rewritten(Carrier::AgentMessage, old(body)@),
        )),
{
    let messages = rewrite_codex_agent_message_input_items(body);
    let outputs = rewrite_standalone_function_call_outputs(body);
    messages || outputs
}

/// A text with no whitespace at either end is its own trimmed form.
proof fn lemma_trimmed_same(text: Seq<char>)
    requires
        text.len() > 0,
        !whitespace(text[0]),
        !whitespace(text.last()),
    ensures
        trimmed(text) == text,
{
}

/// The names that items, parts and messages use differ from one another.
proof fn lemma_names()
    ensures
        "type"@ != "role"@,
        "type"@ != "content"@,
        "type"@ != "id"@,
        "role"@ != "content"@,
        "role"@ != "id"@,
        "content"@ != "id"@,
        "text"@ != "type"@,
        "text"@ != "role"@,
        "text"@ != "content"@,
        "text"@ != "id"@,
        trimmed("message"@) == "message"@,
        trimmed("input_text"@) == "input_text"@,
        "message"@ != "agent_message"@,
        "message"@ != "function_call_output"@,
        "message"@ != "encrypted_content"@,
        "input_text"@ != "agent_message"@,
        "input_text"@ != "function_call_output"@,
{
    reveal_strlit("type");
    reveal_strlit("role");
    reveal_strlit("content");
    reveal_strlit("id");
    reveal_strlit("text");
    reveal_strlit("message");
    reveal_strlit("input_text");
    reveal_strlit("agent_message");
    reveal_strlit("function_call_output");
    reveal_strlit("encrypted_content");
    assert("content"@.len() == 7 && "id"@.len() == 2);
    assert("type"@[1] == 'y');
    assert("role"@[0] == 'r');
    assert("text"@[1] == 'e');
    assert("text"@[0] == 't');
    assert("message"@[0] == 'm');
    assert("message"@.last() == 'e');
    assert("input_text"@[0] == 'i');
    assert("input_text"@.last() == 't');
    lemma_trimmed_same("message"@);
    lemma_trimmed_same("input_text"@);
}

/// What a user message holds under each key.
pub proof fn lemma_user_message_members(content: Seq<JsonView>, id: Option<JsonView>, key: Seq<char>)
    ensures
        user_message(content, id).get("type"@) == Some(JsonView::String("message"@)),
        user_message(content, id).get("role"@) == Some(JsonView::String("user"@)),
        user_message(content, id).get("content"@) == Some(JsonView::Array(content)),
        user_message(content, id).get("id"@) == id,
        key != "type"@ && key != "role"@ && key != "content"@ && key != "id"@ ==> user_message(
            content,
            id,
        ).get(key) is None,
        distinct_keys(user_message(content, id)->Object_0),
        type_of(user_message(content, id)) == Some("message"@),
{
    lemma_names();
    let members = user_message(content, id)->Object_0;
    lemma_position_is(members, "type"@, 0);
    lemma_position_is(members, "role"@, 1);
    lemma_position_is(members, "content"@, 2);
    lemma_position_is(members, "id"@, 3);
    if key != "type"@ && key != "role"@ && key != "content"@ && key != "id"@ {
        lemma_position_is(members, key, members.len() as int);
    }
}

/// Only objects state a type.
proof fn lemma_promoted_is_object(carrier: Carrier, value: JsonView)
    requires
        promoted(carrier, value) is Some,
    ensures
        value is Object,
{
}

/// A part that holds plain text is no carrier and holds none.
proof fn lemma_input_text_quiet(carrier: Carrier, text: Seq<char>)
    ensures
        !has_carrier(carrier, input_text(text)),
        input_text(text).well_formed(),
{
    lemma_names();
    let part = input_text(text);
    lemma_position_is(part->Object_0, "type"@, 0);
    assert(type_of(part) == Some("input_text"@));
    assert forall|i: int| 0 <= i < part->Object_0.len() implies !has_carrier(
        carrier,
        (#[trigger] part->Object_0[i]).1,
    ) by {
        assert(part->Object_0[i].1 is String);
    }
    assert forall|i: int| 0 <= i < part->Object_0.len() implies (
    #[trigger] part->Object_0[i]).1.well_formed() by {
        assert(part->Object_0[i].1 is String);
    }
    assert(distinct_keys(part->Object_0));
}

/// `filter_map` gives what the function gives for some item.
proof fn lemma_filter_map_source(parts: Seq<JsonView>, i: int)
    requires
        0 <= i < parts.filter_map(|part: JsonView| plain_part(part)).len(),
    ensures
        exists|j: int|
            0 <= j < parts.len() && plain_part(#[trigger] parts[j]) == Some(
                parts.filter_map(|part: JsonView| plain_part(part))[i],
            ),
    decreases parts.len(),
{
    let plain = |part: JsonView| plain_part(part);
    let all = parts.filter_map(plain);
    assert(all.contains(all[i]));
    parts.lemma_filter_map_contains(plain, all[i]);
    let source = choose|source: JsonView| #[trigger]
        parts.contains(source) && plain(source) == Some(all[i]);
    let j = choose|j: int| 0 <= j < parts.len() && parts[j] == source;
    assert(plain_part(parts[j]) == Some(all[i]));
}

/// An item with text gives `filter_map` something to give.
proof fn lemma_filter_map_target(parts: Seq<JsonView>, j: int)
    requires
        0 <= j < parts.len(),
        plain_part(parts[j]) is Some,
    ensures
        parts.filter_map(|part: JsonView| plain_part(part)).len() > 0,
    decreases parts.len(),
{
    let plain = |part: JsonView| plain_part(part);
    if j < parts.len() - 1 {
        lemma_filter_map_target(parts.drop_last(), j);
    }
    assert(parts.filter_map(plain) == if plain(parts.last()) is Some {
        parts.drop_last().filter_map(plain).push(plain(parts.last())->0)
    } else {
        parts.drop_last().filter_map(plain)
    });
}

/// Law: a document without a carrier is left as it is.
pub proof fn law_rewrite_leaves_the_rest(carrier: Carrier, value: JsonView)
    requires
        !has_carrier(carrier, value),
    ensures
        rewritten(carrier, value) == value,
    decreases value,
{
    match value {
        JsonView::Array(items) => {
            assert forall|i: int| 0 <= i < items.len() implies rewritten(
                carrier,
                #[trigger] items[i],
            ) == items[i] by {
                law_rewrite_leaves_the_rest(carrier, items[i]);
            }
            assert(rewritten(carrier, value)->Array_0 == items);
        },
        JsonView::Object(members) => {
            assert forall|i: int| 0 <= i < members.len() implies rewritten(
                carrier,
                (#[trigger] members[i]).1,
            ) == members[i].1 by {
                law_rewrite_leaves_the_rest(carrier, members[i].1);
            }
            assert(rewritten(carrier, value)->Object_0 == members);
        },
        _ => {},
    }
}

/// Whether a content part holds plain text, and some.
pub open spec fn is_plain(part: JsonView) -> bool {
    exists|text: Seq<char>| text.len() > 0 && part == #[trigger] input_text(text)
}

/// Law: a carrier becomes a user message that keeps its `id`, has content, each part of it plain
/// text, and holds nothing else.
pub proof fn law_promotion_is_user_message(carrier: Carrier, item: JsonView, key: Seq<char>)
    requires
        promoted(carrier, item) is Some,
    ensures
        promoted(carrier, item)->0.get_text("type"@) == Some("message"@),
        promoted(carrier, item)->0.get_text("role"@) == Some("user"@),
        promoted(carrier, item)->0.get("id"@) == item.get("id"@),
        promoted(carrier, item)->0.get_items("content"@) is Some,
        promoted(carrier, item)->0.get_items("content"@)->0.len() > 0,
        forall|i: int|
            0 <= i < promoted(carrier, item)->0.get_items("content"@)->0.len() ==> is_plain(
                #[trigger] promoted(carrier, item)->0.get_items("content"@)->0[i],
            ),
        key != "type"@ && key != "role"@ && key != "content"@ && key != "id"@ ==> promoted(
            carrier,
            item,
        )->0.get(key) is None,
{
    let content = promoted(carrier, item)->0.get_items("content"@)->0;
    match carrier {
        Carrier::AgentMessage => {
            let parts = plain_content(item.get("content"@));
            lemma_user_message_members(parts, item.get("id"@), key);
            assert forall|i: int| 0 <= i < content.len() implies is_plain(
                #[trigger] content[i],
            ) by {
                lemma_plain_content_parts(item.get("content"@), i);
            }
        },
        Carrier::CallOutput => {
            let text = instruction(item.get("output"@))->0;
            lemma_user_message_members(seq![input_text(text)], item.get("id"@), key);
            lemma_synthetic_start(text);
            assert(text.len() > 0);
            assert(content[0] == input_text(text));
        },
    }
}

/// The content of an agent message becomes parts that hold plain text.
proof fn lemma_plain_content_parts(content: Option<JsonView>, i: int)
    requires
        0 <= i < plain_content(content).len(),
    ensures
        is_plain(plain_content(content)[i]),
{
    match content {
        Some(JsonView::Array(parts)) => {
            lemma_filter_map_source(parts, i);
            let j = choose|j: int|
                0 <= j < parts.len() && plain_part(#[trigger] parts[j]) == Some(
                    parts.filter_map(|part: JsonView| plain_part(part))[i],
                );
            let text = part_text(parts[j])->0;
            assert(plain_content(content)[i] == input_text(text));
        },
        Some(JsonView::String(text)) => {
            assert(plain_content(content)[i] == input_text(text));
        },
        _ => {},
    }
}

/// Law: an output that answers a call is no carrier.
pub proof fn law_answers_are_kept(item: JsonView)
    requires
        answers_call(item),
    ensures
        promoted(Carrier::CallOutput, item) is None,
{
}

/// Whether no carrier that is made a message has, in its `id`, a carrier of the same kind. An
/// `id` is copied as it stands.
pub open spec fn plain_ids(carrier: Carrier, value: JsonView) -> bool
    decreases value,
{
    match promoted(carrier, value) {
        Some(message) => match value.get("id"@) {
            Some(id) => !has_carrier(carrier, id),
            None => true,
        },
        None => match value {
            JsonView::Array(items) => forall|i: int|
                0 <= i < items.len() ==> plain_ids(carrier, #[trigger] items[i]),
            JsonView::Object(members) => forall|i: int|
                0 <= i < members.len() ==> plain_ids(carrier, (#[trigger] members[i]).1),
            _ => true,
        },
    }
}

/// Rewriting keeps strings, and makes nothing else a string.
proof fn lemma_rewritten_text(carrier: Carrier, value: JsonView)
    ensures
        rewritten(carrier, value).as_text() == value.as_text(),
        value is Array ==> rewritten(carrier, value) is Array,
{
}

/// Rewriting what an object holds keeps its keys, and rewrites what stands under each.
proof fn lemma_rewritten_get(carrier: Carrier, value: JsonView, key: Seq<char>)
    requires
        promoted(carrier, value) is None,
    ensures
        rewritten(carrier, value).get(key) == match value.get(key) {
            Some(inner) => Some(rewritten(carrier, inner)),
            None => None,
        },
        rewritten(carrier, value).get_text(key) == value.get_text(key),
{
    match value {
        JsonView::Object(members) => {
            let changed = rewritten(carrier, value)->Object_0;
            lemma_position(members, key);
            lemma_position_is(changed, key, position(members, key));
            if position(members, key) < members.len() {
                lemma_rewritten_text(carrier, members[position(members, key)].1);
            }
        },
        _ => {},
    }
}

/// Rewriting takes no text out of a part but that of a carrier, and puts none in.
proof fn lemma_rewritten_part(carrier: Carrier, part: JsonView)
    requires
        plain_part(rewritten(carrier, part)) is Some,
    ensures
        plain_part(part) is Some,
{
    match promoted(carrier, part) {
        Some(message) => {
            let (content, id) = choose|content: Seq<JsonView>, id: Option<JsonView>|
                message == #[trigger] user_message(content, id);
            lemma_names();
            lemma_user_message_members(content, id, "text"@);
            assert(message.get_text("text"@) is None);
        },
        None => {
            lemma_rewritten_get(carrier, part, "type"@);
            lemma_rewritten_get(carrier, part, "encrypted_content"@);
            lemma_rewritten_get(carrier, part, "text"@);
        },
    }
}

/// Rewriting what an item holds makes no carrier of it.
proof fn lemma_rewritten_promotion(carrier: Carrier, other: Carrier, value: JsonView)
    requires
        promoted(other, value) is None,
        promoted(carrier, rewritten(other, value)) is Some,
    ensures
        promoted(carrier, value) is Some,
{
    let changed = rewritten(other, value);
    lemma_rewritten_get(other, value, "type"@);
    match carrier {
        Carrier::AgentMessage => {
            lemma_rewritten_get(other, value, "content"@);
            match changed.get("content"@) {
                Some(JsonView::Array(parts)) => {
                    let content = value.get("content"@)->0;
                    lemma_rewritten_text(other, content);
                    assert(content is Array) by {
                        if promoted(other, content) is Some {
                            lemma_promoted_is_object(other, content);
                        }
                    }
                    let before = content->Array_0;
                    lemma_filter_map_source(parts, 0);
                    let j = choose|j: int|
                        0 <= j < parts.len() && plain_part(#[trigger] parts[j]) == Some(
                            parts.filter_map(|part: JsonView| plain_part(part))[0],
                        );
                    assert(parts[j] == rewritten(other, before[j]));
                    lemma_rewritten_part(other, before[j]);
                    lemma_filter_map_target(before, j);
                },
                Some(JsonView::String(text)) => {
                    lemma_rewritten_text(other, value.get("content"@)->0);
                },
                _ => {},
            }
        },
        Carrier::CallOutput => {
            lemma_rewritten_get(other, value, "output"@);
            lemma_rewritten_get(other, value, "call_id"@);
            let output = value.get("output"@)->0;
            lemma_rewritten_text(other, output);
            if !(output is String) {
                match promoted(other, output) {
                    Some(message) => {
                        let (content, id) = choose|content: Seq<JsonView>, id: Option<JsonView>|
                            message == #[trigger] user_message(content, id);
                        lemma_names();
                        lemma_user_message_members(content, id, "text"@);
                        assert(message.get_text("text"@) is None);
                    },
                    None => {
                        lemma_rewritten_get(other, output, "text"@);
                    },
                }
            }
        },
    }
}

/// A user message of plain parts, with an `id` free of carriers, is free of carriers.
proof fn lemma_user_message_quiet(
    carrier: Carrier,
    content: Seq<JsonView>,
    id: Option<JsonView>,
)
    requires
        forall|i: int| 0 <= i < content.len() ==> is_plain(#[trigger] content[i]),
        id is Some ==> !has_carrier(carrier, id->0),
    ensures
        !has_carrier(carrier, user_message(content, id)),
{
    let message = user_message(content, id);
    lemma_names();
    lemma_user_message_members(content, id, "type"@);
    assert(promoted(carrier, message) is None);
    let array = JsonView::Array(content);
    assert(!has_carrier(carrier, array)) by {
        assert forall|i: int| 0 <= i < content.len() implies !has_carrier(
            carrier,
            #[trigger] content[i],
        ) by {
            let text = choose|text: Seq<char>| content[i] == #[trigger] input_text(text);
            lemma_input_text_quiet(carrier, text);
        }
    }
    let members = message->Object_0;
    assert forall|i: int| 0 <= i < members.len() implies !has_carrier(
        carrier,
        (#[trigger] members[i]).1,
    ) by {
        assert(i < 2 ==> members[i].1 is String);
        assert(i == 2 ==> members[i].1 == array);
    }
}

/// What becomes of a carrier is free of carriers, its `id` aside.
proof fn lemma_promotion_quiet(carrier: Carrier, other: Carrier, item: JsonView)
    requires
        promoted(other, item) is Some,
        item.get("id"@) is Some ==> !has_carrier(carrier, item.get("id"@)->0),
    ensures
        !has_carrier(carrier, promoted(other, item)->0),
{
    match other {
        Carrier::AgentMessage => {
            let content = plain_content(item.get("content"@));
            assert forall|i: int| 0 <= i < content.len() implies is_plain(
                #[trigger] content[i],
            ) by {
                lemma_plain_content_parts(item.get("content"@), i);
            }
            lemma_user_message_quiet(carrier, content, item.get("id"@));
        },
        Carrier::CallOutput => {
            let text = instruction(item.get("output"@))->0;
            let content = seq![input_text(text)];
            lemma_synthetic_start(text);
            assert(content[0] == input_text(text));
            lemma_user_message_quiet(carrier, content, item.get("id"@));
        },
    }
}

/// Rewriting leaves no carrier of its own kind, and brings in none of the other.
proof fn lemma_rewritten_quiet(carrier: Carrier, other: Carrier, value: JsonView)
    requires
        carrier == other && plain_ids(carrier, value) || !has_carrier(carrier, value),
    ensures
        !has_carrier(carrier, rewritten(other, value)),
    decreases value,
{
    if promoted(other, value) is Some {
        if !has_carrier(carrier, value) && value.get("id"@) is Some {
            let members = value->Object_0;
            lemma_position(members, "id"@);
            assert(!has_carrier(carrier, members[position(members, "id"@)].1));
        }
        lemma_promotion_quiet(carrier, other, value);
    } else {
        let changed = rewritten(other, value);
        if promoted(carrier, changed) is Some {
            lemma_rewritten_promotion(carrier, other, value);
        }
        match value {
            JsonView::Array(items) => {
                assert forall|i: int| 0 <= i < items.len() implies !has_carrier(
                    carrier,
                    #[trigger] changed->Array_0[i],
                ) by {
                    assert(items[i] == items[i]);
                    lemma_rewritten_quiet(carrier, other, items[i]);
                }
            },
            JsonView::Object(members) => {
                assert forall|i: int| 0 <= i < members.len() implies !has_carrier(
                    carrier,
                    (#[trigger] changed->Object_0[i]).1,
                ) by {
                    assert(members[i] == members[i]);
                    lemma_rewritten_quiet(carrier, other, members[i].1);
                }
            },
            _ => {},
        }
    }
}

/// Law: after a rewrite no carrier of its kind is left, so that a second one finds nothing to
/// do. Held out are documents in which the `id` of a carrier holds a carrier itself.
pub proof fn law_rewrite_is_idempotent(carrier: Carrier, value: JsonView)
    requires
        plain_ids(carrier, value),
    ensures
        !has_carrier(carrier, rewritten(carrier, value)),
        rewritten(carrier, rewritten(carrier, value)) == rewritten(carrier, value),
{
    lemma_rewritten_quiet(carrier, carrier, value);
    law_rewrite_leaves_the_rest(carrier, rewritten(carrier, value));
}

/// Law: a rewrite brings in no carrier of the other kind.
pub proof fn law_rewrites_do_not_interfere(carrier: Carrier, other: Carrier, value: JsonView)
    requires
        !has_carrier(carrier, value),
    ensures
        !has_carrier(carrier, rewritten(other, value)),
{
    lemma_rewritten_quiet(carrier, other, value);
}

/// Law: a request body made compatible holds no carrier of either kind, and making it compatible
/// once more changes nothing. Held out are bodies in which the `id` of a carrier holds a carrier
/// itself.
pub proof fn law_compatible_is_idempotent(body: JsonView)
    requires
        plain_ids(Carrier::AgentMessage, body),
        plain_ids(Carrier::CallOutput, rewritten(Carrier::AgentMessage, body)),
    ensures
        !has_carrier(Carrier::AgentMessage, compatible(body)),
        !has_carrier(Carrier::CallOutput, compatible(body)),
        compatible(compatible(body)) == compatible(body),
{
    let messages = rewritten(Carrier::AgentMessage, body);
    law_rewrite_is_idempotent(Carrier::AgentMessage, body);
    law_rewrite_is_idempotent(Carrier::CallOutput, messages);
    law_rewrites_do_not_interfere(Carrier::AgentMessage, Carrier::CallOutput, messages);
    law_rewrite_leaves_the_rest(Carrier::AgentMessage, compatible(body));
    law_rewrite_leaves_the_rest(Carrier::CallOutput, compatible(body));
}

/// Law: rewriting keeps the keys of every object distinct.
pub proof fn law_rewrite_keeps_well_formed(carrier: Carrier, value: JsonView)
    requires
        value.well_formed(),
    ensures
        rewritten(carrier, value).well_formed(),
    decreases value,
{
    if promoted(carrier, value) is Some {
        let message = rewritten(carrier, value);
        let (content, id) = match carrier {
            Carrier::AgentMessage => (plain_content(value.get("content"@)), value.get("id"@)),
            Carrier::CallOutput => (
                seq![input_text(instruction(value.get("output"@))->0)],
                value.get("id"@),
            ),
        };
        assert(message == user_message(content, id));
        lemma_user_message_members(content, id, "type"@);
        let array = JsonView::Array(content);
        assert(array.well_formed()) by {
            assert forall|i: int| 0 <= i < content.len() implies (
            #[trigger] content[i]).well_formed() by {
                if carrier is AgentMessage {
                    lemma_plain_content_parts(value.get("content"@), i);
                }
                let text = choose|text: Seq<char>| content[i] == #[trigger] input_text(text);
                lemma_input_text_quiet(carrier, text);
            }
        }
        if id is Some {
            lemma_position(value->Object_0, "id"@);
            assert(value->Object_0[position(value->Object_0, "id"@)].1.well_formed());
        }
        let members = message->Object_0;
        assert forall|i: int| 0 <= i < members.len() implies (
        #[trigger] members[i]).1.well_formed() by {
            assert(i < 2 ==> members[i].1 is String);
            assert(i == 2 ==> members[i].1 == array);
        }
    } else {
        let changed = rewritten(carrier, value);
        match value {
            JsonView::Array(items) => {
                assert forall|i: int| 0 <= i < items.len() implies (
                #[trigger] changed->Array_0[i]).well_formed() by {
                    assert(items[i].well_formed());
                    law_rewrite_keeps_well_formed(carrier, items[i]);
                }
            },
            JsonView::Object(members) => {
                assert forall|i: int| 0 <= i < members.len() implies (
                #[trigger] changed->Object_0[i]).1.well_formed() by {
                    assert(members[i].1.well_formed());
                    law_rewrite_keeps_well_formed(carrier, members[i].1);
                }
                assert(distinct_keys(changed->Object_0)) by {
                    assert forall|i: int, j: int| 0 <= i < j < members.len() implies (
                    #[trigger] changed->Object_0[i]).0 != (#[trigger] changed->Object_0[j]).0 by {
                        assert(members[i].0 != members[j].0);
                    }
                }
            },
            _ => {},
        }
    }
}

} // verus!
