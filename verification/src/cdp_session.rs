//! Request and response with a page, over the Chrome DevTools Protocol (CDP).
//!
//! A session sends one command at a time and waits for the response to it. What else comes
//! meanwhile is kept in the inbox if it responds to another command, and passed over if not.

use std::collections::HashMap;
use vstd::prelude::*;
use vstd::string::StringExecFns;

use crate::json::{
    json_text, parse_view, parsed_json, push_member, record, views, Json, JsonNumber, JsonView,
};
use crate::text::{join, joined, texts};

verus! {

/// A command of the protocol.
pub open spec fn command(id: u64, method: Seq<char>, params: JsonView) -> JsonView {
    JsonView::Object(
        seq![
            ("id"@, JsonView::Number(JsonNumber::Unsigned(id))),
            ("method"@, JsonView::String(method)),
            ("params"@, params),
        ],
    )
}

/// The text of a command.
pub fn cdp_command_text(id: u64, method: &str, params: Json) -> (text: String)
    ensures
        text@ == json_text(command(id, method@, params@)),
{
    let mut members: Vec<(String, Json)> = Vec::new();
    push_member(&mut members, "id", Json::Number(JsonNumber::Unsigned(id)));
    push_member(&mut members, "method", Json::text(method));
    push_member(&mut members, "params", params);
    let value = Json::object(members);
    assert(value@->Object_0 == command(id, method@, params@)->Object_0);
    value.to_text()
}

/// What comes of the response to a command.
pub open spec fn command_result(response: JsonView, method: Seq<char>) -> Result<
    JsonView,
    Seq<char>,
> {
    match response.get("error"@) {
        Some(error) => Err("CDP command "@ + method + " failed: "@ + json_text(error)),
        None => Ok(response),
    }
}

/// What comes of the response to a command.
pub fn cdp_command_result(response: Json, method: &str) -> (result: Result<Json, String>)
    ensures
        parse_view(result) == command_result(response@, method@),
{
    let failure = match response.get("error") {
        Some(error) => Some(
            "CDP command ".to_owned().concat(method).concat(" failed: ").concat(
                error.to_text().as_str(),
            ),
        ),
        None => None,
    };
    match failure {
        Some(failure) => Err(failure),
        None => Ok(response),
    }
}

/// What is next heard on the socket.
#[derive(Debug)]
pub enum Heard {
    /// The socket is closed.
    Closed,
    /// Reading failed, for this reason.
    Failed(String),
    /// A message that is no text.
    Other,
    Text(String),
}

/// Responses that came before they were asked for, by the number of their command.
#[derive(Debug)]
pub struct CdpInbox {
    pub responses: HashMap<u64, Json>,
}

impl View for CdpInbox {
    type V = Map<u64, JsonView>;

    open spec fn view(&self) -> Map<u64, JsonView> {
        self.responses@.map_values(|response: Json| response@)
    }
}

/// The number of the command that a message responds to.
pub open spec fn response_id(message: JsonView) -> Option<u64> {
    match message.get("id"@) {
        Some(id) => id.as_unsigned(),
        None => None,
    }
}

/// The view of what ends a wait, where it ends.
pub open spec fn reply_view(reply: Option<Result<Json, String>>) -> Option<
    Result<JsonView, Seq<char>>,
> {
    match reply {
        Some(reply) => Some(parse_view(reply)),
        None => None,
    }
}

/// What ends the wait for the response to the command `id` at once: a response that came before.
pub open spec fn at_hand(inbox: Map<u64, JsonView>, id: u64, method: Seq<char>) -> Option<
    Result<JsonView, Seq<char>>,
> {
    if inbox.dom().contains(id) {
        Some(command_result(inbox[id], method))
    } else {
        None
    }
}

/// What a message ends the wait for the response to the command `id` with, if it ends it.
pub open spec fn reply(message: JsonView, id: u64, method: Seq<char>) -> Option<
    Result<JsonView, Seq<char>>,
> {
    if response_id(message) == Some(id) {
        Some(command_result(message, method))
    } else {
        None
    }
}

/// The responses that are kept when a message comes while the response to the command `id` is
/// awaited: that to another command is.
pub open spec fn kept(inbox: Map<u64, JsonView>, message: JsonView, id: u64) -> Map<u64, JsonView> {
    match response_id(message) {
        Some(other) => if other == id {
            inbox
        } else {
            inbox.insert(other, message)
        },
        None => inbox,
    }
}

/// What is heard ends the wait for the response to the command `id` with, if it ends it.
pub open spec fn heard_reply(heard: Heard, id: u64, method: Seq<char>) -> Option<
    Result<JsonView, Seq<char>>,
> {
    match heard {
        Heard::Closed => Some(Err("CDP WebSocket closed before "@ + method + " response"@)),
        Heard::Failed(error) => Some(Err("failed to read CDP message: "@ + error@)),
        Heard::Other => None,
        Heard::Text(text) => match parsed_json(text@) {
            Ok(message) => reply(message, id, method),
            Err(error) => Some(Err("failed to parse CDP message: "@ + error)),
        },
    }
}

/// The responses that are kept when something is heard while the response to the command `id` is
/// awaited.
pub open spec fn heard_kept(inbox: Map<u64, JsonView>, heard: Heard, id: u64) -> Map<
    u64,
    JsonView,
> {
    match heard {
        Heard::Text(text) => match parsed_json(text@) {
            Ok(message) => kept(inbox, message, id),
            Err(_) => inbox,
        },
        _ => inbox,
    }
}

impl CdpInbox {
    /// An inbox without responses.
    pub fn new() -> (inbox: CdpInbox)
        ensures
            inbox@ == Map::<u64, JsonView>::empty(),
    {
        let inbox = CdpInbox { responses: HashMap::new() };
        assert(inbox@ == Map::<u64, JsonView>::empty());
        inbox
    }

    /// Takes what comes of the response to the command `id`, if it came before.
    pub fn take(&mut self, id: u64, method: &str) -> (result: Option<Result<Json, String>>)
        ensures
            reply_view(result) == at_hand(old(self)@, id, method@),
            final(self)@ == old(self)@.remove(id),
    {
        let response = self.responses.remove(&id);
        assert(self@ == old(self)@.remove(id));
        match response {
            Some(response) => Some(cdp_command_result(response, method)),
            None => None,
        }
    }

    /// Takes in a message while the response to the command `id` is awaited.
    pub fn receive(&mut self, id: u64, method: &str, message: Json) -> (result: Option<
        Result<Json, String>,
    >)
        ensures
            reply_view(result) == reply(message@, id, method@),
            final(self)@ == kept(old(self)@, message@, id),
    {
        let number = match message.get("id") {
            Some(number) => number.as_u64(),
            None => None,
        };
        match number {
            Some(other) => if other == id {
                Some(cdp_command_result(message, method))
            } else {
                self.responses.insert(other, message);
                assert(self@ == old(self)@.insert(other, message@));
                None
            },
            None => None,
        }
    }

    /// Takes in what is heard while the response to the command `id` is awaited: the wait ends
    /// with the response or with an error, or it goes on.
    pub fn hear(&mut self, id: u64, method: &str, heard: Heard) -> (result: Option<
        Result<Json, String>,
    >)
        ensures
            reply_view(result) == heard_reply(heard, id, method@),
            final(self)@ == heard_kept(old(self)@, heard, id),
    {
        match heard {
            Heard::Closed => Some(
                Err("CDP WebSocket closed before ".to_owned().concat(method).concat(" response")),
            ),
            Heard::Failed(error) => Some(
                Err("failed to read CDP message: ".to_owned().concat(error.as_str())),
            ),
            Heard::Other => None,
            Heard::Text(text) => match Json::parse(text.as_str()) {
                Ok(message) => self.receive(id, method, message),
                Err(error) => Some(
                    Err("failed to parse CDP message: ".to_owned().concat(error.as_str())),
                ),
            },
        }
    }
}

/// Law: a response that comes before it is asked for is not lost. Messages that respond to other
/// commands, and the waits for those, leave it where it is, and the wait for it ends with it.
pub proof fn law_early_response_is_kept(
    inbox: Map<u64, JsonView>,
    early: JsonView,
    early_id: u64,
    early_method: Seq<char>,
    message: JsonView,
    id: u64,
    method: Seq<char>,
)
    requires
        response_id(early) == Some(early_id),
        id != early_id,
        response_id(message) != Some(early_id),
    ensures
        reply(early, id, method) is None,
        at_hand(kept(inbox, early, id), early_id, early_method) == Some(
            command_result(early, early_method),
        ),
        at_hand(kept(kept(inbox, early, id), message, id), early_id, early_method) == Some(
            command_result(early, early_method),
        ),
        at_hand(kept(inbox, early, id).remove(id), early_id, early_method) == Some(
            command_result(early, early_method),
        ),
{
}

/// Law: a wait is ended by the response to its own command and by no other message, and that
/// response is never put aside.
pub proof fn law_wait_ends_with_its_own_response(
    inbox: Map<u64, JsonView>,
    message: JsonView,
    id: u64,
    method: Seq<char>,
)
    ensures
        reply(message, id, method) is Some <==> response_id(message) == Some(id),
        at_hand(kept(inbox, message, id), id, method) == at_hand(inbox, id, method),
{
}

/// A command that is sent to a page.
#[derive(Debug)]
pub struct CdpCommand {
    pub id: u64,
    pub method: &'static str,
    pub params: Json,
}

/// What a [`CdpCommand`] stands for.
#[verifier::ext_equal]
pub struct CommandView {
    pub id: u64,
    pub method: Seq<char>,
    pub params: JsonView,
}

impl View for CdpCommand {
    type V = CommandView;

    open spec fn view(&self) -> CommandView {
        CommandView { id: self.id, method: self.method@, params: self.params@ }
    }
}

impl CdpCommand {
    /// The text of the command.
    pub fn to_text(&self) -> (text: String)
        ensures
            text@ == json_text(command(self@.id, self@.method, self@.params)),
    {
        cdp_command_text(self.id, self.method, self.params.clone())
    }
}

/// The commands that run `source` in a page, and in every document that it will load.
pub open spec fn install_commands(source: Seq<char>) -> Seq<CommandView> {
    seq![
        CommandView {
            id: 1,
            method: "Runtime.enable"@,
            params: JsonView::Object(Seq::empty()),
        },
        CommandView { id: 2, method: "Page.enable"@, params: JsonView::Object(Seq::empty()) },
        CommandView {
            id: 3,
            method: "Page.addScriptToEvaluateOnNewDocument"@,
            params: record("source"@, source),
        },
        CommandView {
            id: 4,
            method: "Runtime.evaluate"@,
            params: JsonView::Object(
                seq![
                    ("expression"@, JsonView::String(source)),
                    ("returnByValue"@, JsonView::Bool(true)),
                    ("awaitPromise"@, JsonView::Bool(true)),
                    ("timeout"@, JsonView::Number(JsonNumber::Unsigned(8000))),
                    ("allowUnsafeEvalBlockedByCSP"@, JsonView::Bool(true)),
                ],
            ),
        },
    ]
}

/// Law: the commands that run a script have different numbers, so that no response is taken for
/// that to another.
pub proof fn law_commands_are_told_apart(source: Seq<char>, i: int, j: int)
    requires
        0 <= i < install_commands(source).len(),
        0 <= j < install_commands(source).len(),
    ensures
        install_commands(source)[i].id == install_commands(source)[j].id <==> i == j,
{
}

/// What is done to run a script in a page.
#[derive(Debug)]
pub enum InstallStep {
    Send(CdpCommand),
    Done(Result<Json, String>),
}

/// What an [`InstallStep`] stands for.
pub enum InstallStepView {
    Send(CommandView),
    Done(Result<JsonView, Seq<char>>),
}

impl View for InstallStep {
    type V = InstallStepView;

    open spec fn view(&self) -> InstallStepView {
        match self {
            InstallStep::Send(command) => InstallStepView::Send(command@),
            InstallStep::Done(result) => InstallStepView::Done(parse_view(*result)),
        }
    }
}

/// What is done next to run `source` in a page, where `sent` commands have been answered and
/// `last` is what came of the last: the commands are sent in turn, the first that fails ends it,
/// and the answer to the last of them is what comes of it.
pub open spec fn install_step(
    source: Seq<char>,
    sent: nat,
    last: Result<JsonView, Seq<char>>,
) -> InstallStepView {
    if sent == 0 {
        InstallStepView::Send(install_commands(source)[0])
    } else if last is Err || sent >= install_commands(source).len() {
        InstallStepView::Done(last)
    } else {
        InstallStepView::Send(install_commands(source)[sent as int])
    }
}

/// The command of the given place among those that run `source` in a page.
fn install_command(source: &str, place: u64) -> (command: CdpCommand)
    requires
        place < 4,
    ensures
        command@ == install_commands(source@)[place as int],
{
    let mut members: Vec<(String, Json)> = Vec::new();
    if place == 0 || place == 1 {
        let params = Json::object(members);
        assert(params@->Object_0 == Seq::<(Seq<char>, JsonView)>::empty());
        let method = if place == 0 {
            "Runtime.enable"
        } else {
            "Page.enable"
        };
        return CdpCommand { id: place + 1, method, params };
    }
    if place == 2 {
        push_member(&mut members, "source", Json::text(source));
        let params = Json::object(members);
        assert(params@->Object_0 == record("source"@, source@)->Object_0);
        return CdpCommand { id: 3, method: "Page.addScriptToEvaluateOnNewDocument", params };
    }
    push_member(&mut members, "expression", Json::text(source));
    push_member(&mut members, "returnByValue", Json::Bool(true));
    push_member(&mut members, "awaitPromise", Json::Bool(true));
    push_member(&mut members, "timeout", Json::Number(JsonNumber::Unsigned(8000)));
    push_member(&mut members, "allowUnsafeEvalBlockedByCSP", Json::Bool(true));
    let params = Json::object(members);
    assert(params@->Object_0 == install_commands(source@)[3].params->Object_0);
    CdpCommand { id: 4, method: "Runtime.evaluate", params }
}

/// What is done next to run `source` in a page, where `sent` commands have been answered and
/// `last` is what came of the last of them.
pub fn install_script_step(source: &str, sent: u64, last: Result<Json, String>) -> (step:
    InstallStep)
    ensures
        step@ == install_step(source@, sent as nat, parse_view(last)),
{
    if sent == 0 {
        return InstallStep::Send(install_command(source, 0));
    }
    match last {
        Ok(response) => if sent >= 4 {
            InstallStep::Done(Ok(response))
        } else {
            InstallStep::Send(install_command(source, sent))
        },
        Err(error) => InstallStep::Done(Err(error)),
    }
}

/// The views of what came of the pages.
pub open spec fn result_views(results: Seq<Result<Json, String>>) -> Seq<
    Result<JsonView, Seq<char>>,
> {
    results.map_values(|result: Result<Json, String>| parse_view(result))
}

/// The responses among the results.
pub open spec fn responses_of(results: Seq<Result<JsonView, Seq<char>>>) -> Seq<JsonView> {
    results.filter_map(
        |result: Result<JsonView, Seq<char>>|
            match result {
                Ok(response) => Some(response),
                Err(_) => None,
            },
    )
}

/// The errors among the results.
pub open spec fn errors_of(results: Seq<Result<JsonView, Seq<char>>>) -> Seq<Seq<char>> {
    results.filter_map(
        |result: Result<JsonView, Seq<char>>|
            match result {
                Ok(_) => None,
                Err(error) => Some(error),
            },
    )
}

/// What comes of running a script in pages, where `results` are those of the pages: the
/// responses, or all errors where there are errors only.
pub open spec fn installed(results: Seq<Result<JsonView, Seq<char>>>) -> Result<
    Seq<JsonView>,
    Seq<char>,
> {
    if responses_of(results).len() == 0 && errors_of(results).len() > 0 {
        Err(joined(errors_of(results), "; "@))
    } else {
        Ok(responses_of(results))
    }
}

/// What comes of running a script in pages, where `results` are those of the pages.
pub fn install_outcome(results: Vec<Result<Json, String>>) -> (outcome: Result<Vec<Json>, String>)
    ensures
        match outcome {
            Ok(responses) => installed(result_views(results@)) == Ok::<Seq<JsonView>, Seq<char>>(
                views(responses@),
            ),
            Err(error) => installed(result_views(results@)) == Err::<Seq<JsonView>, Seq<char>>(
                error@,
            ),
        },
{
    let ghost all = result_views(results@);
    let ghost good = |result: Result<JsonView, Seq<char>>|
        match result {
            Ok(response) => Some(response),
            Err(_) => None,
        };
    let ghost bad = |result: Result<JsonView, Seq<char>>|
        match result {
            Ok(_) => None,
            Err(error) => Some(error),
        };
    let mut responses: Vec<Json> = Vec::new();
    let mut errors: Vec<String> = Vec::new();
    let mut i: usize = 0;
    assert(views(responses@) == all.take(0).filter_map(good));
    assert(texts(errors@) == all.take(0).filter_map(bad));
    while i < results.len()
        invariant
            i <= results@.len(),
            all == result_views(results@),
            good == (|result: Result<JsonView, Seq<char>>|
                match result {
                    Ok(response) => Some(response),
                    Err(_) => None,
                }),
            bad == (|result: Result<JsonView, Seq<char>>|
                match result {
                    Ok(_) => None,
                    Err(error) => Some(error),
                }),
            views(responses@) == all.take(i as int).filter_map(good),
            texts(errors@) == all.take(i as int).filter_map(bad),
        decreases results@.len() - i,
    {
        let ghost had = views(responses@);
        let ghost failed = texts(errors@);
        proof {
            all.lemma_filter_map_take_succ(good, i as int);
            all.lemma_filter_map_take_succ(bad, i as int);
            assert(all[i as int] == parse_view(results@[i as int]));
        }
        match &results[i] {
            Ok(response) => {
                responses.push(response.clone());
                assert(views(responses@) == had.push(response@));
            },
            Err(error) => {
                errors.push(error.clone());
                assert(texts(errors@) == failed.push(error@));
            },
        }
        i = i + 1;
        assert(views(responses@) == all.take(i as int).filter_map(good));
        assert(texts(errors@) == all.take(i as int).filter_map(bad));
    }
    assert(all.take(all.len() as int) == all);
    if responses.is_empty() && !errors.is_empty() {
        assert(views(responses@).len() == 0);
        assert(texts(errors@).len() > 0);
        return Err(join(&errors, "; "));
    }
    assert(views(responses@).len() == responses@.len());
    assert(texts(errors@).len() == errors@.len());
    Ok(responses)
}

} // verus!
