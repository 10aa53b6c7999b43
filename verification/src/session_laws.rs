//! What talking to a page promises, said of the messages that are sent and heard.

use vstd::prelude::*;

use crate::cdp_session::{
    at_hand, command, command_result, errors_of, heard_kept, heard_reply, install_step, installed,
    kept, reply, responses_of, CommandView, Heard, InstallStepView,
};
use crate::json::{json_text, lemma_position_is, parsed_json, JsonNumber, JsonView};
use crate::text::joined;

verus! {

/// Law: a command has its number, its method and its parameters, and nothing else.
pub proof fn law_what_a_command_holds(id: u64, method: Seq<char>, params: JsonView, key: Seq<char>)
    ensures
        command(id, method, params).get("id"@) == Some(
            JsonView::Number(JsonNumber::Unsigned(id)),
        ),
        command(id, method, params).get("method"@) == Some(JsonView::String(method)),
        command(id, method, params).get("params"@) == Some(params),
        key != "id"@ && key != "method"@ && key != "params"@ ==> command(id, method, params).get(
            key,
        ) is None,
{
    let members = command(id, method, params)->Object_0;
    reveal_strlit("id");
    reveal_strlit("method");
    reveal_strlit("params");
    assert("id"@.len() == 2 && "method"@.len() == 6 && "params"@.len() == 6);
    assert("method"@[0] != "params"@[0]);
    lemma_position_is(members, "id"@, 0);
    lemma_position_is(members, "method"@, 1);
    lemma_position_is(members, "params"@, 2);
    if key != "id"@ && key != "method"@ && key != "params"@ {
        lemma_position_is(members, key, 3);
    }
}

/// Law: a response with an error is a failure that tells the error and the method; any other is
/// taken as it is.
pub proof fn law_errors_are_told(response: JsonView, method: Seq<char>)
    ensures
        response.get("error"@) is None ==> command_result(response, method) == Ok::<
            JsonView,
            Seq<char>,
        >(response),
        response.get("error"@) matches Some(error) ==> command_result(response, method) == Err::<
            JsonView,
            Seq<char>,
        >("CDP command "@ + method + " failed: "@ + json_text(error)),
{
}

/// Whether a message states a number as that of the command that it responds to.
pub open spec fn responds_to(message: JsonView, id: u64) -> bool {
    message.get("id"@) == Some(JsonView::Number(JsonNumber::Unsigned(id)))
}

/// Law: a message that states the number of the awaited command ends the wait; one that states
/// another is kept under that; and one that states none is passed over.
pub proof fn law_messages_find_their_command(
    inbox: Map<u64, JsonView>,
    message: JsonView,
    id: u64,
    other: u64,
    method: Seq<char>,
)
    ensures
        responds_to(message, id) ==> reply(message, id, method) == Some(
            command_result(message, method),
        ) && kept(inbox, message, id) == inbox,
        responds_to(message, other) && other != id ==> reply(message, id, method) is None && kept(
            inbox,
            message,
            id,
        ) == inbox.insert(other, message),
        (forall|n: u64| !#[trigger] responds_to(message, n)) ==> reply(message, id, method) is None
            && kept(inbox, message, id) == inbox,
        inbox.contains_key(id) ==> at_hand(inbox, id, method) == Some(
            command_result(inbox[id], method),
        ),
        !inbox.contains_key(id) ==> at_hand(inbox, id, method) is None,
{
    match message.get("id"@) {
        Some(JsonView::Number(JsonNumber::Unsigned(n))) => {
            assert(responds_to(message, n));
        },
        _ => {},
    }
}

/// Law: a wait fails where the socket closes, where it cannot be read and where what is read is no
/// document, each with its reason; a message that is no text is passed over; and any other is a
/// message to be looked at. Only such a message changes what is kept.
pub proof fn law_what_is_heard(
    inbox: Map<u64, JsonView>,
    heard: Heard,
    id: u64,
    method: Seq<char>,
)
    ensures
        heard is Closed ==> heard_reply(heard, id, method) == Some(
            Err::<JsonView, Seq<char>>("CDP WebSocket closed before "@ + method + " response"@),
        ),
        heard matches Heard::Failed(error) ==> heard_reply(heard, id, method) == Some(
            Err::<JsonView, Seq<char>>("failed to read CDP message: "@ + error@),
        ),
        heard is Other ==> heard_reply(heard, id, method) is None,
        heard matches Heard::Text(text) ==> match parsed_json(text@) {
            Ok(message) => heard_reply(heard, id, method) == reply(message, id, method)
                && heard_kept(inbox, heard, id) == kept(inbox, message, id),
            Err(error) => heard_reply(heard, id, method) == Some(
                Err::<JsonView, Seq<char>>("failed to parse CDP message: "@ + error),
            ) && heard_kept(inbox, heard, id) == inbox,
        },
        !(heard is Text) ==> heard_kept(inbox, heard, id) == inbox,
{
}

/// Law: to run a script in a page, its runtime and its page events are turned on, the script is
/// put before every document to come and then run in the present one. A failure ends it, and so
/// does the answer to the last command.
pub proof fn law_how_a_script_is_run(
    source: Seq<char>,
    sent: nat,
    last: Result<JsonView, Seq<char>>,
)
    ensures
        sent == 0 ==> install_step(source, sent, last) == InstallStepView::Send(
            (CommandView {
                id: 1,
                method: "Runtime.enable"@,
                params: JsonView::Object(Seq::empty()),
            }),
        ),
        sent > 0 && last is Err ==> install_step(source, sent, last) == InstallStepView::Done(last),
        sent == 1 && last is Ok ==> install_step(source, sent, last) == InstallStepView::Send(
            (CommandView {
                id: 2,
                method: "Page.enable"@,
                params: JsonView::Object(Seq::empty()),
            }),
        ),
        sent == 2 && last is Ok ==> install_step(source, sent, last) == InstallStepView::Send(
            (CommandView {
                id: 3,
                method: "Page.addScriptToEvaluateOnNewDocument"@,
                params: JsonView::Object(seq![("source"@, JsonView::String(source))]),
            }),
        ),
        sent == 3 && last is Ok ==> install_step(source, sent, last) == InstallStepView::Send(
            (CommandView {
                id: 4,
                method: "Runtime.evaluate"@,
                params: JsonView::Object(
                    seq![
                        ("expression"@, JsonView::String(source)),
                        ("returnByValue"@, JsonView::Bool(true)),
                        ("awaitPromise"@, JsonView::Bool(true)),
                        ("timeout"@, JsonView::Number(JsonNumber::Unsigned(8000))),
                        ("allowUnsafeEvalBlockedByCSP"@, JsonView::Bool(true)),
                    ],
                ),
            }),
        ),
        sent >= 4 ==> install_step(source, sent, last) == InstallStepView::Done(last),
{
}

/// The responses of the pages in which the script could be run.
pub open spec fn answers(results: Seq<Result<JsonView, Seq<char>>>) -> Seq<JsonView>
    decreases results.len(),
{
    if results.len() == 0 {
        Seq::empty()
    } else {
        match results.last() {
            Ok(response) => answers(results.drop_last()).push(response),
            Err(_) => answers(results.drop_last()),
        }
    }
}

/// Why the script could not be run in the other pages.
pub open spec fn reasons(results: Seq<Result<JsonView, Seq<char>>>) -> Seq<Seq<char>>
    decreases results.len(),
{
    if results.len() == 0 {
        Seq::empty()
    } else {
        match results.last() {
            Ok(_) => reasons(results.drop_last()),
            Err(error) => reasons(results.drop_last()).push(error),
        }
    }
}

/// The responses and the errors among results are taken one by one.
proof fn lemma_results(results: Seq<Result<JsonView, Seq<char>>>)
    ensures
        responses_of(results) == answers(results),
        errors_of(results) == reasons(results),
    decreases results.len(),
{
    let good = |result: Result<JsonView, Seq<char>>|
        match result {
            Ok(response) => Some(response),
            Err(_) => None,
        };
    let bad = |result: Result<JsonView, Seq<char>>|
        match result {
            Ok(_) => None,
            Err(error) => Some(error),
        };
    if results.len() == 0 {
        assert(results == Seq::<Result<JsonView, Seq<char>>>::empty());
        assert(results.filter_map(good) == Seq::<JsonView>::empty());
        assert(results.filter_map(bad) == Seq::<Seq<char>>::empty());
    } else {
        let rest = results.drop_last();
        lemma_results(rest);
        results.lemma_filter_map_take_succ(good, rest.len() as int);
        results.lemma_filter_map_take_succ(bad, rest.len() as int);
        assert(results.take(rest.len() as int) == rest);
        assert(results.take(results.len() as int) == results);
    }
}

/// Law: the responses of all pages that gave one are taken, in their order. Only where there was a
/// page and none gave one does running the script fail, and then all reasons are told.
pub proof fn law_what_comes_of_the_pages(results: Seq<Result<JsonView, Seq<char>>>)
    ensures
        answers(results).len() > 0 || results.len() == 0 ==> installed(results) == Ok::<
            Seq<JsonView>,
            Seq<char>,
        >(answers(results)),
        answers(results).len() == 0 && results.len() > 0 ==> installed(results) == Err::<
            Seq<JsonView>,
            Seq<char>,
        >(joined(reasons(results), "; "@)),
{
    lemma_results(results);
    lemma_each_counts(results);
}

/// Each result is a response or an error.
proof fn lemma_each_counts(results: Seq<Result<JsonView, Seq<char>>>)
    ensures
        answers(results).len() + reasons(results).len() == results.len(),
    decreases results.len(),
{
    if results.len() > 0 {
        lemma_each_counts(results.drop_last());
    }
}

} // verus!
