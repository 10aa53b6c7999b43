use cc_switch::cdp_session::{
    cdp_command_result, cdp_command_text, install_outcome, install_script_step, CdpInbox, Heard,
    InstallStep,
};
use cc_switch::json::Json;

fn json(text: &str) -> Json {
    Json::parse(text).expect("json")
}

fn text(message: &str) -> Heard {
    Heard::Text(message.to_string())
}

#[test]
fn a_command_has_its_number_method_and_parameters() {
    assert_eq!(
        cdp_command_text(7, "Page.enable", json("{}")),
        r#"{"id":7,"method":"Page.enable","params":{}}"#
    );
}

#[test]
fn a_response_with_an_error_fails_the_command() {
    let response = json(r#"{"id": 1, "result": {}}"#);
    assert_eq!(cdp_command_result(response.clone(), "M"), Ok(response));
    assert_eq!(
        cdp_command_result(json(r#"{"id": 1, "error": {"code": -32000}}"#), "M"),
        Err("CDP command M failed: {\"code\":-32000}".to_string())
    );
}

#[test]
fn the_wait_ends_with_the_response_to_the_command() {
    let mut inbox = CdpInbox::new();
    assert_eq!(inbox.take(2, "M"), None);
    assert_eq!(inbox.hear(2, "M", Heard::Other), None);
    assert_eq!(inbox.hear(2, "M", text(r#"{"method": "Page.loaded"}"#)), None);
    assert_eq!(inbox.hear(2, "M", text(r#"{"id": -2}"#)), None);
    assert_eq!(
        inbox.hear(2, "M", text(r#"{"id": 2, "result": 1}"#)),
        Some(Ok(json(r#"{"id": 2, "result": 1}"#)))
    );
    assert_eq!(inbox.take(2, "M"), None);
}

#[test]
fn an_early_response_is_kept_for_its_command() {
    let mut inbox = CdpInbox::new();
    assert_eq!(inbox.hear(1, "A", text(r#"{"id": 2, "result": true}"#)), None);
    assert_eq!(inbox.hear(1, "A", text(r#"{"id": 3, "error": "e"}"#)), None);
    assert!(inbox.hear(1, "A", text(r#"{"id": 1}"#)).is_some());
    assert_eq!(
        inbox.take(2, "B"),
        Some(Ok(json(r#"{"id": 2, "result": true}"#)))
    );
    assert_eq!(inbox.take(2, "B"), None);
    assert_eq!(
        inbox.take(3, "C"),
        Some(Err("CDP command C failed: \"e\"".to_string()))
    );
}

#[test]
fn the_wait_ends_with_an_error_of_the_socket() {
    let mut inbox = CdpInbox::new();
    assert_eq!(
        inbox.hear(1, "M", Heard::Closed),
        Some(Err("CDP WebSocket closed before M response".to_string()))
    );
    assert_eq!(
        inbox.hear(1, "M", Heard::Failed("Io".to_string())),
        Some(Err("failed to read CDP message: Io".to_string()))
    );
    assert_eq!(
        inbox.hear(1, "M", text("[")),
        Some(Err(
            "failed to parse CDP message: EOF while parsing a list at line 1 column 1".to_string()
        ))
    );
}

#[test]
fn a_script_is_installed_by_four_commands() {
    let mut texts: Vec<String> = Vec::new();
    let mut sent: u64 = 0;
    let mut last = Ok(Json::Null);
    let end = loop {
        match install_script_step("f()", sent, last) {
            InstallStep::Send(command) => {
                texts.push(command.to_text());
                sent += 1;
                last = Ok(Json::text(command.method));
            }
            InstallStep::Done(end) => break end,
        }
    };
    assert_eq!(end, Ok(Json::text("Runtime.evaluate")));
    assert_eq!(
        texts,
        [
            r#"{"id":1,"method":"Runtime.enable","params":{}}"#,
            r#"{"id":2,"method":"Page.enable","params":{}}"#,
            r#"{"id":3,"method":"Page.addScriptToEvaluateOnNewDocument","params":{"source":"f()"}}"#,
            r#"{"id":4,"method":"Runtime.evaluate","params":{"allowUnsafeEvalBlockedByCSP":true,"awaitPromise":true,"expression":"f()","returnByValue":true,"timeout":8000}}"#,
        ]
    );
}

#[test]
fn a_failed_command_ends_the_installation() {
    let step = install_script_step("f()", 2, Err("no".to_string()));
    assert!(matches!(step, InstallStep::Done(Err(error)) if error == "no"));
}

#[test]
fn responses_outweigh_errors() {
    let one = json("1");
    assert_eq!(
        install_outcome(vec![Err("a".to_string()), Ok(one.clone()), Err("b".to_string())]),
        Ok(vec![one])
    );
    assert_eq!(
        install_outcome(vec![Err("a".to_string()), Err("b".to_string())]),
        Err("a; b".to_string())
    );
    assert_eq!(install_outcome(Vec::new()), Ok(Vec::new()));
}
