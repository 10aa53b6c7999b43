use cc_switch::codex_desktop::{
    candidate_debug_ports, cdp_base_urls, cdp_version_step, codex_cdp_status_step,
    ensure_codex_running_with_cdp_step, find_codex_port_step, launch_arguments,
    list_cdp_targets_step, pick_codex_page_targets, pick_free_debug_port_step, probe_port_step,
    target_matches_codex_desktop, wait_until_codex_page_ready_step, CdpTarget, CodexCdpStatus,
    FreePortStep, ListAnswer, ListStep, PortAnswer, PortProbe, PortStep, ProbeStep, Reach, ReachStep, ReadyEvent,
    ReadyStep, Survey, SurveyStep, VersionStep, DEFAULT_CODEX_DEBUG_PORT,
};

fn target(kind: &str, title: &str, url: &str, socket: Option<&str>) -> CdpTarget {
    CdpTarget {
        id: "t".to_string(),
        target_type: kind.to_string(),
        title: title.to_string(),
        url: url.to_string(),
        web_socket_debugger_url: socket.map(str::to_string),
    }
}

fn page() -> CdpTarget {
    target("page", "Codex", "app://x", Some("ws://y"))
}

#[test]
fn both_loopbacks_are_asked() {
    assert_eq!(
        cdp_base_urls(9229),
        ["http://127.0.0.1:9229", "http://[::1]:9229"]
    );
}

#[test]
fn a_port_answers_where_either_loopback_does() {
    assert_eq!(
        cdp_version_step(80, &vec![]),
        VersionStep::Get("http://127.0.0.1:80/json/version".to_string())
    );
    assert_eq!(
        cdp_version_step(80, &vec![false]),
        VersionStep::Get("http://[::1]:80/json/version".to_string())
    );
    assert_eq!(cdp_version_step(80, &vec![true]), VersionStep::Done(true));
    assert_eq!(cdp_version_step(80, &vec![false, true]), VersionStep::Done(true));
    assert_eq!(cdp_version_step(80, &vec![false, false]), VersionStep::Done(false));
}

#[test]
fn targets_are_taken_from_the_first_list() {
    let first = list_cdp_targets_step(80, &vec![]);
    assert!(matches!(first, ListStep::Get(url) if url == "http://127.0.0.1:80/json"));
    let failed = ListAnswer::Failed("refused".to_string());
    let second = list_cdp_targets_step(80, &vec![failed]);
    assert!(matches!(second, ListStep::Get(url) if url == "http://[::1]:80/json"));
    let listed = list_cdp_targets_step(80, &vec![ListAnswer::Targets(vec![page()])]);
    assert!(matches!(listed, ListStep::Done(Ok(targets)) if targets == vec![page()]));
}

#[test]
fn all_errors_of_listing_are_told() {
    let answers = vec![
        ListAnswer::Failed("refused".to_string()),
        ListAnswer::Invalid("eof".to_string()),
    ];
    let step = list_cdp_targets_step(80, &answers);
    assert!(matches!(step, ListStep::Done(Err(error)) if error
        == "http://127.0.0.1:80/json: refused; http://[::1]:80/json: invalid JSON: eof"));
    let none = vec![
        ListAnswer::NoClient("tls".to_string()),
        ListAnswer::NoClient("tls".to_string()),
    ];
    let step = list_cdp_targets_step(80, &none);
    assert!(matches!(step, ListStep::Done(Err(error)) if error == "tls; tls"));
}

#[test]
fn candidate_ports_ascend_without_repetition() {
    assert_eq!(
        candidate_debug_ports(DEFAULT_CODEX_DEBUG_PORT),
        [9222, 9223, 9229, 9230, 9231]
    );
    assert_eq!(candidate_debug_ports(1), [1, 9222, 9223, 9229, 9230, 9231]);
    assert_eq!(candidate_debug_ports(65535)[5], 65535);
}

#[test]
fn pages_of_codex_are_picked() {
    assert!(target_matches_codex_desktop(&target("x", "CHATGPT", "", None)));
    assert!(target_matches_codex_desktop(&target("x", "", "APP://-/index", None)));
    assert!(!target_matches_codex_desktop(&target("x", "code x", "http://a", None)));
    let targets = vec![
        page(),
        target("worker", "Codex", "", Some("ws://y")),
        target("page", "Codex", "", None),
        target("page", "Codex", "", Some("")),
        target("page", "News", "http://n", Some("ws://y")),
        target("page", "n", "http://codex", Some("ws://z")),
    ];
    assert_eq!(
        pick_codex_page_targets(&targets),
        vec![page(), target("page", "n", "http://codex", Some("ws://z"))]
    );
}

#[test]
fn the_first_port_with_a_page_of_codex_is_taken() {
    let ports = vec![1, 2, 3];
    assert_eq!(find_codex_port_step(&ports, &vec![]), PortStep::Probe(1));
    let other = target("page", "News", "http://n", Some("ws://y"));
    let answers = vec![PortAnswer::NoListener, PortAnswer::Targets(vec![other])];
    assert_eq!(find_codex_port_step(&ports, &answers), PortStep::Probe(3));
    let answers = vec![PortAnswer::NoTargets, PortAnswer::Targets(vec![page()])];
    assert_eq!(find_codex_port_step(&ports, &answers), PortStep::Done(Some(2)));
    let answers = vec![PortAnswer::NoTargets, PortAnswer::NoTargets, PortAnswer::NoListener];
    assert_eq!(find_codex_port_step(&ports, &answers), PortStep::Done(None));
}

#[test]
fn targets_are_listed_only_where_a_listener_answers() {
    let step = |answers, listed| probe_port_step(&PortProbe { answers, listed });
    assert!(matches!(step(None, None), ProbeStep::AskVersion));
    assert!(matches!(step(Some(false), None), ProbeStep::Done(PortAnswer::NoListener)));
    assert!(matches!(step(Some(true), None), ProbeStep::ListTargets));
    assert!(matches!(step(Some(true), Some(None)), ProbeStep::Done(PortAnswer::NoTargets)));
    assert!(matches!(
        step(Some(true), Some(Some(vec![page()]))),
        ProbeStep::Done(PortAnswer::Targets(targets)) if targets == vec![page()]
    ));
}

#[test]
fn a_free_port_is_looked_for_upwards() {
    assert_eq!(pick_free_debug_port_step(9229, 0), FreePortStep::Try(9229));
    assert_eq!(pick_free_debug_port_step(9229, 199), FreePortStep::Try(9428));
    assert_eq!(pick_free_debug_port_step(9229, 200), FreePortStep::Done(9229));
}

#[test]
fn the_debug_arguments_name_the_port() {
    assert_eq!(
        launch_arguments(9230),
        [
            "--remote-debugging-port=9230",
            "--remote-allow-origins=http://127.0.0.1:9230,http://localhost:9230",
        ]
    );
}

#[test]
fn a_page_is_waited_for_until_the_deadline() {
    let step = |event: ReadyEvent| wait_until_codex_page_ready_step(&event);
    assert_eq!(step(ReadyEvent::Started), ReadyStep::ReadClock);
    assert_eq!(step(ReadyEvent::Clock(true)), ReadyStep::ListTargets);
    assert_eq!(step(ReadyEvent::Listed(None)), ReadyStep::Sleep(500));
    assert_eq!(step(ReadyEvent::Listed(Some(vec![]))), ReadyStep::Sleep(500));
    assert_eq!(step(ReadyEvent::Listed(Some(vec![page()]))), ReadyStep::Done(true));
    assert_eq!(step(ReadyEvent::Slept), ReadyStep::ReadClock);
    assert_eq!(step(ReadyEvent::Clock(false)), ReadyStep::Done(false));
}

#[test]
fn a_codex_that_listens_is_reached_at_once() {
    let mut reach = Reach::new();
    assert_eq!(ensure_codex_running_with_cdp_step(&reach), ReachStep::FindPort);
    reach.found = Some(Some(9222));
    assert_eq!(ensure_codex_running_with_cdp_step(&reach), ReachStep::Done(Ok(9222)));
}

#[test]
fn a_codex_that_runs_without_cdp_is_left_alone() {
    let mut reach = Reach::new();
    reach.found = Some(None);
    assert_eq!(ensure_codex_running_with_cdp_step(&reach), ReachStep::DetectRunning);
    reach.running = Some(Some("/c".to_string()));
    assert_eq!(
        ensure_codex_running_with_cdp_step(&reach),
        ReachStep::Done(Err(
            "Codex Desktop is already running at /c but without CDP. Fully quit Codex Desktop, then click Unlock again so CC Switch can relaunch it with remote debugging."
                .to_string()
        ))
    );
}

#[test]
fn a_codex_that_does_not_run_is_launched() {
    let mut reach = Reach::new();
    reach.found = Some(None);
    reach.running = Some(None);
    assert_eq!(ensure_codex_running_with_cdp_step(&reach), ReachStep::ResolveExecutable);
    reach.executable = Some(true);
    assert_eq!(ensure_codex_running_with_cdp_step(&reach), ReachStep::PickPort(9229));
    reach.port = Some(9300);
    assert_eq!(ensure_codex_running_with_cdp_step(&reach), ReachStep::Launch(9300));
    reach.launched = Some(Ok(()));
    assert_eq!(ensure_codex_running_with_cdp_step(&reach), ReachStep::Remember);
    reach.remembered = true;
    assert_eq!(ensure_codex_running_with_cdp_step(&reach), ReachStep::AwaitPage(9300, 45));
    reach.ready = Some(true);
    assert_eq!(ensure_codex_running_with_cdp_step(&reach), ReachStep::Done(Ok(9300)));
    reach.ready = Some(false);
    assert_eq!(
        ensure_codex_running_with_cdp_step(&reach),
        ReachStep::Done(Err(
            "Codex Desktop was launched with remote debugging on port 9300, but no renderer target appeared within 45 seconds. If Codex opened without CDP, fully quit it and try again."
                .to_string()
        ))
    );
}

#[test]
fn a_codex_that_cannot_be_launched_is_not_reached() {
    let mut reach = Reach::new();
    reach.found = Some(None);
    reach.running = Some(None);
    reach.executable = Some(false);
    assert_eq!(
        ensure_codex_running_with_cdp_step(&reach),
        ReachStep::Done(Err(
            "Codex Desktop executable not found. Install or start Codex Desktop once so CC Switch can locate it."
                .to_string()
        ))
    );
    reach.executable = Some(true);
    reach.port = Some(9229);
    reach.launched = Some(Err("denied".to_string()));
    assert_eq!(
        ensure_codex_running_with_cdp_step(&reach),
        ReachStep::Done(Err("denied".to_string()))
    );
}

#[test]
fn the_status_says_what_was_found() {
    let mut survey = Survey::new();
    assert_eq!(codex_cdp_status_step(&survey), SurveyStep::FindPort);
    survey.found = Some(Some(9229));
    assert_eq!(codex_cdp_status_step(&survey), SurveyStep::DetectRunning);
    survey.running = Some(None);
    assert_eq!(
        codex_cdp_status_step(&survey),
        SurveyStep::Done(CodexCdpStatus {
            state: "cdp_ready",
            message:
                "Codex Desktop is running with CDP on port 9229; thinking strength is injectable."
                    .to_string(),
            port: Some(9229),
            executable: None,
        })
    );
    survey.found = Some(None);
    assert_eq!(codex_cdp_status_step(&survey), SurveyStep::ResolveExecutable);
    survey.executable = Some(None);
    assert_eq!(
        codex_cdp_status_step(&survey),
        SurveyStep::Done(CodexCdpStatus {
            state: "not_found",
            message: "Codex Desktop executable not found. Install or start Codex Desktop once so CC Switch can locate it.".to_string(),
            port: None,
            executable: None,
        })
    );
    survey.executable = Some(Some("/e".to_string()));
    assert_eq!(
        codex_cdp_status_step(&survey),
        SurveyStep::Done(CodexCdpStatus {
            state: "not_running",
            message: "Codex Desktop is not running. Found /e; Unlock will relaunch it with remote debugging and inject the thinking strength patch.".to_string(),
            port: None,
            executable: Some("/e".to_string()),
        })
    );
    survey.running = Some(Some("/r".to_string()));
    assert_eq!(
        codex_cdp_status_step(&survey),
        SurveyStep::Done(CodexCdpStatus {
            state: "running_without_cdp",
            message: "Codex Desktop is running at /r but without CDP. Fully quit Codex Desktop, then click Unlock so CC Switch can relaunch it with remote debugging.".to_string(),
            port: None,
            executable: Some("/r".to_string()),
        })
    );
}
