//! Codex Desktop, reached over the Chrome DevTools Protocol (CDP).
//!
//! Codex Desktop is an Electron application. Its reasoning selector lives in the renderer, so
//! what is attached to is the desktop shell, and never the command line tool of the same name.
//! This module decides: which ports may be a debug listener, which pages are those of Codex
//! Desktop, what is sent to a page and what comes of its answers, which executable is the
//! desktop shell, and what is done next where the shell has to be found or started. Sockets,
//! processes, files and clocks are the caller's.

use vstd::prelude::*;
use vstd::string::StringExecFns;

use crate::text::{
    ascii_lowered, contains, contains_text, decimal, decimal_digits, join, joined, same_text,
    string_view, texts, to_ascii_lowercase,
};

verus! {

/// The port that Codex Desktop is started with.
pub const DEFAULT_CODEX_DEBUG_PORT: u16 = 9229;

/// A page target, as Chromium lists it under `/json`.
#[derive(Debug, PartialEq)]
pub struct CdpTarget {
    pub id: String,
    pub target_type: String,
    pub title: String,
    pub url: String,
    pub web_socket_debugger_url: Option<String>,
}

/// What a [`CdpTarget`] stands for.
#[verifier::ext_equal]
pub struct TargetView {
    pub id: Seq<char>,
    pub target_type: Seq<char>,
    pub title: Seq<char>,
    pub url: Seq<char>,
    pub web_socket_debugger_url: Option<Seq<char>>,
}

impl View for CdpTarget {
    type V = TargetView;

    open spec fn view(&self) -> TargetView {
        TargetView {
            id: self.id@,
            target_type: self.target_type@,
            title: self.title@,
            url: self.url@,
            web_socket_debugger_url: string_view(self.web_socket_debugger_url),
        }
    }
}

impl Clone for CdpTarget {
    fn clone(&self) -> (copy: CdpTarget)
        ensures
            copy@ == self@,
    {
        CdpTarget {
            id: self.id.clone(),
            target_type: self.target_type.clone(),
            title: self.title.clone(),
            url: self.url.clone(),
            web_socket_debugger_url: match &self.web_socket_debugger_url {
                Some(url) => Some(url.clone()),
                None => None,
            },
        }
    }
}

/// The views of targets.
pub open spec fn target_views(targets: Seq<CdpTarget>) -> Seq<TargetView> {
    targets.map_values(|target: CdpTarget| target@)
}

/// How Codex Desktop is found to be.
#[derive(Debug, Clone, PartialEq)]
pub struct CodexCdpStatus {
    /// `cdp_ready`, `running_without_cdp`, `not_running` or `not_found`.
    pub state: &'static str,
    pub message: String,
    pub port: Option<u16>,
    pub executable: Option<String>,
}

/// What a [`CodexCdpStatus`] stands for.
#[verifier::ext_equal]
pub struct StatusView {
    pub state: Seq<char>,
    pub message: Seq<char>,
    pub port: Option<u16>,
    pub executable: Option<Seq<char>>,
}

impl View for CodexCdpStatus {
    type V = StatusView;

    open spec fn view(&self) -> StatusView {
        StatusView {
            state: self.state@,
            message: self.message@,
            port: self.port,
            executable: string_view(self.executable),
        }
    }
}

/// A Codex Desktop whose pages can be reached at a port.
#[derive(Debug, Clone, Copy, PartialEq)]
pub struct CodexDesktop {
    pub port: u16,
}

/// Where a debug listener may be reached. Chromium binds it to either family of the loopback.
pub open spec fn base_urls(port: u16) -> Seq<Seq<char>> {
    seq![
        "http://127.0.0.1:"@ + decimal_digits(port as nat),
        "http://[::1]:"@ + decimal_digits(port as nat),
    ]
}

/// Where a debug listener at `port` may be reached.
pub fn cdp_base_urls(port: u16) -> (urls: [String; 2])
    ensures
        texts(urls@) == base_urls(port),
{
    let digits = decimal(port as u64);
    let urls = [
        "http://127.0.0.1:".to_owned().concat(digits.as_str()),
        "http://[::1]:".to_owned().concat(digits.as_str()),
    ];
    assert(texts(urls@) == base_urls(port));
    urls
}

/// What is done to learn whether a debug listener answers at a port.
#[derive(Debug, PartialEq)]
pub enum VersionStep {
    /// Get the URL, and note whether it was answered with success.
    Get(String),
    /// The port answers, or it does not.
    Done(bool),
}

/// What is done next, where `answers` says of the first URLs whether they were answered.
pub fn cdp_version_step(port: u16, answers: &Vec<bool>) -> (step: VersionStep)
    ensures
        match step {
            VersionStep::Get(url) => !answers@.contains(true) && answers@.len() < 2 && url@
                == base_urls(port)[answers@.len() as int] + "/json/version"@,
            VersionStep::Done(true) => answers@.contains(true),
            VersionStep::Done(false) => !answers@.contains(true) && answers@.len() >= 2,
        },
{
    let mut i: usize = 0;
    while i < answers.len()
        invariant
            i <= answers@.len(),
            forall|j: int| 0 <= j < i ==> !#[trigger] answers@[j],
        decreases answers@.len() - i,
    {
        if answers[i] {
            assert(answers@[i as int] == true);
            return VersionStep::Done(true);
        }
        i = i + 1;
    }
    if answers.len() >= 2 {
        return VersionStep::Done(false);
    }
    let urls = cdp_base_urls(port);
    assert(base_urls(port)[answers@.len() as int] == urls@[answers@.len() as int]@);
    VersionStep::Get(urls[answers.len()].clone().concat("/json/version"))
}

/// What came of asking one URL for the list of targets.
#[derive(Debug)]
pub enum ListAnswer {
    /// No HTTP client could be built, for this reason.
    NoClient(String),
    /// The request failed, or was answered with an error, for this reason.
    Failed(String),
    /// The answer is no list of targets, for this reason.
    Invalid(String),
    Targets(Vec<CdpTarget>),
}

/// What a [`ListAnswer`] stands for.
pub enum ListAnswerView {
    NoClient(Seq<char>),
    Failed(Seq<char>),
    Invalid(Seq<char>),
    Targets(Seq<TargetView>),
}

impl View for ListAnswer {
    type V = ListAnswerView;

    open spec fn view(&self) -> ListAnswerView {
        match self {
            ListAnswer::NoClient(error) => ListAnswerView::NoClient(error@),
            ListAnswer::Failed(error) => ListAnswerView::Failed(error@),
            ListAnswer::Invalid(error) => ListAnswerView::Invalid(error@),
            ListAnswer::Targets(targets) => ListAnswerView::Targets(target_views(targets@)),
        }
    }
}

/// What is said of an answer of the URL `url` that holds no targets.
pub open spec fn list_failure(url: Seq<char>, answer: ListAnswerView) -> Seq<char> {
    match answer {
        ListAnswerView::NoClient(error) => error,
        ListAnswerView::Failed(error) => url + ": "@ + error,
        ListAnswerView::Invalid(error) => url + ": invalid JSON: "@ + error,
        ListAnswerView::Targets(_) => Seq::empty(),
    }
}

/// Where the targets at `port` are asked for.
pub open spec fn list_urls(port: u16) -> Seq<Seq<char>> {
    base_urls(port).map_values(|base: Seq<char>| base + "/json"@)
}

/// What is done to list the targets at a port.
#[derive(Debug)]
pub enum ListStep {
    /// Get the URL.
    Get(String),
    Done(Result<Vec<CdpTarget>, String>),
}

/// What a [`ListStep`] stands for.
pub enum ListStepView {
    Get(Seq<char>),
    Done(Result<Seq<TargetView>, Seq<char>>),
}

impl View for ListStep {
    type V = ListStepView;

    open spec fn view(&self) -> ListStepView {
        match self {
            ListStep::Get(url) => ListStepView::Get(url@),
            ListStep::Done(Ok(targets)) => ListStepView::Done(Ok(target_views(targets@))),
            ListStep::Done(Err(error)) => ListStepView::Done(Err(error@)),
        }
    }
}

/// The targets of the first answer that holds any list of them.
pub open spec fn first_targets(answers: Seq<ListAnswerView>) -> Option<Seq<TargetView>>
    decreases answers.len(),
{
    if answers.len() == 0 {
        None
    } else {
        match answers[0] {
            ListAnswerView::Targets(targets) => Some(targets),
            _ => first_targets(answers.drop_first()),
        }
    }
}

/// The views of answers.
pub open spec fn answer_views(answers: Seq<ListAnswer>) -> Seq<ListAnswerView> {
    answers.map_values(|answer: ListAnswer| answer@)
}

/// What is done next to list the targets at `port`, where `answers` are those of the first URLs:
/// the first list is taken, and where no URL gives one all errors are told.
pub open spec fn list_step(port: u16, answers: Seq<ListAnswerView>) -> ListStepView {
    match first_targets(answers) {
        Some(targets) => ListStepView::Done(Ok(targets)),
        None => if answers.len() < 2 {
            ListStepView::Get(list_urls(port)[answers.len() as int])
        } else {
            ListStepView::Done(
                Err(
                    joined(
                        seq![
                            list_failure(list_urls(port)[0], answers[0]),
                            list_failure(list_urls(port)[1], answers[1]),
                        ],
                        "; "@,
                    ),
                ),
            )
        },
    }
}

/// What is said of an answer of the URL `url` that holds no targets.
fn failure_of(url: &str, answer: &ListAnswer) -> (failure: String)
    ensures
        failure@ == list_failure(url@, answer@),
{
    match answer {
        ListAnswer::NoClient(error) => error.clone(),
        ListAnswer::Failed(error) => url.to_owned().concat(": ").concat(error.as_str()),
        ListAnswer::Invalid(error) => url.to_owned().concat(": invalid JSON: ").concat(
            error.as_str(),
        ),
        ListAnswer::Targets(_) => String::new(),
    }
}

/// A copy of targets.
fn copy_targets(targets: &Vec<CdpTarget>) -> (copy: Vec<CdpTarget>)
    ensures
        target_views(copy@) == target_views(targets@),
{
    let mut copy: Vec<CdpTarget> = Vec::new();
    let mut i: usize = 0;
    while i < targets.len()
        invariant
            i <= targets@.len(),
            target_views(copy@) == target_views(targets@).take(i as int),
        decreases targets@.len() - i,
    {
        let ghost before = target_views(copy@);
        copy.push(targets[i].clone());
        assert(target_views(copy@) == before.push(targets@[i as int]@));
        i = i + 1;
        assert(target_views(copy@) == target_views(targets@).take(i as int));
    }
    assert(target_views(targets@).take(targets@.len() as int) == target_views(targets@));
    copy
}

/// What is done next to list the targets at `port`, where `answers` are those of the first URLs.
pub fn list_cdp_targets_step(port: u16, answers: &Vec<ListAnswer>) -> (step: ListStep)
    ensures
        step@ == list_step(port, answer_views(answers@)),
{
    let ghost all = answer_views(answers@);
    let mut i: usize = 0;
    assert(all.skip(0) == all);
    while i < answers.len()
        invariant
            i <= answers@.len(),
            all == answer_views(answers@),
            first_targets(all) == first_targets(all.skip(i as int)),
        decreases answers@.len() - i,
    {
        assert(all.skip(i as int)[0] == answers@[i as int]@);
        assert(all.skip(i as int).drop_first() == all.skip(i + 1));
        if let ListAnswer::Targets(targets) = &answers[i] {
            return ListStep::Done(Ok(copy_targets(targets)));
        }
        i = i + 1;
    }
    let bases = cdp_base_urls(port);
    assert(base_urls(port)[0] == bases@[0]@);
    assert(base_urls(port)[1] == bases@[1]@);
    if answers.len() < 2 {
        return ListStep::Get(bases[answers.len()].clone().concat("/json"));
    }
    let mut failures: Vec<String> = Vec::new();
    failures.push(failure_of(bases[0].clone().concat("/json").as_str(), &answers[0]));
    failures.push(failure_of(bases[1].clone().concat("/json").as_str(), &answers[1]));
    assert(texts(failures@) == seq![
        list_failure(list_urls(port)[0], all[0]),
        list_failure(list_urls(port)[1], all[1]),
    ]);
    ListStep::Done(Err(join(&failures, "; ")))
}

/// Whether `ports` ascend, so that none occurs twice.
pub open spec fn ascending(ports: Seq<u16>) -> bool {
    forall|i: int, j: int| 0 <= i < j < ports.len() ==> ports[i] < ports[j]
}

/// Puts a port into its place, unless it is there.
fn insert_port(ports: &mut Vec<u16>, port: u16)
    requires
        ascending(old(ports)@),
    ensures
        ascending(final(ports)@),
        forall|p: u16| final(ports)@.contains(p) <==> old(ports)@.contains(p) || p == port,
{
    let mut at: usize = 0;
    while at < ports.len() && ports[at] < port
        invariant
            at <= ports@.len(),
            forall|i: int| 0 <= i < at ==> #[trigger] ports@[i] < port,
            ascending(ports@),
        decreases ports@.len() - at,
    {
        at = at + 1;
    }
    let ghost before = ports@;
    if at < ports.len() && ports[at] == port {
        assert(before[at as int] == port);
        return;
    }
    ports.insert(at, port);
    proof {
        assert(ports@[at as int] == port);
        assert forall|p: u16| ports@.contains(p) <==> before.contains(p) || p == port by {
            if before.contains(p) {
                let i = choose|i: int| 0 <= i < before.len() && before[i] == p;
                assert(ports@[if i < at {
                    i
                } else {
                    i + 1
                }] == p);
            }
            if ports@.contains(p) && p != port {
                let i = choose|i: int| 0 <= i < ports@.len() && ports@[i] == p;
                assert(before[if i < at {
                    i
                } else {
                    i - 1
                }] == p);
            }
        }
    }
}

/// The ports at which Codex Desktop is looked for, in ascending order, each once.
pub fn candidate_debug_ports(preferred: u16) -> (ports: Vec<u16>)
    ensures
        ascending(ports@),
        forall|port: u16|
            ports@.contains(port) <==> port == preferred || port == DEFAULT_CODEX_DEBUG_PORT
                || port == 9222 || port == 9223 || port == 9230 || port == 9231,
{
    let mut ports: Vec<u16> = Vec::new();
    insert_port(&mut ports, preferred);
    insert_port(&mut ports, DEFAULT_CODEX_DEBUG_PORT);
    insert_port(&mut ports, 9222);
    insert_port(&mut ports, 9223);
    insert_port(&mut ports, 9230);
    insert_port(&mut ports, 9231);
    ports
}

/// Whether the title or the URL of a target is one of Codex Desktop.
pub open spec fn looks_like_codex(target: TargetView) -> bool {
    let haystack = ascii_lowered(target.title + " "@ + target.url);
    contains_text(haystack, "codex"@) || contains_text(haystack, "app://"@) || contains_text(
        haystack,
        "chatgpt"@,
    )
}

/// Whether a target is a page of Codex Desktop that can be attached to.
pub open spec fn is_codex_page(target: TargetView) -> bool {
    &&& target.target_type == "page"@
    &&& target.web_socket_debugger_url matches Some(url)
    &&& url.len() > 0
    &&& looks_like_codex(target)
}

/// The pages of Codex Desktop that can be attached to.
pub open spec fn codex_pages(targets: Seq<TargetView>) -> Seq<TargetView> {
    targets.filter(|target: TargetView| is_codex_page(target))
}

/// Whether the title or the URL of a target is one of Codex Desktop.
pub fn target_matches_codex_desktop(target: &CdpTarget) -> (yes: bool)
    ensures
        yes == looks_like_codex(target@),
{
    let joint = target.title.clone().concat(" ").concat(target.url.as_str());
    let haystack = to_ascii_lowercase(joint.as_str());
    contains(haystack.as_str(), "codex") || contains(haystack.as_str(), "app://") || contains(
        haystack.as_str(),
        "chatgpt",
    )
}

/// Whether a target is a page of Codex Desktop that can be attached to.
fn is_attachable(target: &CdpTarget) -> (yes: bool)
    ensures
        yes == is_codex_page(target@),
{
    if !same_text(target.target_type.as_str(), "page") {
        return false;
    }
    match &target.web_socket_debugger_url {
        Some(url) => !url.as_str().is_empty() && target_matches_codex_desktop(target),
        None => false,
    }
}

/// The pages of Codex Desktop that can be attached to.
pub fn pick_codex_page_targets(targets: &Vec<CdpTarget>) -> (picked: Vec<CdpTarget>)
    ensures
        target_views(picked@) == codex_pages(target_views(targets@)),
{
    let ghost all = target_views(targets@);
    let ghost page = |target: TargetView| is_codex_page(target);
    let mut picked: Vec<CdpTarget> = Vec::new();
    let mut i: usize = 0;
    assert(target_views(picked@) == all.take(0).filter(page)) by {
        reveal_with_fuel(Seq::filter, 1);
    }
    while i < targets.len()
        invariant
            i <= targets@.len(),
            all == target_views(targets@),
            page == (|target: TargetView| is_codex_page(target)),
            target_views(picked@) == all.take(i as int).filter(page),
        decreases targets@.len() - i,
    {
        let ghost before = target_views(picked@);
        proof {
            all.take(i as int).lemma_filter_push(all[i as int], page);
            assert(all.take(i as int).push(all[i as int]) == all.take(i + 1));
        }
        if is_attachable(&targets[i]) {
            picked.push(targets[i].clone());
            assert(target_views(picked@) == before.push(all[i as int]));
        }
        i = i + 1;
        assert(target_views(picked@) == all.take(i as int).filter(page));
    }
    assert(all.take(all.len() as int) == all);
    picked
}

/// What was found at a port.
#[derive(Debug)]
pub enum PortAnswer {
    /// No debug listener answers.
    NoListener,
    /// A debug listener answers, but it lists no targets.
    NoTargets,
    Targets(Vec<CdpTarget>),
}

/// What has been learned so far of a port; what has not been asked for is missing.
#[derive(Debug)]
pub struct PortProbe {
    /// Whether a debug listener answers.
    pub answers: Option<bool>,
    /// The targets that it lists, where it lists them.
    pub listed: Option<Option<Vec<CdpTarget>>>,
}

/// What is done next to see what is at a port.
#[derive(Debug)]
pub enum ProbeStep {
    AskVersion,
    ListTargets,
    Done(PortAnswer),
}

/// What is done next to see what is at a port: targets are listed only where a debug listener
/// answers.
pub fn probe_port_step(probe: &PortProbe) -> (step: ProbeStep)
    ensures
        match step {
            ProbeStep::AskVersion => probe.answers is None,
            ProbeStep::ListTargets => probe.answers == Some(true) && probe.listed is None,
            ProbeStep::Done(PortAnswer::NoListener) => probe.answers == Some(false),
            ProbeStep::Done(PortAnswer::NoTargets) => probe.answers == Some(true) && probe.listed
                == Some(None::<Vec<CdpTarget>>),
            ProbeStep::Done(PortAnswer::Targets(targets)) => probe.answers == Some(true)
                && probe.listed is Some && probe.listed->0 is Some && target_views(targets@)
                == target_views(probe.listed->0->0@),
        },
{
    match probe.answers {
        None => {
            return ProbeStep::AskVersion;
        },
        Some(answers) => {
            if !answers {
                return ProbeStep::Done(PortAnswer::NoListener);
            }
        },
    }
    match &probe.listed {
        None => ProbeStep::ListTargets,
        Some(None) => ProbeStep::Done(PortAnswer::NoTargets),
        Some(Some(targets)) => ProbeStep::Done(PortAnswer::Targets(copy_targets(targets))),
    }
}

/// Whether a port was found to have a page of Codex Desktop.
pub open spec fn has_codex_page(answer: PortAnswer) -> bool {
    answer matches PortAnswer::Targets(targets) && codex_pages(target_views(targets@)).len() > 0
}

/// Whether a port was found to have a page of Codex Desktop.
fn shows_codex_page(answer: &PortAnswer) -> (yes: bool)
    ensures
        yes == has_codex_page(*answer),
{
    match answer {
        PortAnswer::Targets(targets) => {
            let picked = pick_codex_page_targets(targets);
            assert(target_views(picked@).len() == picked@.len());
            !picked.is_empty()
        },
        _ => false,
    }
}

/// What is done to find the port of a Codex Desktop that runs.
#[derive(Debug, PartialEq)]
pub enum PortStep {
    /// See what is at the port.
    Probe(u16),
    /// Codex Desktop is at the port, or at none.
    Done(Option<u16>),
}

/// What is done next to find Codex Desktop at one of `ports`, where `answers` says what was found
/// at the first of them. The first port with a page of Codex Desktop is taken, and no other.
pub fn find_codex_port_step(ports: &Vec<u16>, answers: &Vec<PortAnswer>) -> (step: PortStep)
    requires
        answers@.len() <= ports@.len(),
    ensures
        match step {
            PortStep::Probe(port) => answers@.len() < ports@.len() && port
                == ports@[answers@.len() as int] && forall|i: int|
                0 <= i < answers@.len() ==> !has_codex_page(#[trigger] answers@[i]),
            PortStep::Done(Some(port)) => exists|i: int|
                0 <= i < answers@.len() && has_codex_page(#[trigger] answers@[i]) && port
                    == ports@[i] && forall|j: int|
                    0 <= j < i ==> !has_codex_page(#[trigger] answers@[j]),
            PortStep::Done(None) => answers@.len() == ports@.len() && forall|i: int|
                0 <= i < answers@.len() ==> !has_codex_page(#[trigger] answers@[i]),
        },
{
    let mut i: usize = 0;
    while i < answers.len()
        invariant
            i <= answers@.len() <= ports@.len(),
            forall|j: int| 0 <= j < i ==> !has_codex_page(#[trigger] answers@[j]),
        decreases answers@.len() - i,
    {
        if shows_codex_page(&answers[i]) {
            assert(has_codex_page(answers@[i as int]));
            return PortStep::Done(Some(ports[i]));
        }
        i = i + 1;
    }
    if answers.len() < ports.len() {
        PortStep::Probe(ports[answers.len()])
    } else {
        PortStep::Done(None)
    }
}

/// What is done to find a free port.
#[derive(Debug, Clone, Copy, PartialEq)]
pub enum FreePortStep {
    /// See whether the port can be bound.
    Try(u16),
    Done(u16),
}

/// What is done next to find a free port from `start` on, where `refused` ports could not be
/// bound: two hundred are tried, and where none is free `start` is settled for.
pub fn pick_free_debug_port_step(start: u16, refused: u16) -> (step: FreePortStep)
    requires
        start + 200 <= u16::MAX,
    ensures
        step == if refused < 200 {
            FreePortStep::Try((start + refused) as u16)
        } else {
            FreePortStep::Done(start)
        },
{
    if refused < 200 {
        FreePortStep::Try(start + refused)
    } else {
        FreePortStep::Done(start)
    }
}

/// The arguments with which Codex Desktop opens a debug listener at `port`.
pub open spec fn debug_arguments(port: u16) -> Seq<Seq<char>> {
    let digits = decimal_digits(port as nat);
    seq![
        "--remote-debugging-port="@ + digits,
        "--remote-allow-origins=http://127.0.0.1:"@ + digits + ",http://localhost:"@ + digits,
    ]
}

/// The arguments with which Codex Desktop opens a debug listener at `port`.
pub fn launch_arguments(port: u16) -> (arguments: [String; 2])
    ensures
        texts(arguments@) == debug_arguments(port),
{
    let digits = decimal(port as u64);
    let arguments = [
        "--remote-debugging-port=".to_owned().concat(digits.as_str()),
        "--remote-allow-origins=http://127.0.0.1:".to_owned().concat(digits.as_str()).concat(
            ",http://localhost:",
        ).concat(digits.as_str()),
    ];
    assert(texts(arguments@) == debug_arguments(port));
    arguments
}

/// What happened while a page of Codex Desktop is waited for.
#[derive(Debug)]
pub enum ReadyEvent {
    /// The wait begins.
    Started,
    /// The clock was read: whether the deadline is still to come.
    Clock(bool),
    /// The targets were listed, or could not be.
    Listed(Option<Vec<CdpTarget>>),
    Slept,
}

/// What is done to wait for a page of Codex Desktop.
#[derive(Debug, Clone, Copy, PartialEq)]
pub enum ReadyStep {
    ReadClock,
    ListTargets,
    /// Sleep for so many milliseconds.
    Sleep(u64),
    /// There is a page, or there was none before the deadline.
    Done(bool),
}

/// Whether a page of Codex Desktop was listed.
pub open spec fn lists_codex_page(listed: Option<Vec<CdpTarget>>) -> bool {
    listed matches Some(targets) && codex_pages(target_views(targets@)).len() > 0
}

/// What is done next to wait for a page of Codex Desktop: until the deadline the targets are
/// listed every half second.
pub fn wait_until_codex_page_ready_step(event: &ReadyEvent) -> (step: ReadyStep)
    ensures
        step == match *event {
            ReadyEvent::Started => ReadyStep::ReadClock,
            ReadyEvent::Clock(true) => ReadyStep::ListTargets,
            ReadyEvent::Clock(false) => ReadyStep::Done(false),
            ReadyEvent::Listed(listed) => if lists_codex_page(listed) {
                ReadyStep::Done(true)
            } else {
                ReadyStep::Sleep(500)
            },
            ReadyEvent::Slept => ReadyStep::ReadClock,
        },
{
    match event {
        ReadyEvent::Started => ReadyStep::ReadClock,
        ReadyEvent::Clock(before) => if *before {
            ReadyStep::ListTargets
        } else {
            ReadyStep::Done(false)
        },
        ReadyEvent::Listed(Some(targets)) => {
            let picked = pick_codex_page_targets(targets);
            assert(target_views(picked@).len() == picked@.len());
            if picked.is_empty() {
                ReadyStep::Sleep(500)
            } else {
                ReadyStep::Done(true)
            }
        },
        ReadyEvent::Listed(None) => ReadyStep::Sleep(500),
        ReadyEvent::Slept => ReadyStep::ReadClock,
    }
}

/// What has been learned and done so far to reach Codex Desktop; what has not been is missing.
#[derive(Debug)]
pub struct Reach {
    /// The port at which Codex Desktop was found, if at any.
    pub found: Option<Option<u16>>,
    /// The path of the Codex Desktop that runs, if one does.
    pub running: Option<Option<String>>,
    /// Whether the executable was found.
    pub executable: Option<bool>,
    /// The port that was picked.
    pub port: Option<u16>,
    /// What came of the launch.
    pub launched: Option<Result<(), String>>,
    /// Whether the executable has been remembered.
    pub remembered: bool,
    /// Whether a page appeared in time.
    pub ready: Option<bool>,
}

/// What is done next to reach Codex Desktop.
#[derive(Debug, PartialEq)]
pub enum ReachStep {
    FindPort,
    DetectRunning,
    ResolveExecutable,
    /// Pick a free port, from this one on.
    PickPort(u16),
    /// Launch Codex Desktop with a debug listener at this port.
    Launch(u16),
    Remember,
    /// Wait for a page at this port, for so many seconds.
    AwaitPage(u16, u64),
    Done(Result<u16, String>),
}

/// What a [`ReachStep`] stands for.
pub enum ReachStepView {
    FindPort,
    DetectRunning,
    ResolveExecutable,
    PickPort(u16),
    Launch(u16),
    Remember,
    AwaitPage(u16, u64),
    Done(Result<u16, Seq<char>>),
}

impl View for ReachStep {
    type V = ReachStepView;

    open spec fn view(&self) -> ReachStepView {
        match self {
            ReachStep::FindPort => ReachStepView::FindPort,
            ReachStep::DetectRunning => ReachStepView::DetectRunning,
            ReachStep::ResolveExecutable => ReachStepView::ResolveExecutable,
            ReachStep::PickPort(start) => ReachStepView::PickPort(*start),
            ReachStep::Launch(port) => ReachStepView::Launch(*port),
            ReachStep::Remember => ReachStepView::Remember,
            ReachStep::AwaitPage(port, seconds) => ReachStepView::AwaitPage(*port, *seconds),
            ReachStep::Done(Ok(port)) => ReachStepView::Done(Ok(*port)),
            ReachStep::Done(Err(message)) => ReachStepView::Done(Err(message@)),
        }
    }
}

/// What is said where Codex Desktop runs without a debug listener.
pub open spec fn runs_without_cdp(path: Seq<char>) -> Seq<char> {
    "Codex Desktop is already running at "@ + path
        + " but without CDP. Fully quit Codex Desktop, then click Unlock again so CC Switch can relaunch it with remote debugging."@
}

/// What is said where no page appeared in time.
pub open spec fn no_page_in_time(port: u16) -> Seq<char> {
    "Codex Desktop was launched with remote debugging on port "@ + decimal_digits(port as nat)
        + ", but no renderer target appeared within 45 seconds. If Codex opened without CDP, fully quit it and try again."@
}

/// What is done next to reach Codex Desktop, once it is known that it neither listens nor runs.
pub open spec fn launch_step(reach: Reach) -> ReachStepView {
    match reach.executable {
        None => ReachStepView::ResolveExecutable,
        Some(false) => ReachStepView::Done(
            Err(
                "Codex Desktop executable not found. Install or start Codex Desktop once so CC Switch can locate it."@,
            ),
        ),
        Some(true) => match reach.port {
            None => ReachStepView::PickPort(DEFAULT_CODEX_DEBUG_PORT),
            Some(port) => match reach.launched {
                None => ReachStepView::Launch(port),
                Some(Err(error)) => ReachStepView::Done(Err(error@)),
                Some(Ok(_)) => if !reach.remembered {
                    ReachStepView::Remember
                } else {
                    match reach.ready {
                        None => ReachStepView::AwaitPage(port, 45),
                        Some(true) => ReachStepView::Done(Ok(port)),
                        Some(false) => ReachStepView::Done(Err(no_page_in_time(port))),
                    }
                },
            },
        },
    }
}

/// What is done next to reach Codex Desktop: it is launched only where it does not run.
pub open spec fn reach_step(reach: Reach) -> ReachStepView {
    match reach.found {
        None => ReachStepView::FindPort,
        Some(Some(port)) => ReachStepView::Done(Ok(port)),
        Some(None) => match reach.running {
            None => ReachStepView::DetectRunning,
            Some(Some(path)) => ReachStepView::Done(Err(runs_without_cdp(path@))),
            Some(None) => launch_step(reach),
        },
    }
}

impl Reach {
    /// Before anything has been learned or done.
    pub fn new() -> (reach: Reach)
        ensures
            reach_step(reach) == ReachStepView::FindPort,
            reach.running is None,
            reach.executable is None,
            reach.port is None,
            reach.launched is None,
            !reach.remembered,
            reach.ready is None,
    {
        Reach {
            found: None,
            running: None,
            executable: None,
            port: None,
            launched: None,
            remembered: false,
            ready: None,
        }
    }
}

/// What is done next to reach Codex Desktop.
pub fn ensure_codex_running_with_cdp_step(reach: &Reach) -> (step: ReachStep)
    ensures
        step@ == reach_step(*reach),
{
    match &reach.found {
        None => {
            return ReachStep::FindPort;
        },
        Some(Some(port)) => {
            return ReachStep::Done(Ok(*port));
        },
        Some(None) => {},
    }
    match &reach.running {
        None => {
            return ReachStep::DetectRunning;
        },
        Some(Some(path)) => {
            return ReachStep::Done(
                Err(
                    "Codex Desktop is already running at ".to_owned().concat(path.as_str()).concat(
                        " but without CDP. Fully quit Codex Desktop, then click Unlock again so CC Switch can relaunch it with remote debugging.",
                    ),
                ),
            );
        },
        Some(None) => {},
    }
    match reach.executable {
        None => {
            return ReachStep::ResolveExecutable;
        },
        Some(found) => {
            if !found {
                return ReachStep::Done(
                    Err(
                        "Codex Desktop executable not found. Install or start Codex Desktop once so CC Switch can locate it.".to_owned(),
                    ),
                );
            }
        },
    }
    let port: u16 = match reach.port {
        None => {
            return ReachStep::PickPort(DEFAULT_CODEX_DEBUG_PORT);
        },
        Some(port) => port,
    };
    match &reach.launched {
        None => {
            return ReachStep::Launch(port);
        },
        Some(Err(error)) => {
            return ReachStep::Done(Err(error.clone()));
        },
        Some(Ok(_)) => {},
    }
    if !reach.remembered {
        return ReachStep::Remember;
    }
    match reach.ready {
        None => ReachStep::AwaitPage(port, 45),
        Some(ready) => if ready {
            ReachStep::Done(Ok(port))
        } else {
            ReachStep::Done(
                Err(
                    "Codex Desktop was launched with remote debugging on port ".to_owned().concat(
                        decimal(port as u64).as_str(),
                    ).concat(
                        ", but no renderer target appeared within 45 seconds. If Codex opened without CDP, fully quit it and try again.",
                    ),
                ),
            )
        },
    }
}

/// Law: Codex Desktop is launched only where it was found neither to listen nor to run, and
/// where its executable was found.
pub proof fn law_a_live_session_is_left_alone(reach: Reach)
    ensures
        reach_step(reach) is Launch ==> reach.found == Some(None::<u16>) && reach.running == Some(
            None::<String>,
        ) && reach.executable == Some(true) && reach.launched is None,
        reach_step(reach) is Remember ==> reach.launched matches Some(Ok(_)),
{
}

/// Law: a port is given only where a page of Codex Desktop was found at it, or appeared at it
/// after the launch.
pub proof fn law_a_reached_port_has_a_page(reach: Reach, port: u16)
    ensures
        reach_step(reach) == ReachStepView::Done(Ok::<u16, Seq<char>>(port)) ==> reach.found
            == Some(Some(port)) || (reach.port == Some(port) && reach.ready == Some(true)),
{
}

/// What has been learned so far of how Codex Desktop is; what has not been looked for is missing.
#[derive(Debug)]
pub struct Survey {
    /// The port at which Codex Desktop was found, if at any.
    pub found: Option<Option<u16>>,
    /// The path of the Codex Desktop that runs, if one does.
    pub running: Option<Option<String>>,
    /// The path of the executable, if it was found.
    pub executable: Option<Option<String>>,
}

/// What is done next to learn how Codex Desktop is.
#[derive(Debug, PartialEq)]
pub enum SurveyStep {
    FindPort,
    DetectRunning,
    ResolveExecutable,
    Done(CodexCdpStatus),
}

/// What a [`SurveyStep`] stands for.
pub enum SurveyStepView {
    FindPort,
    DetectRunning,
    ResolveExecutable,
    Done(StatusView),
}

impl View for SurveyStep {
    type V = SurveyStepView;

    open spec fn view(&self) -> SurveyStepView {
        match self {
            SurveyStep::FindPort => SurveyStepView::FindPort,
            SurveyStep::DetectRunning => SurveyStepView::DetectRunning,
            SurveyStep::ResolveExecutable => SurveyStepView::ResolveExecutable,
            SurveyStep::Done(status) => SurveyStepView::Done(status@),
        }
    }
}

/// The status of a Codex Desktop that listens at `port`.
pub open spec fn ready_status(port: u16, running: Option<Seq<char>>) -> StatusView {
    StatusView {
        state: "cdp_ready"@,
        message: "Codex Desktop is running with CDP on port "@ + decimal_digits(port as nat)
            + "; thinking strength is injectable."@,
        port: Some(port),
        executable: running,
    }
}

/// The status of a Codex Desktop that runs without a debug listener.
pub open spec fn unreachable_status(path: Seq<char>) -> StatusView {
    StatusView {
        state: "running_without_cdp"@,
        message: "Codex Desktop is running at "@ + path
            + " but without CDP. Fully quit Codex Desktop, then click Unlock so CC Switch can relaunch it with remote debugging."@,
        port: None,
        executable: Some(path),
    }
}

/// The status of a Codex Desktop that does not run.
pub open spec fn idle_status(path: Seq<char>) -> StatusView {
    StatusView {
        state: "not_running"@,
        message: "Codex Desktop is not running. Found "@ + path
            + "; Unlock will relaunch it with remote debugging and inject the thinking strength patch."@,
        port: None,
        executable: Some(path),
    }
}

/// The status where there is no Codex Desktop.
pub open spec fn missing_status() -> StatusView {
    StatusView {
        state: "not_found"@,
        message: "Codex Desktop executable not found. Install or start Codex Desktop once so CC Switch can locate it."@,
        port: None,
        executable: None,
    }
}

/// What is done next to learn how Codex Desktop is.
pub open spec fn survey_step(survey: Survey) -> SurveyStepView {
    match survey.found {
        None => SurveyStepView::FindPort,
        Some(Some(port)) => match survey.running {
            None => SurveyStepView::DetectRunning,
            Some(running) => SurveyStepView::Done(ready_status(port, string_view(running))),
        },
        Some(None) => match survey.running {
            None => SurveyStepView::DetectRunning,
            Some(Some(path)) => SurveyStepView::Done(unreachable_status(path@)),
            Some(None) => match survey.executable {
                None => SurveyStepView::ResolveExecutable,
                Some(Some(path)) => SurveyStepView::Done(idle_status(path@)),
                Some(None) => SurveyStepView::Done(missing_status()),
            },
        },
    }
}

impl Survey {
    /// Before anything has been learned.
    pub fn new() -> (survey: Survey)
        ensures
            survey_step(survey) == SurveyStepView::FindPort,
            survey.running is None,
            survey.executable is None,
    {
        Survey { found: None, running: None, executable: None }
    }
}

/// A path that may be missing, copied.
fn copy_path(path: &Option<String>) -> (copy: Option<String>)
    ensures
        string_view(copy) == string_view(*path),
{
    match path {
        Some(path) => Some(path.clone()),
        None => None,
    }
}

/// What is done next to learn how Codex Desktop is.
pub fn codex_cdp_status_step(survey: &Survey) -> (step: SurveyStep)
    ensures
        step@ == survey_step(*survey),
{
    let found = match &survey.found {
        None => {
            return SurveyStep::FindPort;
        },
        Some(found) => found,
    };
    let running = match &survey.running {
        None => {
            return SurveyStep::DetectRunning;
        },
        Some(running) => running,
    };
    if let Some(port) = found {
        return SurveyStep::Done(
            CodexCdpStatus {
                state: "cdp_ready",
                message: "Codex Desktop is running with CDP on port ".to_owned().concat(
                    decimal(*port as u64).as_str(),
                ).concat("; thinking strength is injectable."),
                port: Some(*port),
                executable: copy_path(running),
            },
        );
    }
    if let Some(path) = running {
        return SurveyStep::Done(
            CodexCdpStatus {
                state: "running_without_cdp",
                message: "Codex Desktop is running at ".to_owned().concat(path.as_str()).concat(
                    " but without CDP. Fully quit Codex Desktop, then click Unlock so CC Switch can relaunch it with remote debugging.",
                ),
                port: None,
                executable: Some(path.clone()),
            },
        );
    }
    match &survey.executable {
        None => SurveyStep::ResolveExecutable,
        Some(Some(path)) => SurveyStep::Done(
            CodexCdpStatus {
                state: "not_running",
                message: "Codex Desktop is not running. Found ".to_owned().concat(
                    path.as_str(),
                ).concat(
                    "; Unlock will relaunch it with remote debugging and inject the thinking strength patch.",
                ),
                port: None,
                executable: Some(path.clone()),
            },
        ),
        Some(None) => SurveyStep::Done(
            CodexCdpStatus {
                state: "not_found",
                message: "Codex Desktop executable not found. Install or start Codex Desktop once so CC Switch can locate it.".to_owned(),
                port: None,
                executable: None,
            },
        ),
    }
}

/// Law: a status names the port at which Codex Desktop listens, if it does at any, and the
/// executable that runs; where neither was found it names the installed executable, if there is
/// one.
pub proof fn law_status_says_what_was_found(survey: Survey)
    requires
        survey_step(survey) is Done,
    ensures
        survey_step(survey)->Done_0.port == survey.found->0,
        survey.found->0 is Some || survey.running->0 is Some ==> survey_step(
            survey,
        )->Done_0.executable == string_view(survey.running->0),
        survey.found->0 is None && survey.running->0 is None ==> survey_step(
            survey,
        )->Done_0.executable == string_view(survey.executable->0),
{
}

} // verus!
