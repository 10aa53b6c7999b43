//! What finding, starting and attaching to Codex Desktop promises, said of what was learned.

use vstd::prelude::*;

use crate::codex_desktop::{
    base_urls, codex_pages, debug_arguments, first_targets, has_codex_page, is_codex_page,
    list_step, list_urls, lists_codex_page, looks_like_codex, reach_step, survey_step,
    target_views, CdpTarget, ListAnswerView, ListStepView, PortAnswer, Reach, ReachStepView,
    StatusView, Survey, SurveyStepView, TargetView, DEFAULT_CODEX_DEBUG_PORT,
};
use crate::text::{ascii_lowered, contains_text, decimal_digits, occurs_at};

verus! {

/// Law: a debug listener is looked for on both families of the loopback, Codex Desktop is started
/// with the arguments that open one at the port and let both names of the loopback ask it, and
/// the port for it is counted from 9229 on.
pub proof fn law_where_a_listener_is(port: u16)
    ensures
        base_urls(port) == seq![
            "http://127.0.0.1:"@ + decimal_digits(port as nat),
            "http://[::1]:"@ + decimal_digits(port as nat),
        ],
        list_urls(port) == seq![
            "http://127.0.0.1:"@ + decimal_digits(port as nat) + "/json"@,
            "http://[::1]:"@ + decimal_digits(port as nat) + "/json"@,
        ],
        debug_arguments(port) == seq![
            "--remote-debugging-port="@ + decimal_digits(port as nat),
            "--remote-allow-origins=http://127.0.0.1:"@ + decimal_digits(port as nat)
                + ",http://localhost:"@ + decimal_digits(port as nat),
        ],
        DEFAULT_CODEX_DEBUG_PORT == 9229,
{
}

/// The first list of targets is taken.
proof fn lemma_first_targets(answers: Seq<ListAnswerView>)
    ensures
        match first_targets(answers) {
            Some(targets) => exists|i: int|
                0 <= i < answers.len() && #[trigger] answers[i] == ListAnswerView::Targets(targets)
                    && forall|j: int| 0 <= j < i ==> !(#[trigger] answers[j] is Targets),
            None => forall|i: int| 0 <= i < answers.len() ==> !(#[trigger] answers[i] is Targets),
        },
    decreases answers.len(),
{
    if answers.len() > 0 && !(answers[0] is Targets) {
        let rest = answers.drop_first();
        lemma_first_targets(rest);
        match first_targets(rest) {
            Some(targets) => {
                let i = choose|i: int|
                    0 <= i < rest.len() && #[trigger] rest[i] == ListAnswerView::Targets(targets)
                        && forall|j: int| 0 <= j < i ==> !(#[trigger] rest[j] is Targets);
                assert(answers[i + 1] == ListAnswerView::Targets(targets));
                assert forall|j: int| 0 <= j < i + 1 implies !(#[trigger] answers[j] is Targets) by {
                    if j > 0 {
                        assert(answers[j] == rest[j - 1]);
                    }
                }
            },
            None => {
                assert forall|i: int| 0 <= i < answers.len() implies !(
                #[trigger] answers[i] is Targets) by {
                    if i > 0 {
                        assert(answers[i] == rest[i - 1]);
                    }
                }
            },
        }
    } else if answers.len() > 0 {
        assert(answers[0] == ListAnswerView::Targets(first_targets(answers)->0));
    }
}

/// Law: the first list of targets that is given is taken, whatever else was answered.
pub proof fn law_the_first_list_is_taken(port: u16, answers: Seq<ListAnswerView>, i: int)
    requires
        0 <= i < answers.len(),
        answers[i] is Targets,
        forall|j: int| 0 <= j < i ==> !(#[trigger] answers[j] is Targets),
    ensures
        list_step(port, answers) == ListStepView::Done(
            Ok::<Seq<TargetView>, Seq<char>>(answers[i]->Targets_0),
        ),
{
    lemma_first_targets(answers);
    let found = first_targets(answers);
    if found is Some {
        let k = choose|k: int|
            0 <= k < answers.len() && #[trigger] answers[k] == ListAnswerView::Targets(found->0)
                && forall|j: int| 0 <= j < k ==> !(#[trigger] answers[j] is Targets);
        if k < i {
            assert(!(answers[k] is Targets));
        }
        if i < k {
            assert(!(answers[i] is Targets));
        }
    }
}

/// What is said of a URL that gave no list: the reason alone where no request could be made, and
/// else the reason behind the URL.
pub open spec fn complaint(url: Seq<char>, answer: ListAnswerView) -> Seq<char> {
    match answer {
        ListAnswerView::NoClient(error) => error,
        ListAnswerView::Failed(error) => url + ": "@ + error,
        ListAnswerView::Invalid(error) => url + ": invalid JSON: "@ + error,
        ListAnswerView::Targets(_) => Seq::empty(),
    }
}

/// Law: while no list is given, the one URL is asked and then the other; and when neither gave
/// one, both reasons are told.
pub proof fn law_both_families_are_asked(port: u16, answers: Seq<ListAnswerView>)
    requires
        forall|i: int| 0 <= i < answers.len() ==> !(#[trigger] answers[i] is Targets),
    ensures
        answers.len() == 0 ==> list_step(port, answers) == ListStepView::Get(
            "http://127.0.0.1:"@ + decimal_digits(port as nat) + "/json"@,
        ),
        answers.len() == 1 ==> list_step(port, answers) == ListStepView::Get(
            "http://[::1]:"@ + decimal_digits(port as nat) + "/json"@,
        ),
        answers.len() >= 2 ==> list_step(port, answers) == ListStepView::Done(
            Err::<Seq<TargetView>, Seq<char>>(
                complaint("http://127.0.0.1:"@ + decimal_digits(port as nat) + "/json"@, answers[0])
                    + "; "@ + complaint(
                    "http://[::1]:"@ + decimal_digits(port as nat) + "/json"@,
                    answers[1],
                ),
            ),
        ),
{
    lemma_first_targets(answers);
    law_where_a_listener_is(port);
    if answers.len() >= 2 {
        let one = complaint(
            "http://127.0.0.1:"@ + decimal_digits(port as nat) + "/json"@,
            answers[0],
        );
        let other = complaint(
            "http://[::1]:"@ + decimal_digits(port as nat) + "/json"@,
            answers[1],
        );
        crate::text_laws::law_joining_in_parts(seq![one], seq![other], "; "@);
        crate::text_laws::law_joining_in_parts(seq![other], seq![one], "; "@);
        assert(seq![one] + seq![other] == seq![one, other]);
        assert(seq![seq![one][0]] == seq![one]);
        assert(seq![seq![other][0]] == seq![other]);
    }
}

/// Whether a word stands in a text, whatever the case of its letters.
pub open spec fn mentions(text: Seq<char>, word: Seq<char>) -> bool {
    exists|at: int|
        0 <= at <= text.len() - word.len() && #[trigger] ascii_lowered(
            text.subrange(at, at + word.len()),
        ) == word
}

/// Whether a text mentions Codex, its pages' scheme or ChatGPT.
pub open spec fn mentions_codex(text: Seq<char>) -> bool {
    mentions(text, "codex"@) || mentions(text, "app://"@) || mentions(text, "chatgpt"@)
}

/// A word without a space in it stands in two texts with a space between them if and only if it
/// stands in one of them.
proof fn lemma_mentioned(title: Seq<char>, url: Seq<char>, word: Seq<char>)
    requires
        word.len() > 0,
        !word.contains(' '),
    ensures
        contains_text(ascii_lowered(title + " "@ + url), word) <==> mentions(title, word)
            || mentions(url, word),
{
    reveal_strlit(" ");
    let text = title + " "@ + url;
    let lowered = ascii_lowered(text);
    let n = title.len() as int;
    assert(text[n] == ' ');
    assert(lowered[n] == ' ');
    if contains_text(lowered, word) {
        let at = choose|at: int| occurs_at(lowered, word, at);
        assert(lowered.subrange(at, at + word.len()) == word);
        if at + word.len() <= n {
            assert(title.subrange(at, at + word.len()) == text.subrange(at, at + word.len()));
            assert(ascii_lowered(title.subrange(at, at + word.len())) == word);
        } else if at > n {
            let there = at - n - 1;
            assert(url.subrange(there, there + word.len()) == text.subrange(at, at + word.len()));
            assert(ascii_lowered(url.subrange(there, there + word.len())) == word);
        } else {
            assert(lowered.subrange(at, at + word.len())[n - at] == ' ');
            assert(word[n - at] == ' ');
        }
    }
    if mentions(title, word) {
        let at = choose|at: int|
            0 <= at <= title.len() - word.len() && #[trigger] ascii_lowered(
                title.subrange(at, at + word.len()),
            ) == word;
        assert(title.subrange(at, at + word.len()) == text.subrange(at, at + word.len()));
        assert(lowered.subrange(at, at + word.len()) == ascii_lowered(
            text.subrange(at, at + word.len()),
        ));
        assert(occurs_at(lowered, word, at));
    }
    if mentions(url, word) {
        let there = choose|at: int|
            0 <= at <= url.len() - word.len() && #[trigger] ascii_lowered(
                url.subrange(at, at + word.len()),
            ) == word;
        let at = there + n + 1;
        assert(url.subrange(there, there + word.len()) == text.subrange(at, at + word.len()));
        assert(lowered.subrange(at, at + word.len()) == ascii_lowered(
            text.subrange(at, at + word.len()),
        ));
        assert(occurs_at(lowered, word, at));
    }
}

/// Law: a target is taken for one of Codex Desktop if and only if its title or its URL mentions
/// Codex, the scheme of its pages or ChatGPT, whatever the case of the letters.
pub proof fn law_codex_is_known_by_title_or_url(target: TargetView)
    ensures
        looks_like_codex(target) <==> mentions_codex(target.title) || mentions_codex(target.url),
{
    reveal_strlit("codex");
    reveal_strlit("app://");
    reveal_strlit("chatgpt");
    lemma_mentioned(target.title, target.url, "codex"@);
    lemma_mentioned(target.title, target.url, "app://"@);
    lemma_mentioned(target.title, target.url, "chatgpt"@);
}

/// Law: targets are looked at one by one, and those are kept, in their order, that are pages, have
/// an address to attach to, and mention Codex in their title or their URL.
pub proof fn law_pages_are_picked_one_by_one(targets: Seq<TargetView>, target: TargetView)
    ensures
        codex_pages(Seq::empty()) == Seq::<TargetView>::empty(),
        ({
            let picked = target.target_type == "page"@ && (
            target.web_socket_debugger_url matches Some(url) && url.len() > 0) && (mentions_codex(
                target.title,
            ) || mentions_codex(target.url));
            &&& picked ==> codex_pages(targets.push(target)) == codex_pages(targets).push(target)
            &&& !picked ==> codex_pages(targets.push(target)) == codex_pages(targets)
        }),
{
    let page = |target: TargetView| is_codex_page(target);
    law_codex_is_known_by_title_or_url(target);
    targets.lemma_filter_push(target, page);
    reveal_with_fuel(Seq::filter, 1);
}

/// Whether a target is a page with an address to attach to that mentions Codex.
pub open spec fn can_be_attached_to(target: CdpTarget) -> bool {
    &&& target.target_type@ == "page"@
    &&& target.web_socket_debugger_url matches Some(url) && url@.len() > 0
    &&& mentions_codex(target.title@) || mentions_codex(target.url@)
}

/// Law: a page of Codex Desktop is found at a port, or listed while one is waited for, if and only
/// if some target that was listed is a page with an address to attach to that mentions Codex.
pub proof fn law_when_a_page_is_found(targets: Vec<CdpTarget>)
    ensures
        has_codex_page(PortAnswer::Targets(targets)) <==> exists|i: int|
            0 <= i < targets@.len() && can_be_attached_to(#[trigger] targets@[i]),
        lists_codex_page(Some(targets)) <==> exists|i: int|
            0 <= i < targets@.len() && can_be_attached_to(#[trigger] targets@[i]),
        !has_codex_page(PortAnswer::NoListener),
        !has_codex_page(PortAnswer::NoTargets),
        !lists_codex_page(None),
{
    let all = target_views(targets@);
    let page = |target: TargetView| is_codex_page(target);
    let picked = codex_pages(all);
    assert forall|i: int| 0 <= i < targets@.len() implies can_be_attached_to(
        #[trigger] targets@[i],
    ) == is_codex_page(all[i]) by {
        law_codex_is_known_by_title_or_url(all[i]);
    }
    if picked.len() > 0 {
        all.lemma_filter_pred(page, 0);
        all.lemma_filter_contains_rev(page, picked[0]);
        let i = choose|i: int| 0 <= i < all.len() && all[i] == picked[0];
        assert(can_be_attached_to(targets@[i]));
    }
    if exists|i: int| 0 <= i < targets@.len() && can_be_attached_to(#[trigger] targets@[i]) {
        let i = choose|i: int|
            0 <= i < targets@.len() && can_be_attached_to(#[trigger] targets@[i]);
        assert(page(all[i]));
        all.lemma_filter_contains(page, i);
    }
}

/// Law: the steps to reach Codex Desktop. First a port is looked for at which it listens, and one
/// that is found is the outcome. Then it is looked whether it runs; if it does, it is not touched
/// and its path is told. Then the executable is looked for, and a port is picked from the default
/// one on. It is launched at that port, remembered if that went well, and waited for, 45 seconds.
pub proof fn law_how_codex_is_reached(reach: Reach)
    ensures
        reach.found is None ==> reach_step(reach) == ReachStepView::FindPort,
        reach.found matches Some(Some(port)) ==> reach_step(reach) == ReachStepView::Done(
            Ok::<u16, Seq<char>>(port),
        ),
        reach.found matches Some(None) ==> {
            &&& reach.running is None ==> reach_step(reach) == ReachStepView::DetectRunning
            &&& reach.running matches Some(Some(path)) ==> reach_step(reach) == ReachStepView::Done(
                Err::<u16, Seq<char>>(
                    "Codex Desktop is already running at "@ + path@
                        + " but without CDP. Fully quit Codex Desktop, then click Unlock again so CC Switch can relaunch it with remote debugging."@,
                ),
            )
            &&& reach.running matches Some(None) ==> {
                &&& reach.executable is None ==> reach_step(reach)
                    == ReachStepView::ResolveExecutable
                &&& reach.executable == Some(false) ==> reach_step(reach) == ReachStepView::Done(
                    Err::<u16, Seq<char>>(
                        "Codex Desktop executable not found. Install or start Codex Desktop once so CC Switch can locate it."@,
                    ),
                )
                &&& reach.executable == Some(true) && reach.port is None ==> reach_step(reach)
                    == ReachStepView::PickPort(9229)
                &&& reach.executable == Some(true) && reach.port is Some ==> {
                    let port = reach.port->0;
                    &&& reach.launched is None ==> reach_step(reach) == ReachStepView::Launch(port)
                    &&& reach.launched matches Some(Err(error)) ==> reach_step(reach)
                        == ReachStepView::Done(Err::<u16, Seq<char>>(error@))
                    &&& reach.launched is Some && reach.launched->0 is Ok && !reach.remembered
                        ==> reach_step(reach) == ReachStepView::Remember
                    &&& reach.launched is Some && reach.launched->0 is Ok && reach.remembered ==> {
                        &&& reach.ready is None ==> reach_step(reach) == ReachStepView::AwaitPage(
                            port,
                            45,
                        )
                        &&& reach.ready == Some(true) ==> reach_step(reach) == ReachStepView::Done(
                            Ok::<u16, Seq<char>>(port),
                        )
                        &&& reach.ready == Some(false) ==> reach_step(reach) == ReachStepView::Done(
                            Err::<u16, Seq<char>>(
                                "Codex Desktop was launched with remote debugging on port "@
                                    + decimal_digits(port as nat)
                                    + ", but no renderer target appeared within 45 seconds. If Codex opened without CDP, fully quit it and try again."@,
                            ),
                        )
                    }
                }
            }
        },
{
}

/// Law: what is told of Codex Desktop. Where it listens, the port and what runs; where it only
/// runs, its path; where it does neither, where it is installed, or that it is not.
pub proof fn law_what_is_told_of_codex(survey: Survey)
    ensures
        survey.found is None ==> survey_step(survey) == SurveyStepView::FindPort,
        survey.found is Some && survey.running is None ==> survey_step(survey)
            == SurveyStepView::DetectRunning,
        survey.found matches Some(Some(port)) ==> (survey.running matches Some(running)
            ==> survey_step(survey) == SurveyStepView::Done(
            (StatusView {
                state: "cdp_ready"@,
                message: "Codex Desktop is running with CDP on port "@ + decimal_digits(port as nat)
                    + "; thinking strength is injectable."@,
                port: Some(port),
                executable: match running {
                    Some(path) => Some(path@),
                    None => None,
                },
            }),
        )),
        survey.found matches Some(None) ==> {
            &&& survey.running matches Some(Some(path)) ==> survey_step(survey)
                == SurveyStepView::Done(
                (StatusView {
                    state: "running_without_cdp"@,
                    message: "Codex Desktop is running at "@ + path@
                        + " but without CDP. Fully quit Codex Desktop, then click Unlock so CC Switch can relaunch it with remote debugging."@,
                    port: None,
                    executable: Some(path@),
                }),
            )
            &&& survey.running matches Some(None) ==> {
                &&& survey.executable is None ==> survey_step(survey)
                    == SurveyStepView::ResolveExecutable
                &&& survey.executable matches Some(Some(path)) ==> survey_step(survey)
                    == SurveyStepView::Done(
                    (StatusView {
                        state: "not_running"@,
                        message: "Codex Desktop is not running. Found "@ + path@
                            + "; Unlock will relaunch it with remote debugging and inject the thinking strength patch."@,
                        port: None,
                        executable: Some(path@),
                    }),
                )
                &&& survey.executable matches Some(None) ==> survey_step(survey)
                    == SurveyStepView::Done(
                    (StatusView {
                        state: "not_found"@,
                        message: "Codex Desktop executable not found. Install or start Codex Desktop once so CC Switch can locate it."@,
                        port: None,
                        executable: None,
                    }),
                )
            }
        },
{
}

} // verus!
