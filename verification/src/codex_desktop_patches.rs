//! What is changed in Codex Desktop so that reasoning effort can be chosen for every model.

use vstd::prelude::*;
use vstd::string::StringExecFns;

use crate::codex_desktop::CodexDesktop;
use crate::json::{
    json_text, lemma_position_is, owned_view, parsed_json, push_member, ref_view, views, Json, JsonView,
};
use crate::text::{
    decimal, decimal_digits, join, joined, replace, replaced, same_text, str_view,
    string_view, texts, trim, trimmed,
};
use crate::toml::{
    entry_views, holds_list, is_quotable, quotable, read_toml_list, same_but_for,
    same_lists_but_for, section_view, set_toml_list, toml_section, toml_with_list, TomlSection,
    TomlSectionView,
};
use crate::unlock_script::{PAYLOAD_MARK, SCRIPT_TEMPLATE};

verus! {

/// What came of unlocking the reasoning efforts.
#[derive(Debug, Clone, PartialEq)]
pub struct CodexUnlockResult {
    /// `injected`.
    pub state: &'static str,
    pub message: String,
    pub port: Option<u16>,
    pub injected_targets: usize,
    pub model_count: usize,
}

/// What a [`CodexUnlockResult`] stands for.
pub struct UnlockView {
    pub state: Seq<char>,
    pub message: Seq<char>,
    pub port: Option<u16>,
    pub injected_targets: nat,
    pub model_count: nat,
}

impl View for CodexUnlockResult {
    type V = UnlockView;

    open spec fn view(&self) -> UnlockView {
        UnlockView {
            state: self.state@,
            message: self.message@,
            port: self.port,
            injected_targets: self.injected_targets as nat,
            model_count: self.model_count as nat,
        }
    }
}

/// The view of the outcome of unlocking.
pub open spec fn unlock_view(outcome: Result<CodexUnlockResult, String>) -> Result<
    UnlockView,
    Seq<char>,
> {
    match outcome {
        Ok(result) => Ok(result@),
        Err(message) => Err(message@),
    }
}

/// The first of three things that is there.
pub open spec fn first_of<A>(one: Option<A>, two: Option<A>, three: Option<A>) -> Option<A> {
    if one is Some {
        one
    } else if two is Some {
        two
    } else {
        three
    }
}

/// The name of the model that a catalog entry is about. It stands under `model`, and where that
/// is missing under `slug`, and where that is missing too under `id`.
pub open spec fn model_name(entry: JsonView) -> Option<Seq<char>> {
    match first_of(entry.get("model"@), entry.get("slug"@), entry.get("id"@)) {
        Some(JsonView::String(name)) => if trimmed(name).len() > 0 {
            Some(trimmed(name))
        } else {
            None
        },
        _ => None,
    }
}

/// What is there, else what stands for it.
pub open spec fn or_else(value: Option<JsonView>, other: JsonView) -> JsonView {
    match value {
        Some(value) => value,
        None => other,
    }
}

/// What the script is told of a catalog entry; nothing where the entry names no model.
pub open spec fn model_summary(entry: JsonView) -> Option<JsonView> {
    match model_name(entry) {
        Some(name) => Some(
            JsonView::Object(
                seq![
                    ("model"@, JsonView::String(name)),
                    (
                        "reasoningLevels"@,
                        or_else(
                            entry.get("supported_reasoning_levels"@),
                            JsonView::Array(Seq::empty()),
                        ),
                    ),
                    (
                        "defaultReasoningLevel"@,
                        or_else(
                            entry.get("default_reasoning_level"@),
                            JsonView::String("medium"@),
                        ),
                    ),
                ],
            ),
        ),
        None => None,
    }
}

/// What the script is told of a catalog; nothing where no entry names a model.
pub open spec fn model_summaries(catalog: JsonView) -> Option<Seq<JsonView>> {
    match catalog.get_items("models"@) {
        Some(entries) => {
            let models = entries.filter_map(|entry: JsonView| model_summary(entry));
            if models.len() > 0 {
                Some(models)
            } else {
                None
            }
        },
        None => None,
    }
}

/// What the script is told: of the catalog, and where that tells nothing of the cache.
pub open spec fn payload(catalog: Option<JsonView>, cache: Option<JsonView>) -> JsonView {
    let of_catalog = match catalog {
        Some(catalog) => model_summaries(catalog),
        None => None,
    };
    let of_cache = match cache {
        Some(cache) => model_summaries(cache),
        None => None,
    };
    let models = if of_catalog is Some {
        of_catalog->0
    } else if of_cache is Some {
        of_cache->0
    } else {
        Seq::empty()
    };
    JsonView::Object(
        seq![("defaultModel"@, JsonView::Null), ("models"@, JsonView::Array(models))],
    )
}

/// Whether something is told of a model: its name, its reasoning levels and its default level.
pub open spec fn names_model(summary: JsonView) -> bool {
    &&& summary.get_text("model"@) is Some
    &&& summary.get_text("model"@)->0.len() > 0
    &&& summary.get("reasoningLevels"@) is Some
    &&& summary.get("defaultReasoningLevel"@) is Some
}

/// What is told of an entry names a model, and has the levels and the default level of it.
proof fn lemma_summary(entry: JsonView)
    requires
        model_summary(entry) is Some,
    ensures
        names_model(model_summary(entry)->0),
{
    let members = model_summary(entry)->0->Object_0;
    reveal_strlit("model");
    reveal_strlit("reasoningLevels");
    reveal_strlit("defaultReasoningLevel");
    assert("model"@.len() == 5 && "reasoningLevels"@.len() == 15 && "defaultReasoningLevel"@.len()
        == 21);
    lemma_position_is(members, "model"@, 0);
    lemma_position_is(members, "reasoningLevels"@, 1);
    lemma_position_is(members, "defaultReasoningLevel"@, 2);
}

/// Law: the script is told of models only, each with a name that is not empty, with reasoning
/// levels and with a default level.
pub proof fn law_told_models_are_complete(
    catalog: Option<JsonView>,
    cache: Option<JsonView>,
    i: int,
)
    requires
        0 <= i < payload(catalog, cache).get_items("models"@)->0.len(),
    ensures
        payload(catalog, cache).get_items("models"@) is Some,
        names_model(payload(catalog, cache).get_items("models"@)->0[i]),
{
    let members = payload(catalog, cache)->Object_0;
    reveal_strlit("models");
    reveal_strlit("defaultModel");
    assert("models"@.len() == 6 && "defaultModel"@.len() == 12);
    lemma_position_is(members, "models"@, 1);
    let summary = |entry: JsonView| model_summary(entry);
    let models = payload(catalog, cache).get_items("models"@)->0;
    let of_catalog = match catalog {
        Some(catalog) => model_summaries(catalog),
        None => None,
    };
    let source = if of_catalog is Some {
        catalog->0
    } else {
        cache->0
    };
    let entries = source.get_items("models"@)->0;
    assert(models == entries.filter_map(summary));
    assert(models.contains(models[i]));
    entries.lemma_filter_map_contains(summary, models[i]);
    let k = choose|k: int|
        0 <= k < entries.len() && summary(entries[k]) == Some(models[i]);
    lemma_summary(entries[k]);
}

/// Law: the cache is told of only where the catalog tells of no model.
pub proof fn law_catalog_before_cache(
    catalog: JsonView,
    one: Option<JsonView>,
    other: Option<JsonView>,
)
    requires
        model_summaries(catalog) is Some,
    ensures
        payload(Some(catalog), one) == payload(Some(catalog), other),
        payload(Some(catalog), one) == payload(None, Some(catalog)),
{
}

/// The name of the model that a catalog entry is about.
fn entry_model_name(entry: &Json) -> (name: Option<String>)
    ensures
        string_view(name) == model_name(entry@),
{
    let named = match entry.get("model") {
        Some(value) => Some(value),
        None => match entry.get("slug") {
            Some(value) => Some(value),
            None => entry.get("id"),
        },
    };
    match named {
        Some(value) => match value.as_str() {
            Some(name) => {
                let name = trim(name);
                if name.as_str().is_empty() {
                    None
                } else {
                    Some(name)
                }
            },
            None => None,
        },
        None => None,
    }
}

/// What the script is told of a catalog entry.
fn summarize(entry: &Json) -> (summary: Option<Json>)
    ensures
        owned_view(summary) == model_summary(entry@),
{
    match entry_model_name(entry) {
        Some(name) => {
            let levels = match entry.get("supported_reasoning_levels") {
                Some(levels) => levels.clone(),
                None => {
                    let none = Json::array(Vec::new());
                    assert(none@->Array_0 == Seq::<JsonView>::empty());
                    none
                },
            };
            let default_level = match entry.get("default_reasoning_level") {
                Some(level) => level.clone(),
                None => Json::text("medium"),
            };
            let mut members: Vec<(String, Json)> = Vec::new();
            push_member(&mut members, "model", Json::String(name));
            push_member(&mut members, "reasoningLevels", levels);
            push_member(&mut members, "defaultReasoningLevel", default_level);
            let summary = Json::object(members);
            assert(summary@->Object_0 == model_summary(entry@)->0->Object_0);
            Some(summary)
        },
        None => None,
    }
}

/// What the script is told of a catalog; nothing where no entry names a model.
pub fn models_of_catalog(catalog: &Json) -> (models: Option<Vec<Json>>)
    ensures
        match models {
            Some(models) => model_summaries(catalog@) == Some(views(models@)),
            None => model_summaries(catalog@) is None,
        },
{
    match catalog.get_array("models") {
        Some(entries) => {
            let ghost all = views(entries@);
            let ghost summary = |entry: JsonView| model_summary(entry);
            let mut models: Vec<Json> = Vec::new();
            let mut i: usize = 0;
            assert(views(models@) == all.take(0).filter_map(summary));
            while i < entries.len()
                invariant
                    i <= entries@.len(),
                    all == views(entries@),
                    summary == (|entry: JsonView| model_summary(entry)),
                    views(models@) == all.take(i as int).filter_map(summary),
                decreases entries@.len() - i,
            {
                let ghost before = views(models@);
                proof {
                    all.lemma_filter_map_take_succ(summary, i as int);
                }
                if let Some(model) = summarize(&entries[i]) {
                    models.push(model);
                    assert(views(models@) == before.push(model@));
                }
                i = i + 1;
                assert(views(models@) == all.take(i as int).filter_map(summary));
            }
            assert(all.take(all.len() as int) == all);
            if models.is_empty() {
                None
            } else {
                Some(models)
            }
        },
        None => None,
    }
}

/// What the script is told: of the catalog, and where that tells nothing of the cache.
pub fn catalog_payload(catalog: Option<&Json>, cache: Option<&Json>) -> (told: Json)
    ensures
        told@ == payload(ref_view(catalog), ref_view(cache)),
{
    let of_catalog = match catalog {
        Some(catalog) => models_of_catalog(catalog),
        None => None,
    };
    let models = match of_catalog {
        Some(models) => models,
        None => {
            let of_cache = match cache {
                Some(cache) => models_of_catalog(cache),
                None => None,
            };
            match of_cache {
                Some(models) => models,
                None => {
                    let none: Vec<Json> = Vec::new();
                    assert(views(none@) == Seq::<JsonView>::empty());
                    none
                },
            }
        },
    };
    let mut members: Vec<(String, Json)> = Vec::new();
    push_member(&mut members, "defaultModel", Json::Null);
    push_member(&mut members, "models", Json::array(models));
    let told = Json::object(members);
    assert(told@->Object_0 == payload(ref_view(catalog), ref_view(cache))->Object_0);
    told
}

/// The document that a text holds, where there is a text and it holds one.
pub open spec fn document(text: Option<Seq<char>>) -> Option<JsonView> {
    match text {
        Some(text) => match parsed_json(text) {
            Ok(value) => Some(value),
            Err(_) => None,
        },
        None => None,
    }
}

/// The document that a text holds, where there is a text and it holds one.
fn document_of(text: Option<&str>) -> (value: Option<Json>)
    ensures
        owned_view(value) == document(str_view(text)),
{
    match text {
        Some(text) => match Json::parse(text) {
            Ok(value) => Some(value),
            Err(_) => None,
        },
        None => None,
    }
}

/// What the script is told of the catalog that a text holds; nothing where it holds none, or
/// where no entry names a model.
pub fn read_models_from_catalog(text: &str) -> (models: Option<Vec<Json>>)
    ensures
        match models {
            Some(models) => parsed_json(text@) is Ok && model_summaries(parsed_json(text@)->Ok_0)
                == Some(views(models@)),
            None => parsed_json(text@) is Err || model_summaries(
                parsed_json(text@)->Ok_0,
            ) is None,
        },
{
    match Json::parse(text) {
        Ok(catalog) => models_of_catalog(&catalog),
        Err(_) => None,
    }
}

/// What the script is told, where `catalog` and `cache` are the texts that were read of the
/// catalog and of the cache.
pub fn load_catalog_payload(catalog: Option<&str>, cache: Option<&str>) -> (told: Json)
    ensures
        told@ == payload(document(str_view(catalog)), document(str_view(cache))),
{
    catalog_payload(document_of(catalog).as_ref(), document_of(cache).as_ref())
}

/// The script with `payload` in its place.
pub fn script_with(payload: &str) -> (script: String)
    ensures
        script@ == replaced(SCRIPT_TEMPLATE@, PAYLOAD_MARK@, payload@),
{
    proof {
        reveal_strlit("/*__PAYLOAD__*/");
    }
    replace(SCRIPT_TEMPLATE, PAYLOAD_MARK, payload)
}

/// The script that unlocks the reasoning efforts for the models of a catalog.
pub fn reasoning_effort_unlock_js(catalog: &Json) -> (script: String)
    ensures
        script@ == replaced(SCRIPT_TEMPLATE@, PAYLOAD_MARK@, json_text(catalog@)),
{
    script_with(catalog.to_text().as_str())
}

/// What a page says of an exception that the script threw in it.
pub open spec fn thrown(response: JsonView) -> Option<JsonView> {
    match response.get("result"@) {
        Some(result) => result.get("exceptionDetails"@),
        None => None,
    }
}

/// The responses of the pages in which the script ran.
pub open spec fn ran(responses: Seq<JsonView>) -> Seq<JsonView> {
    responses.filter(|response: JsonView| thrown(response) is None)
}

/// What is said of a page in which the script did not run.
pub open spec fn failure(response: JsonView) -> Option<Seq<char>> {
    match thrown(response) {
        Some(exception) => Some("JS injection error: "@ + json_text(exception)),
        None => None,
    }
}

/// What is said of the pages in which the script did not run.
pub open spec fn failures(responses: Seq<JsonView>) -> Seq<Seq<char>> {
    responses.filter_map(|response: JsonView| failure(response))
}

/// How many models the script was told of.
pub open spec fn told_models(catalog: JsonView) -> nat {
    match catalog.get_items("models"@) {
        Some(models) => models.len(),
        None => 0,
    }
}

/// What is said where the script ran in `pages` pages.
pub open spec fn unlocked_message(port: u16, pages: nat, models: nat) -> Seq<char> {
    "Thinking strength unlocked via CDP on port "@ + decimal_digits(port as nat) + " ("@
        + decimal_digits(pages) + (if pages == 1 {
        " page, "@
    } else {
        " pages, "@
    }) + decimal_digits(models) + " catalog models)"@
}

/// What comes of the responses of the pages at `port`.
pub open spec fn unlocked(port: u16, responses: Seq<JsonView>, catalog: JsonView) -> Result<
    UnlockView,
    Seq<char>,
> {
    let pages = ran(responses).len();
    if responses.len() == 0 {
        Err("No Codex Desktop page target could be reached for injection."@)
    } else if pages == 0 {
        Err(
            "Thinking strength script could not run in Codex Desktop: "@ + joined(
                failures(responses),
                "; "@,
            ),
        )
    } else {
        Ok(
            UnlockView {
                state: "injected"@,
                message: unlocked_message(port, pages, told_models(catalog)),
                port: Some(port),
                injected_targets: pages,
                model_count: told_models(catalog),
            },
        )
    }
}

/// Law: unlocking succeeds if and only if the script ran in some page, and it counts the pages
/// in which it did.
pub proof fn law_unlocked_where_the_script_ran(
    port: u16,
    responses: Seq<JsonView>,
    catalog: JsonView,
)
    ensures
        unlocked(port, responses, catalog) is Ok <==> exists|i: int|
            0 <= i < responses.len() && thrown(#[trigger] responses[i]) is None,
        unlocked(port, responses, catalog) matches Ok(result) ==> 0 < result.injected_targets
            <= responses.len(),
{
    let fine = |response: JsonView| thrown(response) is None;
    responses.lemma_filter_len(fine);
    if ran(responses).len() > 0 {
        responses.lemma_filter_pred(fine, 0);
        responses.lemma_filter_contains_rev(fine, ran(responses)[0]);
        let i = choose|i: int|
            0 <= i < responses.len() && responses[i] == ran(responses)[0];
        assert(thrown(responses[i]) is None);
    }
    if exists|i: int| 0 <= i < responses.len() && thrown(#[trigger] responses[i]) is None {
        let i = choose|i: int|
            0 <= i < responses.len() && thrown(#[trigger] responses[i]) is None;
        responses.lemma_filter_contains(fine, i);
    }
}

/// What a page says of an exception that the script threw in it.
fn exception_in(response: &Json) -> (exception: Option<&Json>)
    ensures
        ref_view(exception) == thrown(response@),
{
    match response.get("result") {
        Some(result) => result.get("exceptionDetails"),
        None => None,
    }
}

/// What comes of the responses of the pages in which the script was to run.
pub fn unlock_outcome(desktop: &CodexDesktop, responses: &Vec<Json>, catalog: &Json) -> (outcome:
    Result<CodexUnlockResult, String>)
    ensures
        unlock_view(outcome) == unlocked(desktop.port, views(responses@), catalog@),
{
    let ghost all = views(responses@);
    let ghost fine = |response: JsonView| thrown(response) is None;
    let ghost said = |response: JsonView| failure(response);
    let mut injected: usize = 0;
    let mut exceptions: Vec<String> = Vec::new();
    let mut i: usize = 0;
    assert(all.take(0).filter(fine).len() == 0) by {
        reveal_with_fuel(Seq::filter, 1);
    }
    assert(texts(exceptions@) == all.take(0).filter_map(said));
    while i < responses.len()
        invariant
            i <= responses@.len(),
            all == views(responses@),
            fine == (|response: JsonView| thrown(response) is None),
            said == (|response: JsonView| failure(response)),
            injected <= i,
            injected == all.take(i as int).filter(fine).len(),
            texts(exceptions@) == all.take(i as int).filter_map(said),
        decreases responses@.len() - i,
    {
        let ghost before = texts(exceptions@);
        proof {
            all.lemma_filter_map_take_succ(said, i as int);
            all.take(i as int).lemma_filter_push(all[i as int], fine);
            assert(all.take(i as int).push(all[i as int]) == all.take(i + 1));
            assert(all[i as int] == responses@[i as int]@);
        }
        match exception_in(&responses[i]) {
            Some(exception) => {
                exceptions.push(
                    "JS injection error: ".to_owned().concat(exception.to_text().as_str()),
                );
                assert(texts(exceptions@) == before.push(failure(all[i as int])->0));
            },
            None => {
                injected = injected + 1;
            },
        }
        i = i + 1;
        assert(texts(exceptions@) == all.take(i as int).filter_map(said));
    }
    assert(all.take(all.len() as int) == all);
    if responses.is_empty() {
        return Err("No Codex Desktop page target could be reached for injection.".to_owned());
    }
    if injected == 0 {
        return Err(
            "Thinking strength script could not run in Codex Desktop: ".to_owned().concat(
                join(&exceptions, "; ").as_str(),
            ),
        );
    }
    let model_count: usize = match catalog.get_array("models") {
        Some(models) => models.len(),
        None => 0,
    };
    let message = "Thinking strength unlocked via CDP on port ".to_owned().concat(
        decimal(desktop.port as u64).as_str(),
    ).concat(" (").concat(decimal(injected as u64).as_str()).concat(
        if injected == 1 {
            " page, "
        } else {
            " pages, "
        },
    ).concat(decimal(model_count as u64).as_str()).concat(" catalog models)");
    Ok(
        CodexUnlockResult {
            state: "injected",
            message,
            port: Some(desktop.port),
            injected_targets: injected,
            model_count,
        },
    )
}

/// The section of the configuration that Codex Desktop reads.
pub const DESKTOP_SECTION: &'static str = "desktop";

/// The list of the reasoning efforts that Codex Desktop shows.
pub const ENABLED_EFFORTS: &'static str = "enabled-reasoning-efforts";

/// The reasoning efforts there are.
pub open spec fn canonical_efforts() -> Seq<Seq<char>> {
    seq![
        "none"@,
        "minimal"@,
        "low"@,
        "medium"@,
        "high"@,
        "xhigh"@,
        "max"@,
        "ultra"@,
        "persistent"@,
    ]
}

/// A list of reasoning efforts with those behind it that it lacks.
pub open spec fn merged_efforts(existing: Seq<Seq<char>>) -> Seq<Seq<char>> {
    existing + canonical_efforts().filter(|effort: Seq<char>| !existing.contains(effort))
}

/// The efforts that a section lists: the strings of the list in a table, inline or not.
pub open spec fn listed_efforts(section: TomlSectionView) -> Seq<Seq<char>> {
    match section {
        TomlSectionView::Table(Some(entries)) | TomlSectionView::InlineTable(Some(entries))
            => entries.filter_map(|entry: Option<Seq<char>>| entry),
        _ => Seq::empty(),
    }
}

/// The list of efforts to be written, where `section` was read in the configuration at `path`:
/// none where the efforts are all listed.
pub open spec fn efforts_to_write(
    path: Seq<char>,
    section: Result<TomlSectionView, Seq<char>>,
) -> Result<Option<Seq<Seq<char>>>, Seq<char>> {
    match section {
        Ok(section) => {
            let existing = listed_efforts(section);
            if merged_efforts(existing) == existing {
                Ok(None)
            } else {
                Ok(Some(merged_efforts(existing)))
            }
        },
        Err(error) => Err("parse "@ + path + " failed: "@ + error),
    }
}

/// The view of a list that may not have to be written.
pub open spec fn list_view(list: Option<Vec<String>>) -> Option<Seq<Seq<char>>> {
    match list {
        Some(list) => Some(texts(list@)),
        None => None,
    }
}

/// What is written into the configuration `text` at `path`, so that it lists all reasoning
/// efforts: nothing where it does already.
pub open spec fn allowlist_outcome(path: Seq<char>, text: Seq<char>) -> Result<
    Option<Seq<char>>,
    Seq<char>,
> {
    match efforts_to_write(path, toml_section(text, DESKTOP_SECTION@, ENABLED_EFFORTS@)) {
        Ok(Some(list)) => Ok(
            Some(toml_with_list(text, DESKTOP_SECTION@, ENABLED_EFFORTS@, list)),
        ),
        Ok(None) => Ok(None),
        Err(error) => Err(error),
    }
}

/// Whether nothing has to be written into the configuration `text` at `path`.
pub open spec fn nothing_to_write(path: Seq<char>, text: Seq<char>) -> bool {
    allowlist_outcome(path, text) == Ok::<Option<Seq<char>>, Seq<char>>(None)
}

/// Whether the configuration `new` lists what the configuration `text` at `path` lists, and then
/// the efforts that it lacks, so that nothing has to be written any more.
pub open spec fn lists_all_efforts(path: Seq<char>, new: Seq<char>, text: Seq<char>) -> bool {
    let section = toml_section(text, DESKTOP_SECTION@, ENABLED_EFFORTS@)->Ok_0;
    let list = merged_efforts(listed_efforts(section));
    &&& holds_list(new, text, DESKTOP_SECTION@, ENABLED_EFFORTS@, list)
    &&& nothing_to_write(path, new)
}

/// Whether the configuration `new` holds what the configuration `text` does, but for the list of
/// the efforts.
pub open spec fn keeps_the_rest(new: Seq<char>, text: Seq<char>) -> bool {
    &&& same_lists_but_for(new, text, DESKTOP_SECTION@, ENABLED_EFFORTS@)
    &&& same_but_for(new, text, DESKTOP_SECTION@)
}

/// The view of an [`allowlist_outcome`].
pub open spec fn change_view(change: Result<Option<String>, String>) -> Result<
    Option<Seq<char>>,
    Seq<char>,
> {
    match change {
        Ok(change) => Ok(string_view(change)),
        Err(error) => Err(error@),
    }
}

/// Whether efforts can be added to a section: it can hold a list, and what is listed can be
/// written.
pub open spec fn can_list(section: TomlSectionView) -> bool {
    &&& !(section is Other)
    &&& forall|i: int|
        0 <= i < listed_efforts(section).len() ==> quotable(#[trigger] listed_efforts(section)[i])
}

/// Whether what is to be written into the configuration `text` can be.
pub open spec fn can_write_allowlist(text: Seq<char>) -> bool {
    match toml_section(text, DESKTOP_SECTION@, ENABLED_EFFORTS@) {
        Ok(section) => merged_efforts(listed_efforts(section)) == listed_efforts(section)
            || can_list(section),
        Err(_) => true,
    }
}

/// A list lacks nothing if and only if all efforts there are stand in it.
pub proof fn lemma_nothing_lacking(existing: Seq<Seq<char>>)
    ensures
        (merged_efforts(existing) == existing) <==> (forall|effort: Seq<char>|
            canonical_efforts().contains(effort) ==> existing.contains(effort)),
        (merged_efforts(existing) == existing) <==> merged_efforts(existing).len()
            == existing.len(),
{
    let lacks = |effort: Seq<char>| !existing.contains(effort);
    let added = canonical_efforts().filter(lacks);
    if added.len() == 0 {
        assert(merged_efforts(existing) == existing);
        assert forall|effort: Seq<char>| canonical_efforts().contains(effort) implies existing.contains(effort) by {
            if !existing.contains(effort) {
                let i = choose|i: int|
                    0 <= i < canonical_efforts().len() && canonical_efforts()[i] == effort;
                canonical_efforts().lemma_filter_contains(lacks, i);
            }
        }
    } else {
        canonical_efforts().lemma_filter_pred(lacks, 0);
        canonical_efforts().lemma_filter_contains_rev(lacks, added[0]);
        assert(canonical_efforts().contains(added[0]) && !existing.contains(added[0]));
    }
}

/// Law: merging keeps what is listed, in its place, and only adds efforts that there are and that
/// were lacking.
pub proof fn law_merged_efforts_keep_the_list(existing: Seq<Seq<char>>)
    ensures
        existing.is_prefix_of(merged_efforts(existing)),
        forall|i: int|
            existing.len() <= i < merged_efforts(existing).len() ==> canonical_efforts().contains(
                #[trigger] merged_efforts(existing)[i],
            ) && !existing.contains(merged_efforts(existing)[i]),
{
    let lacks = |effort: Seq<char>| !existing.contains(effort);
    let added = canonical_efforts().filter(lacks);
    assert forall|i: int| existing.len() <= i < merged_efforts(existing).len() implies canonical_efforts().contains(
        #[trigger] merged_efforts(existing)[i],
    ) && !existing.contains(merged_efforts(existing)[i]) by {
        let j = i - existing.len();
        assert(merged_efforts(existing)[i] == added[j]);
        canonical_efforts().lemma_filter_pred(lacks, j);
        canonical_efforts().lemma_filter_contains_rev(lacks, added[j]);
    }
}

/// Law: a merged list has every effort that there is, and merging it again changes nothing.
pub proof fn law_merged_efforts_are_complete(existing: Seq<Seq<char>>)
    ensures
        forall|effort: Seq<char>|
            canonical_efforts().contains(effort) ==> #[trigger] merged_efforts(existing).contains(
                effort,
            ),
        merged_efforts(merged_efforts(existing)) == merged_efforts(existing),
{
    let lacks = |effort: Seq<char>| !existing.contains(effort);
    let added = canonical_efforts().filter(lacks);
    let merged = merged_efforts(existing);
    assert forall|effort: Seq<char>| canonical_efforts().contains(effort) implies #[trigger] merged.contains(effort) by {
        if existing.contains(effort) {
            let i = choose|i: int| 0 <= i < existing.len() && existing[i] == effort;
            assert(merged[i] == effort);
        } else {
            let i = choose|i: int|
                0 <= i < canonical_efforts().len() && canonical_efforts()[i] == effort;
            canonical_efforts().lemma_filter_contains(lacks, i);
            let j = choose|j: int| 0 <= j < added.len() && added[j] == effort;
            assert(merged[existing.len() + j] == effort);
        }
    }
    lemma_nothing_lacking(merged);
}

/// The reasoning efforts there are.
fn all_efforts() -> (efforts: Vec<String>)
    ensures
        texts(efforts@) == canonical_efforts(),
{
    let mut efforts: Vec<String> = Vec::new();
    efforts.push("none".to_owned());
    efforts.push("minimal".to_owned());
    efforts.push("low".to_owned());
    efforts.push("medium".to_owned());
    efforts.push("high".to_owned());
    efforts.push("xhigh".to_owned());
    efforts.push("max".to_owned());
    efforts.push("ultra".to_owned());
    efforts.push("persistent".to_owned());
    assert(texts(efforts@) == canonical_efforts());
    efforts
}

/// Whether `list` has `text`.
fn lists(list: &Vec<String>, text: &str) -> (yes: bool)
    ensures
        yes == texts(list@).contains(text@),
{
    let mut i: usize = 0;
    while i < list.len()
        invariant
            i <= list@.len(),
            forall|j: int| 0 <= j < i ==> (#[trigger] texts(list@)[j]) != text@,
        decreases list@.len() - i,
    {
        if same_text(list[i].as_str(), text) {
            assert(texts(list@)[i as int] == text@);
            return true;
        }
        i = i + 1;
    }
    false
}

/// A list of reasoning efforts with those behind it that it lacks.
pub fn merge_reasoning_efforts(existing: &Vec<String>) -> (merged: Vec<String>)
    ensures
        texts(merged@) == merged_efforts(texts(existing@)),
{
    let efforts = all_efforts();
    let ghost listed = texts(existing@);
    let ghost all = canonical_efforts();
    let ghost lacks = |effort: Seq<char>| !listed.contains(effort);
    let mut merged: Vec<String> = Vec::new();
    let mut i: usize = 0;
    while i < existing.len()
        invariant
            i <= existing@.len(),
            listed == texts(existing@),
            texts(merged@) == listed.take(i as int),
        decreases existing@.len() - i,
    {
        let ghost before = texts(merged@);
        merged.push(existing[i].clone());
        assert(texts(merged@) == before.push(existing@[i as int]@));
        i = i + 1;
        assert(texts(merged@) == listed.take(i as int));
    }
    assert(texts(merged@) == listed + all.take(0).filter(lacks));
    let mut k: usize = 0;
    while k < efforts.len()
        invariant
            k <= efforts@.len(),
            listed == texts(existing@),
            all == texts(efforts@),
            lacks == (|effort: Seq<char>| !listed.contains(effort)),
            texts(merged@) == listed + all.take(k as int).filter(lacks),
        decreases efforts@.len() - k,
    {
        let ghost before = texts(merged@);
        let ghost effort = all[k as int];
        proof {
            all.take(k as int).lemma_filter_push(effort, lacks);
            assert(all.take(k as int).push(effort) == all.take(k + 1));
        }
        if !lists(existing, efforts[k].as_str()) {
            merged.push(efforts[k].clone());
            assert(texts(merged@) == before.push(effort));
        }
        k = k + 1;
        assert(texts(merged@) == listed + all.take(k as int).filter(lacks));
    }
    assert(all.take(all.len() as int) == all);
    merged
}

/// The strings of a list.
fn strings_of(entries: &Vec<Option<String>>) -> (strings: Vec<String>)
    ensures
        texts(strings@) == entry_views(entries@).filter_map(|entry: Option<Seq<char>>| entry),
{
    let ghost all = entry_views(entries@);
    let ghost string = |entry: Option<Seq<char>>| entry;
    let mut strings: Vec<String> = Vec::new();
    let mut i: usize = 0;
    assert(texts(strings@) == all.take(0).filter_map(string));
    while i < entries.len()
        invariant
            i <= entries@.len(),
            all == entry_views(entries@),
            string == (|entry: Option<Seq<char>>| entry),
            texts(strings@) == all.take(i as int).filter_map(string),
        decreases entries@.len() - i,
    {
        let ghost before = texts(strings@);
        proof {
            all.lemma_filter_map_take_succ(string, i as int);
            assert(all[i as int] == string_view(entries@[i as int]));
        }
        if let Some(entry) = &entries[i] {
            strings.push(entry.clone());
            assert(texts(strings@) == before.push(entry@));
        }
        i = i + 1;
        assert(texts(strings@) == all.take(i as int).filter_map(string));
    }
    assert(all.take(all.len() as int) == all);
    strings
}

/// The efforts that a section lists.
fn efforts_of(section: &TomlSection) -> (efforts: Vec<String>)
    ensures
        texts(efforts@) == listed_efforts(section@),
{
    match section {
        TomlSection::Table(Some(entries)) => strings_of(entries),
        TomlSection::InlineTable(Some(entries)) => strings_of(entries),
        _ => {
            let none: Vec<String> = Vec::new();
            assert(texts(none@) == Seq::<Seq<char>>::empty());
            none
        },
    }
}

/// The list of efforts to be written, where `read` is what was read in the configuration at
/// `path`.
pub fn reasoning_allowlist_change(path: &str, read: &Result<TomlSection, String>) -> (change:
    Result<Option<Vec<String>>, String>)
    ensures
        match change {
            Ok(list) => efforts_to_write(path@, section_view(*read)) == Ok::<
                Option<Seq<Seq<char>>>,
                Seq<char>,
            >(list_view(list)),
            Err(error) => efforts_to_write(path@, section_view(*read)) == Err::<
                Option<Seq<Seq<char>>>,
                Seq<char>,
            >(error@),
        },
{
    match read {
        Ok(section) => {
            let existing = efforts_of(section);
            let merged = merge_reasoning_efforts(&existing);
            proof {
                lemma_nothing_lacking(texts(existing@));
            }
            if merged.len() == existing.len() {
                Ok(None)
            } else {
                Ok(Some(merged))
            }
        },
        Err(error) => Err(
            "parse ".to_owned().concat(path).concat(" failed: ").concat(error.as_str()),
        ),
    }
}

/// Reading back a list of strings gives the list.
proof fn lemma_listed_back(list: Seq<Seq<char>>)
    ensures
        list.map_values(|entry: Seq<char>| Some(entry)).filter_map(
            |entry: Option<Seq<char>>| entry,
        ) == list,
    decreases list.len(),
{
    let wrap = |entry: Seq<char>| Some(entry);
    let string = |entry: Option<Seq<char>>| entry;
    let wrapped = list.map_values(wrap);
    if list.len() > 0 {
        let n = list.len() - 1;
        lemma_listed_back(list.drop_last());
        assert(wrapped.take(n) == list.drop_last().map_values(wrap));
        wrapped.lemma_filter_map_take_succ(string, n);
        assert(wrapped.take(n + 1) == wrapped);
        assert(list.drop_last().push(list.last()) == list);
    } else {
        assert(wrapped.filter_map(string) == list);
    }
}

/// What is merged can be written where what is listed can be.
proof fn lemma_merged_quotable(existing: Seq<Seq<char>>)
    requires
        forall|i: int| 0 <= i < existing.len() ==> quotable(#[trigger] existing[i]),
    ensures
        forall|i: int|
            0 <= i < merged_efforts(existing).len() ==> quotable(
                #[trigger] merged_efforts(existing)[i],
            ),
{
    law_merged_efforts_keep_the_list(existing);
    reveal_strlit("none");
    reveal_strlit("minimal");
    reveal_strlit("low");
    reveal_strlit("medium");
    reveal_strlit("high");
    reveal_strlit("xhigh");
    reveal_strlit("max");
    reveal_strlit("ultra");
    reveal_strlit("persistent");
    assert forall|i: int| 0 <= i < merged_efforts(existing).len() implies quotable(
        #[trigger] merged_efforts(existing)[i],
    ) by {
        if i < existing.len() {
            assert(merged_efforts(existing)[i] == existing[i]);
        } else {
            let k = choose|k: int|
                0 <= k < canonical_efforts().len() && canonical_efforts()[k] == merged_efforts(
                    existing,
                )[i];
            assert(canonical_efforts()[k].len() < 256);
        }
    }
}

/// What is to be written into the configuration `text` at `path`, so that Codex Desktop drops no
/// reasoning effort: nothing where all are listed. What is listed stays listed, the rest of the
/// configuration stays, and what has been written leaves nothing to be written.
pub fn ensure_desktop_reasoning_allowlist(path: &str, text: &str) -> (change: Result<
    Option<String>,
    String,
>)
    requires
        can_write_allowlist(text@),
    ensures
        change_view(change) == allowlist_outcome(path@, text@),
        match change {
            Ok(Some(new)) => lists_all_efforts(path@, new@, text@) && keeps_the_rest(
                new@,
                text@,
            ),
            _ => true,
        },
{
    let read = read_toml_list(text, DESKTOP_SECTION, ENABLED_EFFORTS);
    match reasoning_allowlist_change(path, &read) {
        Ok(Some(list)) => {
            let ghost existing = listed_efforts(read->Ok_0@);
            proof {
                assert(texts(list@) == merged_efforts(existing));
                lemma_merged_quotable(existing);
                assert forall|i: int| 0 <= i < list@.len() implies quotable(
                    (#[trigger] list@[i])@,
                ) by {
                    assert(merged_efforts(existing)[i] == texts(list@)[i]);
                }
                lemma_listed_back(merged_efforts(existing));
                law_merged_efforts_are_complete(existing);
            }
            match set_toml_list(text, DESKTOP_SECTION, ENABLED_EFFORTS, &list) {
                Ok(new) => Ok(Some(new)),
                Err(error) => Err(error),
            }
        },
        Ok(None) => Ok(None),
        Err(error) => Err(error),
    }
}

/// Whether efforts can be added to a section.
fn is_listable(section: &TomlSection) -> (yes: bool)
    ensures
        yes == can_list(section@),
{
    if let TomlSection::Other = section {
        return false;
    }
    let efforts = efforts_of(section);
    let ghost listed = listed_efforts(section@);
    let mut i: usize = 0;
    while i < efforts.len()
        invariant
            i <= efforts@.len(),
            listed == texts(efforts@),
            listed == listed_efforts(section@),
            forall|j: int| 0 <= j < i ==> quotable(#[trigger] listed[j]),
        decreases efforts@.len() - i,
    {
        assert(listed[i as int] == efforts@[i as int]@);
        if !is_quotable(efforts[i].as_str()) {
            return false;
        }
        i = i + 1;
    }
    true
}

/// [`ensure_desktop_reasoning_allowlist`], where what is to be written can be; nothing else.
pub fn try_ensure_desktop_reasoning_allowlist(path: &str, text: &str) -> (change: Option<
    Result<Option<String>, String>,
>)
    ensures
        change is Some <==> can_write_allowlist(text@),
        change matches Some(change) ==> change_view(change) == allowlist_outcome(path@, text@),
        match change {
            Some(Ok(Some(new))) => lists_all_efforts(path@, new@, text@) && keeps_the_rest(
                new@,
                text@,
            ),
            _ => true,
        },
{
    let read = read_toml_list(text, DESKTOP_SECTION, ENABLED_EFFORTS);
    if let Ok(section) = &read {
        let existing = efforts_of(section);
        proof {
            lemma_nothing_lacking(texts(existing@));
        }
        if merge_reasoning_efforts(&existing).len() != existing.len() && !is_listable(section) {
            return None;
        }
    }
    Some(ensure_desktop_reasoning_allowlist(path, text))
}

} // verus!
