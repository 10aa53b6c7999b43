//! What unlocking the reasoning efforts promises, said of the members of what is read and told.

use vstd::prelude::*;

use crate::codex_desktop_patches::{
    allowlist_outcome, can_write_allowlist, canonical_efforts, document, efforts_to_write,
    failure, failures, lemma_nothing_lacking, listed_efforts, merged_efforts, model_summaries,
    model_summary, payload, ran, thrown, unlocked, UnlockView,
};
use crate::json::{json_text, lemma_position_is, parsed_json, JsonView};
use crate::text::{decimal_digits, joined, trimmed};
use crate::toml::{quotable, only_quotes, toml_section, toml_with_list, TomlSectionView};

verus! {

/// What a catalog entry has under `model`, where that is missing under `slug`, and where that is
/// missing too under `id`.
pub open spec fn naming(entry: JsonView) -> Option<JsonView> {
    match (entry.get("model"@), entry.get("slug"@)) {
        (Some(value), _) => Some(value),
        (None, Some(value)) => Some(value),
        (None, None) => entry.get("id"@),
    }
}

/// Law: of an entry that names a model, the script is told the name without the whitespace around
/// it, the supported reasoning levels, or none where the entry does not state them, and the
/// default level, or `medium` where the entry does not state it; and nothing else. Each depends on
/// its own member alone. Of an entry whose name is blank or no string, nothing is told.
pub proof fn law_what_is_told_of_an_entry(entry: JsonView, key: Seq<char>)
    ensures
        model_summary(entry) is Some <==> (naming(entry) matches Some(JsonView::String(name))
            && trimmed(name).len() > 0),
        model_summary(entry) matches Some(told) ==> {
            &&& naming(entry) matches Some(JsonView::String(name)) && told.get("model"@) == Some(
                JsonView::String(trimmed(name)),
            )
            &&& entry.get("supported_reasoning_levels"@) matches Some(levels) ==> told.get(
                "reasoningLevels"@,
            ) == Some(levels)
            &&& entry.get("supported_reasoning_levels"@) is None ==> told.get("reasoningLevels"@)
                == Some(JsonView::Array(Seq::empty()))
            &&& entry.get("default_reasoning_level"@) matches Some(level) ==> told.get(
                "defaultReasoningLevel"@,
            ) == Some(level)
            &&& entry.get("default_reasoning_level"@) is None ==> told.get(
                "defaultReasoningLevel"@,
            ) == Some(JsonView::String("medium"@))
            &&& key != "model"@ && key != "reasoningLevels"@ && key != "defaultReasoningLevel"@
                ==> told.get(key) is None
        },
{
    if model_summary(entry) is Some {
        let members = model_summary(entry)->0->Object_0;
        reveal_strlit("model");
        reveal_strlit("reasoningLevels");
        reveal_strlit("defaultReasoningLevel");
        assert("model"@.len() == 5 && "reasoningLevels"@.len() == 15
            && "defaultReasoningLevel"@.len() == 21);
        lemma_position_is(members, "model"@, 0);
        lemma_position_is(members, "reasoningLevels"@, 1);
        lemma_position_is(members, "defaultReasoningLevel"@, 2);
        if key != "model"@ && key != "reasoningLevels"@ && key != "defaultReasoningLevel"@ {
            lemma_position_is(members, key, 3);
        }
    }
}

/// Law: a catalog is told entry by entry, in the order of the entries: one that names a model adds
/// what is told of it, and any other adds nothing. Where no model is named, or where there is no
/// list of models, nothing is told at all.
pub proof fn law_models_are_told_one_by_one(
    catalog: JsonView,
    entries: Seq<JsonView>,
    entry: JsonView,
    longer: JsonView,
)
    requires
        catalog.get("models"@) == Some(JsonView::Array(entries)),
        longer.get("models"@) == Some(JsonView::Array(entries.push(entry))),
    ensures
        model_summary(entry) is None ==> model_summaries(longer) == model_summaries(catalog),
        model_summary(entry) matches Some(told) ==> model_summaries(longer) == Some(
            match model_summaries(catalog) {
                Some(before) => before.push(told),
                None => seq![told],
            },
        ),
        entries.len() == 0 ==> model_summaries(catalog) is None,
{
    let summary = |entry: JsonView| model_summary(entry);
    let all = entries.push(entry);
    all.lemma_filter_map_take_succ(summary, entries.len() as int);
    assert(all.take(entries.len() as int) == entries);
    assert(all.take(all.len() as int) == all);
    if entries.len() == 0 {
        assert(entries == Seq::<JsonView>::empty());
        assert(entries.filter_map(summary).len() == 0);
    }
    if model_summary(entry) is Some && model_summaries(catalog) is None {
        assert(entries.filter_map(summary) == Seq::<JsonView>::empty());
        assert(all.filter_map(summary) == seq![model_summary(entry)->0]);
    }
}

/// Law: a catalog without a list under `models` tells nothing.
pub proof fn law_only_a_list_of_models_is_told(catalog: JsonView)
    requires
        !(catalog.get("models"@) matches Some(JsonView::Array(_))),
    ensures
        model_summaries(catalog) is None,
{
}

/// Law: the script is told the models of the catalog where it tells of any, else those of the
/// cache where it does, and else none; and never of a default model. A text that cannot be read
/// counts as missing.
pub proof fn law_what_the_script_is_told(
    catalog: Option<JsonView>,
    cache: Option<JsonView>,
    key: Seq<char>,
)
    ensures
        payload(catalog, cache).get("defaultModel"@) == Some(JsonView::Null),
        catalog is Some && model_summaries(catalog->0) is Some ==> payload(catalog, cache).get(
            "models"@,
        ) == Some(JsonView::Array(model_summaries(catalog->0)->0)),
        !(catalog is Some && model_summaries(catalog->0) is Some) && cache is Some
            && model_summaries(cache->0) is Some ==> payload(catalog, cache).get("models"@) == Some(
            JsonView::Array(model_summaries(cache->0)->0),
        ),
        !(catalog is Some && model_summaries(catalog->0) is Some) && !(cache is Some
            && model_summaries(cache->0) is Some) ==> payload(catalog, cache).get("models"@) == Some(
            JsonView::Array(Seq::empty()),
        ),
        key != "models"@ && key != "defaultModel"@ ==> payload(catalog, cache).get(key) is None,
{
    let members = payload(catalog, cache)->Object_0;
    reveal_strlit("models");
    reveal_strlit("defaultModel");
    assert("models"@.len() == 6 && "defaultModel"@.len() == 12);
    lemma_position_is(members, "defaultModel"@, 0);
    lemma_position_is(members, "models"@, 1);
    if key != "models"@ && key != "defaultModel"@ {
        lemma_position_is(members, key, 2);
    }
}

/// Law: a text that is missing or holds no document is passed over, and any other is read.
pub proof fn law_texts_that_cannot_be_read_are_passed_over(text: Seq<char>)
    ensures
        document(None) is None,
        parsed_json(text) is Err ==> document(Some(text)) is None,
        parsed_json(text) matches Ok(value) ==> document(Some(text)) == Some(value),
{
}

/// What a page reports of an exception in it.
pub open spec fn reported(response: JsonView) -> Option<JsonView> {
    match response.get("result"@) {
        Some(result) => result.get("exceptionDetails"@),
        None => None,
    }
}

/// How many pages report no exception.
pub open spec fn quiet_pages(responses: Seq<JsonView>) -> nat
    decreases responses.len(),
{
    if responses.len() == 0 {
        0
    } else {
        quiet_pages(responses.drop_last()) + if reported(responses.last()) is None {
            1nat
        } else {
            0nat
        }
    }
}

/// What is said of the pages that report an exception.
pub open spec fn complaints(responses: Seq<JsonView>) -> Seq<Seq<char>>
    decreases responses.len(),
{
    if responses.len() == 0 {
        Seq::empty()
    } else {
        match reported(responses.last()) {
            Some(exception) => complaints(responses.drop_last()).push(
                "JS injection error: "@ + json_text(exception),
            ),
            None => complaints(responses.drop_last()),
        }
    }
}

/// The pages in which the script ran are those that report no exception, and the others are
/// complained of.
proof fn lemma_pages(responses: Seq<JsonView>)
    ensures
        ran(responses).len() == quiet_pages(responses),
        failures(responses) == complaints(responses),
    decreases responses.len(),
{
    let fine = |response: JsonView| thrown(response) is None;
    let complaint = |response: JsonView| failure(response);
    if responses.len() == 0 {
        assert(responses == Seq::<JsonView>::empty());
        assert(responses.filter(fine).len() == 0);
        assert(responses.filter_map(complaint) == Seq::<Seq<char>>::empty());
    } else {
        let rest = responses.drop_last();
        lemma_pages(rest);
        assert(responses == rest.push(responses.last()));
        rest.lemma_filter_push(responses.last(), fine);
        responses.lemma_filter_map_take_succ(complaint, rest.len() as int);
        assert(responses.take(rest.len() as int) == rest);
        assert(responses.take(responses.len() as int) == responses);
    }
}

/// Law: unlocking succeeds where some page reports no exception. What is told of it then is the
/// port, how many such pages there are and how many models the script was told of. Else the
/// exceptions are told, one behind the other, or that no page could be reached.
pub proof fn law_what_comes_of_unlocking(port: u16, responses: Seq<JsonView>, catalog: JsonView)
    ensures
        ({
            let pages = quiet_pages(responses);
            let models = match catalog.get("models"@) {
                Some(JsonView::Array(models)) => models.len(),
                _ => 0nat,
            };
            if pages > 0 {
                unlocked(port, responses, catalog) == Ok::<UnlockView, Seq<char>>(
                    (UnlockView {
                        state: "injected"@,
                        message: "Thinking strength unlocked via CDP on port "@ + decimal_digits(
                            port as nat,
                        ) + " ("@ + decimal_digits(pages) + (if pages == 1 {
                            " page, "@
                        } else {
                            " pages, "@
                        }) + decimal_digits(models) + " catalog models)"@,
                        port: Some(port),
                        injected_targets: pages,
                        model_count: models,
                    }),
                )
            } else if responses.len() > 0 {
                unlocked(port, responses, catalog) == Err::<UnlockView, Seq<char>>(
                    "Thinking strength script could not run in Codex Desktop: "@ + joined(
                        complaints(responses),
                        "; "@,
                    ),
                )
            } else {
                unlocked(port, responses, catalog) == Err::<UnlockView, Seq<char>>(
                    "No Codex Desktop page target could be reached for injection."@,
                )
            }
        }),
{
    lemma_pages(responses);
    if responses.len() == 0 {
        assert(quiet_pages(responses) == 0);
    }
}

/// A list with `effort` at its end, unless `existing` has it.
pub open spec fn and_if_lacking(
    list: Seq<Seq<char>>,
    effort: Seq<char>,
    existing: Seq<Seq<char>>,
) -> Seq<Seq<char>> {
    if existing.contains(effort) {
        list
    } else {
        list.push(effort)
    }
}

/// The first efforts that there are, as far as they are lacking.
proof fn lemma_lacking(existing: Seq<Seq<char>>, n: int)
    requires
        0 <= n < 9,
    ensures
        canonical_efforts().take(n + 1).filter(|effort: Seq<char>| !existing.contains(effort))
            == and_if_lacking(
            canonical_efforts().take(n).filter(|effort: Seq<char>| !existing.contains(effort)),
            canonical_efforts()[n],
            existing,
        ),
{
    let lacks = |effort: Seq<char>| !existing.contains(effort);
    let first = canonical_efforts().take(n);
    assert(canonical_efforts().take(n + 1) == first.push(canonical_efforts()[n]));
    first.lemma_filter_push(canonical_efforts()[n], lacks);
}

/// Law: what is listed stays, and behind it stand, in this order, those of the nine efforts that
/// it lacks.
pub proof fn law_lacking_efforts_are_added_in_order(existing: Seq<Seq<char>>)
    ensures
        ({
            let one = and_if_lacking(existing, "none"@, existing);
            let two = and_if_lacking(one, "minimal"@, existing);
            let three = and_if_lacking(two, "low"@, existing);
            let four = and_if_lacking(three, "medium"@, existing);
            let five = and_if_lacking(four, "high"@, existing);
            let six = and_if_lacking(five, "xhigh"@, existing);
            let seven = and_if_lacking(six, "max"@, existing);
            let eight = and_if_lacking(seven, "ultra"@, existing);
            merged_efforts(existing) == and_if_lacking(eight, "persistent"@, existing)
        }),
{
    let lacks = |effort: Seq<char>| !existing.contains(effort);
    let all = canonical_efforts();
    let zero = all.take(0).filter(lacks);
    assert(all.take(0) == Seq::<Seq<char>>::empty());
    assert(zero == Seq::<Seq<char>>::empty());
    lemma_lacking(existing, 0);
    lemma_lacking(existing, 1);
    lemma_lacking(existing, 2);
    lemma_lacking(existing, 3);
    lemma_lacking(existing, 4);
    lemma_lacking(existing, 5);
    lemma_lacking(existing, 6);
    lemma_lacking(existing, 7);
    lemma_lacking(existing, 8);
    assert(all.take(9) == all);
    let one = and_if_lacking(existing, "none"@, existing);
    assert(one == existing + all.take(1).filter(lacks));
    let two = and_if_lacking(one, "minimal"@, existing);
    assert(two == existing + all.take(2).filter(lacks));
    let three = and_if_lacking(two, "low"@, existing);
    assert(three == existing + all.take(3).filter(lacks));
    let four = and_if_lacking(three, "medium"@, existing);
    assert(four == existing + all.take(4).filter(lacks));
    let five = and_if_lacking(four, "high"@, existing);
    assert(five == existing + all.take(5).filter(lacks));
    let six = and_if_lacking(five, "xhigh"@, existing);
    assert(six == existing + all.take(6).filter(lacks));
    let seven = and_if_lacking(six, "max"@, existing);
    assert(seven == existing + all.take(7).filter(lacks));
    let eight = and_if_lacking(seven, "ultra"@, existing);
    assert(eight == existing + all.take(8).filter(lacks));
    assert(and_if_lacking(eight, "persistent"@, existing) == existing + all.take(9).filter(lacks));
}

/// Law: a section lists the strings of the list in it, in their order, whether it is a table or an
/// inline one; what is no string is passed over, and anything else lists nothing.
pub proof fn law_efforts_are_listed_one_by_one(
    entries: Seq<Option<Seq<char>>>,
    entry: Option<Seq<char>>,
)
    ensures
        ({
            let before = listed_efforts(TomlSectionView::Table(Some(entries)));
            let listed = listed_efforts(TomlSectionView::Table(Some(entries.push(entry))));
            &&& entry matches Some(effort) ==> listed == before.push(effort)
            &&& entry is None ==> listed == before
        }),
        listed_efforts(TomlSectionView::InlineTable(Some(entries))) == listed_efforts(
            TomlSectionView::Table(Some(entries)),
        ),
        listed_efforts(TomlSectionView::Table(Some(Seq::empty()))) == Seq::<Seq<char>>::empty(),
        listed_efforts(TomlSectionView::Table(None)) == Seq::<Seq<char>>::empty(),
        listed_efforts(TomlSectionView::InlineTable(None)) == Seq::<Seq<char>>::empty(),
        listed_efforts(TomlSectionView::Missing) == Seq::<Seq<char>>::empty(),
        listed_efforts(TomlSectionView::Other) == Seq::<Seq<char>>::empty(),
{
    let same = |entry: Option<Seq<char>>| entry;
    let all = entries.push(entry);
    all.lemma_filter_map_take_succ(same, entries.len() as int);
    assert(all.take(entries.len() as int) == entries);
    assert(all.take(all.len() as int) == all);
}

/// Whether each of the nine efforts is listed.
pub open spec fn lists_each(list: Seq<Seq<char>>) -> bool {
    &&& list.contains("none"@)
    &&& list.contains("minimal"@)
    &&& list.contains("low"@)
    &&& list.contains("medium"@)
    &&& list.contains("high"@)
    &&& list.contains("xhigh"@)
    &&& list.contains("max"@)
    &&& list.contains("ultra"@)
    &&& list.contains("persistent"@)
}

/// Nothing is lacking where each of the nine efforts is listed.
proof fn lemma_lists_each(list: Seq<Seq<char>>)
    ensures
        lists_each(list) <==> merged_efforts(list) == list,
{
    lemma_nothing_lacking(list);
    let all = canonical_efforts();
    if lists_each(list) {
        assert forall|effort: Seq<char>| all.contains(effort) implies list.contains(effort) by {
            let i = choose|i: int| 0 <= i < all.len() && all[i] == effort;
            assert(i == 0 || i == 1 || i == 2 || i == 3 || i == 4 || i == 5 || i == 6 || i == 7 || i
                == 8);
        }
    }
    if merged_efforts(list) == list {
        assert(all[0] == "none"@ && all[1] == "minimal"@ && all[2] == "low"@ && all[3]
            == "medium"@ && all[4] == "high"@ && all[5] == "xhigh"@ && all[6] == "max"@ && all[7]
            == "ultra"@ && all[8] == "persistent"@);
        assert(all.contains(all[0]) && all.contains(all[1]) && all.contains(all[2]) && all.contains(
            all[3],
        ) && all.contains(all[4]) && all.contains(all[5]) && all.contains(all[6]) && all.contains(
            all[7],
        ) && all.contains(all[8]));
    }
}

/// Law: the list `enabled-reasoning-efforts` of the section `desktop` is written if and only if
/// one of the nine efforts is not in it, and a configuration that cannot be read is refused with
/// the reason.
pub proof fn law_when_the_efforts_are_written(path: Seq<char>, text: Seq<char>)
    ensures
        match toml_section(text, "desktop"@, "enabled-reasoning-efforts"@) {
            Ok(section) => {
                let listed = listed_efforts(section);
                &&& lists_each(listed) ==> allowlist_outcome(path, text) == Ok::<
                    Option<Seq<char>>,
                    Seq<char>,
                >(None)
                &&& !lists_each(listed) ==> allowlist_outcome(path, text) == Ok::<
                    Option<Seq<char>>,
                    Seq<char>,
                >(
                    Some(
                        toml_with_list(
                            text,
                            "desktop"@,
                            "enabled-reasoning-efforts"@,
                            merged_efforts(listed),
                        ),
                    ),
                )
                &&& can_write_allowlist(text) <==> lists_each(listed) || (!(section is Other)
                    && forall|i: int|
                    0 <= i < listed.len() ==> quotable(#[trigger] listed[i]))
            },
            Err(error) => {
                &&& allowlist_outcome(path, text) == Err::<Option<Seq<char>>, Seq<char>>(
                    "parse "@ + path + " failed: "@ + error,
                )
                &&& can_write_allowlist(text)
            },
        },
{
    if let Ok(section) = toml_section(text, "desktop"@, "enabled-reasoning-efforts"@) {
        lemma_lists_each(listed_efforts(section));
    }
}

/// Law: what was read in a section decides what is written, whatever the text it was read in.
pub proof fn law_what_is_read_decides(path: Seq<char>, section: TomlSectionView, error: Seq<char>)
    ensures
        lists_each(listed_efforts(section)) ==> efforts_to_write(
            path,
            Ok::<TomlSectionView, Seq<char>>(section),
        ) == Ok::<Option<Seq<Seq<char>>>, Seq<char>>(None),
        !lists_each(listed_efforts(section)) ==> efforts_to_write(
            path,
            Ok::<TomlSectionView, Seq<char>>(section),
        ) == Ok::<Option<Seq<Seq<char>>>, Seq<char>>(Some(merged_efforts(listed_efforts(section)))),
        efforts_to_write(path, Err::<TomlSectionView, Seq<char>>(error)) == Err::<
            Option<Seq<Seq<char>>>,
            Seq<char>,
        >("parse "@ + path + " failed: "@ + error),
{
    lemma_lists_each(listed_efforts(section));
}

/// A quote, 256 times in a row.
pub open spec fn run_of(quote: char) -> Seq<char> {
    Seq::new(256, |i: int| quote)
}

/// Law: a string can be written if and only if neither kind of quote stands in it 256 times in a
/// row.
pub proof fn law_long_runs_of_quotes(text: Seq<char>)
    ensures
        !quotable(text) <==> exists|before: Seq<char>, quote: char, behind: Seq<char>|
            (quote == '"' || quote == '\'') && text == #[trigger] (before + run_of(quote) + behind),
{
    if !quotable(text) {
        let (quote, from) = choose|quote: char, from: int|
            (quote == '"' || quote == '\'') && 0 <= from <= text.len() - 256
                && #[trigger] only_quotes(text, quote, from, from + 256);
        assert(text == text.take(from) + run_of(quote) + text.skip(from + 256));
    }
    if exists|before: Seq<char>, quote: char, behind: Seq<char>|
        (quote == '"' || quote == '\'') && text == #[trigger] (before + run_of(quote) + behind) {
        let (before, quote, behind) = choose|before: Seq<char>, quote: char, behind: Seq<char>|
            (quote == '"' || quote == '\'') && text == #[trigger] (before + run_of(quote)
                + behind);
        let from = before.len() as int;
        assert(only_quotes(text, quote, from, from + 256));
    }
}

} // verus!
