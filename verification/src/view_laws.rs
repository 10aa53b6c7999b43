//! What the views stand for, field by field.

use vstd::prelude::*;

use crate::aggregate::CodexAggregationConfig;
use crate::codex_desktop::{CdpTarget, CodexCdpStatus};
use crate::codex_desktop_patches::CodexUnlockResult;
use crate::json::{lemma_array_view, lemma_object_view, Json, JsonNumber, JsonView};
use crate::provider::Provider;
use crate::toml::{TomlSection, TomlSectionView};

verus! {

/// Law: what is said of a configuration is said of its fields.
pub proof fn law_the_view_of_a_configuration(config: CodexAggregationConfig, model: Seq<char>)
    ensures
        config@.enabled == config.enabled,
        config@.providers == config.providers@,
        config@.weights == config.weights@,
        config@.bindings.contains_key(model) <==> config.bindings@.contains_key(model),
        config.bindings@.contains_key(model) ==> config@.bindings[model]
            == config.bindings@[model]@,
        config.default_model is None ==> config@.default_model is None,
        config.default_model matches Some(model) ==> config@.default_model == Some(model@),
{
}

/// Law: what is said of a provider is said of its fields.
pub proof fn law_the_view_of_a_provider(provider: Provider)
    ensures
        provider@.id == provider.id@,
        provider@.name == provider.name@,
        provider@.settings_config == provider.settings_config@,
        provider@.created_at == provider.created_at,
        provider@.sort_index == provider.sort_index,
        provider@.in_failover_queue == provider.in_failover_queue,
        provider.website_url is None ==> provider@.website_url is None,
        provider.website_url matches Some(text) ==> provider@.website_url == Some(text@),
        provider.category is None ==> provider@.category is None,
        provider.category matches Some(text) ==> provider@.category == Some(text@),
        provider.notes is None ==> provider@.notes is None,
        provider.notes matches Some(text) ==> provider@.notes == Some(text@),
        provider.meta is None ==> provider@.meta is None,
        provider.meta matches Some(meta) ==> provider@.meta == Some(meta@),
        provider.icon is None ==> provider@.icon is None,
        provider.icon matches Some(text) ==> provider@.icon == Some(text@),
        provider.icon_color is None ==> provider@.icon_color is None,
        provider.icon_color matches Some(text) ==> provider@.icon_color == Some(text@),
{
}

/// Law: a document stands for what it is made of, item by item and member by member.
pub proof fn law_the_view_of_a_document(
    truth: bool,
    number: JsonNumber,
    text: String,
    items: Vec<Json>,
    members: Vec<(String, Json)>,
    i: int,
)
    ensures
        Json::Null@ == JsonView::Null,
        Json::Bool(truth)@ == JsonView::Bool(truth),
        Json::Number(number)@ == JsonView::Number(number),
        Json::String(text)@ == JsonView::String(text@),
        Json::Array(items)@ is Array,
        Json::Array(items)@->Array_0.len() == items@.len(),
        0 <= i < items@.len() ==> Json::Array(items)@->Array_0[i] == items@[i]@,
        Json::Object(members)@ is Object,
        Json::Object(members)@->Object_0.len() == members@.len(),
        0 <= i < members@.len() ==> Json::Object(members)@->Object_0[i] == (
            members@[i].0@,
            members@[i].1@,
        ),
{
    lemma_array_view(items);
    lemma_object_view(members);
}

/// Law: what is said of a target, of a status and of what came of unlocking is said of their
/// fields.
pub proof fn law_the_views_of_what_is_told(
    target: CdpTarget,
    status: CodexCdpStatus,
    result: CodexUnlockResult,
)
    ensures
        target@.id == target.id@,
        target@.target_type == target.target_type@,
        target@.title == target.title@,
        target@.url == target.url@,
        target.web_socket_debugger_url is None ==> target@.web_socket_debugger_url is None,
        target.web_socket_debugger_url matches Some(url) ==> target@.web_socket_debugger_url
            == Some(url@),
        status@.state == status.state@,
        status@.message == status.message@,
        status@.port == status.port,
        status.executable is None ==> status@.executable is None,
        status.executable matches Some(path) ==> status@.executable == Some(path@),
        result@.state == result.state@,
        result@.message == result.message@,
        result@.port == result.port,
        result@.injected_targets == result.injected_targets,
        result@.model_count == result.model_count,
{
}

/// Law: what was read of a section keeps its kind, and its list keeps its entries.
pub proof fn law_the_view_of_a_section(entries: Vec<Option<String>>, i: int)
    ensures
        TomlSection::Missing@ == TomlSectionView::Missing,
        TomlSection::Other@ == TomlSectionView::Other,
        TomlSection::Table(None)@ == TomlSectionView::Table(None),
        TomlSection::InlineTable(None)@ == TomlSectionView::InlineTable(None),
        TomlSection::Table(Some(entries))@ matches TomlSectionView::Table(Some(list)) && {
            &&& list.len() == entries@.len()
            &&& 0 <= i < list.len() && entries@[i] is None ==> list[i] is None
            &&& 0 <= i < list.len() && entries@[i] is Some ==> list[i] == Some(entries@[i]->0@)
        },
        TomlSection::InlineTable(Some(entries))@ matches TomlSectionView::InlineTable(Some(list))
            && {
            &&& list.len() == entries@.len()
            &&& 0 <= i < list.len() && entries@[i] is None ==> list[i] is None
            &&& 0 <= i < list.len() && entries@[i] is Some ==> list[i] == Some(entries@[i]->0@)
        },
{
}

} // verus!
