//! Aggregation of several Codex relays.
//!
//! In single mode the live configuration is that of the active provider. In aggregation mode
//! several relays take part: their model catalogs are merged into one, and a request is routed
//! to a relay that offers the model it asks for. A model that several relays offer goes to the
//! one with the highest weight, unless a binding names its source.

use indexmap::IndexMap;
use vstd::hash_map::StringHashMap;
use vstd::hash_set::StringHashSet;
use vstd::prelude::*;
use vstd::string::StringExecFns;

use crate::json::{
    items_view, lemma_position_is, lemma_with_get, lemma_with_twice, push_member, views, Json, JsonView,
};
use crate::provider::{
    bare_provider, outcome_view, AppError, AppErrorView, Provider, ProviderView,
};
use crate::text::{same_text, str_view, string_view, trim, trimmed};
use crate::toml::{
    edit_view, is_quotable, is_toml, quotable, read_toml_string, same_but_for, set_toml_string,
    toml_string, toml_with_string,
};

verus! {

/// The provider that stands for the aggregation itself. It has no relay's stored settings.
pub const CODEX_AGGREGATION_PROVIDER_ID: &'static str = "codex-aggregation";

pub const CODEX_AGGREGATION_PROVIDER_NAME: &'static str = "Codex 聚合";

pub const DEFAULT_CODEX_AGGREGATION_WEIGHT: u32 = 100;

/// The configuration that the aggregation starts from.
pub const CODEX_AGGREGATION_CONFIG_TEMPLATE: &'static str = r#"model_provider = "custom"
model_reasoning_effort = "high"
disable_response_storage = true

[model_providers.custom]
name = "Codex 聚合"
wire_api = "responses"
requires_openai_auth = false

[features.multi_agent_v2]
enabled = true
expose_spawn_agent_model_overrides = true
hide_spawn_agent_metadata = false
"#;

/// How relays are aggregated.
pub struct CodexAggregationConfig {
    /// Whether aggregation is on.
    pub enabled: bool,
    /// The identifiers of the providers that take part.
    pub providers: StringHashSet,
    /// The weights of providers. One that is not listed has the default weight.
    pub weights: StringHashMap<u32>,
    /// For a model, the identifier of the provider that it has to come from.
    pub bindings: StringHashMap<String>,
    /// The default model; without one it is the first visible model of the merged catalog.
    pub default_model: Option<String>,
}

/// What a [`CodexAggregationConfig`] stands for.
pub struct AggregationView {
    pub enabled: bool,
    pub providers: Set<Seq<char>>,
    pub weights: Map<Seq<char>, u32>,
    pub bindings: Map<Seq<char>, Seq<char>>,
    pub default_model: Option<Seq<char>>,
}

impl View for CodexAggregationConfig {
    type V = AggregationView;

    open spec fn view(&self) -> AggregationView {
        AggregationView {
            enabled: self.enabled,
            providers: self.providers@,
            weights: self.weights@,
            bindings: self.bindings@.map_values(|id: String| id@),
            default_model: string_view(self.default_model),
        }
    }
}

impl AggregationView {
    /// The weight of a provider.
    pub open spec fn weight(self, id: Seq<char>) -> u32 {
        if self.weights.contains_key(id) {
            self.weights[id]
        } else {
            DEFAULT_CODEX_AGGREGATION_WEIGHT
        }
    }

    /// The provider that a model is bound to.
    pub open spec fn binding(self, model: Seq<char>) -> Option<Seq<char>> {
        if self.bindings.contains_key(model) {
            Some(self.bindings[model])
        } else {
            None
        }
    }

    /// Whether aggregation is in effect: on, and with a provider that takes part.
    pub open spec fn active(self) -> bool {
        self.enabled && !self.providers.is_empty()
    }
}

impl Default for CodexAggregationConfig {
    /// Aggregation that is off, with nothing set.
    fn default() -> (config: CodexAggregationConfig)
        ensures
            !config@.enabled,
            config@.providers == Set::<Seq<char>>::empty(),
            config@.weights == Map::<Seq<char>, u32>::empty(),
            config@.bindings == Map::<Seq<char>, Seq<char>>::empty(),
            config@.default_model is None,
    {
        CodexAggregationConfig {
            enabled: false,
            providers: StringHashSet::new(),
            weights: StringHashMap::new(),
            bindings: StringHashMap::new(),
            default_model: None,
        }
    }
}

impl CodexAggregationConfig {
    /// The weight of a provider.
    pub fn provider_weight(&self, id: &str) -> (weight: u32)
        ensures
            weight == self@.weight(id@),
    {
        match self.weights.get(id) {
            Some(weight) => *weight,
            None => DEFAULT_CODEX_AGGREGATION_WEIGHT,
        }
    }

    /// The provider that a model is bound to.
    fn binding(&self, model: &str) -> (bound: Option<&String>)
        ensures
            match bound {
                Some(id) => self@.binding(model@) == Some(id@),
                None => self@.binding(model@) is None,
            },
    {
        self.bindings.get(model)
    }
}

/// `indexmap::IndexMap`, a map that keeps its entries in order.
#[verifier::external_type_specification]
#[verifier::external_body]
#[verifier::reject_recursive_types(K)]
#[verifier::reject_recursive_types(V)]
#[verifier::reject_recursive_types(S)]
pub struct ExIndexMap<K, V, S>(indexmap::IndexMap<K, V, S>);

/// The entries of a map of providers, in its order.
pub uninterp spec fn entries(all: IndexMap<String, Provider>) -> Seq<(Seq<char>, ProviderView)>;

/// The provider that `key` stands for among the entries of a map.
pub open spec fn lookup(
    entries: Seq<(Seq<char>, ProviderView)>,
    key: Seq<char>,
) -> Option<ProviderView>
    decreases entries.len(),
{
    if entries.len() == 0 {
        None
    } else if entries[0].0 == key {
        Some(entries[0].1)
    } else {
        lookup(entries.drop_first(), key)
    }
}

/// The providers of a map, in its order.
pub open spec fn stored(entries: Seq<(Seq<char>, ProviderView)>) -> Seq<ProviderView> {
    entries.map_values(|entry: (Seq<char>, ProviderView)| entry.1)
}

/// The views of borrowed providers.
pub open spec fn provider_views(providers: Seq<&Provider>) -> Seq<ProviderView> {
    providers.map_values(|provider: &Provider| provider@)
}

/// `IndexMap::values`: the values of the entries, in their order.
#[verifier::external_body]
fn map_values<'a>(all: &'a IndexMap<String, Provider>) -> (providers: Vec<&'a Provider>)
    ensures
        provider_views(providers@) == stored(entries(*all)),
{
    all.values().collect()
}

/// `IndexMap::get`: the value of the entry with the key `key`. A map has one entry for a key.
#[verifier::external_body]
fn map_get<'a>(all: &'a IndexMap<String, Provider>, key: &str) -> (provider: Option<&'a Provider>)
    ensures
        match provider {
            Some(provider) => lookup(entries(*all), key@) == Some(provider@),
            None => lookup(entries(*all), key@) is None,
        },
{
    all.get(key)
}

/// Whether no provider stands behind one with a lower weight.
pub open spec fn descending(providers: Seq<ProviderView>, config: AggregationView) -> bool {
    forall|i: int, j: int|
        0 <= i < j < providers.len() ==> config.weight((#[trigger] providers[i]).id)
            >= config.weight((#[trigger] providers[j]).id)
}

/// The providers of weight `weight`, in their order.
pub open spec fn of_weight(
    providers: Seq<ProviderView>,
    config: AggregationView,
    weight: u32,
) -> Seq<ProviderView> {
    providers.filter(|provider: ProviderView| config.weight(provider.id) == weight)
}

/// Whether `ranked` is `providers` put in the order of their weights, highest first, with those
/// of the same weight in the order in which they stood.
pub open spec fn is_ranking(
    ranked: Seq<ProviderView>,
    providers: Seq<ProviderView>,
    config: AggregationView,
) -> bool {
    &&& descending(ranked, config)
    &&& forall|weight: u32|
        #[trigger] of_weight(ranked, config, weight) == of_weight(providers, config, weight)
}

/// The providers in the order of their weights, highest first; those of the same weight stay in
/// the order in which they stand.
pub open spec fn by_weight(
    providers: Seq<ProviderView>,
    config: AggregationView,
) -> Seq<ProviderView> {
    choose|ranked: Seq<ProviderView>| is_ranking(ranked, providers, config)
}

/// Providers of one weight come last in what has them last.
proof fn lemma_of_weight_last(
    providers: Seq<ProviderView>,
    config: AggregationView,
    weight: u32,
)
    requires
        providers.len() > 0,
    ensures
        of_weight(providers, config, weight) == if config.weight(providers.last().id) == weight {
            of_weight(providers.drop_last(), config, weight).push(providers.last())
        } else {
            of_weight(providers.drop_last(), config, weight)
        },
{
    reveal_with_fuel(Seq::filter, 2);
}

/// A provider is among those of its weight.
proof fn lemma_of_weight_contains(
    providers: Seq<ProviderView>,
    config: AggregationView,
    i: int,
)
    requires
        0 <= i < providers.len(),
    ensures
        of_weight(providers, config, config.weight(providers[i].id)).contains(providers[i]),
{
    let weight = config.weight(providers[i].id);
    let pred = |provider: ProviderView| config.weight(provider.id) == weight;
    assert(pred(providers[i]));
    providers.lemma_filter_contains(pred, i);
}

/// Those of one weight are among all, and of that weight.
proof fn lemma_of_weight_member(
    providers: Seq<ProviderView>,
    config: AggregationView,
    weight: u32,
    provider: ProviderView,
)
    requires
        of_weight(providers, config, weight).contains(provider),
    ensures
        providers.contains(provider),
        config.weight(provider.id) == weight,
    decreases providers.len(),
{
    if providers.len() > 0 {
        lemma_of_weight_last(providers, config, weight);
        let rest = of_weight(providers.drop_last(), config, weight);
        if rest.contains(provider) {
            lemma_of_weight_member(providers.drop_last(), config, weight, provider);
            let i = choose|i: int|
                0 <= i < providers.drop_last().len() && providers.drop_last()[i] == provider;
            assert(providers[i] == provider);
        } else {
            let all = of_weight(providers, config, weight);
            let i = choose|i: int| 0 <= i < all.len() && all[i] == provider;
            assert(i == rest.len()) by {
                if i < rest.len() {
                    assert(rest[i] == provider);
                }
            }
            assert(providers[providers.len() - 1] == provider);
        }
    }
}

/// There is no second ranking of the same providers.
proof fn lemma_ranking_unique(
    one: Seq<ProviderView>,
    two: Seq<ProviderView>,
    config: AggregationView,
)
    requires
        descending(one, config),
        descending(two, config),
        forall|weight: u32|
            #[trigger] of_weight(one, config, weight) == of_weight(two, config, weight),
    ensures
        one == two,
    decreases one.len(),
{
    if one.len() == 0 {
        if two.len() > 0 {
            lemma_of_weight_contains(two, config, 0);
            let weight = config.weight(two[0].id);
            assert(of_weight(one, config, weight).contains(two[0]));
            lemma_of_weight_member(one, config, weight, two[0]);
        }
        assert(one == two);
    } else {
        let last_one = one.last();
        let low_one = config.weight(last_one.id);
        lemma_of_weight_contains(one, config, one.len() - 1);
        assert(of_weight(two, config, low_one).contains(last_one));
        lemma_of_weight_member(two, config, low_one, last_one);
        assert(two.len() > 0);
        let last_two = two.last();
        let low_two = config.weight(last_two.id);
        lemma_of_weight_contains(two, config, two.len() - 1);
        assert(of_weight(one, config, low_two).contains(last_two));
        lemma_of_weight_member(one, config, low_two, last_two);
        // Each of the two lowest weights is at most the other.
        let i = choose|i: int| 0 <= i < one.len() && one[i] == last_two;
        let j = choose|j: int| 0 <= j < two.len() && two[j] == last_one;
        assert(low_one == low_two);
        lemma_of_weight_last(one, config, low_one);
        lemma_of_weight_last(two, config, low_one);
        assert(of_weight(one, config, low_one).last() == last_one);
        assert(of_weight(two, config, low_one).last() == last_two);
        assert forall|weight: u32|
            #[trigger] of_weight(one.drop_last(), config, weight) == of_weight(
                two.drop_last(),
                config,
                weight,
            ) by {
            lemma_of_weight_last(one, config, weight);
            lemma_of_weight_last(two, config, weight);
            assert(of_weight(one, config, weight) == of_weight(two, config, weight));
            if weight == low_one {
                assert(of_weight(one, config, weight).drop_last() == of_weight(
                    one.drop_last(),
                    config,
                    weight,
                ));
                assert(of_weight(two, config, weight).drop_last() == of_weight(
                    two.drop_last(),
                    config,
                    weight,
                ));
            }
        }
        lemma_ranking_unique(one.drop_last(), two.drop_last(), config);
        assert(one == one.drop_last().push(last_one));
        assert(two == two.drop_last().push(last_two));
    }
}

/// A provider put behind the last one that has at least its weight keeps a ranking a ranking.
proof fn lemma_ranking_insert(
    ranked: Seq<ProviderView>,
    providers: Seq<ProviderView>,
    config: AggregationView,
    provider: ProviderView,
    at: int,
)
    requires
        is_ranking(ranked, providers, config),
        0 <= at <= ranked.len(),
        forall|i: int|
            0 <= i < at ==> config.weight((#[trigger] ranked[i]).id) >= config.weight(provider.id),
        forall|i: int|
            at <= i < ranked.len() ==> config.weight((#[trigger] ranked[i]).id) < config.weight(
                provider.id,
            ),
    ensures
        is_ranking(ranked.insert(at, provider), providers.push(provider), config),
{
    let new = ranked.insert(at, provider);
    let head = ranked.take(at);
    let tail = ranked.skip(at);
    assert(ranked == head + tail);
    assert(new == head + seq![provider] + tail);
    assert forall|weight: u32| #[trigger]
        of_weight(new, config, weight) == of_weight(providers.push(provider), config, weight) by {
        let pred = |p: ProviderView| config.weight(p.id) == weight;
        Seq::filter_distributes_over_add(head, tail, pred);
        Seq::filter_distributes_over_add(head + seq![provider], tail, pred);
        Seq::filter_distributes_over_add(head, seq![provider], pred);
        lemma_of_weight_last(providers.push(provider), config, weight);
        lemma_of_weight_last(seq![provider], config, weight);
        assert(providers.push(provider).drop_last() == providers);
        assert(seq![provider].drop_last() == Seq::<ProviderView>::empty());
        assert(Seq::<ProviderView>::empty().filter(pred) == Seq::<ProviderView>::empty()) by {
            reveal_with_fuel(Seq::filter, 1);
        }
        assert(of_weight(ranked, config, weight) == of_weight(providers, config, weight));
        if config.weight(provider.id) == weight {
            assert(tail.filter(pred) == Seq::<ProviderView>::empty()) by {
                assert forall|i: int| 0 <= i < tail.len() implies !pred(#[trigger] tail[i]) by {
                    assert(tail[i] == ranked[at + i]);
                }
                tail.lemma_all_neg_filter_empty(pred);
            }
            assert(of_weight(new, config, weight) == head.filter(pred).push(provider));
            assert(of_weight(ranked, config, weight) == head.filter(pred));
        } else {
            assert(of_weight(new, config, weight) == head.filter(pred) + tail.filter(pred));
        }
    }
}

/// Law: there is one way to rank providers, and [`by_weight`] is it.
pub proof fn law_by_weight_is_the_ranking(providers: Seq<ProviderView>, config: AggregationView)
    ensures
        is_ranking(by_weight(providers, config), providers, config),
        forall|ranked: Seq<ProviderView>| #[trigger]
            is_ranking(ranked, providers, config) ==> ranked == by_weight(providers, config),
{
    lemma_ranking_exists(providers, config);
    let chosen = by_weight(providers, config);
    assert forall|ranked: Seq<ProviderView>| #[trigger]
        is_ranking(ranked, providers, config) implies ranked == chosen by {
        assert forall|weight: u32|
            #[trigger] of_weight(ranked, config, weight) == of_weight(chosen, config, weight) by {
            assert(of_weight(chosen, config, weight) == of_weight(providers, config, weight));
        }
        lemma_ranking_unique(ranked, chosen, config);
    }
}

/// Where a provider of weight `weight` belongs in a ranking.
spec fn place(ranked: Seq<ProviderView>, config: AggregationView, weight: u32) -> int
    decreases ranked.len(),
{
    if ranked.len() == 0 || config.weight(ranked.last().id) >= weight {
        ranked.len() as int
    } else {
        place(ranked.drop_last(), config, weight)
    }
}

proof fn lemma_place(ranked: Seq<ProviderView>, config: AggregationView, weight: u32)
    requires
        descending(ranked, config),
    ensures
        0 <= place(ranked, config, weight) <= ranked.len(),
        forall|i: int|
            0 <= i < place(ranked, config, weight) ==> config.weight((#[trigger] ranked[i]).id)
                >= weight,
        forall|i: int|
            place(ranked, config, weight) <= i < ranked.len() ==> config.weight(
                (#[trigger] ranked[i]).id,
            ) < weight,
    decreases ranked.len(),
{
    if ranked.len() > 0 && config.weight(ranked.last().id) < weight {
        let rest = ranked.drop_last();
        lemma_place(rest, config, weight);
        assert forall|i: int| 0 <= i < place(ranked, config, weight) implies config.weight(
            (#[trigger] ranked[i]).id,
        ) >= weight by {
            assert(rest[i] == ranked[i]);
        }
        assert forall|i: int|
            place(ranked, config, weight) <= i < ranked.len() implies config.weight(
            (#[trigger] ranked[i]).id,
        ) < weight by {
            if i < rest.len() {
                assert(rest[i] == ranked[i]);
            }
        }
    }
}

proof fn lemma_ranking_exists(providers: Seq<ProviderView>, config: AggregationView)
    ensures
        exists|ranked: Seq<ProviderView>| is_ranking(ranked, providers, config),
    decreases providers.len(),
{
    if providers.len() == 0 {
        assert(is_ranking(providers, providers, config));
    } else {
        let rest = providers.drop_last();
        let provider = providers.last();
        lemma_ranking_exists(rest, config);
        let ranked = choose|ranked: Seq<ProviderView>| is_ranking(ranked, rest, config);
        let at = place(ranked, config, config.weight(provider.id));
        lemma_place(ranked, config, config.weight(provider.id));
        lemma_ranking_insert(ranked, rest, config, provider, at);
        assert(rest.push(provider) == providers);
    }
}

/// The providers in the order of their weights.
fn rank_by_weight<'a>(providers: Vec<&'a Provider>, config: &CodexAggregationConfig) -> (ranked:
    Vec<&'a Provider>)
    ensures
        provider_views(ranked@) == by_weight(provider_views(providers@), config@),
{
    let ghost all = provider_views(providers@);
    let mut ranked: Vec<&'a Provider> = Vec::new();
    let mut i: usize = 0;
    assert(is_ranking(provider_views(ranked@), all.take(0), config@)) by {
        assert(provider_views(ranked@) == all.take(0));
    }
    while i < providers.len()
        invariant
            i <= providers@.len(),
            all == provider_views(providers@),
            is_ranking(provider_views(ranked@), all.take(i as int), config@),
        decreases providers@.len() - i,
    {
        let provider: &'a Provider = providers[i];
        let weight = config.provider_weight(provider.id.as_str());
        let ghost so_far = provider_views(ranked@);
        let mut at: usize = ranked.len();
        while at > 0 && config.provider_weight(ranked[at - 1].id.as_str()) < weight
            invariant
                at <= ranked@.len(),
                so_far == provider_views(ranked@),
                forall|j: int|
                    at <= j < so_far.len() ==> config@.weight((#[trigger] so_far[j]).id) < weight,
            decreases at,
        {
            assert(so_far[at - 1] == ranked@[at - 1]@);
            at = at - 1;
        }
        assert forall|j: int| 0 <= j < at implies config@.weight((#[trigger] so_far[j]).id)
            >= weight by {
            assert(so_far[at - 1] == ranked@[at - 1]@);
        }
        proof {
            lemma_ranking_insert(so_far, all.take(i as int), config@, provider@, at as int);
        }
        ranked.insert(at, provider);
        assert(provider_views(ranked@) == so_far.insert(at as int, provider@));
        assert(all.take(i as int).push(provider@) == all.take(i + 1));
        i = i + 1;
    }
    assert(all.take(all.len() as int) == all);
    proof {
        law_by_weight_is_the_ranking(all, config@);
    }
    ranked
}

/// The models that a provider's catalog lists.
pub open spec fn catalog_models(provider: ProviderView) -> Option<Seq<JsonView>> {
    match provider.settings_config.get("modelCatalog"@) {
        Some(catalog) => catalog.get_items("models"@),
        None => None,
    }
}

/// Whether a provider's catalog lists the model `model`.
pub open spec fn has_model(provider: ProviderView, model: Seq<char>) -> bool {
    match catalog_models(provider) {
        Some(models) => exists|i: int|
            0 <= i < models.len() && (#[trigger] models[i]).get_text("model"@) == Some(model),
        None => false,
    }
}

/// The models that a provider's catalog lists.
fn models_of(provider: &Provider) -> (models: Option<&Vec<Json>>)
    ensures
        items_view(models) == catalog_models(provider@),
{
    match provider.settings_config.get("modelCatalog") {
        Some(catalog) => catalog.get_array("models"),
        None => None,
    }
}

/// Whether a provider's catalog lists the model `model`.
pub fn provider_has_model(provider: &Provider, model: &str) -> (yes: bool)
    ensures
        yes == has_model(provider@, model@),
{
    match models_of(provider) {
        Some(models) => {
            let ghost all = views(models@);
            let mut i: usize = 0;
            while i < models.len()
                invariant
                    i <= models@.len(),
                    all == views(models@),
                    catalog_models(provider@) == Some(all),
                    forall|j: int|
                        0 <= j < i ==> (#[trigger] all[j]).get_text("model"@) != Some(model@),
                decreases models@.len() - i,
            {
                assert(all[i as int] == models@[i as int]@);
                if let Some(name) = models[i].get_str("model") {
                    if same_text(name, model) {
                        return true;
                    }
                }
                i = i + 1;
            }
            false
        },
        None => false,
    }
}

/// The stored providers that take part in the aggregation.
pub open spec fn participants(
    entries: Seq<(Seq<char>, ProviderView)>,
    config: AggregationView,
) -> Seq<ProviderView> {
    stored(entries).filter(|provider: ProviderView| config.providers.contains(provider.id))
}

/// The stored providers that take part in the aggregation and offer the model `model`.
pub open spec fn offering(
    entries: Seq<(Seq<char>, ProviderView)>,
    config: AggregationView,
    model: Seq<char>,
) -> Seq<ProviderView> {
    stored(entries).filter(
        |provider: ProviderView|
            config.providers.contains(provider.id) && has_model(provider, model),
    )
}

/// The providers that take part, by weight.
pub fn sorted_enabled_codex_providers<'a>(
    all: &'a IndexMap<String, Provider>,
    config: &CodexAggregationConfig,
) -> (ranked: Vec<&'a Provider>)
    ensures
        provider_views(ranked@) == by_weight(participants(entries(*all), config@), config@),
{
    let values = map_values(all);
    let ghost list = stored(entries(*all));
    let ghost takes_part = |provider: ProviderView| config@.providers.contains(provider.id);
    let mut chosen: Vec<&'a Provider> = Vec::new();
    let mut i: usize = 0;
    assert(provider_views(chosen@) == list.take(0).filter(takes_part)) by {
        reveal_with_fuel(Seq::filter, 1);
    }
    while i < values.len()
        invariant
            i <= values@.len(),
            list == provider_views(values@),
            takes_part == (|provider: ProviderView| config@.providers.contains(provider.id)),
            provider_views(chosen@) == list.take(i as int).filter(takes_part),
        decreases values@.len() - i,
    {
        let provider: &'a Provider = values[i];
        let ghost before = provider_views(chosen@);
        assert(list.take(i + 1) == list.take(i as int).push(provider@));
        proof {
            list.take(i as int).lemma_filter_push(provider@, takes_part);
        }
        if config.providers.contains(provider.id.as_str()) {
            chosen.push(provider);
            assert(provider_views(chosen@) == before.push(provider@));
        }
        i = i + 1;
    }
    assert(list.take(list.len() as int) == list);
    rank_by_weight(chosen, config)
}

/// The relays that a request for `model` may go to, in the order in which they are tried. A
/// bound model has its own provider for its only relay, where that takes part and is stored.
pub open spec fn route(
    model: Seq<char>,
    entries: Seq<(Seq<char>, ProviderView)>,
    config: AggregationView,
) -> Seq<ProviderView> {
    match config.binding(model) {
        Some(bound) => match lookup(entries, bound) {
            Some(provider) => if config.providers.contains(bound) {
                seq![provider]
            } else {
                Seq::empty()
            },
            None => Seq::empty(),
        },
        None => by_weight(offering(entries, config, model), config),
    }
}

/// The relays that a request for `model` may go to: the first is the one to use, the others are
/// for when it fails.
pub fn resolve_codex_model_provider_chain<'a>(
    model: &str,
    all: &'a IndexMap<String, Provider>,
    config: &CodexAggregationConfig,
) -> (chain: Vec<&'a Provider>)
    ensures
        provider_views(chain@) == route(model@, entries(*all), config@),
{
    let mut chosen: Vec<&'a Provider> = Vec::new();
    if let Some(bound) = config.binding(model) {
        if config.providers.contains(bound.as_str()) {
            if let Some(provider) = map_get(all, bound.as_str()) {
                chosen.push(provider);
                assert(provider_views(chosen@) == seq![provider@]);
            }
        }
        assert(provider_views(chosen@) == route(model@, entries(*all), config@));
        return chosen;
    }
    let values = map_values(all);
    let ghost list = stored(entries(*all));
    let ghost offers = |provider: ProviderView|
        config@.providers.contains(provider.id) && has_model(provider, model@);
    let mut i: usize = 0;
    assert(provider_views(chosen@) == list.take(0).filter(offers)) by {
        reveal_with_fuel(Seq::filter, 1);
    }
    while i < values.len()
        invariant
            i <= values@.len(),
            list == provider_views(values@),
            offers == (|provider: ProviderView|
                config@.providers.contains(provider.id) && has_model(provider, model@)),
            provider_views(chosen@) == list.take(i as int).filter(offers),
        decreases values@.len() - i,
    {
        let provider: &'a Provider = values[i];
        let ghost before = provider_views(chosen@);
        assert(list.take(i + 1) == list.take(i as int).push(provider@));
        proof {
            list.take(i as int).lemma_filter_push(provider@, offers);
        }
        if config.providers.contains(provider.id.as_str()) && provider_has_model(provider, model) {
            chosen.push(provider);
            assert(provider_views(chosen@) == before.push(provider@));
        }
        i = i + 1;
    }
    assert(list.take(list.len() as int) == list);
    rank_by_weight(chosen, config)
}

/// The first of a sequence of providers.
pub open spec fn first(providers: Seq<ProviderView>) -> Option<ProviderView> {
    if providers.len() > 0 {
        Some(providers[0])
    } else {
        None
    }
}

/// The relay that a request for `model` goes to.
pub fn resolve_codex_model_provider<'a>(
    model: &str,
    all: &'a IndexMap<String, Provider>,
    config: &CodexAggregationConfig,
) -> (provider: Option<&'a Provider>)
    ensures
        match provider {
            Some(provider) => first(route(model@, entries(*all), config@)) == Some(provider@),
            None => first(route(model@, entries(*all), config@)) is None,
        },
{
    let chain = resolve_codex_model_provider_chain(model, all, config);
    if chain.len() > 0 {
        let ghost views = provider_views(chain@);
        assert(views[0] == chain@[0]@);
        Some(chain[0])
    } else {
        None
    }
}

/// The provider that routing and merging start from: of those that take part, the one with the
/// highest weight.
pub open spec fn base_provider(
    entries: Seq<(Seq<char>, ProviderView)>,
    config: AggregationView,
) -> Option<Seq<char>> {
    if config.active() {
        match first(by_weight(participants(entries, config), config)) {
            Some(provider) => Some(provider.id),
            None => None,
        }
    } else {
        None
    }
}

/// The identifier of the provider that routing and merging start from; nothing where
/// aggregation is off or nobody takes part.
pub fn resolve_codex_base_provider_id(
    all: &IndexMap<String, Provider>,
    config: &CodexAggregationConfig,
) -> (id: Option<String>)
    ensures
        string_view(id) == base_provider(entries(*all), config@),
{
    if !config.enabled || config.providers.is_empty() {
        return None;
    }
    let ranked = sorted_enabled_codex_providers(all, config);
    if ranked.len() > 0 {
        let ghost views = provider_views(ranked@);
        assert(views[0] == ranked@[0]@);
        Some(ranked[0].id.clone())
    } else {
        None
    }
}

/// The text of a string that is not blank, without the whitespace around it.
pub open spec fn filled(text: Option<Seq<char>>) -> Option<Seq<char>> {
    match text {
        Some(text) => if trimmed(text).len() > 0 {
            Some(trimmed(text))
        } else {
            None
        },
        None => None,
    }
}

/// The model that an entry of a catalog is about.
pub open spec fn model_of(entry: JsonView) -> Option<Seq<char>> {
    filled(entry.get_text("model"@))
}

/// The relay that an entry of a catalog says it comes from.
pub open spec fn source_of(entry: JsonView) -> Option<Seq<char>> {
    match entry.get("providerId"@) {
        Some(source) => filled(source.as_text()),
        None => filled(entry.get_text("provider_id"@)),
    }
}

/// The entries that one provider lists, each with the identifier of the provider.
pub open spec fn listed_by(provider: ProviderView) -> Seq<(Seq<char>, JsonView)> {
    match catalog_models(provider) {
        Some(models) => models.map_values(|entry: JsonView| (provider.id, entry)),
        None => Seq::empty(),
    }
}

/// The entries that providers list, in their order, each with the identifier of its provider.
pub open spec fn listed(providers: Seq<ProviderView>) -> Seq<(Seq<char>, JsonView)>
    decreases providers.len(),
{
    if providers.len() == 0 {
        Seq::empty()
    } else {
        listed(providers.drop_last()) + listed_by(providers.last())
    }
}

/// Whether an entry may stand in the merged catalog: it is about a model, does not say that it
/// comes from another relay, and its model is not bound to another one.
pub open spec fn eligible(config: AggregationView, candidate: (Seq<char>, JsonView)) -> bool {
    match model_of(candidate.1) {
        Some(model) => {
            &&& source_of(candidate.1) is Some ==> source_of(candidate.1) == Some(candidate.0)
            &&& config.binding(model) is Some ==> config.binding(model) == Some(candidate.0)
        },
        None => false,
    }
}

/// Whether the candidate at `i` is the first eligible one for its model.
pub open spec fn wins(
    config: AggregationView,
    candidates: Seq<(Seq<char>, JsonView)>,
    i: int,
) -> bool {
    &&& eligible(config, candidates[i])
    &&& forall|j: int|
        0 <= j < i && eligible(config, #[trigger] candidates[j]) ==> model_of(candidates[j].1)
            != model_of(candidates[i].1)
}

/// The entry of a candidate, marked with the relay that it comes from.
pub open spec fn tagged(candidate: (Seq<char>, JsonView)) -> JsonView {
    candidate.1.with("providerId"@, JsonView::String(candidate.0))
}

/// The entries of the candidates that win, in their order.
pub open spec fn merged(
    config: AggregationView,
    candidates: Seq<(Seq<char>, JsonView)>,
) -> Seq<JsonView>
    decreases candidates.len(),
{
    if candidates.len() == 0 {
        Seq::empty()
    } else if wins(config, candidates, candidates.len() - 1) {
        merged(config, candidates.drop_last()).push(tagged(candidates.last()))
    } else {
        merged(config, candidates.drop_last())
    }
}

/// The candidates for the merged catalog: what the providers that take part list, by weight.
pub open spec fn candidates(
    entries: Seq<(Seq<char>, ProviderView)>,
    config: AggregationView,
) -> Seq<(Seq<char>, JsonView)> {
    listed(by_weight(participants(entries, config), config))
}

/// The merged catalog.
pub open spec fn merged_catalog(
    entries: Seq<(Seq<char>, ProviderView)>,
    config: AggregationView,
) -> JsonView {
    JsonView::Object(
        seq![("models"@, JsonView::Array(merged(config, candidates(entries, config))))],
    )
}

/// The text of a string that is not blank, without the whitespace around it.
fn filled_text(text: Option<&str>) -> (result: Option<String>)
    ensures
        string_view(result) == filled(str_view(text)),
{
    match text {
        Some(text) => {
            let inner = trim(text);
            if inner.as_str().is_empty() {
                None
            } else {
                Some(inner)
            }
        },
        None => None,
    }
}

/// The relay that an entry of a catalog says it comes from.
fn entry_provider_id(entry: &Json) -> (source: Option<String>)
    ensures
        string_view(source) == source_of(entry@),
{
    match entry.get("providerId") {
        Some(source) => filled_text(source.as_str()),
        None => filled_text(entry.get_str("provider_id")),
    }
}

/// Whether an entry about `model` that `id` lists may stand in the merged catalog.
fn may_stand(config: &CodexAggregationConfig, id: &str, entry: &Json, model: &str) -> (yes: bool)
    requires
        model_of(entry@) == Some(model@),
    ensures
        yes == eligible(config@, (id@, entry@)),
{
    if let Some(source) = entry_provider_id(entry) {
        if !same_text(source.as_str(), id) {
            return false;
        }
    }
    if let Some(bound) = config.binding(model) {
        if !same_text(bound.as_str(), id) {
            return false;
        }
    }
    true
}

/// Whether a model is that of an eligible candidate.
spec fn taken(
    config: AggregationView,
    candidates: Seq<(Seq<char>, JsonView)>,
    model: Seq<char>,
) -> bool {
    exists|j: int|
        0 <= j < candidates.len() && eligible(config, #[trigger] candidates[j]) && model_of(
            candidates[j].1,
        ) == Some(model)
}

/// Merges the model catalogs of the relays that take part. A model stands in it once: the entry
/// is that of the relay with the highest weight that may list it, and says so under
/// `providerId`.
pub fn merge_codex_model_catalog(
    all: &IndexMap<String, Provider>,
    config: &CodexAggregationConfig,
) -> (catalog: Json)
    ensures
        catalog@ == merged_catalog(entries(*all), config@),
{
    let ranked = sorted_enabled_codex_providers(all, config);
    let ghost providers = provider_views(ranked@);
    let mut kept: Vec<Json> = Vec::new();
    let mut seen = StringHashSet::new();
    let mut i: usize = 0;
    assert(views(kept@) == merged(config@, listed(providers.take(0))));
    while i < ranked.len()
        invariant
            i <= ranked@.len(),
            providers == provider_views(ranked@),
            views(kept@) == merged(config@, listed(providers.take(i as int))),
            forall|model: Seq<char>| #[trigger]
                seen@.contains(model) <==> taken(
                    config@,
                    listed(providers.take(i as int)),
                    model,
                ),
        decreases ranked@.len() - i,
    {
        let provider: &Provider = ranked[i];
        let ghost done = listed(providers.take(i as int));
        assert(providers.take(i + 1).drop_last() == providers.take(i as int));
        assert(providers.take(i + 1).last() == provider@);
        assert(listed(providers.take(i + 1)) == done + listed_by(provider@));
        match models_of(provider) {
            Some(models) => {
                let ghost more = listed_by(provider@);
                let mut j: usize = 0;
                assert(done + more.take(0) == done);
                while j < models.len()
                    invariant
                        j <= models@.len(),
                        more.len() == models@.len(),
                        forall|k: int|
                            0 <= k < more.len() ==> #[trigger] more[k] == (
                                provider@.id,
                                models@[k]@,
                            ),
                        views(kept@) == merged(config@, done + more.take(j as int)),
                        forall|model: Seq<char>| #[trigger]
                            seen@.contains(model) <==> taken(
                                config@,
                                done + more.take(j as int),
                                model,
                            ),
                    decreases models@.len() - j,
                {
                    let entry = &models[j];
                    let ghost before = done + more.take(j as int);
                    let ghost now = done + more.take(j + 1);
                    let ghost candidate = (provider@.id, entry@);
                    assert(now == before.push(candidate));
                    assert(now.drop_last() == before);
                    let ghost kept_before = views(kept@);
                    let ghost seen_before = seen@;
                    if let Some(model) = filled_text(entry.get_str("model")) {
                        let known = seen.contains(model.as_str());
                        let fits = may_stand(config, provider.id.as_str(), entry, model.as_str());
                        assert(wins(config@, now, now.len() - 1) == (fits && !known)) by {
                            assert(now[now.len() - 1] == candidate);
                            assert forall|k: int| 0 <= k < before.len() implies
                                #[trigger] now[k] == before[k] by {}
                            if known {
                                let k = choose|k: int|
                                    0 <= k < before.len() && eligible(config@, #[trigger] before[k])
                                        && model_of(before[k].1) == Some(model@);
                                assert(now[k] == before[k]);
                            }
                        }
                        if fits && !known {
                            kept.push(
                                entry.with("providerId", Json::text(provider.id.as_str())),
                            );
                            assert(views(kept@) == kept_before.push(tagged(candidate)));
                            seen.insert(model);
                        }
                    } else {
                        assert(!eligible(config@, candidate));
                        assert(!wins(config@, now, now.len() - 1));
                    }
                    assert forall|model: Seq<char>| #[trigger]
                        seen@.contains(model) <==> taken(config@, now, model) by {
                        lemma_taken_push(config@, before, candidate, model);
                    }
                    j = j + 1;
                }
                assert(more.take(more.len() as int) == more);
            },
            None => {
                assert(done + listed_by(provider@) == done);
            },
        }
        i = i + 1;
    }
    assert(providers.take(providers.len() as int) == providers);
    let mut members: Vec<(String, Json)> = Vec::new();
    push_member(&mut members, "models", Json::array(kept));
    let catalog = Json::object(members);
    assert(catalog@->Object_0 == merged_catalog(entries(*all), config@)->Object_0);
    catalog
}

proof fn lemma_taken_push(
    config: AggregationView,
    candidates: Seq<(Seq<char>, JsonView)>,
    candidate: (Seq<char>, JsonView),
    model: Seq<char>,
)
    ensures
        taken(config, candidates.push(candidate), model) == (taken(config, candidates, model) || (
        eligible(config, candidate) && model_of(candidate.1) == Some(model))),
{
    let longer = candidates.push(candidate);
    assert(longer[candidates.len() as int] == candidate);
    if taken(config, candidates, model) {
        let k = choose|k: int|
            0 <= k < candidates.len() && eligible(config, #[trigger] candidates[k]) && model_of(
                candidates[k].1,
            ) == Some(model);
        assert(longer[k] == candidates[k]);
    }
    if taken(config, longer, model) {
        let k = choose|k: int|
            0 <= k < longer.len() && eligible(config, #[trigger] longer[k]) && model_of(longer[k].1)
                == Some(model);
        if k < candidates.len() {
            assert(longer[k] == candidates[k]);
        }
    }
}

/// Whether an entry of a catalog is hidden.
pub open spec fn hidden(entry: JsonView) -> bool {
    match entry.get("hidden"@) {
        Some(flag) => flag.as_truth() == Some(true),
        None => false,
    }
}

/// The model of the first entry that is not hidden.
pub open spec fn first_visible(models: Seq<JsonView>) -> Option<Seq<char>>
    decreases models.len(),
{
    if models.len() == 0 {
        None
    } else if hidden(models[0]) {
        first_visible(models.drop_first())
    } else {
        models[0].get_text("model"@)
    }
}

/// The model of the first entry of a catalog that is not hidden.
pub open spec fn visible_model(catalog: JsonView) -> Option<Seq<char>> {
    match catalog.get_items("models"@) {
        Some(models) => first_visible(models),
        None => None,
    }
}

/// The model of the first entry of a catalog that is not hidden.
pub fn first_visible_model(catalog: &Json) -> (model: Option<String>)
    ensures
        string_view(model) == visible_model(catalog@),
{
    match catalog.get_array("models") {
        Some(models) => {
            let ghost all = views(models@);
            let mut i: usize = 0;
            assert(all.skip(0) == all);
            while i < models.len()
                invariant
                    i <= models@.len(),
                    all == views(models@),
                    visible_model(catalog@) == first_visible(all.skip(i as int)),
                decreases models@.len() - i,
            {
                let entry = &models[i];
                assert(all.skip(i as int)[0] == entry@);
                assert(all.skip(i as int).drop_first() == all.skip(i + 1));
                let is_hidden = match entry.get("hidden") {
                    Some(flag) => match flag.as_bool() {
                        Some(flag) => flag,
                        None => false,
                    },
                    None => false,
                };
                if !is_hidden {
                    return match entry.get_str("model") {
                        Some(model) => Some(model.to_owned()),
                        None => None,
                    };
                }
                i = i + 1;
            }
            None
        },
        None => None,
    }
}

/// The settings of the provider that stands for the aggregation.
pub open spec fn aggregation_settings(config_text: Seq<char>, catalog: JsonView) -> JsonView {
    JsonView::Object(
        seq![
            ("auth"@, JsonView::Object(Seq::empty())),
            ("config"@, JsonView::String(config_text)),
            ("modelCatalog"@, catalog),
        ],
    )
}

/// The provider that stands for the aggregation.
pub open spec fn aggregation_provider(config_text: Seq<char>, catalog: JsonView) -> ProviderView {
    bare_provider(
        CODEX_AGGREGATION_PROVIDER_ID@,
        CODEX_AGGREGATION_PROVIDER_NAME@,
        aggregation_settings(config_text, catalog),
        None,
    )
}

/// The default model of the aggregation: the configured one, else the first visible one.
pub open spec fn default_model(config: AggregationView, catalog: JsonView) -> Option<Seq<char>> {
    match config.default_model {
        Some(model) => Some(model),
        None => visible_model(catalog),
    }
}

/// Whether the default model of the aggregation, where there is one, can be written as a string
/// of TOML.
pub open spec fn default_model_quotable(
    entries: Seq<(Seq<char>, ProviderView)>,
    config: AggregationView,
) -> bool {
    match default_model(config, merged_catalog(entries, config)) {
        Some(model) => quotable(model),
        None => true,
    }
}

/// The model that the configuration of a provider names.
pub open spec fn configured_model(provider: ProviderView) -> Option<Seq<char>> {
    match provider.settings_config.get_text("config"@) {
        Some(config_text) => toml_string(config_text, "model"@),
        None => None,
    }
}

/// Whether a provider that stands for the aggregation names the default model of it.
pub open spec fn names_default_model(
    outcome: Result<ProviderView, AppErrorView>,
    entries: Seq<(Seq<char>, ProviderView)>,
    config: AggregationView,
) -> bool {
    match outcome {
        Ok(provider) => configured_model(provider) == default_model(
            config,
            merged_catalog(entries, config),
        ),
        Err(_) => true,
    }
}

/// Whether a provider that stands for the aggregation has the configuration that the aggregation
/// starts from, but for the model. There is one wherever there is a default model, if what the
/// aggregation starts from is TOML.
pub open spec fn keeps_template(
    outcome: Result<ProviderView, AppErrorView>,
    entries: Seq<(Seq<char>, ProviderView)>,
    config: AggregationView,
) -> bool {
    match outcome {
        Ok(provider) => match provider.settings_config.get_text("config"@) {
            Some(config_text) => same_but_for(
                config_text,
                CODEX_AGGREGATION_CONFIG_TEMPLATE@,
                "model"@,
            ),
            None => false,
        },
        Err(_) => default_model(config, merged_catalog(entries, config)) is None || !is_toml(
            CODEX_AGGREGATION_CONFIG_TEMPLATE@,
        ),
    }
}

/// What building the provider that stands for the aggregation gives, where `edit` is what
/// setting the default model in the template gave.
pub open spec fn assembled(
    edit: Result<Seq<char>, Seq<char>>,
    catalog: JsonView,
) -> Result<ProviderView, AppErrorView> {
    match edit {
        Ok(config_text) => Ok(aggregation_provider(config_text, catalog)),
        Err(error) => Err(AppErrorView::Message(error)),
    }
}

/// What building the provider that stands for the aggregation gives.
pub open spec fn aggregation_outcome(
    entries: Seq<(Seq<char>, ProviderView)>,
    config: AggregationView,
) -> Result<ProviderView, AppErrorView> {
    let catalog = merged_catalog(entries, config);
    match default_model(config, catalog) {
        Some(model) => assembled(
            toml_with_string(CODEX_AGGREGATION_CONFIG_TEMPLATE@, "model"@, model),
            catalog,
        ),
        None => Err(AppErrorView::Config("聚合目录中没有可见模型"@)),
    }
}

/// The provider whose settings are to be written out: in aggregation mode the one that stands
/// for the aggregation, else the active one.
pub open spec fn live_outcome(
    config: AggregationView,
    entries: Seq<(Seq<char>, ProviderView)>,
    active_id: Seq<char>,
) -> Result<ProviderView, AppErrorView> {
    if config.active() {
        aggregation_outcome(entries, config)
    } else {
        match lookup(entries, active_id) {
            Some(provider) => Ok(provider),
            None => Err(AppErrorView::Config("Codex 活跃供应商不存在: "@ + active_id)),
        }
    }
}

/// Puts the provider that stands for the aggregation together, once its default model has been
/// set in the template.
pub fn assemble_aggregation_provider(edit: Result<String, String>, catalog: Json) -> (outcome:
    Result<Provider, AppError>)
    ensures
        outcome_view(outcome) == assembled(edit_view(edit), catalog@),
{
    match edit {
        Ok(config_text) => {
            let mut members: Vec<(String, Json)> = Vec::new();
            push_member(&mut members, "auth", Json::object(Vec::new()));
            push_member(&mut members, "config", Json::String(config_text));
            push_member(&mut members, "modelCatalog", catalog);
            let settings = Json::object(members);
            assert(settings@->Object_0[0].1->Object_0 == Seq::<(Seq<char>, JsonView)>::empty());
            assert(settings@->Object_0 == aggregation_settings(
                config_text@,
                catalog@,
            )->Object_0);
            Ok(
                Provider::with_id(
                    CODEX_AGGREGATION_PROVIDER_ID.to_owned(),
                    CODEX_AGGREGATION_PROVIDER_NAME.to_owned(),
                    settings,
                    None,
                ),
            )
        },
        Err(error) => Err(AppError::Message(error)),
    }
}

/// The settings of the aggregation hold its configuration.
proof fn lemma_aggregation_config(config_text: Seq<char>, catalog: JsonView)
    ensures
        aggregation_settings(config_text, catalog).get_text("config"@) == Some(config_text),
{
    reveal_strlit("auth");
    reveal_strlit("config");
    assert("auth"@.len() == 4 && "config"@.len() == 6);
    lemma_position_is(aggregation_settings(config_text, catalog)->Object_0, "config"@, 1);
}

/// The model that the configuration of a provider names.
pub fn live_model(provider: &Provider) -> (model: Option<String>)
    ensures
        string_view(model) == configured_model(provider@),
{
    match provider.settings_config.get_str("config") {
        Some(config_text) => read_toml_string(config_text, "model"),
        None => None,
    }
}

/// The default model of the aggregation.
fn chosen_model(config: &CodexAggregationConfig, catalog: &Json) -> (model: Option<String>)
    ensures
        string_view(model) == default_model(config@, catalog@),
{
    match &config.default_model {
        Some(model) => Some(model.clone()),
        None => first_visible_model(catalog),
    }
}

/// Builds the provider that stands for the aggregation. Its configuration names the default
/// model.
fn build_aggregation_live_provider(
    all: &IndexMap<String, Provider>,
    config: &CodexAggregationConfig,
) -> (outcome: Result<Provider, AppError>)
    requires
        default_model_quotable(entries(*all), config@),
    ensures
        outcome_view(outcome) == aggregation_outcome(entries(*all), config@),
        names_default_model(outcome_view(outcome), entries(*all), config@),
        keeps_template(outcome_view(outcome), entries(*all), config@),
{
    let catalog = merge_codex_model_catalog(all, config);
    match chosen_model(config, &catalog) {
        Some(model) => {
            let edit = set_toml_string(
                CODEX_AGGREGATION_CONFIG_TEMPLATE,
                "model",
                model.as_str(),
            );
            proof {
                if edit is Ok {
                    lemma_aggregation_config(edit->Ok_0@, catalog@);
                }
            }
            assemble_aggregation_provider(edit, catalog)
        },
        None => Err(AppError::Config("聚合目录中没有可见模型".to_owned())),
    }
}

/// The provider whose settings are to be written out as the live configuration. In aggregation
/// mode the configuration names the default model, and is else the one that the aggregation
/// starts from.
pub fn build_live_provider(
    config: &CodexAggregationConfig,
    all: &IndexMap<String, Provider>,
    active_id: &str,
) -> (outcome: Result<Provider, AppError>)
    requires
        config@.active() ==> default_model_quotable(entries(*all), config@),
    ensures
        outcome_view(outcome) == live_outcome(config@, entries(*all), active_id@),
        config@.active() ==> names_default_model(
            outcome_view(outcome),
            entries(*all),
            config@,
        ),
        config@.active() ==> keeps_template(outcome_view(outcome), entries(*all), config@),
{
    if config.enabled && !config.providers.is_empty() {
        return build_aggregation_live_provider(all, config);
    }
    match map_get(all, active_id) {
        Some(provider) => Ok(provider.clone()),
        None => Err(AppError::Config("Codex 活跃供应商不存在: ".to_owned().concat(active_id))),
    }
}

/// [`build_live_provider`], where the default model can be written; nothing else.
pub fn try_build_live_provider(
    config: &CodexAggregationConfig,
    all: &IndexMap<String, Provider>,
    active_id: &str,
) -> (outcome: Option<Result<Provider, AppError>>)
    ensures
        outcome is Some <==> (config@.active() ==> default_model_quotable(entries(*all), config@)),
        outcome matches Some(outcome) ==> outcome_view(outcome) == live_outcome(
            config@,
            entries(*all),
            active_id@,
        ),
        outcome matches Some(outcome) ==> config@.active() ==> names_default_model(
            outcome_view(outcome),
            entries(*all),
            config@,
        ),
        outcome matches Some(outcome) ==> config@.active() ==> keeps_template(
            outcome_view(outcome),
            entries(*all),
            config@,
        ),
{
    if config.enabled && !config.providers.is_empty() {
        let catalog = merge_codex_model_catalog(all, config);
        if let Some(model) = chosen_model(config, &catalog) {
            if !is_quotable(model.as_str()) {
                return None;
            }
        }
    }
    Some(build_live_provider(config, all, active_id))
}

/// A provider is in a ranking if and only if it is ranked.
pub proof fn lemma_by_weight_contains(
    providers: Seq<ProviderView>,
    config: AggregationView,
    provider: ProviderView,
)
    ensures
        by_weight(providers, config).contains(provider) <==> providers.contains(provider),
{
    law_by_weight_is_the_ranking(providers, config);
    let ranked = by_weight(providers, config);
    let weight = config.weight(provider.id);
    assert(of_weight(ranked, config, weight) == of_weight(providers, config, weight));
    if ranked.contains(provider) {
        let i = choose|i: int| 0 <= i < ranked.len() && ranked[i] == provider;
        lemma_of_weight_contains(ranked, config, i);
        lemma_of_weight_member(providers, config, weight, provider);
    }
    if providers.contains(provider) {
        let i = choose|i: int| 0 <= i < providers.len() && providers[i] == provider;
        lemma_of_weight_contains(providers, config, i);
        lemma_of_weight_member(ranked, config, weight, provider);
    }
}

/// The ranking of providers is that of all but the last, with the last put in its place.
proof fn lemma_by_weight_insert(providers: Seq<ProviderView>, config: AggregationView)
    requires
        providers.len() > 0,
    ensures
        ({
            let ranked = by_weight(providers.drop_last(), config);
            let at = place(ranked, config, config.weight(providers.last().id));
            &&& 0 <= at <= ranked.len()
            &&& by_weight(providers, config) == ranked.insert(at, providers.last())
        }),
{
    let rest = providers.drop_last();
    let provider = providers.last();
    law_by_weight_is_the_ranking(providers, config);
    law_by_weight_is_the_ranking(rest, config);
    let ranked = by_weight(rest, config);
    let at = place(ranked, config, config.weight(provider.id));
    lemma_place(ranked, config, config.weight(provider.id));
    lemma_ranking_insert(ranked, rest, config, provider, at);
    assert(rest.push(provider) == providers);
}

/// Nothing ranked is nothing.
proof fn lemma_by_weight_empty(providers: Seq<ProviderView>, config: AggregationView)
    requires
        providers.len() == 0,
    ensures
        by_weight(providers, config) == providers,
{
    law_by_weight_is_the_ranking(providers, config);
    assert(is_ranking(providers, providers, config));
}

/// Law: ranking drops no provider, adds none and repeats none.
pub proof fn law_by_weight_is_a_permutation(providers: Seq<ProviderView>, config: AggregationView)
    ensures
        by_weight(providers, config).to_multiset() == providers.to_multiset(),
    decreases providers.len(),
{
    if providers.len() == 0 {
        lemma_by_weight_empty(providers, config);
    } else {
        let rest = providers.drop_last();
        let provider = providers.last();
        law_by_weight_is_a_permutation(rest, config);
        lemma_by_weight_insert(providers, config);
        let ranked = by_weight(rest, config);
        let at = place(ranked, config, config.weight(provider.id));
        assert(rest.push(provider) == providers);
        vstd::seq_lib::to_multiset_insert(ranked, at, provider);
        rest.to_multiset_ensures();
    }
}

/// Law: a bound model is routed to its own provider alone, where that takes part and is stored,
/// and else nowhere. Weights do not matter.
pub proof fn law_bound_model_has_one_route(
    model: Seq<char>,
    entries: Seq<(Seq<char>, ProviderView)>,
    config: AggregationView,
)
    requires
        config.binding(model) is Some,
    ensures
        route(model, entries, config).len() <= 1,
        route(model, entries, config).len() == 1 <==> config.providers.contains(
            config.binding(model)->0,
        ) && lookup(entries, config.binding(model)->0) is Some,
        route(model, entries, config).len() == 1 ==> Some(route(model, entries, config)[0])
            == lookup(entries, config.binding(model)->0),
{
}

/// Law: a model that is not bound may go to every provider that takes part and offers it, and to
/// no other; the heavier come first.
pub proof fn law_unbound_model_goes_to_all_that_offer_it(
    model: Seq<char>,
    entries: Seq<(Seq<char>, ProviderView)>,
    config: AggregationView,
    provider: ProviderView,
)
    requires
        config.binding(model) is None,
    ensures
        route(model, entries, config).contains(provider) <==> stored(entries).contains(provider)
            && config.providers.contains(provider.id) && has_model(provider, model),
        descending(route(model, entries, config), config),
{
    let offers = |p: ProviderView| config.providers.contains(p.id) && has_model(p, model);
    let all = stored(entries);
    law_by_weight_is_the_ranking(offering(entries, config, model), config);
    lemma_by_weight_contains(offering(entries, config, model), config, provider);
    lemma_filter_member(all, offers, provider);
}

/// What is left by a filter is what was there and passes it.
pub proof fn lemma_filter_member<A>(all: Seq<A>, pred: spec_fn(A) -> bool, item: A)
    ensures
        all.filter(pred).contains(item) <==> all.contains(item) && pred(item),
{
    if all.contains(item) && pred(item) {
        let i = choose|i: int| 0 <= i < all.len() && all[i] == item;
        all.lemma_filter_contains(pred, i);
    }
    if all.filter(pred).contains(item) {
        all.lemma_filter_contains_rev(pred, item);
        let i = choose|i: int| 0 <= i < all.filter(pred).len() && all.filter(pred)[i] == item;
        all.lemma_filter_pred(pred, i);
    }
}

/// Every entry of the merged catalog comes from a candidate that wins.
pub proof fn lemma_merged_source(
    config: AggregationView,
    candidates: Seq<(Seq<char>, JsonView)>,
    k: int,
) -> (i: int)
    requires
        0 <= k < merged(config, candidates).len(),
    ensures
        0 <= i < candidates.len(),
        wins(config, candidates, i),
        merged(config, candidates)[k] == tagged(candidates[i]),
        k < merged(config, candidates).len() - 1 ==> i < candidates.len() - 1,
    decreases candidates.len(),
{
    let rest = candidates.drop_last();
    if wins(config, candidates, candidates.len() - 1) && k == merged(config, rest).len() {
        candidates.len() - 1
    } else {
        let i = lemma_merged_source(config, rest, k);
        assert(candidates[i] == rest[i]);
        assert forall|j: int|
            0 <= j < i && eligible(config, #[trigger] candidates[j]) implies model_of(
            candidates[j].1,
        ) != model_of(candidates[i].1) by {
            assert(rest[j] == candidates[j]);
        }
        i
    }
}

/// Every candidate that wins has its entry in the merged catalog.
pub proof fn lemma_winner_is_merged(
    config: AggregationView,
    candidates: Seq<(Seq<char>, JsonView)>,
    i: int,
)
    requires
        0 <= i < candidates.len(),
        wins(config, candidates, i),
    ensures
        merged(config, candidates).contains(tagged(candidates[i])),
    decreases candidates.len(),
{
    let rest = candidates.drop_last();
    let all = merged(config, candidates);
    if i == candidates.len() - 1 {
        assert(all[all.len() - 1] == tagged(candidates[i]));
    } else {
        assert(candidates[i] == rest[i]);
        assert forall|j: int|
            0 <= j < i && eligible(config, #[trigger] rest[j]) implies model_of(rest[j].1)
            != model_of(rest[i].1) by {
            assert(rest[j] == candidates[j]);
        }
        lemma_winner_is_merged(config, rest, i);
        let k = choose|k: int|
            0 <= k < merged(config, rest).len() && merged(config, rest)[k] == tagged(rest[i]);
        assert(all[k] == tagged(candidates[i]));
    }
}

/// For every eligible candidate, one that wins is about the same model and stands no later.
pub proof fn lemma_some_candidate_wins(
    config: AggregationView,
    candidates: Seq<(Seq<char>, JsonView)>,
    i: int,
) -> (winner: int)
    requires
        0 <= i < candidates.len(),
        eligible(config, candidates[i]),
    ensures
        0 <= winner <= i,
        wins(config, candidates, winner),
        model_of(candidates[winner].1) == model_of(candidates[i].1),
    decreases i,
{
    if wins(config, candidates, i) {
        i
    } else {
        let j = choose|j: int|
            0 <= j < i && eligible(config, #[trigger] candidates[j]) && model_of(candidates[j].1)
                == model_of(candidates[i].1);
        lemma_some_candidate_wins(config, candidates, j)
    }
}

/// Marking an entry changes nothing of it but the mark.
pub proof fn lemma_tagged(candidate: (Seq<char>, JsonView), key: Seq<char>)
    requires
        candidate.1 is Object,
    ensures
        tagged(candidate).get_text("providerId"@) == Some(candidate.0),
        key != "providerId"@ ==> tagged(candidate).get(key) == candidate.1.get(key),
        model_of(tagged(candidate)) == model_of(candidate.1),
{
    reveal_strlit("model");
    reveal_strlit("providerId");
    assert("model"@.len() != "providerId"@.len());
    lemma_with_get(candidate.1, "providerId"@, JsonView::String(candidate.0), key);
    lemma_with_get(candidate.1, "providerId"@, JsonView::String(candidate.0), "model"@);
}

/// Each candidate is an entry of a provider's catalog.
pub proof fn lemma_listed_source(providers: Seq<ProviderView>, i: int) -> (place: (int, int))
    requires
        0 <= i < listed(providers).len(),
    ensures
        0 <= place.0 < providers.len(),
        0 <= place.1 < listed_by(providers[place.0]).len(),
        i == listed(providers.take(place.0)).len() + place.1,
        listed(providers)[i] == listed_by(providers[place.0])[place.1],
        listed(providers)[i].0 == providers[place.0].id,
    decreases providers.len(),
{
    let rest = providers.drop_last();
    if i < listed(rest).len() {
        let place = lemma_listed_source(rest, i);
        assert(rest.take(place.0) == providers.take(place.0));
        place
    } else {
        assert(providers.take(providers.len() - 1) == rest);
        (providers.len() - 1, i - listed(rest).len())
    }
}

/// Each entry of a provider's catalog is a candidate.
pub proof fn lemma_listed_target(providers: Seq<ProviderView>, a: int, b: int) -> (i: int)
    requires
        0 <= a < providers.len(),
        0 <= b < listed_by(providers[a]).len(),
    ensures
        i == listed(providers.take(a)).len() + b,
        0 <= i < listed(providers).len(),
        i < listed(providers.take(a + 1)).len(),
        listed(providers)[i] == listed_by(providers[a])[b],
    decreases providers.len(),
{
    let rest = providers.drop_last();
    if a == providers.len() - 1 {
        assert(providers.take(a) == rest);
        assert(providers.take(a + 1) == providers);
        listed(rest).len() + b
    } else {
        let i = lemma_listed_target(rest, a, b);
        assert(rest.take(a) == providers.take(a));
        assert(rest.take(a + 1) == providers.take(a + 1));
        i
    }
}

/// More providers list no fewer entries.
pub proof fn lemma_listed_grows(providers: Seq<ProviderView>, a: int, b: int)
    requires
        0 <= a <= b <= providers.len(),
    ensures
        listed(providers.take(a)).len() <= listed(providers.take(b)).len(),
    decreases b - a,
{
    if a < b {
        lemma_listed_grows(providers, a, b - 1);
        assert(providers.take(b).drop_last() == providers.take(b - 1));
    }
}

/// Law: the merged catalog has one entry for a model.
pub proof fn law_merged_models_are_distinct(
    config: AggregationView,
    candidates: Seq<(Seq<char>, JsonView)>,
    a: int,
    b: int,
)
    requires
        0 <= a < b < merged(config, candidates).len(),
    ensures
        model_of(merged(config, candidates)[a]) is Some,
        model_of(merged(config, candidates)[a]) != model_of(merged(config, candidates)[b]),
    decreases candidates.len(),
{
    let rest = candidates.drop_last();
    if b < merged(config, rest).len() {
        law_merged_models_are_distinct(config, rest, a, b);
    } else {
        let last = candidates.len() - 1;
        let i = lemma_merged_source(config, rest, a);
        assert(candidates[i] == rest[i]);
        assert(eligible(config, candidates[i]));
        lemma_tagged(candidates[i], "model"@);
        lemma_tagged(candidates[last], "model"@);
    }
}

/// Law: an entry of the merged catalog names, under `providerId`, a provider that takes part and
/// lists the entry, and the one that its model is bound to where it is bound. Nothing else of the
/// entry is changed.
pub proof fn law_merged_entry_names_its_source(
    entries: Seq<(Seq<char>, ProviderView)>,
    config: AggregationView,
    k: int,
) -> (place: (int, int))
    requires
        0 <= k < merged(config, candidates(entries, config)).len(),
    ensures
        ({
            let entry = merged(config, candidates(entries, config))[k];
            let provider = stored(entries)[place.0];
            let source = catalog_models(provider)->0[place.1];
            &&& 0 <= place.0 < entries.len()
            &&& catalog_models(provider) is Some
            &&& 0 <= place.1 < catalog_models(provider)->0.len()
            &&& config.providers.contains(provider.id)
            &&& entry.get_text("providerId"@) == Some(provider.id)
            &&& entry == source.with("providerId"@, JsonView::String(provider.id))
            &&& model_of(entry) is Some
            &&& model_of(entry) == model_of(source)
            &&& config.binding(model_of(entry)->0) is Some ==> config.binding(model_of(entry)->0)
                == Some(provider.id)
        }),
{
    let taking = participants(entries, config);
    let ranked = by_weight(taking, config);
    let all = candidates(entries, config);
    let i = lemma_merged_source(config, all, k);
    let (a, b) = lemma_listed_source(ranked, i);
    let provider = ranked[a];
    assert(ranked.contains(provider));
    lemma_by_weight_contains(taking, config, provider);
    lemma_filter_member(
        stored(entries),
        |p: ProviderView| config.providers.contains(p.id),
        provider,
    );
    let at = choose|at: int| 0 <= at < stored(entries).len() && stored(entries)[at] == provider;
    lemma_tagged(all[i], "model"@);
    (at, b)
}

/// Law: the heavier a provider, the earlier its entries stand among the candidates.
pub proof fn law_candidates_by_weight(
    entries: Seq<(Seq<char>, ProviderView)>,
    config: AggregationView,
    i: int,
    j: int,
)
    requires
        0 <= i <= j < candidates(entries, config).len(),
    ensures
        config.weight(candidates(entries, config)[i].0) >= config.weight(
            candidates(entries, config)[j].0,
        ),
{
    let ranked = by_weight(participants(entries, config), config);
    law_by_weight_is_the_ranking(participants(entries, config), config);
    let (a, b) = lemma_listed_source(ranked, i);
    let (c, d) = lemma_listed_source(ranked, j);
    if c < a {
        lemma_listed_grows(ranked, c + 1, a);
        let there = lemma_listed_target(ranked, c, d);
    }
}

/// Law: every model that a provider which takes part may list is in the merged catalog, and the
/// entry there is that of a provider with at least its weight.
pub proof fn law_heaviest_eligible_wins(
    entries: Seq<(Seq<char>, ProviderView)>,
    config: AggregationView,
    i: int,
) -> (winner: int)
    requires
        0 <= i < candidates(entries, config).len(),
        eligible(config, candidates(entries, config)[i]),
    ensures
        0 <= winner <= i,
        merged(config, candidates(entries, config)).contains(
            tagged(candidates(entries, config)[winner]),
        ),
        model_of(candidates(entries, config)[winner].1) == model_of(
            candidates(entries, config)[i].1,
        ),
        config.weight(candidates(entries, config)[winner].0) >= config.weight(
            candidates(entries, config)[i].0,
        ),
{
    let all = candidates(entries, config);
    let winner = lemma_some_candidate_wins(config, all, i);
    lemma_winner_is_merged(config, all, winner);
    law_candidates_by_weight(entries, config, winner, i);
    winner
}

/// Law: in aggregation mode the live provider is the one that stands for the aggregation, with
/// the merged catalog, whatever provider is the active one.
pub proof fn law_aggregation_has_its_own_provider(
    config: AggregationView,
    entries: Seq<(Seq<char>, ProviderView)>,
    active_id: Seq<char>,
    other_id: Seq<char>,
)
    requires
        config.active(),
    ensures
        live_outcome(config, entries, active_id) == live_outcome(config, entries, other_id),
        live_outcome(config, entries, active_id) is Ok ==> {
            let live = live_outcome(config, entries, active_id)->Ok_0;
            &&& live.id == CODEX_AGGREGATION_PROVIDER_ID@
            &&& live.name == CODEX_AGGREGATION_PROVIDER_NAME@
            &&& live.settings_config.get("modelCatalog"@) == Some(merged_catalog(entries, config))
        },
{
    if live_outcome(config, entries, active_id) is Ok {
        let live = live_outcome(config, entries, active_id)->Ok_0;
        reveal_strlit("auth");
        reveal_strlit("config");
        reveal_strlit("modelCatalog");
        assert("auth"@.len() == 4 && "config"@.len() == 6 && "modelCatalog"@.len() == 12);
        lemma_position_is(live.settings_config->Object_0, "modelCatalog"@, 2);
    }
}

/// Law: out of aggregation mode the live provider is the active one, as it is stored.
pub proof fn law_single_mode_is_the_active_provider(
    config: AggregationView,
    entries: Seq<(Seq<char>, ProviderView)>,
    active_id: Seq<char>,
)
    requires
        !config.active(),
    ensures
        lookup(entries, active_id) is Some ==> live_outcome(config, entries, active_id) == Ok::<
            ProviderView,
            AppErrorView,
        >(lookup(entries, active_id)->0),
        lookup(entries, active_id) is None ==> live_outcome(config, entries, active_id) is Err,
{
}

/// Filtering twice is filtering by both conditions.
proof fn lemma_filter_twice<A>(
    all: Seq<A>,
    one: spec_fn(A) -> bool,
    two: spec_fn(A) -> bool,
    both: spec_fn(A) -> bool,
)
    requires
        forall|item: A| #[trigger] both(item) == (one(item) && two(item)),
    ensures
        all.filter(one).filter(two) == all.filter(both),
    decreases all.len(),
{
    reveal_with_fuel(Seq::filter, 2);
    if all.len() > 0 {
        let rest = all.drop_last();
        lemma_filter_twice(rest, one, two, both);
        if one(all.last()) {
            rest.filter(one).lemma_filter_push(all.last(), two);
        }
        assert(both(all.last()) == (one(all.last()) && two(all.last())));
    } else {
        assert(all.filter(one).filter(two) == all.filter(both));
    }
}

/// The first item that passes a filter is the first of what is left.
proof fn lemma_filter_first<A>(all: Seq<A>, pred: spec_fn(A) -> bool, at: int)
    requires
        0 <= at < all.len(),
        pred(all[at]),
        forall|i: int| 0 <= i < at ==> !pred(#[trigger] all[i]),
    ensures
        all.filter(pred).len() > 0,
        all.filter(pred)[0] == all[at],
    decreases all.len(),
{
    reveal_with_fuel(Seq::filter, 2);
    let rest = all.drop_last();
    if at == all.len() - 1 {
        assert forall|i: int| 0 <= i < rest.len() implies !pred(#[trigger] rest[i]) by {
            assert(rest[i] == all[i]);
        }
        rest.lemma_all_neg_filter_empty(pred);
    } else {
        assert forall|i: int| 0 <= i < at implies !pred(#[trigger] rest[i]) by {
            assert(rest[i] == all[i]);
        }
        lemma_filter_first(rest, pred, at);
    }
}

/// What a filter leaves of a descending sequence is descending.
proof fn lemma_descending_filter(
    providers: Seq<ProviderView>,
    config: AggregationView,
    pred: spec_fn(ProviderView) -> bool,
)
    requires
        descending(providers, config),
    ensures
        descending(providers.filter(pred), config),
    decreases providers.len(),
{
    reveal_with_fuel(Seq::filter, 2);
    if providers.len() > 0 {
        let rest = providers.drop_last();
        let last = providers.last();
        assert(descending(rest, config));
        lemma_descending_filter(rest, config, pred);
        let left = rest.filter(pred);
        assert forall|i: int| 0 <= i < left.len() implies config.weight((#[trigger] left[i]).id)
            >= config.weight(last.id) by {
            assert(left.contains(left[i]));
            lemma_filter_member(rest, pred, left[i]);
            let j = choose|j: int| 0 <= j < rest.len() && rest[j] == left[i];
            assert(providers[j] == left[i]);
            assert(providers[providers.len() - 1] == last);
        }
    }
}

/// Ranking what a filter leaves is filtering the ranking.
proof fn lemma_by_weight_filter(
    providers: Seq<ProviderView>,
    config: AggregationView,
    pred: spec_fn(ProviderView) -> bool,
)
    ensures
        by_weight(providers.filter(pred), config) == by_weight(providers, config).filter(pred),
{
    let ranked = by_weight(providers, config);
    law_by_weight_is_the_ranking(providers, config);
    law_by_weight_is_the_ranking(providers.filter(pred), config);
    lemma_descending_filter(ranked, config, pred);
    assert forall|weight: u32| #[trigger]
        of_weight(ranked.filter(pred), config, weight) == of_weight(
            providers.filter(pred),
            config,
            weight,
        ) by {
        let weighs = |provider: ProviderView| config.weight(provider.id) == weight;
        let both = |provider: ProviderView| pred(provider) && weighs(provider);
        lemma_filter_twice(ranked, pred, weighs, both);
        lemma_filter_twice(ranked, weighs, pred, both);
        lemma_filter_twice(providers, pred, weighs, both);
        lemma_filter_twice(providers, weighs, pred, both);
        assert(of_weight(ranked, config, weight) == of_weight(providers, config, weight));
    }
    assert(is_ranking(ranked.filter(pred), providers.filter(pred), config));
}

/// A key that an entry has leads to an entry with that key.
pub proof fn lemma_lookup(entries: Seq<(Seq<char>, ProviderView)>, i: int) -> (at: int)
    requires
        0 <= i < entries.len(),
    ensures
        0 <= at <= i,
        entries[at].0 == entries[i].0,
        lookup(entries, entries[i].0) == Some(entries[at].1),
    decreases entries.len(),
{
    if entries[0].0 == entries[i].0 {
        0
    } else {
        let at = lemma_lookup(entries.drop_first(), i - 1);
        at + 1
    }
}

/// Law: a request for a model goes to the relay that the merged catalog names for it. The model
/// is named as its entry names it, without whitespace around it, and providers are stored under
/// their own identifiers. Held out are models for which some provider that takes part lists an
/// entry that says it comes from another relay: the entry counts where a request is routed, but
/// not where catalogs are merged.
pub proof fn law_catalog_names_the_route(
    entries: Seq<(Seq<char>, ProviderView)>,
    config: AggregationView,
    model: Seq<char>,
    k: int,
)
    requires
        forall|i: int| 0 <= i < entries.len() ==> (#[trigger] entries[i]).0 == entries[i].1.id,
        0 <= k < merged(config, candidates(entries, config)).len(),
        merged(config, candidates(entries, config))[k].get_text("model"@) == Some(model),
        trimmed(model) == model,
        forall|i: int|
            0 <= i < candidates(entries, config).len() && (#[trigger] candidates(
                entries,
                config,
            )[i]).1.get_text("model"@) == Some(model) && source_of(
                candidates(entries, config)[i].1,
            ) is Some ==> source_of(candidates(entries, config)[i].1) == Some(
                candidates(entries, config)[i].0,
            ),
    ensures
        first(route(model, entries, config)) is Some,
        Some(first(route(model, entries, config))->0.id) == merged(
            config,
            candidates(entries, config),
        )[k].get_text("providerId"@),
{
    let taking = participants(entries, config);
    let ranked = by_weight(taking, config);
    let all = candidates(entries, config);
    let i = lemma_merged_source(config, all, k);
    lemma_tagged(all[i], "model"@);
    reveal_strlit("model");
    reveal_strlit("providerId");
    assert("model"@.len() != "providerId"@.len());
    let (a, b) = lemma_listed_source(ranked, i);
    let winner = ranked[a];
    assert(ranked.contains(winner));
    lemma_by_weight_contains(taking, config, winner);
    let takes_part = |p: ProviderView| config.providers.contains(p.id);
    lemma_filter_member(stored(entries), takes_part, winner);
    assert(all[i].1.get_text("model"@) == Some(model));
    assert(model_of(all[i].1) == Some(model));
    if config.binding(model) is Some {
        let at = choose|at: int| 0 <= at < stored(entries).len() && stored(entries)[at] == winner;
        assert(entries[at].1 == winner);
        let found = lemma_lookup(entries, at);
        assert(entries[found].0 == entries[found].1.id);
    } else {
        let offers = |p: ProviderView| has_model(p, model);
        let both = |p: ProviderView| config.providers.contains(p.id) && has_model(p, model);
        lemma_filter_twice(stored(entries), takes_part, offers, both);
        lemma_by_weight_filter(taking, config, offers);
        assert(route(model, entries, config) == ranked.filter(offers));
        assert(has_model(winner, model)) by {
            assert(listed_by(winner)[b].1 == catalog_models(winner)->0[b]);
        }
        assert forall|c: int| 0 <= c < a implies !offers(#[trigger] ranked[c]) by {
            if has_model(ranked[c], model) {
                let models = catalog_models(ranked[c])->0;
                let d = choose|d: int|
                    0 <= d < models.len() && (#[trigger] models[d]).get_text("model"@) == Some(
                        model,
                    );
                let j = lemma_listed_target(ranked, c, d);
                lemma_listed_grows(ranked, c + 1, a);
                assert(all[j] == listed_by(ranked[c])[d]);
                assert(all[j].1 == models[d]);
                assert(eligible(config, all[j]));
                assert(model_of(all[j].1) == model_of(all[i].1));
            }
        }
        lemma_filter_first(ranked, offers, a);
    }
}

/// Whether providers are related to others, each to the one in its place.
spec fn alike(
    one: Seq<ProviderView>,
    other: Seq<ProviderView>,
    related: spec_fn(ProviderView, ProviderView) -> bool,
) -> bool {
    &&& one.len() == other.len()
    &&& forall|i: int|
        #![trigger one[i]]
        #![trigger other[i]]
        0 <= i < one.len() ==> related(one[i], other[i])
}

/// Whether related providers have the same identifier.
spec fn keeps_ids(related: spec_fn(ProviderView, ProviderView) -> bool) -> bool {
    forall|a: ProviderView, b: ProviderView| #[trigger] related(a, b) ==> a.id == b.id
}

/// A provider belongs in the same place in rankings that are alike.
proof fn lemma_place_alike(
    one: Seq<ProviderView>,
    other: Seq<ProviderView>,
    config: AggregationView,
    weight: u32,
    related: spec_fn(ProviderView, ProviderView) -> bool,
)
    requires
        alike(one, other, related),
        keeps_ids(related),
    ensures
        place(one, config, weight) == place(other, config, weight),
    decreases one.len(),
{
    if one.len() > 0 {
        let last = one.len() - 1;
        assert(related(one[last], other[last]));
        lemma_place_alike(one.drop_last(), other.drop_last(), config, weight, related);
    }
}

/// Rankings of providers that are alike are alike.
proof fn lemma_by_weight_alike(
    one: Seq<ProviderView>,
    other: Seq<ProviderView>,
    config: AggregationView,
    related: spec_fn(ProviderView, ProviderView) -> bool,
)
    requires
        alike(one, other, related),
        keeps_ids(related),
    ensures
        alike(by_weight(one, config), by_weight(other, config), related),
    decreases one.len(),
{
    if one.len() == 0 {
        lemma_by_weight_empty(one, config);
        lemma_by_weight_empty(other, config);
    } else {
        let last = one.len() - 1;
        assert(related(one[last], other[last]));
        let a = by_weight(one.drop_last(), config);
        let b = by_weight(other.drop_last(), config);
        lemma_by_weight_alike(one.drop_last(), other.drop_last(), config, related);
        lemma_by_weight_insert(one, config);
        lemma_by_weight_insert(other, config);
        lemma_place_alike(a, b, config, config.weight(one.last().id), related);
        let at = place(a, config, config.weight(one.last().id));
        let x = a.insert(at, one.last());
        let y = b.insert(at, other.last());
        assert forall|i: int| 0 <= i < x.len() implies related(#[trigger] x[i], y[i]) by {
            if i < at {
                assert(x[i] == a[i] && y[i] == b[i]);
            } else if i > at {
                assert(x[i] == a[i - 1] && y[i] == b[i - 1]);
            }
        }
        assert(alike(x, y, related));
    }
}

/// Of providers that are alike, those that take part are alike.
proof fn lemma_participants_alike(
    one: Seq<ProviderView>,
    other: Seq<ProviderView>,
    config: AggregationView,
    related: spec_fn(ProviderView, ProviderView) -> bool,
)
    requires
        alike(one, other, related),
        keeps_ids(related),
    ensures
        alike(
            one.filter(|provider: ProviderView| config.providers.contains(provider.id)),
            other.filter(|provider: ProviderView| config.providers.contains(provider.id)),
            related,
        ),
    decreases one.len(),
{
    reveal_with_fuel(Seq::filter, 2);
    if one.len() > 0 {
        let last = one.len() - 1;
        assert(related(one[last], other[last]));
        lemma_participants_alike(one.drop_last(), other.drop_last(), config, related);
    }
}

/// Whether a provider differs from another in nothing that reaches the aggregation: it has the
/// same identifier and the same catalog.
pub open spec fn same_offer(one: ProviderView, other: ProviderView) -> bool {
    &&& one.id == other.id
    &&& one.settings_config.get("modelCatalog"@) == other.settings_config.get("modelCatalog"@)
}

/// Providers with the same identifiers and catalogs list the same entries.
proof fn lemma_listed_alike(one: Seq<ProviderView>, other: Seq<ProviderView>)
    requires
        alike(one, other, |a: ProviderView, b: ProviderView| same_offer(a, b)),
    ensures
        listed(one) == listed(other),
    decreases one.len(),
{
    if one.len() > 0 {
        let related = |a: ProviderView, b: ProviderView| same_offer(a, b);
        let last = one.len() - 1;
        assert(related(one[last], other[last]));
        assert(alike(one.drop_last(), other.drop_last(), related));
        lemma_listed_alike(one.drop_last(), other.drop_last());
    }
}

/// Law: nothing of the stored providers but their identifiers and their catalogs reaches the
/// provider that stands for the aggregation: no name, no stored configuration, no endpoint and no
/// credentials of a relay.
pub proof fn law_stored_settings_do_not_leak(
    one: Seq<(Seq<char>, ProviderView)>,
    other: Seq<(Seq<char>, ProviderView)>,
    config: AggregationView,
    active_id: Seq<char>,
)
    requires
        one.len() == other.len(),
        forall|i: int| 0 <= i < one.len() ==> same_offer((#[trigger] one[i]).1, other[i].1),
    ensures
        merged_catalog(one, config) == merged_catalog(other, config),
        aggregation_outcome(one, config) == aggregation_outcome(other, config),
        config.active() ==> live_outcome(config, one, active_id) == live_outcome(
            config,
            other,
            active_id,
        ),
{
    let related = |a: ProviderView, b: ProviderView| same_offer(a, b);
    assert(keeps_ids(related));
    assert(alike(stored(one), stored(other), related)) by {
        assert forall|i: int| 0 <= i < one.len() implies related(
            #[trigger] stored(one)[i],
            stored(other)[i],
        ) by {
            assert(same_offer(one[i].1, other[i].1));
        }
    }
    lemma_participants_alike(stored(one), stored(other), config, related);
    lemma_by_weight_alike(
        participants(one, config),
        participants(other, config),
        config,
        related,
    );
    lemma_listed_alike(
        by_weight(participants(one, config), config),
        by_weight(participants(other, config), config),
    );
}

/// The entries of a catalog that name `id` as the relay that they come from.
pub open spec fn own_entries(models: Seq<JsonView>, id: Seq<char>) -> Seq<JsonView> {
    models.filter(|entry: JsonView| entry.get_text("providerId"@) == Some(id))
}

/// Entries, each with the identifier of the provider that lists them.
spec fn paired(models: Seq<JsonView>, id: Seq<char>) -> Seq<(Seq<char>, JsonView)> {
    models.map_values(|entry: JsonView| (id, entry))
}

/// What providers list, in their order, where each lists its own entries of `models`.
spec fn grouped(providers: Seq<ProviderView>, models: Seq<JsonView>) -> Seq<(Seq<char>, JsonView)>
    decreases providers.len(),
{
    if providers.len() == 0 {
        Seq::empty()
    } else {
        grouped(providers.drop_last(), models) + paired(
            own_entries(models, providers.last().id),
            providers.last().id,
        )
    }
}

/// Whether no two providers have the same identifier.
pub open spec fn distinct_ids(providers: Seq<ProviderView>) -> bool {
    forall|i: int, j: int|
        0 <= i < j < providers.len() ==> (#[trigger] providers[i]).id != (
        #[trigger] providers[j]).id
}

/// Whether a provider has the identifier `id`.
spec fn has_id(providers: Seq<ProviderView>, id: Seq<char>) -> bool {
    exists|i: int| 0 <= i < providers.len() && (#[trigger] providers[i]).id == id
}

/// What a filter leaves has no identifier twice, if there was none.
pub proof fn lemma_distinct_filter(
    providers: Seq<ProviderView>,
    pred: spec_fn(ProviderView) -> bool,
)
    requires
        distinct_ids(providers),
    ensures
        distinct_ids(providers.filter(pred)),
    decreases providers.len(),
{
    reveal_with_fuel(Seq::filter, 2);
    if providers.len() > 0 {
        let rest = providers.drop_last();
        let left = rest.filter(pred);
        lemma_distinct_filter(rest, pred);
        assert forall|i: int| 0 <= i < left.len() implies (#[trigger] left[i]).id
            != providers.last().id by {
            assert(left.contains(left[i]));
            lemma_filter_member(rest, pred, left[i]);
            let j = choose|j: int| 0 <= j < rest.len() && rest[j] == left[i];
            assert(providers[j] == left[i]);
            assert(providers[providers.len() - 1] == providers.last());
        }
    }
}

/// A ranking has no identifier twice, if there was none.
pub proof fn lemma_distinct_by_weight(providers: Seq<ProviderView>, config: AggregationView)
    requires
        distinct_ids(providers),
    ensures
        distinct_ids(by_weight(providers, config)),
    decreases providers.len(),
{
    if providers.len() == 0 {
        lemma_by_weight_empty(providers, config);
    } else {
        let rest = providers.drop_last();
        let last = providers.last();
        let ranked = by_weight(rest, config);
        lemma_distinct_by_weight(rest, config);
        lemma_by_weight_insert(providers, config);
        let at = place(ranked, config, config.weight(last.id));
        let all = ranked.insert(at, last);
        assert forall|i: int| 0 <= i < ranked.len() implies (#[trigger] ranked[i]).id
            != last.id by {
            assert(ranked.contains(ranked[i]));
            lemma_by_weight_contains(rest, config, ranked[i]);
            let j = choose|j: int| 0 <= j < rest.len() && rest[j] == ranked[i];
            assert(providers[j] == ranked[i]);
            assert(providers[providers.len() - 1] == last);
        }
        assert forall|i: int, j: int| 0 <= i < j < all.len() implies (#[trigger] all[i]).id != (
        #[trigger] all[j]).id by {
            let a = if i < at {
                i
            } else {
                i - 1
            };
            let b = if j < at {
                j
            } else {
                j - 1
            };
            if i != at {
                assert(all[i] == ranked[a]);
            }
            if j != at {
                assert(all[j] == ranked[b]);
            }
        }
    }
}

/// A filter that all items pass leaves them all.
proof fn lemma_filter_all<A>(all: Seq<A>, pred: spec_fn(A) -> bool)
    requires
        forall|i: int| 0 <= i < all.len() ==> pred(#[trigger] all[i]),
    ensures
        all.filter(pred) == all,
    decreases all.len(),
{
    reveal_with_fuel(Seq::filter, 2);
    if all.len() > 0 {
        let rest = all.drop_last();
        assert forall|i: int| 0 <= i < rest.len() implies pred(#[trigger] rest[i]) by {
            assert(rest[i] == all[i]);
        }
        lemma_filter_all(rest, pred);
        assert(pred(all[all.len() - 1]));
        assert(rest.push(all.last()) == all);
    }
}

/// Of entries none of which names `id`, none is its own.
proof fn lemma_own_none(models: Seq<JsonView>, id: Seq<char>)
    requires
        forall|i: int|
            0 <= i < models.len() ==> (#[trigger] models[i]).get_text("providerId"@) != Some(id),
    ensures
        own_entries(models, id) == Seq::<JsonView>::empty(),
{
    models.lemma_all_neg_filter_empty(
        |entry: JsonView| entry.get_text("providerId"@) == Some(id),
    );
}

/// Candidates of one provider behind others add entries behind the merged ones, each of which
/// names the provider.
proof fn lemma_merged_more(
    config: AggregationView,
    candidates: Seq<(Seq<char>, JsonView)>,
    more: Seq<(Seq<char>, JsonView)>,
    id: Seq<char>,
) -> (fresh: Seq<JsonView>)
    requires
        forall|i: int| 0 <= i < more.len() ==> (#[trigger] more[i]).0 == id,
    ensures
        merged(config, candidates + more) == merged(config, candidates) + fresh,
        forall|i: int|
            0 <= i < fresh.len() ==> (#[trigger] fresh[i]).get_text("providerId"@) == Some(id),
    decreases more.len(),
{
    let all = candidates + more;
    if more.len() == 0 {
        assert(all == candidates);
        assert(merged(config, candidates) + Seq::<JsonView>::empty() == merged(config, candidates));
        Seq::empty()
    } else {
        let rest = more.drop_last();
        assert(all.drop_last() == candidates + rest);
        assert(all.last() == more.last());
        assert(more[more.len() - 1].0 == id);
        let fresh = lemma_merged_more(config, candidates, rest, id);
        if wins(config, all, all.len() - 1) {
            let added = fresh.push(tagged(more.last()));
            lemma_tagged(more.last(), "model"@);
            assert(merged(config, all) == merged(config, candidates) + added);
            added
        } else {
            fresh
        }
    }
}

/// Entries that name no provider of a group change nothing of what the group lists.
proof fn lemma_grouped_more(
    providers: Seq<ProviderView>,
    models: Seq<JsonView>,
    fresh: Seq<JsonView>,
    id: Seq<char>,
)
    requires
        !has_id(providers, id),
        forall|i: int|
            0 <= i < fresh.len() ==> (#[trigger] fresh[i]).get_text("providerId"@) == Some(id),
    ensures
        grouped(providers, models + fresh) == grouped(providers, models),
    decreases providers.len(),
{
    if providers.len() > 0 {
        let rest = providers.drop_last();
        let last = providers.last();
        assert(providers[providers.len() - 1].id != id);
        assert(!has_id(rest, id)) by {
            if has_id(rest, id) {
                let i = choose|i: int| 0 <= i < rest.len() && (#[trigger] rest[i]).id == id;
                assert(providers[i].id == id);
            }
        }
        lemma_grouped_more(rest, models, fresh, id);
        Seq::filter_distributes_over_add(
            models,
            fresh,
            |entry: JsonView| entry.get_text("providerId"@) == Some(last.id),
        );
        lemma_own_none(fresh, last.id);
        assert(own_entries(models + fresh, last.id) == own_entries(models, last.id));
    }
}

/// The merged entries stand in the order of the providers that they come from.
proof fn lemma_merged_is_grouped(config: AggregationView, providers: Seq<ProviderView>)
    requires
        distinct_ids(providers),
    ensures
        ({
            let models = merged(config, listed(providers));
            let groups = grouped(providers, models);
            &&& groups.len() == models.len()
            &&& forall|j: int|
                0 <= j < models.len() ==> (#[trigger] groups[j]).1 == models[j]
                    && models[j].get_text("providerId"@) == Some(groups[j].0) && has_id(
                    providers,
                    groups[j].0,
                )
        }),
    decreases providers.len(),
{
    if providers.len() > 0 {
        let rest = providers.drop_last();
        let last = providers.last();
        lemma_merged_is_grouped(config, rest);
        let before = merged(config, listed(rest));
        let fresh = lemma_merged_more(config, listed(rest), listed_by(last), last.id);
        let models = merged(config, listed(providers));
        assert(models == before + fresh);
        assert(!has_id(rest, last.id)) by {
            if has_id(rest, last.id) {
                let i = choose|i: int| 0 <= i < rest.len() && (#[trigger] rest[i]).id == last.id;
                assert(providers[i].id == providers[providers.len() - 1].id);
            }
        }
        lemma_grouped_more(rest, before, fresh, last.id);
        let groups = grouped(rest, before);
        assert forall|j: int| 0 <= j < before.len() implies (#[trigger] before[j]).get_text(
            "providerId"@,
        ) != Some(last.id) by {
            assert(groups[j].1 == before[j]);
            assert(has_id(rest, groups[j].0));
        }
        lemma_own_none(before, last.id);
        let own = |entry: JsonView| entry.get_text("providerId"@) == Some(last.id);
        lemma_filter_all(fresh, own);
        Seq::filter_distributes_over_add(before, fresh, own);
        assert(own_entries(models, last.id) == fresh);
        let all = grouped(providers, models);
        assert(all == groups + paired(fresh, last.id));
        assert forall|j: int| 0 <= j < models.len() implies (#[trigger] all[j]).1 == models[j]
            && models[j].get_text("providerId"@) == Some(all[j].0) && has_id(
            providers,
            all[j].0,
        ) by {
            if j < before.len() {
                assert(all[j] == groups[j]);
                assert(has_id(rest, groups[j].0));
                let i = choose|i: int|
                    0 <= i < rest.len() && (#[trigger] rest[i]).id == groups[j].0;
                assert(providers[i].id == all[j].0);
            } else {
                assert(models[j] == fresh[j - before.len()]);
                assert(all[j] == (last.id, fresh[j - before.len()]));
                assert(providers[providers.len() - 1].id == all[j].0);
            }
        }
    }
}

/// Candidates that are all eligible, and about different models, all win.
proof fn lemma_all_win(config: AggregationView, candidates: Seq<(Seq<char>, JsonView)>)
    requires
        forall|i: int|
            0 <= i < candidates.len() ==> eligible(config, #[trigger] candidates[i]),
        forall|i: int, j: int|
            0 <= i < j < candidates.len() ==> model_of((#[trigger] candidates[i]).1) != model_of(
                (#[trigger] candidates[j]).1,
            ),
    ensures
        merged(config, candidates) == candidates.map_values(
            |candidate: (Seq<char>, JsonView)| tagged(candidate),
        ),
    decreases candidates.len(),
{
    let tag = |candidate: (Seq<char>, JsonView)| tagged(candidate);
    if candidates.len() == 0 {
        assert(merged(config, candidates) == candidates.map_values(tag));
    } else {
        let rest = candidates.drop_last();
        assert forall|i: int| 0 <= i < rest.len() implies eligible(
            config,
            #[trigger] rest[i],
        ) by {
            assert(rest[i] == candidates[i]);
        }
        assert forall|i: int, j: int| 0 <= i < j < rest.len() implies model_of(
            (#[trigger] rest[i]).1,
        ) != model_of((#[trigger] rest[j]).1) by {
            assert(rest[i] == candidates[i] && rest[j] == candidates[j]);
        }
        lemma_all_win(config, rest);
        assert(wins(config, candidates, candidates.len() - 1));
        assert(merged(config, candidates) == candidates.map_values(tag));
    }
}

/// Providers that list their own entries of `models` list what their group does.
proof fn lemma_listed_grouped(
    one: Seq<ProviderView>,
    other: Seq<ProviderView>,
    models: Seq<JsonView>,
)
    requires
        alike(
            one,
            other,
            |a: ProviderView, b: ProviderView|
                a.id == b.id && catalog_models(b) == Some(own_entries(models, a.id)),
        ),
    ensures
        listed(other) == grouped(one, models),
    decreases one.len(),
{
    if one.len() > 0 {
        let related = |a: ProviderView, b: ProviderView|
            a.id == b.id && catalog_models(b) == Some(own_entries(models, a.id));
        let last = one.len() - 1;
        assert(related(one[last], other[last]));
        assert(alike(one.drop_last(), other.drop_last(), related));
        lemma_listed_grouped(one.drop_last(), other.drop_last(), models);
        assert(listed_by(other.last()) == paired(
            own_entries(models, one.last().id),
            one.last().id,
        ));
    }
}

/// Law: merging catalogs that have been merged changes nothing. Where each provider that takes
/// part lists, of the merged catalog, the entries that name it, in their order, the merged catalog
/// is the same. Providers are stored under their own identifiers, each under its own, and without
/// whitespace around them.
pub proof fn law_merging_again_changes_nothing(
    entries: Seq<(Seq<char>, ProviderView)>,
    again: Seq<(Seq<char>, ProviderView)>,
    config: AggregationView,
)
    requires
        forall|i: int| 0 <= i < entries.len() ==> (#[trigger] entries[i]).0 == entries[i].1.id,
        forall|i: int, j: int|
            0 <= i < j < entries.len() ==> (#[trigger] entries[i]).0 != (#[trigger] entries[j]).0,
        forall|i: int|
            0 <= i < entries.len() ==> trimmed((#[trigger] entries[i]).0) == entries[i].0,
        again.len() == entries.len(),
        forall|i: int| 0 <= i < entries.len() ==> (#[trigger] again[i]).1.id == entries[i].1.id,
        forall|i: int|
            0 <= i < entries.len() && config.providers.contains(entries[i].1.id)
                ==> catalog_models((#[trigger] again[i]).1) == Some(
                own_entries(merged(config, candidates(entries, config)), entries[i].1.id),
            ),
    ensures
        merged_catalog(again, config) == merged_catalog(entries, config),
{
    let taking = participants(entries, config);
    let ranked = by_weight(taking, config);
    let all = candidates(entries, config);
    let models = merged(config, all);
    let takes_part = |p: ProviderView| config.providers.contains(p.id);
    // The providers that take part list their groups.
    let loosely = |a: ProviderView, b: ProviderView|
        a.id == b.id && (config.providers.contains(a.id) ==> catalog_models(b) == Some(
            own_entries(models, a.id),
        ));
    let related = |a: ProviderView, b: ProviderView|
        a.id == b.id && catalog_models(b) == Some(own_entries(models, a.id));
    assert(keeps_ids(loosely));
    assert forall|i: int| 0 <= i < entries.len() implies loosely(
        #[trigger] stored(entries)[i],
        stored(again)[i],
    ) by {
        assert(again[i].1.id == entries[i].1.id);
    }
    assert(alike(stored(entries), stored(again), loosely));
    lemma_participants_alike(stored(entries), stored(again), config, loosely);
    lemma_by_weight_alike(taking, participants(again, config), config, loosely);
    let ranked_again = by_weight(participants(again, config), config);
    assert forall|i: int| 0 <= i < ranked.len() implies config.providers.contains(
        (#[trigger] ranked[i]).id,
    ) && trimmed(ranked[i].id) == ranked[i].id by {
        assert(ranked.contains(ranked[i]));
        lemma_by_weight_contains(taking, config, ranked[i]);
        lemma_filter_member(stored(entries), takes_part, ranked[i]);
        let at = choose|at: int|
            0 <= at < stored(entries).len() && stored(entries)[at] == ranked[i];
        assert(entries[at].0 == entries[at].1.id);
    }
    assert forall|i: int| 0 <= i < ranked.len() implies related(
        #[trigger] ranked[i],
        ranked_again[i],
    ) by {
        assert(loosely(ranked[i], ranked_again[i]));
    }
    assert(alike(ranked, ranked_again, related));
    lemma_listed_grouped(ranked, ranked_again, models);
    // Each of them is the merged catalog in turn.
    assert(distinct_ids(stored(entries))) by {
        assert forall|i: int, j: int| 0 <= i < j < entries.len() implies (#[trigger] stored(
            entries,
        )[i]).id != (#[trigger] stored(entries)[j]).id by {
            assert(entries[i].0 != entries[j].0);
        }
    }
    lemma_distinct_filter(stored(entries), takes_part);
    lemma_distinct_by_weight(taking, config);
    lemma_merged_is_grouped(config, ranked);
    let groups = grouped(ranked, models);
    assert(candidates(again, config) == groups);
    assert forall|j: int| 0 <= j < groups.len() implies eligible(config, #[trigger] groups[j])
        && tagged(groups[j]) == models[j] by {
        assert(groups[j].1 == models[j]);
        let i = lemma_merged_source(config, all, j);
        lemma_tagged(all[i], "model"@);
        lemma_with_twice(all[i].1, "providerId"@, JsonView::String(all[i].0));
        lemma_with_get(all[i].1, "providerId"@, JsonView::String(all[i].0), "model"@);
        let r = choose|r: int| 0 <= r < ranked.len() && (#[trigger] ranked[r]).id == groups[j].0;
        assert(trimmed(ranked[r].id) == ranked[r].id);
    }
    assert forall|i: int, j: int| 0 <= i < j < groups.len() implies model_of(
        (#[trigger] groups[i]).1,
    ) != model_of((#[trigger] groups[j]).1) by {
        assert(groups[i].1 == models[i] && groups[j].1 == models[j]);
        law_merged_models_are_distinct(config, all, i, j);
    }
    lemma_all_win(config, groups);
    assert(merged(config, groups) == models) by {
        assert forall|j: int| 0 <= j < groups.len() implies #[trigger] merged(config, groups)[j]
            == models[j] by {
            assert(eligible(config, groups[j]) && tagged(groups[j]) == models[j]);
        }
    }
}

} // verus!
