//! What aggregation promises, said of the stored providers and of the configuration as they are.
//!
//! The laws here speak of the members of a provider's settings, of the maps of weights and of
//! bindings and of the set of providers that take part, and of nothing that is derived from them.

use vstd::prelude::*;

use crate::aggregate::{
    assembled, base_provider, by_weight, candidates, catalog_models, configured_model,
    default_model, default_model_quotable, distinct_ids, eligible, first, has_model,
    law_by_weight_is_the_ranking, law_merged_models_are_distinct, lemma_by_weight_contains,
    lemma_distinct_by_weight, lemma_distinct_filter, lemma_filter_member, lemma_listed_grows,
    lemma_listed_source, lemma_listed_target, lemma_lookup, lemma_merged_source,
    lemma_some_candidate_wins, lemma_tagged, lemma_winner_is_merged, listed_by, live_outcome,
    lookup, merged, merged_catalog, model_of, of_weight, offering, participants, route, stored,
    tagged, visible_model, wins, AggregationView,
};
use crate::json::{lemma_position_is, lemma_with_get, JsonView};
use crate::provider::{bare_provider, AppErrorView, ProviderView};
use crate::text::trimmed;
use crate::toml::{quotable, toml_string, toml_with_string};

verus! {

/// Whether `entry` stands at `m` in the list of models in a provider's catalog.
pub open spec fn stands_in(provider: ProviderView, m: int, entry: JsonView) -> bool {
    &&& provider.settings_config.get("modelCatalog"@) matches Some(catalog)
    &&& catalog.get("models"@) matches Some(JsonView::Array(models))
    &&& 0 <= m < models.len()
    &&& models[m] == entry
}

/// Whether an entry has, whitespace around it aside, the name `name` under `model`.
pub open spec fn is_named(entry: JsonView, name: Seq<char>) -> bool {
    &&& entry.get("model"@) matches Some(JsonView::String(text))
    &&& trimmed(text) == name
    &&& name.len() > 0
}

/// Whether an entry names a relay other than `id`: under `providerId`, or where it has no such
/// member under `provider_id`.
pub open spec fn names_other(entry: JsonView, id: Seq<char>) -> bool {
    let mark = if entry.get("providerId"@) is Some {
        entry.get("providerId"@)
    } else {
        entry.get("provider_id"@)
    };
    &&& mark matches Some(JsonView::String(text))
    &&& trimmed(text).len() > 0
    &&& trimmed(text) != id
}

/// The weight that the configuration gives a provider: a hundred where it gives none.
pub open spec fn given_weight(config: AggregationView, id: Seq<char>) -> int {
    if config.weights.contains_key(id) {
        config.weights[id] as int
    } else {
        100
    }
}

/// Whether the entry at `m` of the provider stored at `p` may stand for the model `name`: the
/// provider takes part, the entry has that name and names no other relay, and the name is not
/// bound to another one. Nothing else of the entry matters.
pub open spec fn may_stand_for(
    entries: Seq<(Seq<char>, ProviderView)>,
    config: AggregationView,
    p: int,
    m: int,
    entry: JsonView,
    name: Seq<char>,
) -> bool {
    &&& 0 <= p < entries.len()
    &&& config.providers.contains(entries[p].1.id)
    &&& stands_in(entries[p].1, m, entry)
    &&& is_named(entry, name)
    &&& !names_other(entry, entries[p].1.id)
    &&& config.bindings.contains_key(name) ==> config.bindings[name] == entries[p].1.id
}

/// Whether the entry at `m` of the provider stored at `p` goes before the one at `n` of the
/// provider stored at `q`: its provider is heavier, or as heavy and stored before, or the same
/// and lists it before.
pub open spec fn goes_before(
    entries: Seq<(Seq<char>, ProviderView)>,
    config: AggregationView,
    p: int,
    m: int,
    q: int,
    n: int,
) -> bool {
    let one = given_weight(config, entries[p].1.id);
    let other = given_weight(config, entries[q].1.id);
    one > other || (one == other && (p < q || (p == q && m < n)))
}

/// The entries of a catalog.
pub open spec fn entries_in(catalog: JsonView) -> Seq<JsonView> {
    catalog.get("models"@)->0->Array_0
}

/// A filter keeps the order of what passes it.
proof fn lemma_filter_order<A>(all: Seq<A>, pred: spec_fn(A) -> bool, a: int, b: int) -> (places:
    (int, int))
    requires
        0 <= a < b < all.len(),
        pred(all[a]),
        pred(all[b]),
    ensures
        0 <= places.0 < places.1 < all.filter(pred).len(),
        all.filter(pred)[places.0] == all[a],
        all.filter(pred)[places.1] == all[b],
    decreases all.len(),
{
    reveal_with_fuel(Seq::filter, 2);
    let rest = all.drop_last();
    let left = rest.filter(pred);
    if b == all.len() - 1 {
        assert(rest[a] == all[a]);
        lemma_filter_member(rest, pred, all[a]);
        let x = choose|x: int| 0 <= x < left.len() && left[x] == all[a];
        assert(all.filter(pred)[x] == left[x]);
        (x, left.len() as int)
    } else {
        let (x, y) = lemma_filter_order(rest, pred, a, b);
        assert(all.filter(pred)[x] == left[x]);
        assert(all.filter(pred)[y] == left[y]);
        (x, y)
    }
}

/// What passes a filter stands in the order in which it stood.
proof fn lemma_filter_order_back<A>(all: Seq<A>, pred: spec_fn(A) -> bool, x: int, y: int) -> (places:
    (int, int))
    requires
        0 <= x < y < all.filter(pred).len(),
    ensures
        0 <= places.0 < places.1 < all.len(),
        all.filter(pred)[x] == all[places.0],
        all.filter(pred)[y] == all[places.1],
    decreases all.len(),
{
    reveal_with_fuel(Seq::filter, 2);
    let rest = all.drop_last();
    let left = rest.filter(pred);
    if y == left.len() {
        assert(left.contains(left[x]));
        lemma_filter_member(rest, pred, left[x]);
        let a = choose|a: int| 0 <= a < rest.len() && rest[a] == left[x];
        (a, all.len() - 1)
    } else {
        lemma_filter_order_back(rest, pred, x, y)
    }
}

/// Of two providers the heavier is ranked first, and of two of the same weight the one that
/// stands first.
proof fn lemma_rank_order(
    providers: Seq<ProviderView>,
    config: AggregationView,
    a: int,
    b: int,
) -> (places: (int, int))
    requires
        0 <= a < b < providers.len(),
    ensures
        0 <= places.0 < by_weight(providers, config).len(),
        0 <= places.1 < by_weight(providers, config).len(),
        by_weight(providers, config)[places.0] == providers[a],
        by_weight(providers, config)[places.1] == providers[b],
        places.0 < places.1 <==> given_weight(config, providers[a].id) >= given_weight(
            config,
            providers[b].id,
        ),
        places.1 < places.0 <==> given_weight(config, providers[a].id) < given_weight(
            config,
            providers[b].id,
        ),
{
    let ranked = by_weight(providers, config);
    law_by_weight_is_the_ranking(providers, config);
    let heavy = config.weight(providers[a].id);
    let light = config.weight(providers[b].id);
    if heavy == light {
        let weighs = |provider: ProviderView| config.weight(provider.id) == heavy;
        let (x, y) = lemma_filter_order(providers, weighs, a, b);
        assert(of_weight(ranked, config, heavy) == of_weight(providers, config, heavy));
        lemma_filter_order_back(ranked, weighs, x, y)
    } else {
        assert(providers.contains(providers[a]) && providers.contains(providers[b]));
        lemma_by_weight_contains(providers, config, providers[a]);
        lemma_by_weight_contains(providers, config, providers[b]);
        let i = choose|i: int| 0 <= i < ranked.len() && ranked[i] == providers[a];
        let j = choose|j: int| 0 <= j < ranked.len() && ranked[j] == providers[b];
        (i, j)
    }
}

/// Law: the providers that take part are ranked, and no other: of two the one with the greater
/// weight comes first, and of two with the same weight the one that is stored first.
pub proof fn law_ranking_follows_the_weights(
    entries: Seq<(Seq<char>, ProviderView)>,
    config: AggregationView,
    provider: ProviderView,
    p: int,
    q: int,
)
    ensures
        by_weight(participants(entries, config), config).contains(provider) <==> (exists|i: int|
            0 <= i < entries.len() && (#[trigger] entries[i]).1 == provider
                && config.providers.contains(provider.id)),
        0 <= p < q < entries.len() && config.providers.contains(entries[p].1.id)
            && config.providers.contains(entries[q].1.id) ==> exists|i: int, j: int|
            #![trigger
                by_weight(participants(entries, config), config)[i],
                by_weight(participants(entries, config), config)[j]]
            0 <= i < by_weight(participants(entries, config), config).len() && 0 <= j < by_weight(
                participants(entries, config),
                config,
            ).len() && by_weight(participants(entries, config), config)[i] == entries[p].1
                && by_weight(participants(entries, config), config)[j] == entries[q].1 && (i < j
                <==> given_weight(config, entries[p].1.id) >= given_weight(
                config,
                entries[q].1.id,
            )) && i != j,
{
    let taking = participants(entries, config);
    let ranked = by_weight(taking, config);
    let takes_part = |p: ProviderView| config.providers.contains(p.id);
    lemma_by_weight_contains(taking, config, provider);
    lemma_filter_member(stored(entries), takes_part, provider);
    if stored(entries).contains(provider) {
        let i = choose|i: int| 0 <= i < stored(entries).len() && stored(entries)[i] == provider;
        assert(entries[i].1 == provider);
    }
    if exists|i: int| 0 <= i < entries.len() && (#[trigger] entries[i]).1 == provider {
        let i = choose|i: int| 0 <= i < entries.len() && (#[trigger] entries[i]).1 == provider;
        assert(stored(entries)[i] == provider);
    }
    if 0 <= p < q < entries.len() && config.providers.contains(entries[p].1.id)
        && config.providers.contains(entries[q].1.id) {
        assert(stored(entries)[p] == entries[p].1 && stored(entries)[q] == entries[q].1);
        let (a, b) = lemma_filter_order(stored(entries), takes_part, p, q);
        let (i, j) = lemma_rank_order(taking, config, a, b);
        assert(ranked[i] == entries[p].1 && ranked[j] == entries[q].1);
    }
}

/// Whether the stored providers have different identifiers.
pub open spec fn stored_once(entries: Seq<(Seq<char>, ProviderView)>) -> bool {
    forall|i: int, j: int|
        0 <= i < j < entries.len() ==> (#[trigger] entries[i]).1.id != (
        #[trigger] entries[j]).1.id
}

/// The stored providers have different identifiers where their entries do.
proof fn lemma_stored_once(entries: Seq<(Seq<char>, ProviderView)>)
    requires
        stored_once(entries),
    ensures
        distinct_ids(stored(entries)),
{
    assert forall|i: int, j: int| 0 <= i < j < stored(entries).len() implies (#[trigger] stored(
        entries,
    )[i]).id != (#[trigger] stored(entries)[j]).id by {
        assert(entries[i].1.id != entries[j].1.id);
    }
}

/// Law: where the stored providers have different identifiers, no provider is ranked twice.
pub proof fn law_ranking_repeats_none(
    entries: Seq<(Seq<char>, ProviderView)>,
    config: AggregationView,
    i: int,
    j: int,
)
    requires
        stored_once(entries),
        0 <= i < j < by_weight(participants(entries, config), config).len(),
    ensures
        by_weight(participants(entries, config), config)[i].id != by_weight(
            participants(entries, config),
            config,
        )[j].id,
{
    lemma_stored_once(entries);
    lemma_distinct_filter(
        stored(entries),
        |p: ProviderView| config.providers.contains(p.id),
    );
    lemma_distinct_by_weight(participants(entries, config), config);
}

/// Whether some entry in a provider's catalog has exactly `model` under `model`.
pub open spec fn lists_model(provider: ProviderView, model: Seq<char>) -> bool {
    exists|m: int, entry: JsonView| #[trigger]
        stands_in(provider, m, entry) && entry.get("model"@) == Some(JsonView::String(model))
}

/// Law: a provider offers a model if and only if some entry in its catalog has exactly that name,
/// whatever else the entry has.
pub proof fn law_offered_models_are_those_listed(provider: ProviderView, model: Seq<char>)
    ensures
        has_model(provider, model) <==> lists_model(provider, model),
{
    if has_model(provider, model) {
        let models = catalog_models(provider)->0;
        let i = choose|i: int|
            0 <= i < models.len() && (#[trigger] models[i]).get_text("model"@) == Some(model);
        assert(stands_in(provider, i, models[i]));
        assert(models[i].get("model"@) == Some(JsonView::String(model)));
    }
    if lists_model(provider, model) {
        let (m, entry) = choose|m: int, entry: JsonView| #[trigger]
            stands_in(provider, m, entry) && entry.get("model"@) == Some(
                JsonView::String(model),
            );
        let models = catalog_models(provider)->0;
        assert(models[m].get_text("model"@) == Some(model));
    }
}

/// Law: a model that the bindings hold goes to the provider that they hold for it, and to no
/// other, where that takes part and is stored; else it goes nowhere. Weights and catalogs do not
/// matter.
pub proof fn law_bindings_decide(
    model: Seq<char>,
    entries: Seq<(Seq<char>, ProviderView)>,
    config: AggregationView,
    i: int,
)
    requires
        config.bindings.contains_key(model),
        forall|a: int, b: int|
            0 <= a < b < entries.len() ==> (#[trigger] entries[a]).0 != (#[trigger] entries[b]).0,
    ensures
        0 <= i < entries.len() && entries[i].0 == config.bindings[model]
            && config.providers.contains(config.bindings[model]) ==> route(model, entries, config)
            == seq![entries[i].1],
        !config.providers.contains(config.bindings[model]) ==> route(model, entries, config)
            == Seq::<ProviderView>::empty(),
        (forall|a: int|
            0 <= a < entries.len() ==> (#[trigger] entries[a]).0 != config.bindings[model])
            ==> route(model, entries, config) == Seq::<ProviderView>::empty(),
{
    let bound = config.bindings[model];
    if 0 <= i < entries.len() && entries[i].0 == bound {
        let at = lemma_lookup(entries, i);
    }
    lemma_lookup_found(entries, bound);
}

/// What a key leads to stands under that key.
proof fn lemma_lookup_found(entries: Seq<(Seq<char>, ProviderView)>, key: Seq<char>)
    ensures
        lookup(entries, key) is Some ==> exists|a: int|
            0 <= a < entries.len() && (#[trigger] entries[a]).0 == key && lookup(entries, key)
                == Some(entries[a].1),
    decreases entries.len(),
{
    if entries.len() > 0 {
        if entries[0].0 != key {
            let rest = entries.drop_first();
            lemma_lookup_found(rest, key);
            if lookup(rest, key) is Some {
                let a = choose|a: int|
                    0 <= a < rest.len() && (#[trigger] rest[a]).0 == key && lookup(rest, key)
                        == Some(rest[a].1);
                assert(entries[a + 1] == rest[a]);
            }
        }
    }
}

/// Law: a model that the bindings do not hold goes to the providers that take part and list it,
/// and to no other: of two the one with the greater weight comes first, and of two with the same
/// weight the one that is stored first.
pub proof fn law_unbound_models_follow_the_weights(
    model: Seq<char>,
    entries: Seq<(Seq<char>, ProviderView)>,
    config: AggregationView,
    provider: ProviderView,
    p: int,
    q: int,
)
    requires
        !config.bindings.contains_key(model),
    ensures
        route(model, entries, config).contains(provider) <==> (exists|i: int|
            0 <= i < entries.len() && (#[trigger] entries[i]).1 == provider
                && config.providers.contains(provider.id) && lists_model(provider, model)),
        0 <= p < q < entries.len() && config.providers.contains(entries[p].1.id)
            && config.providers.contains(entries[q].1.id) && lists_model(entries[p].1, model)
            && lists_model(entries[q].1, model) ==> exists|i: int, j: int|
            #![trigger route(model, entries, config)[i], route(model, entries, config)[j]]
            0 <= i < route(model, entries, config).len() && 0 <= j < route(
                model,
                entries,
                config,
            ).len() && route(model, entries, config)[i] == entries[p].1 && route(
                model,
                entries,
                config,
            )[j] == entries[q].1 && (i < j <==> given_weight(config, entries[p].1.id)
                >= given_weight(config, entries[q].1.id)) && i != j,
        stored_once(entries) ==> distinct_ids(route(model, entries, config)),
{
    let chosen = offering(entries, config, model);
    let ranked = route(model, entries, config);
    let offers = |p: ProviderView| config.providers.contains(p.id) && has_model(p, model);
    lemma_by_weight_contains(chosen, config, provider);
    lemma_filter_member(stored(entries), offers, provider);
    law_offered_models_are_those_listed(provider, model);
    if stored(entries).contains(provider) {
        let i = choose|i: int| 0 <= i < stored(entries).len() && stored(entries)[i] == provider;
        assert(entries[i].1 == provider);
    }
    if exists|i: int| 0 <= i < entries.len() && (#[trigger] entries[i]).1 == provider {
        let i = choose|i: int| 0 <= i < entries.len() && (#[trigger] entries[i]).1 == provider;
        assert(stored(entries)[i] == provider);
    }
    if 0 <= p < q < entries.len() {
        law_offered_models_are_those_listed(entries[p].1, model);
        law_offered_models_are_those_listed(entries[q].1, model);
        assert(stored(entries)[p] == entries[p].1 && stored(entries)[q] == entries[q].1);
        if offers(entries[p].1) && offers(entries[q].1) {
            let (a, b) = lemma_filter_order(stored(entries), offers, p, q);
            let (i, j) = lemma_rank_order(chosen, config, a, b);
            assert(ranked[i] == entries[p].1 && ranked[j] == entries[q].1);
        }
    }
    if stored_once(entries) {
        lemma_stored_once(entries);
        lemma_distinct_filter(stored(entries), offers);
        lemma_distinct_by_weight(chosen, config);
    }
}

/// Law: a request goes to the first of the relays that it may go to, and nowhere only where there
/// is none.
pub proof fn law_the_first_relay_is_used(providers: Seq<ProviderView>)
    ensures
        providers.len() > 0 ==> first(providers) == Some(providers[0]),
        providers.len() == 0 ==> first(providers) is None,
{
}

/// Law: routing and merging start from a provider that takes part, and from the heaviest, the one
/// that is stored first among those; from none only where aggregation is off or no provider that
/// takes part is stored.
pub proof fn law_the_base_is_the_heaviest(
    entries: Seq<(Seq<char>, ProviderView)>,
    config: AggregationView,
    q: int,
)
    requires
        stored_once(entries),
    ensures
        !config.enabled ==> base_provider(entries, config) is None,
        config.enabled && 0 <= q < entries.len() && config.providers.contains(entries[q].1.id)
            ==> exists|p: int|
            0 <= p < entries.len() && config.providers.contains((#[trigger] entries[p]).1.id)
                && base_provider(entries, config) == Some(entries[p].1.id) && (p == q
                || goes_before(entries, config, p, 0, q, 0)),
        base_provider(entries, config) matches Some(id) ==> config.providers.contains(id)
            && exists|p: int| 0 <= p < entries.len() && (#[trigger] entries[p]).1.id == id,
{
    let taking = participants(entries, config);
    let ranked = by_weight(taking, config);
    if ranked.len() > 0 {
        assert(ranked.contains(ranked[0]));
        law_ranking_follows_the_weights(entries, config, ranked[0], 0, 0);
        let p = choose|i: int| 0 <= i < entries.len() && (#[trigger] entries[i]).1 == ranked[0];
        assert(entries[p].1 == ranked[0]);
        assert(!config.providers.is_empty());
        if config.enabled && 0 <= q < entries.len() && config.providers.contains(
            entries[q].1.id,
        ) && p != q {
            lemma_ranked_before(entries, config, p, q, 0);
        }
    }
    if 0 <= q < entries.len() && config.providers.contains(entries[q].1.id) {
        law_ranking_follows_the_weights(entries, config, entries[q].1, 0, 0);
        assert(entries[q].1 == entries[q].1);
        assert(ranked.contains(entries[q].1));
        assert(config.providers.contains(entries[q].1.id));
        assert(!config.providers.is_empty());
    }
}

/// The provider that stands before another in the ranking is the heavier, or the one stored
/// first.
proof fn lemma_ranked_before(
    entries: Seq<(Seq<char>, ProviderView)>,
    config: AggregationView,
    p: int,
    q: int,
    at: int,
)
    requires
        stored_once(entries),
        0 <= p < entries.len(),
        0 <= q < entries.len(),
        p != q,
        config.providers.contains(entries[p].1.id),
        config.providers.contains(entries[q].1.id),
        0 <= at < by_weight(participants(entries, config), config).len(),
        by_weight(participants(entries, config), config)[at] == entries[p].1,
        forall|i: int|
            0 <= i < by_weight(participants(entries, config), config).len() && (
            #[trigger] by_weight(participants(entries, config), config)[i]) == entries[q].1 ==> at
                <= i,
    ensures
        goes_before(entries, config, p, 0, q, 0),
        given_weight(config, entries[p].1.id) == given_weight(config, entries[q].1.id) ==> p < q,
{
    let ranked = by_weight(participants(entries, config), config);
    lemma_stored_once(entries);
    lemma_distinct_filter(
        stored(entries),
        |p: ProviderView| config.providers.contains(p.id),
    );
    lemma_distinct_by_weight(participants(entries, config), config);
    let (one, two) = if p < q {
        (p, q)
    } else {
        (q, p)
    };
    law_ranking_follows_the_weights(entries, config, entries[p].1, one, two);
    let (i, j) = choose|i: int, j: int|
        #![trigger ranked[i], ranked[j]]
        0 <= i < ranked.len() && 0 <= j < ranked.len() && ranked[i] == entries[one].1 && ranked[j]
            == entries[two].1 && (i < j <==> given_weight(config, entries[one].1.id)
            >= given_weight(config, entries[two].1.id)) && i != j;
    let mine = if p < q {
        i
    } else {
        j
    };
    assert(ranked[mine].id == ranked[at].id);
    assert(mine == at);
}

/// An entry that may stand for a model is an eligible candidate, at the place that its provider
/// and its place in the list give it.
proof fn lemma_candidate_of(
    entries: Seq<(Seq<char>, ProviderView)>,
    config: AggregationView,
    p: int,
    m: int,
    entry: JsonView,
    name: Seq<char>,
) -> (place: (int, int))
    requires
        may_stand_for(entries, config, p, m, entry, name),
    ensures
        ({
            let ranked = by_weight(participants(entries, config), config);
            let all = candidates(entries, config);
            &&& 0 <= place.0 < ranked.len()
            &&& ranked[place.0] == entries[p].1
            &&& 0 <= place.1 < all.len()
            &&& 0 <= m < listed_by(ranked[place.0]).len()
            &&& place.1 == crate::aggregate::listed(ranked.take(place.0)).len() + m
            &&& place.1 < crate::aggregate::listed(ranked.take(place.0 + 1)).len()
            &&& all[place.1] == (entries[p].1.id, entry)
            &&& eligible(config, all[place.1])
            &&& model_of(entry) == Some(name)
        }),
{
    let ranked = by_weight(participants(entries, config), config);
    law_ranking_follows_the_weights(entries, config, entries[p].1, 0, 0);
    assert(ranked.contains(entries[p].1));
    let r = choose|r: int| 0 <= r < ranked.len() && ranked[r] == entries[p].1;
    assert(listed_by(ranked[r])[m] == (entries[p].1.id, entry));
    let i = lemma_listed_target(ranked, r, m);
    (r, i)
}

/// An eligible candidate is an entry that may stand for a model.
proof fn lemma_candidate_source(
    entries: Seq<(Seq<char>, ProviderView)>,
    config: AggregationView,
    i: int,
) -> (place: (int, int, int))
    requires
        0 <= i < candidates(entries, config).len(),
        eligible(config, candidates(entries, config)[i]),
    ensures
        ({
            let ranked = by_weight(participants(entries, config), config);
            let all = candidates(entries, config);
            let (p, m, r) = place;
            &&& may_stand_for(entries, config, p, m, all[i].1, model_of(all[i].1)->0)
            &&& all[i].0 == entries[p].1.id
            &&& model_of(all[i].1) is Some
            &&& 0 <= r < ranked.len()
            &&& ranked[r] == entries[p].1
            &&& i == crate::aggregate::listed(ranked.take(r)).len() + m
        }),
{
    let ranked = by_weight(participants(entries, config), config);
    let all = candidates(entries, config);
    let (r, m) = lemma_listed_source(ranked, i);
    assert(ranked.contains(ranked[r]));
    law_ranking_follows_the_weights(entries, config, ranked[r], 0, 0);
    let p = choose|p: int| 0 <= p < entries.len() && (#[trigger] entries[p]).1 == ranked[r];
    assert(entries[p].1 == ranked[r]);
    assert(stands_in(entries[p].1, m, all[i].1));
    (p, m, r)
}

/// Law: the merged catalog is an object that holds the list of models, and nothing else.
pub proof fn law_merged_catalog_is_a_list_of_models(
    entries: Seq<(Seq<char>, ProviderView)>,
    config: AggregationView,
)
    ensures
        merged_catalog(entries, config) == JsonView::Object(
            seq![("models"@, JsonView::Array(entries_in(merged_catalog(entries, config))))],
        ),
        merged_catalog(entries, config).get("models"@) == Some(
            JsonView::Array(entries_in(merged_catalog(entries, config))),
        ),
        entries_in(merged_catalog(entries, config)) == merged(config, candidates(entries, config)),
{
    lemma_position_is(merged_catalog(entries, config)->Object_0, "models"@, 0);
}

/// Law: every model that some entry may stand for is in the merged catalog.
pub proof fn law_every_model_is_merged(
    entries: Seq<(Seq<char>, ProviderView)>,
    config: AggregationView,
    p: int,
    m: int,
    entry: JsonView,
    name: Seq<char>,
) -> (k: int)
    requires
        may_stand_for(entries, config, p, m, entry, name),
    ensures
        0 <= k < entries_in(merged_catalog(entries, config)).len(),
        is_named(entries_in(merged_catalog(entries, config))[k], name),
{
    law_merged_catalog_is_a_list_of_models(entries, config);
    let all = candidates(entries, config);
    let (r, i) = lemma_candidate_of(entries, config, p, m, entry, name);
    let winner = lemma_some_candidate_wins(config, all, i);
    lemma_winner_is_merged(config, all, winner);
    let merged = merged(config, all);
    let k = choose|k: int| 0 <= k < merged.len() && merged[k] == tagged(all[winner]);
    lemma_tagged(all[winner], "model"@);
    lemma_names_differ();
    k
}

/// The names under which an entry says what it is about differ.
proof fn lemma_names_differ()
    ensures
        "model"@ != "providerId"@,
        "provider_id"@ != "providerId"@,
        "hidden"@ != "providerId"@,
{
    reveal_strlit("model");
    reveal_strlit("providerId");
    reveal_strlit("provider_id");
    reveal_strlit("hidden");
    assert("model"@.len() == 5 && "providerId"@.len() == 10 && "provider_id"@.len() == 11
        && "hidden"@.len() == 6);
}

/// Law: an entry of the merged catalog is one that may stand for its model, with the provider
/// that lists it under `providerId` and with every other member as it was. No entry that may
/// stand for the same model goes before it.
pub proof fn law_merged_entries_come_first_for_their_model(
    entries: Seq<(Seq<char>, ProviderView)>,
    config: AggregationView,
    k: int,
    key: Seq<char>,
    q: int,
    n: int,
    rival: JsonView,
) -> (source: (int, int, JsonView, Seq<char>))
    requires
        0 <= k < entries_in(merged_catalog(entries, config)).len(),
    ensures
        ({
            let entry = entries_in(merged_catalog(entries, config))[k];
            let (p, m, listed_entry, name) = source;
            &&& may_stand_for(entries, config, p, m, listed_entry, name)
            &&& entry is Object
            &&& is_named(entry, name)
            &&& entry.get("providerId"@) == Some(JsonView::String(entries[p].1.id))
            &&& key != "providerId"@ ==> entry.get(key) == listed_entry.get(key)
            &&& stored_once(entries) && may_stand_for(entries, config, q, n, rival, name)
                ==> !goes_before(entries, config, q, n, p, m)
        }),
{
    law_merged_catalog_is_a_list_of_models(entries, config);
    let all = candidates(entries, config);
    let i = lemma_merged_source(config, all, k);
    let (p, m, r) = lemma_candidate_source(entries, config, i);
    let name = model_of(all[i].1)->0;
    lemma_names_differ();
    lemma_tagged(all[i], key);
    lemma_tagged(all[i], "model"@);
    lemma_with_get(all[i].1, "providerId"@, JsonView::String(all[i].0), key);
    if stored_once(entries) && may_stand_for(entries, config, q, n, rival, name) {
        let (s, j) = lemma_candidate_of(entries, config, q, n, rival, name);
        assert(i <= j);
        lemma_candidate_order(entries, config, p, m, r, i, q, n, s, j);
    }
    (p, m, all[i].1, name)
}

/// Candidates stand in the order in which their entries go before each other.
proof fn lemma_candidate_order(
    entries: Seq<(Seq<char>, ProviderView)>,
    config: AggregationView,
    p: int,
    m: int,
    r: int,
    i: int,
    q: int,
    n: int,
    s: int,
    j: int,
)
    requires
        stored_once(entries),
        ({
            let ranked = by_weight(participants(entries, config), config);
            &&& 0 <= r < ranked.len()
            &&& 0 <= s < ranked.len()
            &&& 0 <= p < entries.len()
            &&& 0 <= q < entries.len()
            &&& ranked[r] == entries[p].1
            &&& ranked[s] == entries[q].1
            &&& config.providers.contains(entries[p].1.id)
            &&& config.providers.contains(entries[q].1.id)
            &&& 0 <= m < listed_by(ranked[r]).len()
            &&& 0 <= n < listed_by(ranked[s]).len()
            &&& i == crate::aggregate::listed(ranked.take(r)).len() + m
            &&& j == crate::aggregate::listed(ranked.take(s)).len() + n
        }),
        i <= j,
    ensures
        i < j ==> goes_before(entries, config, p, m, q, n),
        !goes_before(entries, config, q, n, p, m),
{
    let ranked = by_weight(participants(entries, config), config);
    if s < r {
        let there = lemma_listed_target(ranked, s, n);
        lemma_listed_grows(ranked, s + 1, r);
        assert(false);
    }
    lemma_stored_once(entries);
    lemma_distinct_filter(
        stored(entries),
        |p: ProviderView| config.providers.contains(p.id),
    );
    lemma_distinct_by_weight(participants(entries, config), config);
    if p == q {
        assert(ranked[r].id == ranked[s].id);
        assert(r == s);
    } else {
        assert(entries[p].1.id != entries[q].1.id);
        assert forall|x: int| 0 <= x < ranked.len() && (#[trigger] ranked[x]) == entries[q].1 implies r
            <= x by {
            assert(ranked[x].id == ranked[s].id);
            assert(x == s);
        }
        lemma_ranked_before(entries, config, p, q, r);
    }
}

/// Law: the merged catalog has one entry for a model, and its entries stand in the order in which
/// those that they come from go before each other.
pub proof fn law_merged_entries_stand_in_order(
    entries: Seq<(Seq<char>, ProviderView)>,
    config: AggregationView,
    k: int,
    l: int,
) -> (sources: ((int, int, JsonView, Seq<char>), (int, int, JsonView, Seq<char>)))
    requires
        stored_once(entries),
        0 <= k < l < entries_in(merged_catalog(entries, config)).len(),
    ensures
        ({
            let one = entries_in(merged_catalog(entries, config))[k];
            let two = entries_in(merged_catalog(entries, config))[l];
            let ((p, m, first, name), (q, n, second, other)) = sources;
            &&& may_stand_for(entries, config, p, m, first, name)
            &&& may_stand_for(entries, config, q, n, second, other)
            &&& is_named(one, name)
            &&& is_named(two, other)
            &&& one.get("providerId"@) == Some(JsonView::String(entries[p].1.id))
            &&& two.get("providerId"@) == Some(JsonView::String(entries[q].1.id))
            &&& name != other
            &&& goes_before(entries, config, p, m, q, n)
        }),
{
    law_merged_catalog_is_a_list_of_models(entries, config);
    let all = candidates(entries, config);
    let (i, j) = lemma_merged_order(config, all, k, l);
    let (p, m, r) = lemma_candidate_source(entries, config, i);
    let (q, n, s) = lemma_candidate_source(entries, config, j);
    lemma_names_differ();
    lemma_tagged(all[i], "model"@);
    lemma_tagged(all[j], "model"@);
    law_merged_models_are_distinct(config, all, k, l);
    lemma_candidate_order(entries, config, p, m, r, i, q, n, s, j);
    ((p, m, all[i].1, model_of(all[i].1)->0), (q, n, all[j].1, model_of(all[j].1)->0))
}

/// Merged entries stand in the order of the candidates that they come from.
proof fn lemma_merged_order(
    config: AggregationView,
    candidates: Seq<(Seq<char>, JsonView)>,
    k: int,
    l: int,
) -> (places: (int, int))
    requires
        0 <= k < l < merged(config, candidates).len(),
    ensures
        0 <= places.0 < places.1 < candidates.len(),
        eligible(config, candidates[places.0]),
        eligible(config, candidates[places.1]),
        merged(config, candidates)[k] == tagged(candidates[places.0]),
        merged(config, candidates)[l] == tagged(candidates[places.1]),
    decreases candidates.len(),
{
    let rest = candidates.drop_last();
    if wins(config, candidates, candidates.len() - 1) && l == merged(config, rest).len() {
        let i = lemma_merged_source(config, rest, k);
        assert(candidates[i] == rest[i]);
        (i, candidates.len() - 1)
    } else {
        let (i, j) = lemma_merged_order(config, rest, k, l);
        assert(candidates[i] == rest[i] && candidates[j] == rest[j]);
        (i, j)
    }
}

/// Law: the default model is the configured one; without one it is what the first entry of the
/// merged catalog that is not hidden has under `model`. An entry is hidden only where it says so
/// by a truth value.
pub proof fn law_the_default_model(
    config: AggregationView,
    catalog: JsonView,
    models: Seq<JsonView>,
    k: int,
)
    requires
        catalog.get("models"@) == Some(JsonView::Array(models)),
    ensures
        config.default_model is Some ==> default_model(config, catalog) == config.default_model,
        config.default_model is None && 0 <= k < models.len() && models[k].get("hidden"@) != Some(
            JsonView::Bool(true),
        ) && (forall|i: int|
            0 <= i < k ==> (#[trigger] models[i]).get("hidden"@) == Some(JsonView::Bool(true)))
            ==> default_model(config, catalog) == match models[k].get("model"@) {
            Some(JsonView::String(model)) => Some(model),
            _ => None,
        },
        config.default_model is None && (forall|i: int|
            0 <= i < models.len() ==> (#[trigger] models[i]).get("hidden"@) == Some(
                JsonView::Bool(true),
            )) ==> default_model(config, catalog) is None,
{
    lemma_first_visible(models, k);
}

/// Law: the first visible model of a catalog is what the first entry that is not hidden has under
/// `model`; a catalog without a list of models has none.
pub proof fn law_the_first_visible_model(catalog: JsonView, k: int)
    ensures
        match catalog.get("models"@) {
            Some(JsonView::Array(models)) => {
                &&& 0 <= k < models.len() && models[k].get("hidden"@) != Some(JsonView::Bool(true))
                    && (forall|i: int|
                    0 <= i < k ==> (#[trigger] models[i]).get("hidden"@) == Some(
                        JsonView::Bool(true),
                    )) ==> visible_model(catalog) == match models[k].get("model"@) {
                    Some(JsonView::String(model)) => Some(model),
                    _ => None,
                }
                &&& (forall|i: int|
                    0 <= i < models.len() ==> (#[trigger] models[i]).get("hidden"@) == Some(
                        JsonView::Bool(true),
                    )) ==> visible_model(catalog) is None
            },
            _ => visible_model(catalog) is None,
        },
{
    if let Some(JsonView::Array(models)) = catalog.get("models"@) {
        lemma_first_visible(models, k);
    }
}

/// The first entry that is not hidden is found.
proof fn lemma_first_visible(models: Seq<JsonView>, k: int)
    ensures
        0 <= k < models.len() && models[k].get("hidden"@) != Some(JsonView::Bool(true)) && (
        forall|i: int|
            0 <= i < k ==> (#[trigger] models[i]).get("hidden"@) == Some(JsonView::Bool(true)))
            ==> crate::aggregate::first_visible(models) == match models[k].get("model"@) {
            Some(JsonView::String(model)) => Some(model),
            _ => None,
        },
        (forall|i: int|
            0 <= i < models.len() ==> (#[trigger] models[i]).get("hidden"@) == Some(
                JsonView::Bool(true),
            )) ==> crate::aggregate::first_visible(models) is None,
    decreases models.len(),
{
    if models.len() > 0 {
        let rest = models.drop_first();
        lemma_first_visible(rest, k - 1);
        if k < models.len() && forall|i: int|
            0 <= i < k ==> (#[trigger] models[i]).get("hidden"@) == Some(JsonView::Bool(true)) {
            assert forall|i: int| 0 <= i < k - 1 implies (#[trigger] rest[i]).get("hidden"@)
                == Some(JsonView::Bool(true)) by {
                assert(models[i + 1] == rest[i]);
            }
        }
        if forall|i: int|
            0 <= i < models.len() ==> (#[trigger] models[i]).get("hidden"@) == Some(
                JsonView::Bool(true),
            ) {
            assert(models[0].get("hidden"@) == Some(JsonView::Bool(true)));
            assert forall|i: int| 0 <= i < rest.len() implies (#[trigger] rest[i]).get("hidden"@)
                == Some(JsonView::Bool(true)) by {
                assert(models[i + 1] == rest[i]);
            }
        }
        if 0 < k < models.len() && forall|i: int|
            0 <= i < k ==> (#[trigger] models[i]).get("hidden"@) == Some(JsonView::Bool(true)) {
            assert(models[0].get("hidden"@) == Some(JsonView::Bool(true)));
        }
    }
}

/// Law: with aggregation on and a provider that takes part, the live provider is `codex-aggregation`
/// with the merged catalog, no credentials, and the configuration below with the default model in
/// it; there is none where there is no default model, or where the configuration is no TOML.
pub proof fn law_the_live_provider_of_the_aggregation(
    config: AggregationView,
    entries: Seq<(Seq<char>, ProviderView)>,
    active_id: Seq<char>,
    id: Seq<char>,
    key: Seq<char>,
)
    requires
        config.enabled,
        config.providers.contains(id),
    ensures
        ({
            let live = live_outcome(config, entries, active_id);
            let model = default_model(config, merged_catalog(entries, config));
            match model {
                None => live == Err::<ProviderView, AppErrorView>(
                    AppErrorView::Config("聚合目录中没有可见模型"@),
                ),
                Some(model) => {
                    let text = toml_with_string(
                        r#"model_provider = "custom"
model_reasoning_effort = "high"
disable_response_storage = true

[model_providers.custom]
name = "Codex 聚合"
wire_api = "responses"
requires_openai_auth = false

[features.multi_agent_v2]
enabled = true
expose_spawn_agent_model_overrides = true
hide_spawn_agent_metadata = false
"#@,
                        "model"@,
                        model,
                    );
                    match (live, text) {
                        (Ok(provider), Ok(text)) => {
                            &&& provider.id == "codex-aggregation"@
                            &&& provider.name == "Codex 聚合"@
                            &&& provider.settings_config.get("auth"@) == Some(
                                JsonView::Object(Seq::empty()),
                            )
                            &&& provider.settings_config.get("config"@) == Some(
                                JsonView::String(text),
                            )
                            &&& provider.settings_config.get("modelCatalog"@) == Some(
                                merged_catalog(entries, config),
                            )
                            &&& key != "auth"@ && key != "config"@ && key != "modelCatalog"@
                                ==> provider.settings_config.get(key) is None
                            &&& provider.website_url is None
                            &&& provider.category is None
                            &&& provider.created_at is None
                            &&& provider.sort_index is None
                            &&& provider.notes is None
                            &&& provider.meta is None
                            &&& provider.icon is None
                            &&& provider.icon_color is None
                            &&& !provider.in_failover_queue
                        },
                        (Err(error), Err(reason)) => error == AppErrorView::Message(reason),
                        _ => false,
                    }
                },
            }
        }),
{
    assert(!config.providers.is_empty());
    let live = live_outcome(config, entries, active_id);
    if live is Ok {
        let members = live->Ok_0.settings_config->Object_0;
        reveal_strlit("auth");
        reveal_strlit("config");
        reveal_strlit("modelCatalog");
        assert("auth"@.len() == 4 && "config"@.len() == 6 && "modelCatalog"@.len() == 12);
        lemma_position_is(members, "auth"@, 0);
        lemma_position_is(members, "config"@, 1);
        lemma_position_is(members, "modelCatalog"@, 2);
        if key != "auth"@ && key != "config"@ && key != "modelCatalog"@ {
            lemma_position_is(members, key, 3);
        }
    }
}

/// Law: with aggregation off, or with no provider that takes part, the live provider is the one
/// that is stored under the active identifier, and the lack of it is told.
pub proof fn law_the_live_provider_out_of_aggregation(
    config: AggregationView,
    entries: Seq<(Seq<char>, ProviderView)>,
    active_id: Seq<char>,
    i: int,
)
    requires
        !config.enabled || (forall|id: Seq<char>| !config.providers.contains(id)),
        forall|a: int, b: int|
            0 <= a < b < entries.len() ==> (#[trigger] entries[a]).0 != (#[trigger] entries[b]).0,
    ensures
        0 <= i < entries.len() && entries[i].0 == active_id ==> live_outcome(
            config,
            entries,
            active_id,
        ) == Ok::<ProviderView, AppErrorView>(entries[i].1),
        (forall|a: int| 0 <= a < entries.len() ==> (#[trigger] entries[a]).0 != active_id)
            ==> live_outcome(config, entries, active_id) == Err::<ProviderView, AppErrorView>(
            AppErrorView::Config("Codex 活跃供应商不存在: "@ + active_id),
        ),
{
    if config.enabled {
        assert(config.providers =~= Set::<Seq<char>>::empty());
    }
    if 0 <= i < entries.len() && entries[i].0 == active_id {
        let at = lemma_lookup(entries, i);
    }
    lemma_lookup_found(entries, active_id);
}

/// Law: a provider has the weight that is given for it, and a hundred where none is.
pub proof fn law_weights_are_given(config: AggregationView, id: Seq<char>)
    ensures
        config.weights.contains_key(id) ==> config.weight(id) == config.weights[id],
        !config.weights.contains_key(id) ==> config.weight(id) == 100,
{
}

/// Law: the model that a provider is set to is the one that the text under `config` names as
/// `model`; without such a text there is none.
pub proof fn law_the_model_of_a_configuration(provider: ProviderView)
    ensures
        provider.settings_config.get("config"@) matches Some(JsonView::String(text))
            ==> configured_model(provider) == toml_string(text, "model"@),
        !(provider.settings_config.get("config"@) matches Some(JsonView::String(_)))
            ==> configured_model(provider) is None,
{
}

/// Law: the provider of the aggregation is made of the text that setting the model gave and of the
/// catalog, and has no credentials; a refusal is passed on.
pub proof fn law_what_is_assembled(text: Seq<char>, error: Seq<char>, catalog: JsonView)
    ensures
        assembled(Err::<Seq<char>, Seq<char>>(error), catalog) == Err::<
            ProviderView,
            AppErrorView,
        >(AppErrorView::Message(error)),
        assembled(Ok::<Seq<char>, Seq<char>>(text), catalog) == Ok::<ProviderView, AppErrorView>(
            (ProviderView {
                id: "codex-aggregation"@,
                name: "Codex 聚合"@,
                settings_config: JsonView::Object(
                    seq![
                        ("auth"@, JsonView::Object(Seq::empty())),
                        ("config"@, JsonView::String(text)),
                        ("modelCatalog"@, catalog),
                    ],
                ),
                website_url: None,
                category: None,
                created_at: None,
                sort_index: None,
                notes: None,
                meta: None,
                icon: None,
                icon_color: None,
                in_failover_queue: false,
            }),
        ),
{
}

/// Law: of a new provider nothing is known but what it was made of.
pub proof fn law_a_new_provider(
    id: Seq<char>,
    name: Seq<char>,
    settings: JsonView,
    website: Option<Seq<char>>,
)
    ensures
        bare_provider(id, name, settings, website) == (ProviderView {
            id,
            name,
            settings_config: settings,
            website_url: website,
            category: None,
            created_at: None,
            sort_index: None,
            notes: None,
            meta: None,
            icon: None,
            icon_color: None,
            in_failover_queue: false,
        }),
{
}

/// Law: the provider of the aggregation can be built wherever its default model, if it has one, can
/// be written.
pub proof fn law_when_the_default_model_can_be_written(
    entries: Seq<(Seq<char>, ProviderView)>,
    config: AggregationView,
)
    ensures
        !default_model_quotable(entries, config) <==> (default_model(
            config,
            merged_catalog(entries, config),
        ) matches Some(model) && !quotable(model)),
{
}

} // verus!
