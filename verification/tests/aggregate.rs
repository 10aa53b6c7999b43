use cc_switch::aggregate::{
    assemble_aggregation_provider, build_live_provider, first_visible_model, live_model,
    merge_codex_model_catalog, provider_has_model, resolve_codex_base_provider_id,
    resolve_codex_model_provider, resolve_codex_model_provider_chain,
    sorted_enabled_codex_providers, try_build_live_provider, CodexAggregationConfig,
    CODEX_AGGREGATION_CONFIG_TEMPLATE, CODEX_AGGREGATION_PROVIDER_ID,
    CODEX_AGGREGATION_PROVIDER_NAME, DEFAULT_CODEX_AGGREGATION_WEIGHT,
};
use cc_switch::json::Json;
use cc_switch::provider::{AppError, Provider};
use indexmap::IndexMap;

fn json(text: &str) -> Json {
    Json::parse(text).expect("json")
}

fn object(key: &str, value: Json) -> Json {
    Json::object(vec![(key.to_string(), value)])
}

fn provider(id: &str, models: &[&str]) -> Provider {
    let entries: Vec<Json> = models
        .iter()
        .map(|m| object("model", Json::text(m)))
        .collect();
    provider_with(id, entries)
}

fn provider_with(id: &str, entries: Vec<Json>) -> Provider {
    Provider {
        id: id.to_string(),
        name: id.to_string(),
        settings_config: object("modelCatalog", object("models", Json::array(entries))),
        website_url: None,
        category: Some("codex".to_string()),
        created_at: None,
        sort_index: None,
        notes: None,
        meta: None,
        icon: None,
        icon_color: None,
        in_failover_queue: false,
    }
}

fn map(providers: Vec<Provider>) -> IndexMap<String, Provider> {
    providers.into_iter().map(|p| (p.id.clone(), p)).collect()
}

fn cfg(enabled: bool, ids: &[&str]) -> CodexAggregationConfig {
    let mut config = CodexAggregationConfig::default();
    config.enabled = enabled;
    for id in ids {
        config.providers.insert(id.to_string());
    }
    config
}

fn models(catalog: &Json) -> &Vec<Json> {
    catalog.get_array("models").expect("models")
}

fn ids(providers: Vec<&Provider>) -> Vec<&str> {
    providers.iter().map(|p| p.id.as_str()).collect()
}

#[test]
fn resolve_routes_to_enabled_provider_with_model() {
    let taotoken = provider("taotoken", &["deepseek-v4-flash", "glm-5"]);
    let gptrelay = provider("gptrelay", &["gpt-4o", "gpt-5"]);
    let all = map(vec![taotoken, gptrelay]);
    let config = cfg(true, &["taotoken", "gptrelay"]);

    assert_eq!(
        resolve_codex_model_provider("gpt-4o", &all, &config).map(|p| p.id.as_str()),
        Some("gptrelay")
    );
    assert_eq!(
        resolve_codex_model_provider("deepseek-v4-flash", &all, &config).map(|p| p.id.as_str()),
        Some("taotoken")
    );
    assert!(resolve_codex_model_provider("unknown", &all, &config).is_none());
}

#[test]
fn merge_dedups_and_tags_provider_id() {
    let taotoken = provider("taotoken", &["deepseek-v4-flash", "glm-5"]);
    let gptrelay = provider("gptrelay", &["gpt-4o"]);
    let all = map(vec![taotoken, gptrelay]);
    let config = cfg(true, &["taotoken", "gptrelay"]);

    let merged = merge_codex_model_catalog(&all, &config);
    let entries = models(&merged);
    assert_eq!(entries.len(), 3);
    let gpt = entries
        .iter()
        .find(|e| e.get_str("model") == Some("gpt-4o"))
        .unwrap();
    assert_eq!(gpt.get_str("providerId"), Some("gptrelay"));
}

#[test]
fn binding_overrides_duplicate_model() {
    let taotoken = provider("taotoken", &["gpt-4o"]);
    let gptrelay = provider("gptrelay", &["gpt-4o"]);
    let all = map(vec![taotoken, gptrelay]);
    let mut config = cfg(true, &["taotoken", "gptrelay"]);
    config
        .bindings
        .insert("gpt-4o".to_string(), "gptrelay".to_string());

    let merged = merge_codex_model_catalog(&all, &config);
    let entries = models(&merged);
    assert_eq!(entries.len(), 1);
    assert_eq!(entries[0].get_str("providerId"), Some("gptrelay"));
    assert_eq!(
        resolve_codex_model_provider("gpt-4o", &all, &config).map(|p| p.id.as_str()),
        Some("gptrelay")
    );
}

#[test]
fn weighted_chain_and_merge_prefer_highest_weight_provider() {
    let taotoken = provider("taotoken", &["gpt-4o"]);
    let devpoolai = provider("devpoolai", &["gpt-4o"]);
    let gptrelay = provider("gptrelay", &["gpt-4o"]);
    let all = map(vec![taotoken, devpoolai, gptrelay]);
    let mut config = cfg(true, &["taotoken", "devpoolai", "gptrelay"]);
    config.weights.insert("taotoken".to_string(), 50);
    config.weights.insert("devpoolai".to_string(), 200);
    config.weights.insert("gptrelay".to_string(), 100);

    let chain = resolve_codex_model_provider_chain("gpt-4o", &all, &config);
    assert_eq!(ids(chain), vec!["devpoolai", "gptrelay", "taotoken"]);

    let merged = merge_codex_model_catalog(&all, &config);
    assert_eq!(models(&merged)[0].get_str("providerId"), Some("devpoolai"));
}

#[test]
fn binding_stays_single_route_even_with_weights() {
    let taotoken = provider("taotoken", &["gpt-4o"]);
    let devpoolai = provider("devpoolai", &["gpt-4o"]);
    let all = map(vec![taotoken, devpoolai]);
    let mut config = cfg(true, &["taotoken", "devpoolai"]);
    config.weights.insert("devpoolai".to_string(), 999);
    config
        .bindings
        .insert("gpt-4o".to_string(), "taotoken".to_string());

    let chain = resolve_codex_model_provider_chain("gpt-4o", &all, &config);
    assert_eq!(ids(chain), vec!["taotoken"]);
}

#[test]
fn resolve_base_returns_highest_weight_provider() {
    let mut taotoken = provider("taotoken", &["deepseek-v4-flash"]);
    taotoken.sort_index = Some(1);
    let mut devpoolai = provider("devpoolai", &["gpt-5.5"]);
    devpoolai.sort_index = Some(2);
    let all = map(vec![taotoken, devpoolai]);

    let mut config = cfg(true, &["taotoken", "devpoolai"]);
    config.weights.insert("devpoolai".to_string(), 300);
    assert_eq!(
        resolve_codex_base_provider_id(&all, &config).as_deref(),
        Some("devpoolai")
    );

    let mut disabled = cfg(false, &["taotoken", "devpoolai"]);
    disabled.weights.insert("devpoolai".to_string(), 300);
    assert!(resolve_codex_base_provider_id(&all, &disabled).is_none());
    let mut empty = cfg(true, &[]);
    empty.weights.insert("devpoolai".to_string(), 300);
    assert!(resolve_codex_base_provider_id(&all, &empty).is_none());
}

#[test]
fn build_live_provider_uses_aggregation_skeleton_in_aggregation_mode() {
    let mut taotoken = provider("taotoken", &["deepseek-v4-flash", "glm-5"]);
    taotoken.sort_index = Some(1);
    let mut devpoolai = provider("devpoolai", &["gpt-5.5"]);
    devpoolai.sort_index = Some(2);
    let all = map(vec![taotoken, devpoolai]);

    let mut config = cfg(true, &["taotoken", "devpoolai"]);
    config.default_model = Some("gpt-5.5".to_string());

    let live = build_live_provider(&config, &all, "devpoolai").expect("build live provider");
    assert_eq!(live.id, CODEX_AGGREGATION_PROVIDER_ID);
    assert_eq!(live.name, CODEX_AGGREGATION_PROVIDER_NAME);
    let config_text = live.settings_config.get_str("config").expect("config text");
    assert!(
        config_text.contains("[features.multi_agent_v2]")
            && config_text.contains("expose_spawn_agent_model_overrides = true"),
        "aggregation skeleton must carry multi-agent v2 config: {config_text}"
    );
    let entries = live
        .settings_config
        .get("modelCatalog")
        .and_then(|c| c.get("models"))
        .and_then(|m| m.as_array())
        .expect("merged models");
    let names: Vec<&str> = entries.iter().filter_map(|m| m.get_str("model")).collect();
    assert!(names.contains(&"gpt-5.5"));
    assert!(names.contains(&"deepseek-v4-flash"));
    assert!(names.contains(&"glm-5"));
}

#[test]
fn build_live_provider_overrides_default_model() {
    let mut taotoken = provider("taotoken", &["deepseek-v4-flash", "glm-5"]);
    taotoken.sort_index = Some(1);
    taotoken.settings_config = taotoken.settings_config.with(
        "config",
        Json::text("model = \"deepseek-v4-flash\"\nmodel_reasoning_effort = \"low\"\n"),
    );
    let mut devpoolai = provider("devpoolai", &["gpt-5.5"]);
    devpoolai.sort_index = Some(2);
    let all = map(vec![taotoken, devpoolai]);

    let mut config = cfg(true, &["taotoken", "devpoolai"]);
    config.default_model = Some("gpt-5.5".to_string());

    let live = build_live_provider(&config, &all, "taotoken").expect("build live provider");
    assert_eq!(live.id, CODEX_AGGREGATION_PROVIDER_ID);
    let config_text = live.settings_config.get_str("config").expect("config text");
    assert!(
        config_text.contains("model = \"gpt-5.5\""),
        "default model must be overridden: {config_text}"
    );
    assert!(
        !config_text.contains("deepseek-v4-flash"),
        "skeleton default must be replaced: {config_text}"
    );
}

#[test]
fn single_mode_gives_the_active_provider() {
    let all = map(vec![provider("a", &["m"]), provider("b", &["n"])]);
    let off = cfg(false, &["a", "b"]);
    assert_eq!(build_live_provider(&off, &all, "b"), Ok(provider("b", &["n"])));
    assert_eq!(
        build_live_provider(&off, &all, "c"),
        Err(AppError::Config("Codex 活跃供应商不存在: c".to_string()))
    );
    let nobody = cfg(true, &[]);
    assert_eq!(build_live_provider(&nobody, &all, "a"), Ok(provider("a", &["m"])));
}

#[test]
fn aggregation_without_a_visible_model_fails() {
    let hidden = json(r#"{"model": "m", "hidden": true}"#);
    let all = map(vec![provider_with("a", vec![hidden])]);
    assert_eq!(
        build_live_provider(&cfg(true, &["a"]), &all, "a"),
        Err(AppError::Config("聚合目录中没有可见模型".to_string()))
    );
}

#[test]
fn the_first_visible_model_is_the_default() {
    let entries = vec![
        json(r#"{"model": "h", "hidden": true}"#),
        json(r#"{"model": "v", "hidden": "yes"}"#),
        json(r#"{"model": "w"}"#),
    ];
    let all = map(vec![provider_with("a", entries)]);
    let live = build_live_provider(&cfg(true, &["a"]), &all, "none").expect("live");
    let text = live.settings_config.get_str("config").expect("config");
    assert!(text.contains("\nmodel = \"v\"\n"));
    assert!(text.starts_with("model_provider = \"custom\"\n"));
    assert_eq!(first_visible_model(&json(r#"{"models": [{"hidden": false}, {"model": "x"}]}"#)), None);
    assert_eq!(first_visible_model(&json("{}")), None);
}

#[test]
fn the_outcome_of_setting_the_model_decides() {
    let catalog = json(r#"{"models": []}"#);
    assert_eq!(
        assemble_aggregation_provider(Err("broken".to_string()), catalog.clone()),
        Err(AppError::Message("broken".to_string()))
    );
    let provider = assemble_aggregation_provider(Ok("text".to_string()), catalog).expect("provider");
    assert_eq!(
        provider.settings_config,
        Json::object(vec![
            ("auth".to_string(), Json::object(Vec::new())),
            ("config".to_string(), Json::text("text")),
            ("modelCatalog".to_string(), json(r#"{"models": []}"#)),
        ])
    );
    assert_eq!(provider.category, None);
}

#[test]
fn weights_default_and_order_the_providers() {
    let mut config = cfg(true, &["a", "b", "c"]);
    config.weights.insert("b".to_string(), 101);
    assert_eq!(config.provider_weight("b"), 101);
    assert_eq!(config.provider_weight("a"), DEFAULT_CODEX_AGGREGATION_WEIGHT);
    assert_eq!(DEFAULT_CODEX_AGGREGATION_WEIGHT, 100);
    let all = map(vec![
        provider("c", &[]),
        provider("x", &[]),
        provider("a", &[]),
        provider("b", &[]),
    ]);
    assert_eq!(ids(sorted_enabled_codex_providers(&all, &config)), vec!["b", "c", "a"]);
}

#[test]
fn a_binding_to_one_that_takes_no_part_routes_nowhere() {
    let all = map(vec![provider("a", &["m"]), provider("b", &["m"])]);
    let mut config = cfg(true, &["a"]);
    config.bindings.insert("m".to_string(), "b".to_string());
    assert!(resolve_codex_model_provider_chain("m", &all, &config).is_empty());
    let mut gone = cfg(true, &["a", "z"]);
    gone.bindings.insert("m".to_string(), "z".to_string());
    assert!(resolve_codex_model_provider_chain("m", &all, &gone).is_empty());
}

#[test]
fn merging_takes_each_model_once_and_from_its_owner() {
    let all = map(vec![
        provider_with(
            "a",
            vec![
                json(r#"{"model": " m "}"#),
                json(r#"{"model": ""}"#),
                json(r#"{"name": "n"}"#),
                json(r#"{"model": "k", "providerId": "b"}"#),
                json(r#"{"model": "own", "provider_id": " a ", "x": 1}"#),
            ],
        ),
        provider("b", &["m", "k"]),
    ]);
    let merged = merge_codex_model_catalog(&all, &cfg(true, &["a", "b"]));
    let pairs: Vec<(Option<&str>, Option<&str>)> = models(&merged)
        .iter()
        .map(|e| (e.get_str("model"), e.get_str("providerId")))
        .collect();
    assert_eq!(
        pairs,
        vec![
            (Some(" m "), Some("a")),
            (Some("own"), Some("a")),
            (Some("k"), Some("b")),
        ]
    );
    assert_eq!(models(&merged)[1].get("x").and_then(|x| x.as_u64()), Some(1));
}

#[test]
fn a_listed_model_is_routed_to_its_source() {
    let all = map(vec![provider("a", &["m"]), provider("b", &["m", "n"])]);
    let mut config = cfg(true, &["a", "b"]);
    config.weights.insert("b".to_string(), 500);
    let merged = merge_codex_model_catalog(&all, &config);
    for entry in models(&merged) {
        let model = entry.get_str("model").expect("model");
        let route = resolve_codex_model_provider(model, &all, &config).expect("route");
        assert_eq!(Some(route.id.as_str()), entry.get_str("providerId"));
    }
}

#[test]
fn a_provider_has_the_models_of_its_catalog() {
    let one = provider("a", &["m", "n"]);
    assert!(provider_has_model(&one, "n"));
    assert!(!provider_has_model(&one, "N"));
    let mut bare = provider("a", &[]);
    bare.settings_config = json(r#"{"modelCatalog": {"models": {"model": "m"}}}"#);
    assert!(!provider_has_model(&bare, "m"));
}

#[test]
fn the_live_configuration_names_the_default_model() {
    let all = map(vec![provider("a", &["m", "n"])]);
    let mut config = cfg(true, &["a"]);
    for model in ["gpt-5.5", "odd \"quoted\" \\ 'one'", "", "line\nbreak"] {
        config.default_model = Some(model.to_string());
        let live = build_live_provider(&config, &all, "a").expect("live");
        assert_eq!(live_model(&live).as_deref(), Some(model));
    }
    config.default_model = None;
    let live = build_live_provider(&config, &all, "a").expect("live");
    assert_eq!(live_model(&live).as_deref(), Some("m"));
    let mut other = provider("b", &[]);
    assert_eq!(live_model(&other), None);
    other.settings_config = object("config", Json::text("model = 5"));
    assert_eq!(live_model(&other), None);
    other.settings_config = object("config", Json::text("model = "));
    assert_eq!(live_model(&other), None);
}

#[test]
fn a_default_model_that_cannot_be_written_is_told() {
    let all = map(vec![provider("a", &["m"])]);
    let mut config = cfg(true, &["a"]);
    config.default_model = Some("'".repeat(256));
    assert_eq!(try_build_live_provider(&config, &all, "a"), None);
    config.enabled = false;
    assert_eq!(
        try_build_live_provider(&config, &all, "a"),
        Some(Ok(provider("a", &["m"])))
    );
    config.enabled = true;
    config.default_model = Some("m".to_string());
    assert_eq!(
        try_build_live_provider(&config, &all, "a"),
        Some(build_live_provider(&config, &all, "a"))
    );
}

#[test]
fn merging_merged_catalogs_changes_nothing() {
    let all = map(vec![
        provider_with("a", vec![json(r#"{"model": " m ", "x": 1}"#), json(r#"{"model": "k"}"#)]),
        provider("b", &["m", "n", "k"]),
        provider("c", &["z"]),
    ]);
    let mut config = cfg(true, &["a", "b"]);
    config.weights.insert("b".to_string(), 200);
    config.bindings.insert("k".to_string(), "a".to_string());
    let merged = merge_codex_model_catalog(&all, &config);
    assert_eq!(models(&merged).len(), 3);
    let own = |id: &str| -> Vec<Json> {
        models(&merged)
            .iter()
            .filter(|e| e.get_str("providerId") == Some(id))
            .cloned()
            .collect()
    };
    let again = map(vec![
        provider_with("a", own("a")),
        provider_with("b", own("b")),
        provider("c", &["other"]),
    ]);
    assert_eq!(merge_codex_model_catalog(&again, &config), merged);
}

#[test]
fn stored_settings_do_not_reach_the_live_provider() {
    let plain = provider("a", &["m"]);
    let mut rich = provider("a", &["m"]);
    rich.name = "Relay".to_string();
    rich.notes = Some("note".to_string());
    rich.settings_config = rich
        .settings_config
        .with("config", Json::text("base_url = \"http://relay\"\n"))
        .with("auth", json(r#"{"OPENAI_API_KEY": "k"}"#));
    let config = cfg(true, &["a"]);
    assert_eq!(
        build_live_provider(&config, &map(vec![plain]), "a"),
        build_live_provider(&config, &map(vec![rich]), "x")
    );
}

#[test]
fn the_live_configuration_is_else_the_template() {
    let all = map(vec![provider("a", &["m"])]);
    let live = build_live_provider(&cfg(true, &["a"]), &all, "a").expect("live");
    let text = live.settings_config.get_str("config").expect("config");
    let without: Vec<&str> = text.lines().filter(|line| *line != "model = \"m\"").collect();
    assert_eq!(
        without,
        CODEX_AGGREGATION_CONFIG_TEMPLATE.lines().collect::<Vec<_>>()
    );
}
