use cc_switch::codex_desktop::CodexDesktop;
use cc_switch::codex_desktop_patches::{
    ensure_desktop_reasoning_allowlist, load_catalog_payload, merge_reasoning_efforts,
    models_of_catalog, read_models_from_catalog, reasoning_allowlist_change,
    reasoning_effort_unlock_js, script_with, try_ensure_desktop_reasoning_allowlist,
    unlock_outcome, CodexUnlockResult,
};
use cc_switch::json::Json;
use cc_switch::toml::{is_quotable, TomlSection};
use cc_switch::unlock_script::{PAYLOAD_MARK, SCRIPT_TEMPLATE};

const EFFORTS: [&str; 9] = [
    "none",
    "minimal",
    "low",
    "medium",
    "high",
    "xhigh",
    "max",
    "ultra",
    "persistent",
];

fn json(text: &str) -> Json {
    Json::parse(text).expect("json")
}

fn strings(list: &[&str]) -> Vec<String> {
    list.iter().map(|s| s.to_string()).collect()
}

fn listed(text: &str) -> Vec<String> {
    let document: toml_edit::DocumentMut = text.parse().expect("toml");
    document["desktop"]["enabled-reasoning-efforts"]
        .as_array()
        .expect("list")
        .iter()
        .map(|entry| entry.as_str().expect("string").to_string())
        .collect()
}

#[test]
fn a_catalog_is_told_model_by_model() {
    let catalog = r#"{"models": [
        {"model": " m ", "slug": "s", "supported_reasoning_levels": ["low"]},
        {"slug": "s", "id": "i", "default_reasoning_level": "high"},
        {"id": "i"},
        {"model": 5, "slug": "s"},
        {"model": "  "},
        {"name": "n"}
    ]}"#;
    assert_eq!(
        read_models_from_catalog(catalog).expect("models"),
        vec![
            Json::object(vec![
                ("model".to_string(), Json::text("m")),
                ("reasoningLevels".to_string(), json(r#"["low"]"#)),
                ("defaultReasoningLevel".to_string(), Json::text("medium")),
            ]),
            Json::object(vec![
                ("model".to_string(), Json::text("s")),
                ("reasoningLevels".to_string(), json("[]")),
                ("defaultReasoningLevel".to_string(), Json::text("high")),
            ]),
            Json::object(vec![
                ("model".to_string(), Json::text("i")),
                ("reasoningLevels".to_string(), json("[]")),
                ("defaultReasoningLevel".to_string(), Json::text("medium")),
            ]),
        ]
    );
}

#[test]
fn a_catalog_without_models_tells_nothing() {
    assert_eq!(read_models_from_catalog("no json"), None);
    assert_eq!(read_models_from_catalog("{}"), None);
    assert_eq!(models_of_catalog(&json(r#"{"models": [{"model": ""}]}"#)), None);
    assert_eq!(models_of_catalog(&json(r#"{"models": {"model": "m"}}"#)), None);
}

#[test]
fn the_cache_is_told_of_only_without_a_catalog() {
    let catalog = r#"{"models": [{"model": "a"}]}"#;
    let cache = r#"{"models": [{"model": "b"}]}"#;
    let first = |told: &Json| {
        told.get_array("models").expect("models")[0]
            .get_str("model")
            .map(str::to_string)
    };
    assert_eq!(first(&load_catalog_payload(Some(catalog), Some(cache))).as_deref(), Some("a"));
    assert_eq!(first(&load_catalog_payload(None, Some(cache))).as_deref(), Some("b"));
    assert_eq!(first(&load_catalog_payload(Some("{}"), Some(cache))).as_deref(), Some("b"));
    assert_eq!(
        load_catalog_payload(None, None).to_text(),
        r#"{"defaultModel":null,"models":[]}"#
    );
}

#[test]
fn the_script_carries_the_catalog() {
    assert_eq!(SCRIPT_TEMPLATE.matches(PAYLOAD_MARK).count(), 1);
    let catalog = load_catalog_payload(Some(r#"{"models": [{"model": "a"}]}"#), None);
    let script = reasoning_effort_unlock_js(&catalog);
    assert_eq!(script, SCRIPT_TEMPLATE.replace(PAYLOAD_MARK, &catalog.to_text()));
    assert!(script.contains(r#""model":"a""#));
    assert!(script.contains("107580212"));
    assert!(!script.contains(PAYLOAD_MARK));
    assert_eq!(script_with("{}").len(), SCRIPT_TEMPLATE.len() - PAYLOAD_MARK.len() + 2);
}

#[test]
fn unlocking_counts_the_pages_in_which_the_script_ran() {
    let desktop = CodexDesktop { port: 9229 };
    let catalog = json(r#"{"models": [1, 2]}"#);
    let fine = json(r#"{"id": 4, "result": {"result": {}}}"#);
    let threw = json(r#"{"id": 4, "result": {"exceptionDetails": {"text": "Uncaught"}}}"#);
    assert_eq!(
        unlock_outcome(&desktop, &vec![threw.clone(), fine.clone()], &catalog),
        Ok(CodexUnlockResult {
            state: "injected",
            message: "Thinking strength unlocked via CDP on port 9229 (1 page, 2 catalog models)"
                .to_string(),
            port: Some(9229),
            injected_targets: 1,
            model_count: 2,
        })
    );
    let both = unlock_outcome(&desktop, &vec![fine.clone(), fine], &json("{}")).expect("unlocked");
    assert_eq!(
        both.message,
        "Thinking strength unlocked via CDP on port 9229 (2 pages, 0 catalog models)"
    );
    assert_eq!(
        unlock_outcome(&desktop, &vec![threw.clone(), threw], &catalog),
        Err(
            "Thinking strength script could not run in Codex Desktop: JS injection error: \
             {\"text\":\"Uncaught\"}; JS injection error: {\"text\":\"Uncaught\"}"
                .to_string()
        )
    );
    assert_eq!(
        unlock_outcome(&desktop, &Vec::new(), &catalog),
        Err("No Codex Desktop page target could be reached for injection.".to_string())
    );
}

#[test]
fn merging_keeps_the_list_and_adds_what_it_lacks() {
    assert_eq!(merge_reasoning_efforts(&Vec::new()), EFFORTS);
    let merged = merge_reasoning_efforts(&strings(&["low", "odd", "low"]));
    assert_eq!(
        merged,
        ["low", "odd", "low", "none", "minimal", "medium", "high", "xhigh", "max", "ultra", "persistent"]
    );
    assert_eq!(merge_reasoning_efforts(&merged), merged);
}

#[test]
fn a_configuration_without_the_section_gets_it() {
    let new = ensure_desktop_reasoning_allowlist("p", "a = 1\n")
        .expect("toml")
        .expect("change");
    assert!(new.starts_with("a = 1\n"));
    assert!(new.contains("[desktop]\nenabled-reasoning-efforts = [\"none\", \"minimal\","));
    assert_eq!(listed(&new), EFFORTS);
    assert_eq!(ensure_desktop_reasoning_allowlist("p", &new), Ok(None));
}

#[test]
fn a_listed_effort_is_kept() {
    let text = "[desktop]\nx = 'y' # note\nenabled-reasoning-efforts = ['odd \"one\"', 3, 'max']\n";
    let new = ensure_desktop_reasoning_allowlist("p", text)
        .expect("toml")
        .expect("change");
    assert!(new.contains("x = 'y' # note\n"));
    assert_eq!(listed(&new)[..2], ["odd \"one\"", "max"]);
    assert_eq!(listed(&new).len(), 10);
    assert_eq!(try_ensure_desktop_reasoning_allowlist("p", &new), Some(Ok(None)));
}

#[test]
fn odd_strings_are_read_back() {
    let mut table = toml_edit::DocumentMut::new();
    table["desktop"] = toml_edit::table();
    let odd: Vec<&str> = vec!["", "\"\"\"", "'''\n\"", "\r\n\t\u{1}\u{7f}", "é\\", "a\nb'\"\"\"'''"];
    table["desktop"]["enabled-reasoning-efforts"] =
        toml_edit::value(odd.iter().copied().collect::<toml_edit::Array>());
    let new = ensure_desktop_reasoning_allowlist("p", &table.to_string())
        .expect("toml")
        .expect("change");
    assert_eq!(listed(&new)[..odd.len()], odd[..]);
    assert_eq!(ensure_desktop_reasoning_allowlist("p", &new), Ok(None));
}

#[test]
fn sections_of_other_shapes_are_written_into() {
    for text in [
        "desktop.a = 1\n",
        "[desktop.sub]\nb = 1\n[[x]]\n[desktop.other]\n",
        "[[desktop.enabled-reasoning-efforts]]\n",
        "[desktop.enabled-reasoning-efforts]\nc = 1\n",
        "# only a comment",
    ] {
        let new = ensure_desktop_reasoning_allowlist("p", text)
            .expect("toml")
            .expect("change");
        assert_eq!(listed(&new), EFFORTS, "{text}");
        assert_eq!(ensure_desktop_reasoning_allowlist("p", &new), Ok(None), "{text}");
    }
}

#[test]
fn an_inline_list_is_kept() {
    let text = "desktop = { enabled-reasoning-efforts = [\"custom\"], x = 1 } # note\n";
    let new = ensure_desktop_reasoning_allowlist("p", text)
        .expect("toml")
        .expect("change");
    assert!(new.starts_with("desktop = {"));
    assert!(new.contains("x = 1 } # note\n"));
    assert_eq!(listed(&new)[0], "custom");
    assert_eq!(listed(&new)[1..], EFFORTS);
    assert_eq!(ensure_desktop_reasoning_allowlist("p", &new), Ok(None));
}

#[test]
fn inline_sections_of_other_shapes_are_written_into() {
    for text in [
        "desktop = {}\n",
        "desktop = { }\n",
        "desktop = {a.b=1,enabled-reasoning-efforts=3, a.c = 2}",
        "desktop = { enabled-reasoning-efforts.x = 1 }\n[other]\n",
        "desktop = { \"enabled-reasoning-efforts\" = [1, [\"low\"]] }\n",
    ] {
        let new = ensure_desktop_reasoning_allowlist("p", text)
            .expect("toml")
            .expect("change");
        assert_eq!(listed(&new), EFFORTS, "{text}");
        assert_eq!(ensure_desktop_reasoning_allowlist("p", &new), Ok(None), "{text}");
    }
    let odd = "desktop = { enabled-reasoning-efforts = [\"a\\n'\\\"\\\"\\\"\", \"\\r\\u0001\", ''] }\n";
    let new = ensure_desktop_reasoning_allowlist("p", odd)
        .expect("toml")
        .expect("change");
    assert_eq!(listed(&new)[..3], ["a\n'\"\"\"", "\r\u{1}", ""]);
    assert_eq!(ensure_desktop_reasoning_allowlist("p", &new), Ok(None));
}

#[test]
fn a_section_that_is_no_table_cannot_be_written_into() {
    assert_eq!(try_ensure_desktop_reasoning_allowlist("p", "desktop = 1\n"), None);
    assert_eq!(try_ensure_desktop_reasoning_allowlist("p", "[[desktop]]\n"), None);
}

#[test]
fn a_configuration_that_is_no_toml_is_refused() {
    let refused = try_ensure_desktop_reasoning_allowlist("/c.toml", "a =").expect("tried");
    let message = refused.expect_err("no toml");
    assert!(message.starts_with("parse /c.toml failed: TOML parse error at line 1"), "{message}");
}

#[test]
fn what_was_read_decides_what_is_written() {
    let full = Some(EFFORTS.iter().map(|e| Some(e.to_string())).collect());
    assert_eq!(
        reasoning_allowlist_change("p", &Ok(TomlSection::Table(full))),
        Ok(None)
    );
    let short = Some(vec![Some("max".to_string()), None]);
    assert_eq!(
        reasoning_allowlist_change("p", &Ok(TomlSection::Table(short)))
            .expect("list")
            .expect("list")[..2],
        ["max", "none"]
    );
    let inline = Some(vec![None, Some("custom".to_string())]);
    let change = reasoning_allowlist_change("p", &Ok(TomlSection::InlineTable(inline)))
        .expect("list")
        .expect("list");
    assert_eq!(change[0], "custom");
    assert_eq!(change[1..], EFFORTS);
    for section in [
        TomlSection::Missing,
        TomlSection::InlineTable(None),
        TomlSection::Table(None),
    ] {
        assert_eq!(
            reasoning_allowlist_change("p", &Ok(section)),
            Ok(Some(strings(&EFFORTS)))
        );
    }
    assert_eq!(
        reasoning_allowlist_change("p", &Err("bad".to_string())),
        Err("parse p failed: bad".to_string())
    );
}

#[test]
fn a_long_run_of_quotes_is_not_quotable() {
    let run = "\"".repeat(255);
    assert!(is_quotable(&run));
    assert!(is_quotable(&format!("{run}'{run}")));
    assert!(!is_quotable(&format!("x{run}\"y")));
    assert!(!is_quotable(&"'".repeat(300)));
    let text = format!("[desktop]\nenabled-reasoning-efforts = ['{}']\n", "\"".repeat(256));
    assert_eq!(try_ensure_desktop_reasoning_allowlist("p", &text), None);
}

#[test]
fn the_rest_of_the_configuration_is_kept() {
    for text in [
        "model = 'm'\nx.a = ['b']\n[desktop]\nother = [\"o\", 1]\n[[t]]\nl = []\n[x.c]\n[[t]]\nl = ['z']\n",
        "\u{feff}model = \"\"\"m\r\nn\"\"\"\r\nx = { a = ['b'] }\r\n[desktop.sub]\r\n[[t]]\r\n",
        "desktop = { other = ['o'], s.t = 1 }\nmodel = 'm'\n[x]\na = [\"b\"] # note",
        "[x]\na = ['b']\n[t]\n[[x.y]]\n[x.y.z]\nmodel = 1",
        "[z.a]\n[[desktop.items]]\nv = 1\n[z.b]\n[[desktop.items]]\nv = ['o']\n[z.c]\n",
        "desktop.other = ['o']\n[desktop.sub]\nk = 2\n[x]\na = 3\n",
    ] {
        let new = ensure_desktop_reasoning_allowlist("p", text)
            .expect("toml")
            .expect("change");
        let old: toml_edit::DocumentMut = text.parse().expect("toml");
        let now: toml_edit::DocumentMut = new.parse().expect("toml");
        let plain = |document: &toml_edit::DocumentMut, keep: bool| {
            let mut document = document.clone();
            if !keep {
                document.remove("desktop");
            } else {
                document["desktop"]
                    .as_table_like_mut()
                    .expect("table")
                    .remove("enabled-reasoning-efforts");
            }
            let mut lines: Vec<String> = document
                .to_string()
                .lines()
                .filter(|line| !line.is_empty())
                .map(|line| line.replace(' ', ""))
                .collect();
            lines.sort();
            lines
        };
        assert_eq!(plain(&old, false), plain(&now, false), "{text}");
        if old.contains_key("desktop") {
            // A section that had no header of its own may get one.
            let header = |line: &String| line != "[desktop]";
            let expected: Vec<String> = plain(&old, true).into_iter().filter(header).collect();
            let found: Vec<String> = plain(&now, true).into_iter().filter(header).collect();
            assert_eq!(expected, found, "{text}");
        }
    }
}
