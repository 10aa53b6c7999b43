use cc_switch::desktop_discovery::{
    detect_running_step, discover_windows_codex_desktop_step, discovered_paths, is_windows_codex_desktop_executable, macos_codex_common_bundle_candidates,
    newest_package, package_executables, printed_text, remembered_path, remembered_record,
    resolve_codex_desktop_executable_step, steps_to_bundle, version_tuple_from_package_name,
    BundleBase, BundleProbe, DetectStep, Executable, FoundPackage, PackageSearch, PackageStep, Platform, ShellSearch, ShellSource,
    ShellStep,
};

fn package(name: &str, present: &[bool]) -> FoundPackage {
    FoundPackage {
        name: name.to_string(),
        is_directory: true,
        present: present.to_vec(),
    }
}

fn executable(name: &str, path: &str) -> Executable {
    Executable {
        name: Some(name.to_string()),
        path: path.to_string(),
    }
}

fn search(platform: Platform) -> ShellSearch {
    ShellSearch {
        platform,
        running: None,
        noted: false,
        remembered: None,
        discovered: None,
        registered: None,
        bundles: None,
    }
}

#[test]
fn output_is_trimmed_and_dropped_where_empty() {
    assert_eq!(printed_text(true, " C:\\x\r\n").as_deref(), Some("C:\\x"));
    assert_eq!(printed_text(true, " \r\n"), None);
    assert_eq!(printed_text(false, "C:\\x"), None);
}

#[test]
fn paths_are_read_from_a_list_or_a_single_string() {
    assert_eq!(discovered_paths(r#"["C:\\a", 1, "b"]"#), ["C:\\a", "b"]);
    assert_eq!(discovered_paths(r#""C:\\a""#), ["C:\\a"]);
    assert!(discovered_paths("{}").is_empty());
    assert!(discovered_paths("C:\\a").is_empty());
}

#[test]
fn versions_are_read_from_package_names() {
    assert_eq!(
        version_tuple_from_package_name("OpenAI.Codex_26.415.1.0_x64__2p2"),
        [26, 415, 1, 0]
    );
    assert_eq!(version_tuple_from_package_name("OpenAI.Codex_1.x.+3.99999999999"), [1, 3]);
    assert!(version_tuple_from_package_name("OpenAI.Codex").is_empty());
}

#[test]
fn the_newest_package_with_the_shell_is_chosen() {
    let found = vec![
        package("OpenAI.Codex_1.9_x64", &[true]),
        package("OpenAI.Codex_1.10_x64", &[false, true]),
        package("OpenAI.Codex_2.0_x64", &[false, false, false]),
        package("Other_3.0_x64", &[true]),
        FoundPackage {
            name: "OpenAI.Codex_4.0".to_string(),
            is_directory: false,
            present: vec![true],
        },
    ];
    assert_eq!(newest_package(&found), Some((1, 1)));
    let same = vec![
        package("OpenAI.Codex_1.0_a", &[true]),
        package("OpenAI.Codex_1.0_b", &[false, false, true]),
        package("OpenAI.Codex_1_c", &[true]),
    ];
    assert_eq!(newest_package(&same), Some((1, 2)));
    assert_eq!(newest_package(&vec![package("OpenAI.Codex_1", &[])]), None);
    assert_eq!(
        package_executables(),
        ["app\\ChatGPT.exe", "app\\Codex.exe", "app\\resources\\Codex.exe"]
    );
}

#[test]
fn the_shell_is_told_from_other_executables() {
    let inside = r"C:\Program Files\WindowsApps\OpenAI.Codex_1\app\ChatGPT.exe";
    assert!(is_windows_codex_desktop_executable(Some("ChatGPT.exe"), inside));
    assert!(!is_windows_codex_desktop_executable(Some("ChatGPT.exe"), r"C:\ChatGPT.exe"));
    assert!(is_windows_codex_desktop_executable(Some("Codex.exe"), r"C:\Codex.exe"));
    assert!(!is_windows_codex_desktop_executable(Some("codex.exe"), inside));
    assert!(!is_windows_codex_desktop_executable(None, inside));
}

#[test]
fn a_remembered_path_is_given_back() {
    let path = "C:\\Program Files\\Codex \"x\".exe";
    assert_eq!(remembered_path(&remembered_record(path)).as_deref(), Some(path));
    assert_eq!(remembered_record("/a"), r#"{"path":"/a"}"#);
    assert_eq!(remembered_path("{\"path\": 1}"), None);
    assert_eq!(remembered_path("{}"), None);
    assert_eq!(remembered_path("no json"), None);
}

#[test]
fn bundles_are_looked_for_in_two_places() {
    let bundles = macos_codex_common_bundle_candidates(true);
    let paths: Vec<(BundleBase, &str)> =
        bundles.iter().map(|b| (b.base, b.path.as_str())).collect();
    assert_eq!(
        paths,
        [
            (BundleBase::Root, "Applications/Codex.app"),
            (BundleBase::Root, "Applications/ChatGPT.app"),
            (BundleBase::Home, "Applications/Codex.app"),
            (BundleBase::Home, "Applications/ChatGPT.app"),
        ]
    );
    assert_eq!(
        bundles[1].executable,
        "Applications/ChatGPT.app/Contents/MacOS/ChatGPT"
    );
    assert_eq!(macos_codex_common_bundle_candidates(false).len(), 2);
}

#[test]
fn the_first_bundle_that_runs_is_taken() {
    let bundles = macos_codex_common_bundle_candidates(false);
    let step = |probes: &[BundleProbe]| detect_running_step(&bundles, &probes.to_vec());
    assert_eq!(step(&[]), DetectStep::Probe(0));
    assert_eq!(step(&[BundleProbe::Missing]), DetectStep::Probe(1));
    assert_eq!(step(&[BundleProbe::Idle, BundleProbe::Running]), DetectStep::Done(Some(1)));
    assert_eq!(step(&[BundleProbe::Failed]), DetectStep::Done(None));
    assert_eq!(step(&[BundleProbe::Failed, BundleProbe::Running]), DetectStep::Done(None));
    assert_eq!(step(&[BundleProbe::Idle, BundleProbe::Missing]), DetectStep::Done(None));
}

#[test]
fn the_bundle_of_an_executable_is_above_it() {
    let names = |list: &[&str]| list.iter().map(|s| s.to_string()).collect::<Vec<_>>();
    assert_eq!(
        steps_to_bundle(&names(&["Codex", "MacOS", "Contents", "Codex.app", "Applications"])),
        3
    );
    assert_eq!(steps_to_bundle(&names(&["codex", "bin"])), 2);
    assert_eq!(steps_to_bundle(&Vec::new()), 0);
}

#[test]
fn the_running_shell_comes_before_the_remembered_one() {
    let mut state = search(Platform::Windows);
    assert_eq!(resolve_codex_desktop_executable_step(&state), ShellStep::DetectRunning);
    state.running = Some(true);
    assert_eq!(resolve_codex_desktop_executable_step(&state), ShellStep::Remember);
    state.noted = true;
    assert_eq!(
        resolve_codex_desktop_executable_step(&state),
        ShellStep::Done(Some(ShellSource::Running))
    );
    state.noted = false;
    state.running = Some(false);
    assert_eq!(resolve_codex_desktop_executable_step(&state), ShellStep::ReadRemembered);
    state.remembered = Some(true);
    assert_eq!(
        resolve_codex_desktop_executable_step(&state),
        ShellStep::Done(Some(ShellSource::Remembered))
    );
}

#[test]
fn on_windows_packages_come_before_the_registry() {
    let mut state = search(Platform::Windows);
    state.running = Some(false);
    state.remembered = Some(false);
    assert_eq!(resolve_codex_desktop_executable_step(&state), ShellStep::DiscoverPackages);
    state.discovered = Some(vec![executable("codex.exe", "a"), executable("Codex.exe", "b")]);
    assert_eq!(
        resolve_codex_desktop_executable_step(&state),
        ShellStep::Done(Some(ShellSource::Discovered(1)))
    );
    state.discovered = Some(vec![executable("codex.exe", "a")]);
    assert_eq!(resolve_codex_desktop_executable_step(&state), ShellStep::ReadRegistry);
    state.registered = Some(vec![executable("Codex.exe", "c")]);
    assert_eq!(
        resolve_codex_desktop_executable_step(&state),
        ShellStep::Done(Some(ShellSource::Registered(0)))
    );
    state.registered = Some(Vec::new());
    assert_eq!(resolve_codex_desktop_executable_step(&state), ShellStep::Done(None));
}

#[test]
fn elsewhere_bundles_or_nothing_is_looked_for() {
    let mut state = search(Platform::MacOs);
    state.running = Some(false);
    state.remembered = Some(false);
    assert_eq!(resolve_codex_desktop_executable_step(&state), ShellStep::LookForBundles);
    state.bundles = Some(vec![false, true, true]);
    assert_eq!(
        resolve_codex_desktop_executable_step(&state),
        ShellStep::Done(Some(ShellSource::Bundle(1)))
    );
    state.bundles = Some(vec![false]);
    assert_eq!(resolve_codex_desktop_executable_step(&state), ShellStep::Done(None));
    state.platform = Platform::Other;
    assert_eq!(resolve_codex_desktop_executable_step(&state), ShellStep::Done(None));
}

#[test]
fn listed_packages_come_before_scanned_ones() {
    let mut state = PackageSearch {
        printed: None,
        present: None,
        found: None,
    };
    assert_eq!(discover_windows_codex_desktop_step(&state), PackageStep::List);
    state.printed = Some(Some(r#"["a", "b", "c"]"#.to_string()));
    assert_eq!(
        discover_windows_codex_desktop_step(&state),
        PackageStep::Check(vec!["a".to_string(), "b".to_string(), "c".to_string()])
    );
    state.present = Some(vec![true, false, true]);
    assert_eq!(
        discover_windows_codex_desktop_step(&state),
        PackageStep::Listed(vec!["a".to_string(), "c".to_string()])
    );
    state.present = Some(vec![false, false, false]);
    assert_eq!(discover_windows_codex_desktop_step(&state), PackageStep::Scan);
    state.found = Some(vec![package("OpenAI.Codex_1", &[false, true])]);
    assert_eq!(discover_windows_codex_desktop_step(&state), PackageStep::Newest(0, 1));
    state.found = Some(Vec::new());
    assert_eq!(discover_windows_codex_desktop_step(&state), PackageStep::Nothing);
    state.printed = Some(None);
    state.present = None;
    assert_eq!(
        discover_windows_codex_desktop_step(&state),
        PackageStep::Check(Vec::new())
    );
}
