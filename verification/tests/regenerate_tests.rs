use dam::dam_toml::{TomlTable, TomlValue};
use dam::regenerate::{
    add_profile_to_table, add_provider_entry, add_provider_full, add_release_to_selection,
    apply_release_selection, edit_release_selection, ensure_project_entry, ensure_provider_block,
    existing_provider_names, get_default_stream_selection, interactive_regenerate_step,
    known_provider_names, list_profiles, populate_releases, populate_selected_streams,
    populate_streams, profile_details, profile_menu_action, profile_prompt_defaults,
    prompt_profile_details, provider_block_details, provider_menu_action, regenerate_message,
    regenerate_table, release_selection, releases_menu_action, remove_profile,
    remove_provider_block, remove_release_from_selection, run, stable_versions_for_stream,
    stream_selection, DamTomlCommands, MenuStep, ProfileMenuAction, ProviderMenuAction,
    RegenerateAction, RegenerateCommands, ReleaseAddOutcome, ReleaseFields, ReleaseSource,
    ReleasesMenuAction, StableFile, StreamFields, StreamPriority, StreamSource,
};

fn s(x: &str) -> String {
    x.to_string()
}

fn strings(xs: &[&str]) -> Vec<String> {
    xs.iter().map(|x| x.to_string()).collect()
}

fn text(t: &TomlTable, k: &str) -> Option<String> {
    t.get_text(k)
}

fn child<'a>(t: &'a TomlTable, k: &str) -> &'a TomlTable {
    match t.get(k) {
        Some(TomlValue::Table(c)) => c,
        _ => panic!("no table under {}", k),
    }
}

#[test]
fn table_insert_get_remove() {
    let mut t = TomlTable::new();
    t.insert(s("b"), TomlValue::Flag(true));
    t.insert(s("a"), TomlValue::Text(s("x")));
    t.insert(s("b"), TomlValue::Flag(false));
    assert_eq!(t.len(), 2);
    assert_eq!(t.keys(), strings(&["b", "a"]));
    assert_eq!(t.get_flag("b"), Some(false));
    assert_eq!(text(&t, "a"), Some(s("x")));
    assert!(t.remove("b"));
    assert!(!t.remove("b"));
    assert_eq!(t.keys(), strings(&["a"]));
    t.or_insert("a", TomlValue::Text(s("y")));
    assert_eq!(text(&t, "a"), Some(s("x")));
    t.or_insert("c", TomlValue::Text(s("y")));
    assert_eq!(text(&t, "c"), Some(s("y")));
    t.clear();
    assert_eq!(t.len(), 0);
}

#[test]
fn project_entry_is_filled_and_kept() {
    let mut t = TomlTable::new();
    ensure_project_entry(&mut t, "demo");
    let p = child(&t, "project");
    assert_eq!(text(p, "name"), Some(s("demo")));
    assert_eq!(text(p, "description"), Some(s("Project managed by DAM")));
    assert_eq!(p.get_flag("enforce_password_on_project_import"), Some(false));

    // an existing description and flag survive, the name is replaced
    let mut project = TomlTable::new();
    project.insert(s("description"), TomlValue::Text(s("mine")));
    project.insert(s("enforce_password_on_project_import"), TomlValue::Flag(true));
    project.insert(s("name"), TomlValue::Text(s("old")));
    let mut t = TomlTable::new();
    t.insert(s("project"), TomlValue::Table(project));
    ensure_project_entry(&mut t, "new");
    let p = child(&t, "project");
    assert_eq!(text(p, "name"), Some(s("new")));
    assert_eq!(text(p, "description"), Some(s("mine")));
    assert_eq!(p.get_flag("enforce_password_on_project_import"), Some(true));
}

#[test]
fn provider_block_gets_custom_any() {
    let mut t = TomlTable::new();
    ensure_provider_block(&mut t);
    assert_eq!(child(child(&t, "provider"), "custom").get_flag("any"), Some(true));
    // an existing value is kept
    let mut custom = TomlTable::new();
    custom.insert(s("any"), TomlValue::Flag(false));
    let mut provider = TomlTable::new();
    provider.insert(s("custom"), TomlValue::Table(custom));
    let mut t = TomlTable::new();
    t.insert(s("provider"), TomlValue::Table(provider));
    ensure_provider_block(&mut t);
    assert_eq!(child(child(&t, "provider"), "custom").get_flag("any"), Some(false));
}

fn stream(name: &str, fields: Option<StreamFields>, stable: &[&str]) -> StreamSource {
    StreamSource { name: s(name), fields, stable: strings(stable) }
}

#[test]
fn streams_are_filled_from_metadata() {
    let streams = vec![
        stream("dev", None, &[]),
        stream(
            "main",
            Some(StreamFields {
                target: Some(s("prod")),
                status: None,
                description: Some(s("Main line")),
                goals: Some(vec![Some(s("ship")), None, Some(s("test"))]),
            }),
            &["v1", "v2"],
        ),
    ];
    let mut t = TomlTable::new();
    populate_streams(&mut t, None, &streams);
    let block = child(&t, "streams");
    assert_eq!(block.keys(), strings(&["dev", "main"]));
    let dev = child(block, "dev");
    assert_eq!(text(dev, "target"), Some(s("dev")));
    assert_eq!(text(dev, "status"), Some(s("active")));
    assert!(!dev.contains_key("stable"));
    let main = child(block, "main");
    assert_eq!(text(main, "target"), Some(s("prod")));
    assert_eq!(text(main, "status"), Some(s("active")));
    assert_eq!(text(main, "description"), Some(s("Main line")));
    assert_eq!(main.get_texts("goals"), Some(strings(&["ship", "test"])));
    assert_eq!(main.get_texts("stable"), Some(strings(&["v1", "v2"])));
}

#[test]
fn populate_streams_with_target_fills_only_that_stream() {
    let streams = vec![stream("dev", None, &[]), stream("main", None, &[])];
    let mut t = TomlTable::new();
    populate_streams(&mut t, Some("main"), &streams);
    assert_eq!(child(&t, "streams").keys(), strings(&["main"]));
}

#[test]
fn populate_streams_keeps_existing_status() {
    let mut entry = TomlTable::new();
    entry.insert(s("status"), TomlValue::Text(s("frozen")));
    entry.insert(s("owner"), TomlValue::Text(s("me")));
    let mut block = TomlTable::new();
    block.insert(s("dev"), TomlValue::Table(entry));
    let mut t = TomlTable::new();
    t.insert(s("streams"), TomlValue::Table(block));
    populate_streams(&mut t, None, &vec![stream("dev", None, &[])]);
    let dev = child(child(&t, "streams"), "dev");
    assert_eq!(text(dev, "status"), Some(s("frozen")));
    assert_eq!(text(dev, "owner"), Some(s("me")));
    assert_eq!(text(dev, "target"), Some(s("dev")));
}

#[test]
fn selected_streams_are_filled_one_after_another() {
    let streams = vec![stream("a", None, &[]), stream("b", None, &[]), stream("c", None, &[])];
    let mut t = TomlTable::new();
    populate_selected_streams(&mut t, &strings(&["c", "a", "c"]), &streams);
    assert_eq!(child(&t, "streams").keys(), strings(&["c", "a"]));
    let mut t = TomlTable::new();
    populate_selected_streams(&mut t, &vec![], &streams);
    assert!(!t.contains_key("streams"));
}

fn release(name: &str, fields: Option<ReleaseFields>) -> ReleaseSource {
    ReleaseSource { name: s(name), fields }
}

#[test]
fn releases_are_rebuilt() {
    let releases = vec![
        release(
            "v1",
            Some(ReleaseFields {
                seal_id: Some(s("seal_1")),
                stream: Some(s("main")),
                description: None,
                tags: Some(vec![Some(s("stable")), None]),
            }),
        ),
        release("v2", None),
    ];
    let mut old = TomlTable::new();
    old.insert(s("gone"), TomlValue::Flag(true));
    let mut t = TomlTable::new();
    t.insert(s("releases"), TomlValue::Table(old));
    populate_releases(&mut t, None, &releases);
    let block = child(&t, "releases");
    assert_eq!(block.keys(), strings(&["v1", "v2"]));
    let v1 = child(block, "v1");
    assert_eq!(text(v1, "seal"), Some(s("seal_1")));
    assert_eq!(text(v1, "stream"), Some(s("main")));
    assert!(!v1.contains_key("description"));
    assert_eq!(v1.get_texts("tags"), Some(strings(&["stable"])));
    let v2 = child(block, "v2");
    assert_eq!(v2.keys(), strings(&["name"]));
    assert_eq!(text(v2, "name"), Some(s("v2")));

    let selection = strings(&["v2"]);
    populate_releases(&mut t, Some(&selection), &releases);
    assert_eq!(child(&t, "releases").keys(), strings(&["v2"]));
}

#[test]
fn regenerate_table_writes_every_block() {
    let mut t = TomlTable::new();
    t.insert(s("extra"), TomlValue::Other(7));
    regenerate_table(&mut t, "proj", None, &vec![stream("main", None, &[])], &vec![release("v1", None)]);
    assert_eq!(t.keys(), strings(&["extra", "project", "provider", "streams", "releases"]));
    assert!(matches!(t.get("extra"), Some(TomlValue::Other(7))));
    assert_eq!(text(child(&t, "project"), "name"), Some(s("proj")));
}

#[test]
fn apply_release_selection_keeps_streams() {
    let mut t = TomlTable::new();
    t.insert(s("streams"), TomlValue::Text(s("kept")));
    let sel = strings(&["v1"]);
    apply_release_selection(&mut t, "p", Some(&sel), &vec![release("v1", None), release("v2", None)]);
    assert_eq!(text(&t, "streams"), Some(s("kept")));
    assert_eq!(child(&t, "releases").keys(), strings(&["v1"]));
}

#[test]
fn profiles_are_added_listed_and_removed() {
    let mut t = TomlTable::new();
    add_profile_to_table(&mut t, "full", "Everything", strings(&["**/*"]), strings(&[".git/**"]));
    assert_eq!(list_profiles(&t), strings(&["full"]));
    let d = profile_details(&t, "full").unwrap();
    assert_eq!(d.description, Some(s("Everything")));
    assert_eq!(d.includes, Some(strings(&["**/*"])));
    assert_eq!(d.excludes, Some(strings(&[".git/**"])));
    assert!(profile_details(&t, "none").is_none());
    assert!(remove_profile(&mut t, "full"));
    assert!(!remove_profile(&mut t, "full"));
    assert!(list_profiles(&t).is_empty());
}

#[test]
fn provider_blocks_are_written_and_read() {
    let mut t = TomlTable::new();
    add_provider_entry(&mut t, "go", "proj", Some(">=1.20"), None, true);
    let d = provider_block_details(&t, "go").unwrap();
    assert!(d.any);
    assert_eq!(d.sdk, Some(s(">=1.20")));
    assert_eq!(d.cli, None);
    assert_eq!(existing_provider_names(&t), strings(&["custom", "go"]));

    add_provider_full(
        &mut t,
        "go",
        "proj",
        Some("go"),
        Some("version"),
        &strings(&["go mod download"]),
        None,
        Some(">=1.0"),
    );
    let d = provider_block_details(&t, "go").unwrap();
    assert!(!d.any);
    assert_eq!(d.sdk, Some(s(">=1.20")));
    assert_eq!(d.cli, Some(s(">=1.0")));
    assert_eq!(d.cli_name, Some(s("go")));
    assert_eq!(d.version_check_command, Some(s("version")));
    assert_eq!(d.setup_commands, strings(&["go mod download"]));
    assert_eq!(child(child(&t, "provider"), "go").get_flag("verified"), Some(false));

    assert!(remove_provider_block(&mut t, "go"));
    assert!(provider_block_details(&t, "go").is_none());
    assert!(!remove_provider_block(&mut t, "go"));
}

#[test]
fn known_providers_are_listed() {
    assert_eq!(known_provider_names(), vec!["flutter", "firebase", "python", "rust", "js", "custom"]);
}

#[test]
fn default_selection_is_main_and_high_priority_sorted() {
    let ss = vec![
        StreamPriority { name: s("zeta"), priority: Some(s("HIGH")) },
        StreamPriority { name: s("main"), priority: None },
        StreamPriority { name: s("alpha"), priority: Some(s("High")) },
        StreamPriority { name: s("beta"), priority: Some(s("low")) },
    ];
    assert_eq!(get_default_stream_selection(&ss), strings(&["alpha", "main", "zeta"]));
}

#[test]
fn stable_versions_are_those_of_the_stream_sorted() {
    let files = vec![
        StableFile { stem: s("v2"), stream: Some(s("main")) },
        StableFile { stem: s("v1"), stream: Some(s("main")) },
        StableFile { stem: s("x"), stream: Some(s("dev")) },
        StableFile { stem: s("y"), stream: None },
    ];
    assert_eq!(stable_versions_for_stream("main", &files), strings(&["v1", "v2"]));
}

#[test]
fn stream_and_release_selections_are_read() {
    let defaults = strings(&["main"]);
    let available = strings(&["dev", "main"]);
    assert_eq!(stream_selection("  ", &defaults, &available), defaults);
    assert_eq!(stream_selection("ALL", &defaults, &available), available);
    assert_eq!(stream_selection(" a, ,b ", &defaults, &available), strings(&["a", "b"]));
    assert_eq!(release_selection(""), None);
    assert_eq!(release_selection(" v1 , v2"), Some(strings(&["v1", "v2"])));
}

#[test]
fn menu_answers_are_read() {
    assert_eq!(provider_menu_action(" E "), ProviderMenuAction::Edit);
    assert_eq!(provider_menu_action("d"), ProviderMenuAction::Edit);
    assert_eq!(provider_menu_action("R"), ProviderMenuAction::Remove);
    assert_eq!(provider_menu_action("x"), ProviderMenuAction::Cancel);
    assert_eq!(profile_menu_action("a"), ProfileMenuAction::Add);
    assert_eq!(profile_menu_action("Q"), ProfileMenuAction::Quit);
    assert_eq!(profile_menu_action("zz"), ProfileMenuAction::Unknown);
    assert_eq!(releases_menu_action("S"), ReleasesMenuAction::Select);
    assert_eq!(releases_menu_action(""), ReleasesMenuAction::Unknown);
}

#[test]
fn release_selection_edits() {
    let available = strings(&["v1", "v2"]);
    let mut current = strings(&["v1"]);
    assert_eq!(add_release_to_selection(&mut current, &available, "v3"), ReleaseAddOutcome::NotOnDisk);
    assert_eq!(add_release_to_selection(&mut current, &available, "v1"), ReleaseAddOutcome::AlreadyIncluded);
    assert_eq!(add_release_to_selection(&mut current, &available, "v2"), ReleaseAddOutcome::Added);
    assert_eq!(current, strings(&["v1", "v2"]));
    assert!(remove_release_from_selection(&mut current, "v1"));
    assert!(!remove_release_from_selection(&mut current, "v1"));
    assert_eq!(current, strings(&["v2"]));
    assert_eq!(edit_release_selection(strings(&["a", "b"]), Some("c"), Some("a")), strings(&["b", "c"]));
    assert_eq!(edit_release_selection(strings(&["a"]), Some("a"), None), strings(&["a"]));
}

#[test]
fn profile_prompts_default_sensibly() {
    let (d, i, e) = profile_prompt_defaults(None, None, None);
    assert_eq!(d, "");
    assert_eq!(i, "**/*");
    assert_eq!(e, ".git/**, .dam/**");
    let (desc, inc, exc) = prompt_profile_details(None, None, None, "  ", "", "");
    assert_eq!(desc, "");
    assert_eq!(inc, strings(&["**/*"]));
    assert_eq!(exc, strings(&[".git/**", ".dam/**"]));
    let cur_inc = strings(&["src/**", "docs/**"]);
    let (desc, inc, exc) = prompt_profile_details(Some("Old"), Some(&cur_inc), None, "New ", "", "*.log");
    assert_eq!(desc, "New");
    assert_eq!(inc, cur_inc);
    assert_eq!(exc, strings(&["*.log"]));
}

#[test]
fn run_plans_each_command() {
    assert!(matches!(run(None), RegenerateAction::Interactive));
    assert!(matches!(
        run(Some(RegenerateCommands::Sync { stream: Some(s("dev")), all: false })),
        RegenerateAction::FromDisk { stream: Some(ref x), force: true } if x == "dev"
    ));
    assert!(matches!(
        run(Some(RegenerateCommands::Sync { stream: Some(s("dev")), all: true })),
        RegenerateAction::FromDisk { stream: None, force: true }
    ));
    assert!(matches!(
        run(Some(RegenerateCommands::DamToml { command: None, stream: None, force: false })),
        RegenerateAction::SelectStreams
    ));
    assert!(matches!(
        run(Some(RegenerateCommands::DamToml { command: None, stream: Some(s("x")), force: false })),
        RegenerateAction::FromDisk { stream: Some(_), force: false }
    ));
    assert!(matches!(
        run(Some(RegenerateCommands::DamToml {
            command: Some(DamTomlCommands::Providers { name: None, sdk: None, cli: None, any: false }),
            stream: None,
            force: false
        })),
        RegenerateAction::ProviderMenu
    ));
    assert!(matches!(
        run(Some(RegenerateCommands::DamToml {
            command: Some(DamTomlCommands::Releases { add: None, remove: Some(s("v1")) }),
            stream: None,
            force: false
        })),
        RegenerateAction::EditReleases { add: None, remove: Some(_) }
    ));
    assert!(matches!(
        run(Some(RegenerateCommands::Provider { name: s("go"), sdk: None, cli: None, any: true })),
        RegenerateAction::AddProvider { any: true, .. }
    ));
}

#[test]
fn regenerate_menu_choices() {
    assert!(matches!(interactive_regenerate_step(""), MenuStep::Act(RegenerateAction::SelectStreams)));
    assert!(matches!(interactive_regenerate_step("2"), MenuStep::Act(RegenerateAction::ProviderMenu)));
    assert!(matches!(
        interactive_regenerate_step(" 6 "),
        MenuStep::Act(RegenerateAction::FromDisk { stream: None, force: true })
    ));
    assert!(matches!(interactive_regenerate_step("Q"), MenuStep::Quit));
    assert!(matches!(interactive_regenerate_step("7"), MenuStep::Unknown));
    assert_eq!(regenerate_message(false, true), "Updated dam.toml from live reservoir state.");
    assert_eq!(regenerate_message(true, true), "Regenerated dam.toml from live reservoir state.");
}
