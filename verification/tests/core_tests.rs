use dam::digest::{checksum_matches, sha256_hex, to_hex};
use dam::providers::{allowed_commands_for, get_provider, AnyProvider, Provider};
use dam::settings::{
    apply_setting, get_toml_val, normalize_setting_key, parse_menu_choice, resolve_setting_key,
    set_toml_val, update_setting, MenuAction, SettingError, SettingKey,
};
use dam::version::{is_before, is_newer_version, parse_version};

#[test]
fn get_toml_val_reads_values() {
    let cfg = "name = \"My Project\"\n  suppress_nested_warning = true\nversion=0.6.0\n";
    assert_eq!(get_toml_val(cfg, "name"), Some("My Project".to_string()));
    assert_eq!(get_toml_val(cfg, "suppress_nested_warning"), Some("true".to_string()));
    assert_eq!(get_toml_val(cfg, "version"), Some("0.6.0".to_string()));
    assert_eq!(get_toml_val(cfg, "github_repo"), None);
    // a line naming the key without `=` is passed over
    assert_eq!(get_toml_val("name\nname = x\n", "name"), Some("x".to_string()));
}

#[test]
fn set_toml_val_replaces_or_appends() {
    let cfg = "name = \"a\"\n    github_repo = \"x/y\"\n";
    assert_eq!(set_toml_val(cfg, "name", "b", true), "name = \"b\"\n    github_repo = \"x/y\"\n");
    assert_eq!(set_toml_val(cfg, "github_repo", "z/w", true), "name = \"a\"\n    github_repo = \"z/w\"\n");
    assert_eq!(
        set_toml_val(cfg, "suppress_nested_warning", "true", false),
        "name = \"a\"\n    github_repo = \"x/y\"\nsuppress_nested_warning = true\n"
    );
    assert_eq!(set_toml_val("", "name", "n", true), "name = \"n\"\n");
}

#[test]
fn read_after_write_gives_the_value_back() {
    let cfg = "name = \"old\"\nsuppress_nested_warning = false\n";
    let written = set_toml_val(cfg, "name", "new name", true);
    assert_eq!(get_toml_val(&written, "name"), Some("new name".to_string()));
    let written = set_toml_val(cfg, "suppress_nested_warning", " true ", false);
    assert_eq!(get_toml_val(&written, "suppress_nested_warning"), Some("true".to_string()));
    // other keys keep their values
    assert_eq!(get_toml_val(&written, "name"), Some("old".to_string()));
}

#[test]
fn setting_keys_and_updates() {
    assert_eq!(normalize_setting_key("Reservoir.Name"), "name");
    assert_eq!(resolve_setting_key("NAME"), Some(SettingKey::Name));
    assert_eq!(resolve_setting_key("bogus"), None);
    assert_eq!(update_setting("", "bogus", "x"), Err(SettingError::UnsupportedKey));
    assert_eq!(apply_setting("", SettingKey::SuppressNestedWarning, "maybe"), Err(SettingError::NotBoolean));
    let r = apply_setting("", SettingKey::Name, "Proj").unwrap();
    assert_eq!(get_toml_val(&r, "name"), Some("Proj".to_string()));
}

#[test]
fn conflict_rules_exclude_each_other() {
    let cfg = "purities_overrides_impurities = false\nimpurities_overrides_purities = true\n";
    let r = apply_setting(cfg, SettingKey::PuritiesOverridesImpurities, "true").unwrap();
    assert_eq!(get_toml_val(&r, "purities_overrides_impurities"), Some("true".to_string()));
    assert_eq!(get_toml_val(&r, "impurities_overrides_purities"), Some("false".to_string()));
}

#[test]
fn menu_choices() {
    assert_eq!(parse_menu_choice("1"), MenuAction::Rename);
    assert_eq!(parse_menu_choice("x"), MenuAction::Invalid);
}

#[test]
fn newer_versions() {
    assert!(is_newer_version("0.6.0", "0.6.1"));
    assert!(is_newer_version("0.6.0", "0.10.0"));
    assert!(!is_newer_version("0.6.0", "0.6.0"));
    assert!(!is_newer_version("1.0.0", "0.9.9"));
    assert!(is_newer_version("1.0", "1.0.1"));
    assert!(!is_newer_version("1.0.1", "1.0"));
    // parts that are not numbers are skipped
    assert!(is_newer_version("1.x.0", "1.1"));
}

#[test]
fn newer_is_a_strict_order_on_examples() {
    let vs = ["0.1.0", "0.5.6", "0.6.0", "0.6.1", "1.0"];
    for a in vs {
        assert!(!is_newer_version(a, a));
        for b in vs {
            assert!(!(is_newer_version(a, b) && is_newer_version(b, a)));
            for c in vs {
                if is_newer_version(a, b) && is_newer_version(b, c) {
                    assert!(is_newer_version(a, c));
                }
            }
        }
    }
}

#[test]
fn version_triples() {
    let v = parse_version("\"0.4.1\"");
    assert!(is_before(parse_version("0.3.9"), v));
    assert!(!is_before(v, parse_version("0.4.1")));
    assert!(is_before(parse_version("x"), parse_version("0.0.1")));
}

#[test]
fn providers_by_name() {
    assert!(matches!(get_provider("Flutter"), AnyProvider::Flutter(_)));
    assert!(matches!(get_provider("NodeJS"), AnyProvider::Js(_)));
    assert!(matches!(get_provider("javascript"), AnyProvider::Js(_)));
    assert!(matches!(get_provider("go"), AnyProvider::Custom(_)));
    assert_eq!(get_provider("RUST").name(), "rust");
    let toml = get_provider("python").default_toml("demo");
    assert!(toml.starts_with("[project]\nname = \"demo\"\nprovider = \"python\"\n"));
}

#[test]
fn allowed_commands() {
    assert_eq!(
        allowed_commands_for("Rust"),
        vec!["cargo build", "cargo test", "cargo fmt", "cargo check"]
    );
    assert_eq!(allowed_commands_for("node").len(), 4);
    assert!(allowed_commands_for("custom").is_empty());
    assert_eq!(allowed_commands_for("FlUtTeR"), allowed_commands_for("flutter"));
    assert_eq!(allowed_commands_for("JavaScript"), allowed_commands_for("js"));
    assert_eq!(allowed_commands_for("NodeJS"), allowed_commands_for("js"));
    assert!(allowed_commands_for("Firebase").is_empty());
    assert!(!allowed_commands_for("Python").is_empty());
}

#[test]
fn digests() {
    assert_eq!(to_hex(&[0x00, 0xab, 0x7f]), "00ab7f");
    assert_eq!(
        sha256_hex(b"abc"),
        "ba7816bf8f01cfea414140de5dae2223b00361a396177a9cb410ff61f20015ad"
    );
    assert!(checksum_matches(b"abc", " BA7816BF8F01CFEA414140DE5DAE2223B00361A396177A9CB410FF61F20015AD\n"));
    assert!(!checksum_matches(b"abd", "ba7816bf8f01cfea414140de5dae2223b00361a396177a9cb410ff61f20015ad"));
}
