use dam::cli::Commands;
use dam::paths::{adjust_override, adjust_path, is_system_install};
use dam::session::{
    apply_request, find_reservoirs, on_path, path_warning, seal_request, should_warn_path,
    unsupported_version, ApplyRequest, Colors, SealRequest,
};
use dam::terminal::env_color_choice;

#[test]
fn paths_relative_to_the_reservoir() {
    assert_eq!(adjust_path("/home/u/proj/src", "/home/u/proj", "main.rs"), "src/main.rs");
    assert_eq!(adjust_path("/home/u/proj", "/home/u/proj", "."), ".");
    assert_eq!(adjust_path("/home/u/proj/src", "/home/u/proj", ".."), "src/..");
    assert_eq!(adjust_path("/home/u/proj", "/home/u/proj", ""), ".");
    assert_eq!(adjust_path("/home/u/proj", "/home/u/proj", "/etc/hosts"), "/etc/hosts");
    assert_eq!(adjust_path("/home/u/projx", "/home/u/proj", "a"), "a");
}

#[test]
fn override_paths() {
    assert_eq!(adjust_override("/r/sub", Some("/r"), Some(String::new())), Some(String::new()));
    assert_eq!(adjust_override("/r/sub", Some("/r"), Some("rules".to_string())), Some("sub/rules".to_string()));
    assert_eq!(adjust_override("/r/sub", None, Some("rules".to_string())), Some("rules".to_string()));
    assert_eq!(adjust_override("/r/sub", Some("/r"), None), None);
}

#[test]
fn system_installs() {
    assert!(is_system_install("/usr/bin/dam"));
    assert!(is_system_install("/usr/local/bin/dam"));
    assert!(is_system_install("/sbin/dam"));
    assert!(!is_system_install("/usr/binx/dam"));
    assert!(!is_system_install("/home/u/.cargo/bin/dam"));
}

#[test]
fn reservoirs_nearest_first() {
    assert_eq!(find_reservoirs(&vec![false, true, false, true, true]), (Some(1), Some(3)));
    assert_eq!(find_reservoirs(&vec![true]), (Some(0), None));
    assert_eq!(find_reservoirs(&vec![false, false]), (None, None));
}

#[test]
fn unsupported_versions_are_reported() {
    assert_eq!(unsupported_version("version = \"0.4.0\"\n", "0.6.0"), Some("0.4.0".to_string()));
    assert_eq!(unsupported_version("version = \"0.5.6\"\n", "0.6.0"), None);
    assert_eq!(unsupported_version("", "0.6.0"), Some("0.1.0".to_string()));
}

#[test]
fn path_warning_decisions() {
    let cands = vec![None, Some("/usr/bin/other".to_string()), Some("/opt/dam".to_string())];
    assert!(on_path("/opt/dam", &cands));
    assert!(!on_path("/tmp/dam", &cands));
    assert!(should_warn_path(false, false, false));
    assert!(!should_warn_path(true, false, false));
    assert!(!should_warn_path(false, true, false));
    assert!(!should_warn_path(false, false, true));
}

#[test]
fn path_warning_lines() {
    let plain = Colors::for_support(false);
    let lines = path_warning(&plain, "/opt/bin", false);
    assert_eq!(lines.len(), 6);
    assert_eq!(lines[1], "You are currently running it directly from: /opt/bin");
    assert_eq!(lines[4], "  echo 'export PATH=\"$PATH:/opt/bin\"' >> ~/.zshrc");
    let lines = path_warning(&plain, "C:\\dam", true);
    assert_eq!(lines.len(), 5);
    assert_eq!(
        lines[4],
        "  [Environment]::SetEnvironmentVariable(\"Path\", $env:Path + \";C:\\dam\", \"User\")\n"
    );
    let colored = Colors::for_support(true);
    assert_eq!(colored.cyan, "\x1b[36m");
    assert!(path_warning(&colored, "/x", false)[0].starts_with("\x1b[1;33m"));
}

#[test]
fn apply_and_seal_requests() {
    assert!(matches!(apply_request(None, true, true), ApplyRequest::Conflict));
    assert!(matches!(apply_request(Some("s".to_string()), false, true), ApplyRequest::LatestGlobal));
    assert!(matches!(apply_request(None, true, false), ApplyRequest::Latest));
    assert!(matches!(apply_request(Some("s".to_string()), false, false), ApplyRequest::Seal(ref x) if x == "s"));
    assert!(matches!(apply_request(None, false, false), ApplyRequest::Missing));
    assert!(matches!(seal_request(Some("m".to_string()), Some(3)), SealRequest::List(3)));
    assert!(matches!(seal_request(Some("m".to_string()), None), SealRequest::Create(_)));
    assert!(matches!(seal_request(None, None), SealRequest::Missing));
}

#[test]
fn color_choice_from_environment() {
    assert_eq!(env_color_choice(true, Some("1"), None), Some(false));
    assert_eq!(env_color_choice(false, Some("1"), Some("dumb")), Some(true));
    assert_eq!(env_color_choice(false, Some("0"), Some("dumb")), Some(false));
    assert_eq!(env_color_choice(false, None, Some("xterm")), None);
}

#[test]
fn update_check_skipped_only_for_update() {
    assert!(!Commands::Update.runs_update_check());
    assert!(Commands::Timeline { graph: false }.runs_update_check());
}
