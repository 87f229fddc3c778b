use dam::update::{
    auto_check_prompts, binary_name, check_due, default_whats_new, detect_package_manager,
    is_executable_magic, is_zip_payload, payload_file_name, payload_for_os, record_check,
    should_prompt, urgency_label, Colors, Downloads, PackageManager, PlatformDownload, UpdateCache,
    UpdateManifest, Urgency,
};

fn manifest(version: &str, urgency: Urgency) -> UpdateManifest {
    UpdateManifest {
        version: version.to_string(),
        urgency,
        description: "fixes".to_string(),
        whats_new_url: default_whats_new(),
        downloads: Downloads {
            windows: None,
            linux: Some(PlatformDownload { url: "https://x/dl/dam-linux".to_string(), checksum: "ab".to_string() }),
        },
    }
}

#[test]
fn default_changelog_url() {
    assert_eq!(default_whats_new(), "https://dam-pcp.web.app/docs#whats-new");
}

#[test]
fn check_is_due_once_a_day() {
    assert!(check_due(86400, 0));
    assert!(!check_due(86399, 0));
    assert!(!check_due(5, 10));
}

#[test]
fn failed_fetch_is_retried_after_an_hour() {
    let mut c = UpdateCache::default();
    c.last_notified = 9;
    record_check(&mut c, 100_000, None);
    assert_eq!(c.last_checked, 100_000 - 82_800);
    assert_eq!(c.last_notified, 9);
    assert!(c.manifest.is_none());
    assert!(!check_due(100_000 + 3_599, c.last_checked));
    assert!(check_due(100_000 + 3_600, c.last_checked));
    // early in the epoch the subtraction saturates
    record_check(&mut c, 10, None);
    assert_eq!(c.last_checked, 0);
}

#[test]
fn fetched_manifest_is_cached_for_a_day() {
    let mut c = UpdateCache::default();
    record_check(&mut c, 500, Some(manifest("1.0.0", Urgency::Soft)));
    assert_eq!(c.last_checked, 500);
    assert_eq!(c.manifest.as_ref().unwrap().version, "1.0.0");
    assert!(!check_due(500 + 86_399, c.last_checked));
    assert!(check_due(500 + 86_400, c.last_checked));
}

#[test]
fn prompts_follow_urgency() {
    assert!(should_prompt(Urgency::Urgent, 0, 0));
    assert!(should_prompt(Urgency::Medium, 86_400, 0));
    assert!(!should_prompt(Urgency::Medium, 86_399, 0));
    assert!(should_prompt(Urgency::Soft, 259_200, 0));
    assert!(!should_prompt(Urgency::Soft, 259_199, 0));
    assert_eq!(Urgency::default(), Urgency::Soft);
}

#[test]
fn auto_check_prompts_only_for_newer_versions() {
    let mut c = UpdateCache::default();
    assert!(!auto_check_prompts(&c, "0.6.0", 0));
    c.manifest = Some(manifest("0.6.1", Urgency::Urgent));
    assert!(auto_check_prompts(&c, "0.6.0", 0));
    assert!(!auto_check_prompts(&c, "0.6.1", 0));
    c.manifest = Some(manifest("0.7.0", Urgency::Medium));
    c.last_notified = 1000;
    assert!(!auto_check_prompts(&c, "0.6.0", 2000));
}

#[test]
fn payload_is_picked_by_platform() {
    let m = manifest("1.0.0", Urgency::Soft);
    assert_eq!(payload_for_os(&m.downloads, "linux").unwrap().url, "https://x/dl/dam-linux");
    assert!(payload_for_os(&m.downloads, "windows").is_none());
    assert!(payload_for_os(&m.downloads, "macos").is_none());
    assert_eq!(payload_file_name("https://x/dl/dam-windows.zip"), "dam-windows.zip");
    assert_eq!(payload_file_name("plain"), "plain");
    assert_eq!(payload_file_name("https://x/"), "");
    assert_eq!(binary_name("windows"), "dam.exe");
    assert_eq!(binary_name("linux"), "dam");
}

#[test]
fn zip_payloads_are_recognized_in_any_case() {
    assert!(is_zip_payload("/tmp/DAM-WINDOWS.ZIP"));
    assert!(is_zip_payload("a.zip"));
    assert!(!is_zip_payload("dam-linux"));
    assert!(!is_zip_payload("zip"));
}

#[test]
fn executable_magic_bytes() {
    assert!(is_executable_magic(&[0x7f, b'E', b'L', b'F']));
    assert!(is_executable_magic(&[b'M', b'Z', 0, 0]));
    assert!(is_executable_magic(&[0xFE, 0xED, 0xFA, 0xCF]));
    assert!(is_executable_magic(&[0xCE, 0xFA, 0xED, 0xFE]));
    assert!(!is_executable_magic(&[b'P', b'K', 3, 4]));
    assert!(!is_executable_magic(&[0x7f, b'E', b'L', b'X']));
}

#[test]
fn package_manager_commands() {
    let apt = PackageManager::Apt;
    assert_eq!(
        apt.commands(),
        vec![vec!["sudo", "apt", "update"], vec!["sudo", "apt", "install", "--only-upgrade", "dam"]]
    );
    assert_eq!(apt.display_command(), "sudo apt update && sudo apt install --only-upgrade dam");
    assert_eq!(PackageManager::Dnf.refresh_commands(), vec![vec!["sudo", "dnf", "makecache"]]);
    assert_eq!(PackageManager::Yum.display_refresh_command(), "sudo yum makecache");
    assert_eq!(PackageManager::AptGet.label(), "apt-get");
}

#[test]
fn displayed_commands_match_the_commands_run() {
    for pm in [PackageManager::Pacman, PackageManager::Apt, PackageManager::AptGet, PackageManager::Dnf, PackageManager::Yum] {
        let shown: Vec<String> = pm.commands().iter().map(|c| c.join(" ")).collect();
        assert_eq!(shown.join(" && "), pm.display_command());
        let shown: Vec<String> = pm.refresh_commands().iter().map(|c| c.join(" ")).collect();
        assert_eq!(shown.join(" && "), pm.display_refresh_command());
    }
}

#[test]
fn package_manager_detection_order() {
    assert_eq!(detect_package_manager(false, true, true, true, true, true), None);
    assert_eq!(detect_package_manager(true, false, true, true, false, false), Some(PackageManager::Apt));
    assert_eq!(detect_package_manager(true, false, false, false, false, true), Some(PackageManager::Yum));
    assert_eq!(detect_package_manager(true, false, false, false, false, false), None);
}

#[test]
fn palette_and_labels() {
    let c = Colors::for_support(true);
    assert_eq!(c.red, "\x1b[1;31m");
    assert_eq!(c.urgency_color(Urgency::Medium), "\x1b[1;33m");
    let plain = Colors::for_support(false);
    assert_eq!(plain.urgency_color(Urgency::Urgent), "");
    assert_eq!(urgency_label(Urgency::Urgent), "Urgent");
}
