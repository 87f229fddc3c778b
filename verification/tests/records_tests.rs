use dam::import::{
    bundle_entry, clone_dir_name, current_after_import, default_branch, download_file_name,
    git_repo_name_from_url, import_branches, import_seal_id, import_seal_message, import_tags,
    is_remote_source, is_vcs_metadata, local_import, source_kind, stream_for_branch, BundleEntry,
    LocalImport, SourceKind,
};
use dam::project::{
    check_allowed, enforces_password, export_file_name, export_streams, is_allowed, payload_name,
    runs_trusted_commands, runs_untrusted_commands, split_setup_commands, ProjectMetadata,
};
use dam::releases::{
    latest_release, latest_release_pointer_path, new_release, parse_tags, release_path, releases_dir,
    sync_release_to_platform,
};
use dam::reservoir::{config_version, is_supported_version, nested_warning_suppressed, stamp_version};
use dam::stable::{
    latest_stable, pointer_target, sanitize_name, stable_dir, stable_latest_pointer_path, stable_path,
    unique_name, StableVersion,
};
use dam::stream::{current_stream, default_priority, default_stream_meta, StreamMeta};
use sha2::Digest;

fn strings(xs: &[&str]) -> Vec<String> {
    xs.iter().map(|x| x.to_string()).collect()
}

#[test]
fn reservoir_versions() {
    assert_eq!(config_version("[reservoir]\nversion = \"0.5.6\"\n", false), "0.5.6");
    assert_eq!(config_version("name = \"x\"\n", false), "0.1.0");
    assert!(is_supported_version("0.5.6", "0.6.0"));
    assert!(is_supported_version("0.6.0", "0.6.0"));
    assert!(!is_supported_version("0.4.0", "0.6.0"));
    assert!(nested_warning_suppressed("a\nsuppress_nested_warning = true\n"));
    assert!(!nested_warning_suppressed("suppress_nested_warning = false\n"));
    let stamped = stamp_version("version = \"0.4.0\"\nname = \"n\"\n", "0.6.0");
    assert_eq!(config_version(&stamped, true), "0.6.0");
}

#[test]
fn stable_paths() {
    assert_eq!(stable_dir(), ".dam/stable_versions");
    assert_eq!(sanitize_name("a/b c\nd"), "a_b_c_d");
    assert_eq!(stable_path("v1/rc 1"), ".dam/stable_versions/v1_rc_1.json");
    assert_eq!(stable_latest_pointer_path("feature/x"), ".dam/stable_versions/latest-feature_x.txt");
    assert_eq!(pointer_target("  v2 \n"), Some("v2".to_string()));
    assert_eq!(pointer_target("  \n"), None);
    assert_eq!(unique_name(" mine ", "v1", "20240101000000"), "mine");
    assert_eq!(unique_name("", "v1", "20240101000000"), "v1-20240101000000");
}

fn sv(version: &str, stream: &str, created: &str) -> StableVersion {
    StableVersion {
        version: version.to_string(),
        stream: stream.to_string(),
        description: None,
        created_at: created.to_string(),
        seal_id: "s".to_string(),
    }
}

#[test]
fn latest_stable_prefers_the_pointer() {
    let ss = vec![
        sv("v1", "main", "2024-01-01T00:00:00Z"),
        sv("v2", "main", "2024-02-01T00:00:00Z"),
        sv("d1", "dev", "2024-03-01T00:00:00Z"),
    ];
    assert_eq!(latest_stable(&ss, "main", Some("v1")), Some("v1".to_string()));
    assert_eq!(latest_stable(&ss, "main", Some("d1")), Some("v2".to_string()));
    assert_eq!(latest_stable(&ss, "main", None), Some("v2".to_string()));
    assert_eq!(latest_stable(&ss, "other", None), None);
}

#[test]
fn streams() {
    assert_eq!(current_stream(Some(" dev \n")), "dev");
    assert_eq!(current_stream(None), "main");
    assert_eq!(default_priority("main"), "High");
    assert_eq!(default_priority("dev"), "Normal");
    let m: StreamMeta = default_stream_meta("dev", "me", "now");
    assert_eq!(m.name, "dev");
    assert_eq!(m.owner, "me");
    assert_eq!(m.latest_seal, None);
}

#[test]
fn releases() {
    assert_eq!(releases_dir(), ".dam/releases");
    assert_eq!(release_path("v1.0.0"), ".dam/releases/v1.0.0.json");
    assert_eq!(parse_tags(Some(" stable, ,prod ")), strings(&["stable", "prod"]));
    assert!(parse_tags(None).is_empty());
    let r = new_release("v1", Some("first".to_string()), Some("a,b"), "now", "seal_1", "main");
    assert_eq!(r.version, "v1");
    assert_eq!(r.tags, strings(&["a", "b"]));
    assert_eq!(
        sync_release_to_platform(&r, "GitHub"),
        Ok("Release 'v1' would be pushed to GitHub as a release tag with seal 'seal_1'".to_string())
    );
    assert_eq!(
        sync_release_to_platform(&r, "GitLab"),
        Ok("Release 'v1' synced to GitLab (seal: seal_1)".to_string())
    );
}

#[test]
fn import_sources() {
    assert!(is_remote_source("https://example.com/x.dam"));
    assert!(is_remote_source("git@github.com:u/r.git"));
    assert!(is_remote_source("host/github.com:u/r"));
    assert!(!is_remote_source("./local.dam"));
    assert_eq!(source_kind("https://example.com/x.dam"), SourceKind::RemoteArchive);
    assert_eq!(source_kind("https://github.com/u/r.git"), SourceKind::GitRepository);
    assert_eq!(source_kind("dir"), SourceKind::Local);
    assert_eq!(local_import("p.dam", true, false), LocalImport::Project);
    assert_eq!(local_import("p.seal", true, false), LocalImport::SealBundle);
    assert_eq!(local_import("p.zip", true, false), LocalImport::ZipArchive);
    assert_eq!(local_import("p", true, true), LocalImport::Directory);
    assert_eq!(local_import("p", false, true), LocalImport::Missing);
    assert_eq!(local_import("p.txt", true, false), LocalImport::Unsupported);
}

#[test]
fn import_names() {
    assert_eq!(git_repo_name_from_url("https://github.com/u/repo.git/"), "repo");
    assert_eq!(git_repo_name_from_url("git@github.com:repo.git"), "repo");
    assert_eq!(git_repo_name_from_url(".git"), "imported-repo");
    assert_eq!(download_file_name("https://x/a/b.dam"), "b.dam");
    assert_eq!(download_file_name("https://x/a/"), "downloaded.bin");
    assert_eq!(clone_dir_name("repo", 0), "repo");
    assert_eq!(clone_dir_name("repo", 12), "repo_import_12");
}

#[test]
fn import_branches_and_tags() {
    let refs = "main\norigin/HEAD\norigin/main\norigin/feature\n  \nHEAD\nfeature\n";
    assert_eq!(import_branches(refs), strings(&["main", "feature"]));
    assert_eq!(import_tags(" v1 \n\nv2\n"), strings(&["v1", "v2"]));
    assert_eq!(default_branch(&strings(&["dev", "master", "main"])), "master");
    assert_eq!(default_branch(&strings(&["dev", "x"])), "dev");
    assert_eq!(stream_for_branch(" origin/dev "), "dev");
    assert_eq!(current_after_import(&strings(&["a", "b"]), "b"), "b");
    assert_eq!(current_after_import(&strings(&["a", "b"]), "c"), "a");
    assert_eq!(current_after_import(&vec![], "c"), "main");
}

fn hex(bytes: &[u8]) -> String {
    bytes.iter().map(|b| format!("{:02x}", b)).collect()
}

#[test]
fn import_seal_ids_hash_paths_and_contents() {
    let files = vec![("a.txt".to_string(), "h1".to_string()), ("b/c.txt".to_string(), "h2".to_string())];
    let mut h = sha2::Sha256::new();
    for (p, x) in &files {
        h.update(p.as_bytes());
        h.update(x.as_bytes());
    }
    let digest = hex(&h.finalize());
    assert_eq!(import_seal_id("main", &files), format!("seal_import_main_{}", &digest[..8]));
    assert_eq!(
        import_seal_message("dev", true),
        "Imported repository branch 'dev' into existing DAM reservoir."
    );
    assert_eq!(
        import_seal_message("dev", false),
        "Converted repository branch 'dev' into a new DAM reservoir."
    );
}

#[test]
fn bundle_entries() {
    assert_eq!(bundle_entry("streams", false, false, false), BundleEntry::Streams);
    assert_eq!(bundle_entry("releases", false, false, false), BundleEntry::Releases);
    assert!(is_vcs_metadata(".git"));
    assert!(!is_vcs_metadata("src"));
}

#[test]
fn export_rules() {
    let inc = strings(&["**/*"]);
    let exc = strings(&[".git/**", "**/*.env"]);
    assert!(is_allowed("src/main.rs", &inc, &exc));
    assert!(!is_allowed(".git/config", &inc, &exc));
    assert!(!is_allowed("conf/prod.env", &inc, &exc));
    assert!(!is_allowed("x", &vec![], &exc));
    assert_eq!(check_allowed("a", &strings(&["[bad"]), &vec![]), None);
    assert_eq!(check_allowed("a", &strings(&["a"]), &vec![]), Some(true));
    assert_eq!(payload_name(true), "payload.enc");
    assert_eq!(payload_name(false), "payload.tar.gz");
    assert_eq!(export_file_name("app"), "app.dam");
    assert_eq!(export_streams(vec![]), None);
    assert_eq!(export_streams(strings(&["main"])), Some(strings(&["main"])));
    assert!(enforces_password("[project]\n  enforce_password_on_project_import = true \n"));
    assert!(!enforces_password("enforce_password_on_project_import = false\n"));
}

#[test]
fn setup_commands_split_by_trust() {
    let cmds = strings(&["cargo build", "rm -rf /", "cargo test"]);
    let allowed = strings(&["cargo build", "cargo test"]);
    let (trusted, untrusted) = split_setup_commands(&cmds, &allowed);
    assert_eq!(trusted, strings(&["cargo build", "cargo test"]));
    assert_eq!(untrusted, strings(&["rm -rf /"]));
    let meta = ProjectMetadata {
        project_name: "p".to_string(),
        author: "a".to_string(),
        timestamp: "t".to_string(),
        provider: "rust".to_string(),
        profile_used: "full".to_string(),
        setup_commands: cmds,
        is_encrypted: false,
        streams: None,
    };
    assert_eq!(meta.setup_commands.len(), trusted.len() + untrusted.len());
}

#[test]
fn setup_command_answers() {
    assert!(runs_trusted_commands("\n"));
    assert!(runs_trusted_commands(" Y \n"));
    assert!(!runs_trusted_commands("n\n"));
    assert!(!runs_trusted_commands("yes\n"));
    assert!(runs_untrusted_commands(" yes\n"));
    assert!(!runs_untrusted_commands("YES\n"));
    assert!(!runs_untrusted_commands("y\n"));
    assert!(!runs_untrusted_commands("\n"));
}

#[test]
fn import_seal_id_ends_in_eight_hex_digits() {
    let files = vec![("a.txt".to_string(), "00".to_string())];
    let id = import_seal_id("dev", &files);
    assert_eq!(id.len(), "dev".len() + 21);
    assert!(id.starts_with("seal_import_dev_"));
    assert!(id[16..].chars().all(|c| c.is_ascii_digit() || ('a'..='f').contains(&c)));
}

#[test]
fn latest_release_follows_the_pointer() {
    let v1 = new_release("v1.0.0", None, None, "2024-01-01T00:00:00Z", "s1", "main");
    let v2 = new_release("v2.0.0", None, None, "2024-02-01T00:00:00Z", "s2", "main");
    let v0 = new_release("v0.9.0", None, None, "2023-12-01T00:00:00Z", "s0", "main");
    let rs = vec![v1, v2, v0];
    // the release marked latest is shown even though a newer one exists
    assert_eq!(latest_release(&rs, Some("v1.0.0")), Some("v1.0.0".to_string()));
    // without a pointer, or with one to a deleted release, the newest is shown
    assert_eq!(latest_release(&rs, None), Some("v2.0.0".to_string()));
    assert_eq!(latest_release(&rs, Some("gone")), Some("v2.0.0".to_string()));
    assert_eq!(latest_release(&vec![], Some("v1.0.0")), None);
    assert_eq!(latest_release_pointer_path(), ".dam/latest_release.txt");
}
