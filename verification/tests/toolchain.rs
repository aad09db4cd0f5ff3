use gpm::docmodel::JsonValue;
use gpm::toolchain::{
    Arch, BinaryEntry, Installer, Os, Platform, PromptError, ResolveAction, ResolvePlan, ToolConfig, ToolRegistry, ToolchainManager,
    candidate_line, entries_have_path, expand_archive_command, github_latest_release_url, install_prompt,
    installer_for, is_affirmative, is_archive_member, is_match, is_tar_gz, manual_install_hint,
    missing_binary_message, not_installed_message, path_join, plan_resolution, prompt_index, release_version,
    path_candidates, requested_version, search_path_dirs, system_candidates, text_from_bytes, uv_release_url, version_from_output,
    version_from_tag, version_hint, version_prompt, COMPOSER_PHAR_URL, USER_AGENT,
};

fn s(x: &str) -> String {
    x.to_string()
}

fn entry(path: &str, version: &str, managed: bool) -> BinaryEntry {
    BinaryEntry { path: s(path), version: s(version), managed }
}

const LINUX: Platform = Platform { os: Os::Other, arch: Arch::X86_64 };
const MAC_ARM: Platform = Platform { os: Os::MacOs, arch: Arch::Aarch64 };
const WINDOWS: Platform = Platform { os: Os::Windows, arch: Arch::X86_64 };

fn tool_entries(m: &ToolchainManager, tool: &str) -> Vec<String> {
    for (name, cfg) in &m.registry().tools {
        if name == tool {
            return cfg.entries.iter().map(|e| e.path.clone()).collect();
        }
    }
    Vec::new()
}

#[test]
fn manager_paths() {
    let m = ToolchainManager::from_parts(s("/home/u/.gpm"), None);
    assert_eq!(m.home(), "/home/u/.gpm");
    assert_eq!(m.bin_dir(), "/home/u/.gpm/bin");
    assert_eq!(path_join("/a", "b"), "/a/b");
    assert!(m.registry().tools.is_empty());
}

#[test]
fn choice_is_remembered_and_found_binaries_kept_once() {
    let mut m = ToolchainManager::from_parts(s("/h"), None);
    assert_eq!(m.remembered_active("uv"), None);
    let found = vec![entry("/usr/bin/uv", "0.7.0", false), entry("/h/bin/uv", "0.8.0", true), entry("/usr/bin/uv", "0.7.0", false)];
    m.record_choice("uv", "/h/bin/uv", &found);
    assert_eq!(m.remembered_active("uv"), Some(s("/h/bin/uv")));
    assert_eq!(tool_entries(&m, "uv"), vec![s("/usr/bin/uv"), s("/h/bin/uv")]);
    m.record_choice("uv", "/usr/bin/uv", &found);
    assert_eq!(m.remembered_active("uv"), Some(s("/usr/bin/uv")));
    assert_eq!(tool_entries(&m, "uv"), vec![s("/usr/bin/uv"), s("/h/bin/uv")]);
    assert_eq!(m.registry().tools.len(), 1);
}

#[test]
fn forgetting_clears_only_that_tool() {
    let mut reg = ToolRegistry::new();
    reg.tools.push((s("uv"), ToolConfig { active: Some(s("/x/uv")), entries: vec![entry("/x/uv", "1", false)] }));
    reg.tools.push((s("composer"), ToolConfig { active: Some(s("/x/composer")), entries: vec![] }));
    let mut m = ToolchainManager::from_parts(s("/h"), Some(reg));
    assert_eq!(m.remembered_active("uv"), Some(s("/x/uv")));
    m.forget_active("uv");
    assert_eq!(m.remembered_active("uv"), None);
    assert_eq!(tool_entries(&m, "uv"), vec![s("/x/uv")]);
    assert_eq!(m.remembered_active("composer"), Some(s("/x/composer")));
    m.forget_active("npm");
    assert_eq!(m.registry().tools.len(), 2);
}

#[test]
fn installation_is_recorded_and_active() {
    let mut m = ToolchainManager::from_parts(s("/h"), None);
    m.record_installed("composer", entry("/h/bin/composer.phar", "2.7.1", true));
    assert_eq!(m.remembered_active("composer"), Some(s("/h/bin/composer.phar")));
    assert_eq!(tool_entries(&m, "composer"), vec![s("/h/bin/composer.phar")]);
}

#[test]
fn binary_name_matching() {
    assert!(is_match("uv", Some("uv")));
    assert!(is_match("uv", Some("uv.exe")));
    assert!(is_match("composer", Some("composer.phar")));
    assert!(is_match("uv", Some("uv-0.7")));
    assert!(!is_match("uv", Some("uvx")));
    assert!(!is_match("uv", None));
}

#[test]
fn candidates_per_platform() {
    assert_eq!(system_candidates("uv", "/usr/bin", LINUX), vec![s("/usr/bin/uv"), s("/usr/bin/uv.phar")]);
    assert_eq!(system_candidates("uv", "/usr/bin", WINDOWS), vec![s("/usr/bin/uv.exe"), s("/usr/bin/uv")]);
    assert_eq!(search_path_dirs("/a:/b::/c", LINUX), vec![s("/a"), s("/b"), s(""), s("/c")]);
    assert_eq!(search_path_dirs("C:\\x;D:\\y", WINDOWS), vec![s("C:\\x"), s("D:\\y")]);
    assert_eq!(search_path_dirs("", LINUX), vec![s("")]);
}

#[test]
fn known_paths() {
    let es = vec![entry("/a", "1", false), entry("/b", "2", true)];
    assert!(entries_have_path(&es, "/b"));
    assert!(!entries_have_path(&es, "/c"));
}

#[test]
fn version_probing() {
    assert_eq!(version_from_output(b"uv 0.7.0 (abc123 2025-05-10)\n"), Some(s("0.7.0 (abc123 2025-05-10)")));
    assert_eq!(version_from_output(b"Composer version 2.7.1 2024-02-09\n"), Some(s("2.7.1 2024-02-09")));
    assert_eq!(version_from_output(b"  tool-name  \nsecond"), Some(s("tool-name")));
    assert_eq!(version_from_output(b""), None);
    assert_eq!(text_from_bytes(b"ok"), "ok");
    assert_eq!(text_from_bytes(&[0x61, 0xff]), "a\u{FFFD}");
}

#[test]
fn yes_no_answers() {
    assert!(is_affirmative(""));
    assert!(is_affirmative("Y"));
    assert!(is_affirmative("yes"));
    assert!(is_affirmative("YES"));
    assert!(!is_affirmative("n"));
    assert!(!is_affirmative("yess"));
}

#[test]
fn index_answers() {
    assert_eq!(prompt_index("", 3), Ok(0));
    assert_eq!(prompt_index("2", 3), Ok(2));
    assert_eq!(prompt_index("3", 3), Err(PromptError::OutOfRange { index: 3, max: 3 }));
    assert_eq!(prompt_index("two", 3), Err(PromptError::NotANumber));
    assert_eq!(prompt_index("+1", 3), Ok(1));
    assert_eq!(PromptError::NotANumber.message(), "expected a number");
    assert_eq!(PromptError::OutOfRange { index: 7, max: 2 }.message(), "index 7 out of range (0..2)");
    for answer in ["", "0", "1", "9", "x"] {
        if let Ok(i) = prompt_index(answer, 2) {
            assert!(i < 2);
        }
    }
}

#[test]
fn resolution_plans() {
    assert!(matches!(plan_resolution(&vec![]), ResolvePlan::Install));
    match plan_resolution(&vec![entry("/usr/bin/uv", "1", false)]) {
        ResolvePlan::UseOnly(p) => assert_eq!(p, "/usr/bin/uv"),
        _ => panic!("expected the only binary"),
    }
    assert!(matches!(plan_resolution(&vec![entry("/a", "1", false), entry("/b", "2", true)]), ResolvePlan::Choose));
    assert_eq!(candidate_line(0, &entry("/usr/bin/uv", "0.7.0", false)), "  [0] /usr/bin/uv (0.7.0) [system]");
    assert_eq!(candidate_line(12, &entry("/h/bin/uv", "0.8.0", true)), "  [12] /h/bin/uv (0.8.0) [gpm]");
}

#[test]
fn installation_texts() {
    assert_eq!(installer_for("uv"), Some(Installer::Uv));
    assert_eq!(installer_for("composer"), Some(Installer::Composer));
    assert_eq!(installer_for("npm"), None);
    assert_eq!(version_hint(Installer::Uv), "latest");
    assert_eq!(version_hint(Installer::Composer), "stable");
    assert_eq!(install_prompt("uv", "latest"), "Install `uv` (latest) managed by gpm? [Y/n]: ");
    assert_eq!(version_prompt("stable"), "Version (leave blank for stable): ");
    assert_eq!(requested_version(""), None);
    assert_eq!(requested_version("0.7.2"), Some(s("0.7.2")));
    assert_eq!(manual_install_hint("npm"), "→ Install Node.js (includes npm): https://nodejs.org/");
    assert_eq!(manual_install_hint("cargo"), "→ Install Rust (includes cargo): https://rustup.rs/");
    assert_eq!(manual_install_hint("pip"), "→ Install Python (includes pip): https://python.org/");
    assert_eq!(manual_install_hint("pip3"), "→ Install Python 3: https://python.org/");
    assert_eq!(manual_install_hint("go"), "→ Install `go` from your system package manager or official website.");
    assert_eq!(
        not_installed_message("uv"),
        "`uv` is required but not installed.\nInstall it manually and re-run, or run `gpm toolchain reset uv` to be prompted again."
    );
}

#[test]
fn release_urls() {
    assert_eq!(
        uv_release_url("0.7.0", LINUX),
        (s("https://github.com/astral-sh/uv/releases/download/v0.7.0/uv-x86_64-unknown-linux-musl.tar.gz"), s("uv"))
    );
    assert_eq!(
        uv_release_url("0.7.0", MAC_ARM),
        (s("https://github.com/astral-sh/uv/releases/download/v0.7.0/uv-aarch64-apple-darwin.tar.gz"), s("uv"))
    );
    assert_eq!(
        uv_release_url("1.0", WINDOWS),
        (s("https://github.com/astral-sh/uv/releases/download/v1.0/uv-x86_64-pc-windows-msvc.zip"), s("uv.exe"))
    );
    assert!(is_tar_gz("https://x/uv.tar.gz"));
    assert!(!is_tar_gz("https://x/uv.zip"));
    assert_eq!(github_latest_release_url("astral-sh", "uv"), "https://api.github.com/repos/astral-sh/uv/releases/latest");
    assert_eq!(USER_AGENT, "gpm/0.1 (https://github.com/4Gettt25/gpm)");
    assert_eq!(COMPOSER_PHAR_URL, "https://getcomposer.org/composer-stable.phar");
}

#[test]
fn release_tags() {
    assert_eq!(version_from_tag("v0.7.0"), "0.7.0");
    assert_eq!(version_from_tag("vv1"), "1");
    assert_eq!(version_from_tag("1.2"), "1.2");
    let once = version_from_tag("vvv2");
    assert_eq!(version_from_tag(&once), once);
    let release = JsonValue::Object(vec![(s("tag_name"), JsonValue::String(s("v0.8.3")))]);
    assert_eq!(release_version(&release), Some(s("0.8.3")));
    assert_eq!(release_version(&JsonValue::Object(vec![])), None);
    assert_eq!(release_version(&JsonValue::Object(vec![(s("tag_name"), JsonValue::Null)])), None);
}

#[test]
fn archive_helpers() {
    assert_eq!(
        expand_archive_command("C:\\t\\archive.zip", "C:\\t\\extracted"),
        "Expand-Archive -Path 'C:\\t\\archive.zip' -DestinationPath 'C:\\t\\extracted' -Force"
    );
    assert!(is_archive_member(Some("uv"), "uv"));
    assert!(!is_archive_member(Some("uvx"), "uv"));
    assert!(!is_archive_member(None, "uv"));
    assert_eq!(missing_binary_message("uv"), "binary `uv` not found in archive");
}

#[test]
fn resolution_steps() {
    let mut m = ToolchainManager::from_parts(s("/h"), None);
    assert!(matches!(m.resolve_start("uv"), ResolveAction::Discover));
    match m.resolve_found("uv", vec![]) {
        ResolveAction::OfferInstall { message } => assert_eq!(message, "\n`uv` not found on this system."),
        other => panic!("unexpected {other:?}"),
    }
    match m.resolve_installed("uv", None) {
        ResolveAction::Fail(msg) => assert_eq!(msg, not_installed_message("uv")),
        other => panic!("unexpected {other:?}"),
    }
    match m.resolve_installed("uv", Some(entry("/h/bin/uv", "0.7.0", true))) {
        ResolveAction::Use { path, notice, save } => {
            assert_eq!(path, "/h/bin/uv");
            assert!(notice.is_none());
            assert!(save);
        }
        other => panic!("unexpected {other:?}"),
    }
    match m.resolve_start("uv") {
        ResolveAction::CheckExists(p) => assert_eq!(p, "/h/bin/uv"),
        other => panic!("unexpected {other:?}"),
    }
    match m.resolve_checked("uv", s("/h/bin/uv"), true) {
        ResolveAction::Use { path, notice, save } => {
            assert_eq!(path, "/h/bin/uv");
            assert!(notice.is_none());
            assert!(!save);
        }
        other => panic!("unexpected {other:?}"),
    }
    assert!(matches!(m.resolve_checked("uv", s("/h/bin/uv"), false), ResolveAction::Discover));
    assert_eq!(m.remembered_active("uv"), None);
    match m.resolve_found("uv", vec![entry("/usr/bin/uv", "0.6.0", false)]) {
        ResolveAction::Use { path, notice, save } => {
            assert_eq!(path, "/usr/bin/uv");
            assert_eq!(notice, Some(s("Using uv: /usr/bin/uv")));
            assert!(save);
        }
        other => panic!("unexpected {other:?}"),
    }
    assert_eq!(m.remembered_active("uv"), Some(s("/usr/bin/uv")));
    match m.resolve_found("uv", vec![entry("/a/uv", "1", false), entry("/b/uv", "2", true)]) {
        ResolveAction::AskChoice { found, lines, question } => {
            assert_eq!(
                lines,
                vec![s("\nMultiple versions of `uv` found:"), s("  [0] /a/uv (1) [system]"), s("  [1] /b/uv (2) [gpm]")]
            );
            assert_eq!(question, "Which would you like to use? [0]: ");
            match m.resolve_chosen("uv", &found, "5") {
                ResolveAction::Fail(msg) => assert_eq!(msg, "index 5 out of range (0..2)"),
                other => panic!("unexpected {other:?}"),
            }
            match m.resolve_chosen("uv", &found, "x") {
                ResolveAction::Fail(msg) => assert_eq!(msg, "expected a number"),
                other => panic!("unexpected {other:?}"),
            }
            match m.resolve_chosen("uv", &found, "1") {
                ResolveAction::Use { path, save, .. } => {
                    assert_eq!(path, "/b/uv");
                    assert!(save);
                }
                other => panic!("unexpected {other:?}"),
            }
        }
        other => panic!("unexpected {other:?}"),
    }
    assert_eq!(m.remembered_active("uv"), Some(s("/b/uv")));
    assert_eq!(tool_entries(&m, "uv"), vec![s("/h/bin/uv"), s("/usr/bin/uv"), s("/a/uv"), s("/b/uv")]);
    match m.resolve_chosen("uv", &vec![], "") {
        ResolveAction::Fail(msg) => assert_eq!(msg, "index 0 out of range (0..0)"),
        other => panic!("unexpected {other:?}"),
    }
}

#[test]
fn paths_compare_as_paths() {
    let es = vec![entry("/a/uv", "1", false)];
    assert!(entries_have_path(&es, "/a//uv"));
    assert!(entries_have_path(&es, "/a/uv/"));
    assert!(!entries_have_path(&es, "/a/uvx"));
    let mut m = ToolchainManager::from_parts(s("/h"), None);
    let found = vec![entry("/usr/bin/uv", "0.7.0", false), entry("/usr//bin/uv", "0.7.0", false)];
    m.record_choice("uv", "/usr/bin/uv", &found);
    assert_eq!(tool_entries(&m, "uv"), vec![s("/usr/bin/uv")]);
}

#[test]
fn search_path_candidates_skip_gpm_bin() {
    assert_eq!(
        path_candidates("uv", "/usr/bin:/h/.gpm/bin:/opt/bin", "/h/.gpm/bin/", LINUX),
        vec![s("/usr/bin/uv"), s("/usr/bin/uv.phar"), s("/opt/bin/uv"), s("/opt/bin/uv.phar")]
    );
    assert_eq!(path_candidates("uv", "/h/.gpm/bin", "/h/.gpm/bin", LINUX), Vec::<String>::new());
    assert_eq!(path_candidates("uv", "/x", "/h/.gpm/bin", WINDOWS), vec![s("/x/uv.exe"), s("/x/uv")]);
}
