use project_hub::paths::{
    classify, unix_seconds,
    batch_program, batch_script, first_output_line, installation_status, lookup_lines, native_program, needs_command_lookup, now,
    launch_target_available, path_status, pick_launch_target, platform, resolve_launch_target,
    target_from_lookup, target_from_path,
    validate_path, PathStatus,
};

#[test]
fn missing_paths_are_kept_as_missing() {
    assert_eq!(
        validate_path(r#"Z:\definitely-missing\项目.sln"#, "file"),
        "missing"
    );
}

#[test]
fn blank_paths_are_unconfigured() {
    assert_eq!(validate_path("", "file"), "unconfigured");
    assert_eq!(validate_path("  \t ", "directory"), "unconfigured");
    assert_eq!(path_status(" ", "file"), PathStatus::Unconfigured);
}

#[test]
fn existing_directory_is_valid_or_wrong_kind() {
    assert_eq!(validate_path(".", "directory"), "valid");
    assert_eq!(validate_path(".", "file"), "wrongKind");
    assert_eq!(validate_path(".", "other"), "valid");
    assert_eq!(path_status(".", "directory"), PathStatus::Valid);
}

#[test]
fn existing_file_is_valid_as_file_and_wrong_kind_as_directory() {
    assert_eq!(validate_path("/etc/passwd", "file"), "valid");
    assert_eq!(validate_path("/etc/passwd", "directory"), "wrongKind");
}

#[test]
fn platform_names() {
    assert_eq!(platform("macos"), "macos");
    assert_eq!(platform("windows"), "windows");
    assert_eq!(platform("linux"), "windows");
}

#[test]
fn clock_is_after_the_epoch() {
    assert!(now() > 1_600_000_000);
}

#[test]
fn installation_status_names() {
    assert_eq!(installation_status(true), "available");
    assert_eq!(installation_status(false), "missing");
}

#[test]
fn lookup_output_lines_are_trimmed_and_blank_ones_dropped() {
    let lines = lookup_lines("C:\\a\\code.cmd\r\n  \n /usr/bin/code \n\n");
    assert_eq!(lines, vec!["C:\\a\\code.cmd".to_string(), "/usr/bin/code".to_string()]);
    assert!(lookup_lines("").is_empty());
    assert_eq!(lookup_lines("one"), vec!["one".to_string()]);
}

#[test]
fn program_kinds_follow_the_extension() {
    assert!(native_program("C:\\Tools\\Code.EXE"));
    assert!(native_program("C:\\Tools\\tool.com"));
    assert!(!native_program("C:\\Tools\\code.cmd"));
    assert!(!native_program("C:\\Tools\\.exe"));
    assert!(!native_program("C:\\Tools.exe\\code"));
    assert!(batch_program("C:\\Tools\\code.cmd"));
    assert!(batch_program("C:/Tools/run.BAT"));
    assert!(!batch_program("C:/Tools/run.bat.txt"));
}

#[test]
fn launch_target_prefers_native_programs_on_windows() {
    let paths = vec![
        "C:\\a\\code".to_string(),
        "C:\\a\\code.cmd".to_string(),
        "C:\\b\\Code.exe".to_string(),
        "C:\\c\\other.exe".to_string(),
    ];
    assert_eq!(pick_launch_target(&paths, true), Some("C:\\b\\Code.exe".to_string()));
    assert_eq!(pick_launch_target(&paths[..2].to_vec(), true), Some("C:\\a\\code.cmd".to_string()));
    assert_eq!(pick_launch_target(&paths[..1].to_vec(), true), None);
    assert_eq!(pick_launch_target(&paths, false), Some("C:\\a\\code".to_string()));
    assert_eq!(pick_launch_target(&Vec::new(), false), None);
}

#[test]
fn launch_targets_from_disk() {
    assert!(needs_command_lookup("command"));
    assert!(!needs_command_lookup("executable"));
    assert_eq!(target_from_path("/etc/passwd"), Some("/etc/passwd".to_string()));
    assert_eq!(target_from_path("no-such-file-here"), None);
    assert_eq!(target_from_lookup("no-such-file-here\n/etc/passwd\n", false), Some("/etc/passwd".to_string()));
    assert_eq!(target_from_lookup("/etc/passwd\n", true), None);
}

#[test]
fn first_output_line_is_trimmed() {
    assert_eq!(first_output_line(""), None);
    assert_eq!(
        first_output_line("C:\\VS\\Common7\\IDE\\devenv.exe\r\nsecond\r\n"),
        Some(r"C:\VS\Common7\IDE\devenv.exe".to_string())
    );
    assert_eq!(first_output_line("\nlater"), Some(String::new()));
    assert_eq!(first_output_line("  only  "), Some("only".to_string()));
}

#[test]
fn batch_scripts_have_lowercase_extensions() {
    assert!(batch_script(r"C:\Tools\code.cmd"));
    assert!(batch_script("run.bat"));
    assert!(!batch_script(r"C:\Tools\code.CMD"));
    assert!(!batch_script("code.exe"));
    assert!(!batch_script(r"C:\tools.cmd\code"));
    assert!(!batch_script(".cmd"));
}

#[test]
fn launch_targets_by_kind() {
    assert_eq!(resolve_launch_target("/etc/passwd", "executable", None, false), Some("/etc/passwd".to_string()));
    assert_eq!(resolve_launch_target(".", "macosApp", None, false), Some(".".to_string()));
    assert_eq!(resolve_launch_target("no-such-file-here", "executable", None, false), None);
    assert_eq!(resolve_launch_target("code", "command", None, false), None);
    assert_eq!(
        resolve_launch_target("code", "command", Some("/etc/passwd\n"), false),
        Some("/etc/passwd".to_string())
    );
    assert!(launch_target_available("/etc/passwd", "executable", None, false));
    assert!(!launch_target_available("code", "command", None, false));
    assert!(!launch_target_available("code", "command", Some("\n  \n"), false));
    assert!(launch_target_available("code", "command", Some("/etc/passwd"), false));
}

#[test]
fn classification_by_kind() {
    assert_eq!(classify(" ", "file", true, true, true), PathStatus::Unconfigured);
    assert_eq!(classify("x", "file", false, true, true), PathStatus::Missing);
    assert_eq!(classify("x", "file", true, false, true), PathStatus::WrongKind);
    assert_eq!(classify("x", "file", true, true, false), PathStatus::Valid);
    assert_eq!(classify("x", "directory", true, true, false), PathStatus::WrongKind);
    assert_eq!(classify("x", "directory", true, false, true), PathStatus::Valid);
    assert_eq!(classify("x", "other", true, false, false), PathStatus::Valid);
}

#[test]
fn clock_readings() {
    assert_eq!(unix_seconds(None), 0);
    assert_eq!(unix_seconds(Some(1_700_000_000)), 1_700_000_000);
}

#[test]
fn availability_is_a_resolved_target() {
    let cases: Vec<(&str, &str, Option<&str>, bool)> = vec![
        ("/etc/passwd", "executable", None, false),
        ("no-such-file-here", "executable", None, false),
        (".", "macosApp", None, false),
        ("code", "command", None, false),
        ("code", "command", Some("/etc/passwd\n"), false),
        ("code", "command", Some("no-such-file-here\n"), false),
        ("code", "command", Some("/etc/passwd\n"), true),
    ];
    for (value, kind, lookup, windows) in cases {
        assert_eq!(
            launch_target_available(value, kind, lookup, windows),
            resolve_launch_target(value, kind, lookup, windows).is_some()
        );
    }
}
