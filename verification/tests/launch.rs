use project_hub::launch::{
    args_for, directory_for, plan_for_status, reveal_for, launch_command, launch_failure_message, launch_started, locate_module, parent_directory, plan_launch,
    plan_reveal, quote_windows_arg, recently_started, resolve_args, substitute_arg,
    substitute_args, windows_command_line, LaunchError, LaunchKind,
};
use project_hub::models::{IdeInstallation, ModulePath, Project, ProjectModule};

#[test]
fn substitutes_unicode_paths_without_shell_quoting() {
    let target = r#"D:\项目 目录\API\示例.sln"#;
    let args = resolve_args(
        &vec![
            "{path}".into(),
            "--name={name}".into(),
            "--root={directory}".into(),
        ],
        target,
        "业务 API",
    );
    assert_eq!(args[0], target);
    assert_eq!(args[1], "--name=业务 API");
    assert!(args[2].contains("项目 目录"));
}

#[test]
fn windows_command_line_quotes_batch_launcher_and_arguments() {
    let line = windows_command_line(
        r#"C:\Tools\VS Code\bin\code.cmd"#,
        &vec![r#"D:\项目 目录\API"#.into(), "--reuse-window".into()],
    );
    assert_eq!(
        line,
        r#""C:\Tools\VS Code\bin\code.cmd" "D:\项目 目录\API" "--reuse-window""#
    );
}

#[test]
fn quoting_escapes_quotes_and_trailing_backslashes() {
    assert_eq!(quote_windows_arg(""), "\"\"");
    assert_eq!(quote_windows_arg("a b"), "\"a b\"");
    assert_eq!(quote_windows_arg("say \"hi\""), "\"say \\\"hi\\\"\"");
    assert_eq!(quote_windows_arg("C:\\dir\\"), "\"C:\\dir\\\\\"");
    assert_eq!(quote_windows_arg("a\\\"b"), "\"a\\\\\\\"b\"");
    assert_eq!(quote_windows_arg("a\\b"), "\"a\\b\"");
    assert_eq!(windows_command_line("x", &Vec::new()), "\"x\"");
}

/// Reads one quoted argument the way the Microsoft C runtime does.
fn read_quoted(s: &str) -> Option<String> {
    let chars: Vec<char> = s.chars().collect();
    if chars.first() != Some(&'"') {
        return None;
    }
    let mut out = String::new();
    let mut slashes = 0usize;
    let mut i = 1;
    while i < chars.len() {
        match chars[i] {
            '\\' => slashes += 1,
            '"' if slashes % 2 == 0 => {
                out.push_str(&"\\".repeat(slashes / 2));
                return if i + 1 == chars.len() { Some(out) } else { None };
            }
            '"' => {
                out.push_str(&"\\".repeat(slashes / 2));
                out.push('"');
                slashes = 0;
            }
            c => {
                out.push_str(&"\\".repeat(slashes));
                out.push(c);
                slashes = 0;
            }
        }
        i += 1;
    }
    None
}

#[test]
fn quoted_arguments_read_back_unchanged() {
    for value in ["", "a b", "say \"hi\"", "C:\\dir\\", "a\\\"b", "\\\\", "\"", r"D:\项目 目录\API"] {
        assert_eq!(read_quoted(&quote_windows_arg(value)), Some(value.to_string()));
    }
}

#[test]
fn parent_directory_keeps_roots() {
    assert_eq!(parent_directory(r"D:\项目 目录\API\示例.sln"), r"D:\项目 目录\API");
    assert_eq!(parent_directory(r"C:\x.sln"), r"C:\");
    assert_eq!(parent_directory(r"\x"), r"\");
    assert_eq!(parent_directory("/home/dev/app/main.rs"), "/home/dev/app");
    assert_eq!(parent_directory("main.rs"), "");
    assert_eq!(parent_directory(""), "");
}

#[test]
fn substitution_replaces_every_placeholder_in_order() {
    assert_eq!(substitute_arg("{path}|{path}", "p", "d", "n"), "p|p");
    assert_eq!(substitute_arg("{name}-{directory}", "p", "d", "n"), "n-d");
    // a path that holds a placeholder is substituted again by the later steps
    assert_eq!(substitute_arg("{path}", "{name}", "d", "n"), "n");
    assert_eq!(substitute_arg("{pat}h}", "p", "d", "n"), "{pat}h}");
    let args = substitute_args(&vec!["--dir={directory}".to_string()], "p", "d", "n");
    assert_eq!(args, vec!["--dir=d".to_string()]);
}

#[test]
fn directory_of_an_existing_directory_is_itself() {
    let args = resolve_args(&vec!["{directory}".into()], ".", "n");
    assert_eq!(args, vec![".".to_string()]);
}

fn module(id: &str, name: &str, path: Option<(&str, &str)>, ide: Option<&str>) -> ProjectModule {
    ProjectModule {
        id: id.into(),
        project_id: "p1".into(),
        name: name.into(),
        module_type: "web".into(),
        description: None,
        tags: vec![],
        is_favorite: false,
        sort_order: 0,
        created_at: 1,
        updated_at: 1,
        path: path.map(|(p, k)| ModulePath {
            platform: "windows".into(),
            path: p.into(),
            path_kind: k.into(),
            validation_status: "valid".into(),
            last_validated_at: 1,
        }),
        ide_id: ide.map(|s| s.to_string()),
        argument_template: vec!["{path}".into(), "--name={name}".into()],
        linked_module_ids: vec![],
        last_opened_at: None,
    }
}

fn project(id: &str, name: &str, modules: Vec<ProjectModule>) -> Project {
    Project {
        id: id.into(),
        name: name.into(),
        description: None,
        icon: None,
        color: None,
        tags: vec![],
        is_favorite: false,
        is_pinned: false,
        sort_order: 0,
        created_at: 1,
        updated_at: 1,
        modules,
        last_opened_at: None,
    }
}

fn installation(ide: &str, platform: &str, enabled: bool, status: &str, kind: &str, exe: &str) -> IdeInstallation {
    IdeInstallation {
        id: format!("{ide}-{exe}"),
        ide_id: ide.into(),
        platform: platform.into(),
        executable_path: exe.into(),
        launch_kind: kind.into(),
        detected_source: "manual".into(),
        status: status.into(),
        enabled,
        ide_name: Some("WebStorm".into()),
    }
}

#[test]
fn modules_are_found_in_list_order() {
    let projects = vec![
        project("p1", "一", vec![module("a", "A", None, None)]),
        project("p2", "二", vec![module("b", "B", None, None), module("a", "A2", None, None)]),
    ];
    assert_eq!(locate_module(&projects, "a"), Some((0, 0)));
    assert_eq!(locate_module(&projects, "b"), Some((1, 0)));
    assert_eq!(locate_module(&projects, "c"), None);
}

#[test]
fn launches_within_two_seconds_are_refused() {
    assert!(recently_started(100, Some(99)));
    assert!(!recently_started(100, Some(98)));
    assert!(!recently_started(100, None));
    assert!(recently_started(i64::MIN, Some(i64::MAX)));
    let projects = vec![project("p1", "业务", vec![module("m1", "Web", Some((".", "directory")), Some("webstorm"))])];
    let r = plan_launch(100, Some(99), &projects, "m1", None, &vec![], "windows");
    assert!(matches!(r, Err(LaunchError::RecentlyStarted)));
    assert_eq!(r.unwrap_err().message(), "该项目刚刚已经提交打开，请勿重复操作。");
}

#[test]
fn launch_errors_name_the_project() {
    let projects = vec![project(
        "p1",
        "业务",
        vec![
            module("nopath", "Web", None, Some("webstorm")),
            module("bad", "Api", Some(("no-such-dir-here", "directory")), Some("webstorm")),
            module("noide", "App", Some((".", "directory")), None),
            module("ok", "Site", Some((".", "directory")), Some("webstorm")),
        ],
    )];
    let none: Vec<IdeInstallation> = vec![];
    let e = plan_launch(100, None, &projects, "missing", None, &none, "windows").unwrap_err();
    assert!(matches!(e, LaunchError::ModuleNotFound));
    assert_eq!(e.message(), "找不到要打开的项目");
    let e = plan_launch(100, None, &projects, "nopath", None, &none, "windows").unwrap_err();
    assert_eq!(e.message(), "业务 / Web 未配置当前平台路径");
    let e = plan_launch(100, None, &projects, "bad", None, &none, "windows").unwrap_err();
    assert_eq!(e.message(), "无法打开 业务 / Api：路径 no-such-dir-here 当前状态为 missing，请编辑项目路径。");
    let e = plan_launch(100, None, &projects, "noide", None, &none, "windows").unwrap_err();
    assert_eq!(e.message(), "业务 / App 未指定 IDE");
    let e = plan_launch(100, None, &projects, "ok", None, &none, "windows").unwrap_err();
    assert_eq!(e.message(), "业务 / Site 的 IDE 未检测到或未启用，请前往 IDE 管理重新配置。");
    let e = LaunchError::CommandNotFound { executable: "code".into() };
    assert_eq!(e.message(), "找不到 PATH 命令：code");
}

#[test]
fn launch_uses_the_first_usable_installation() {
    let projects = vec![project("p1", "业务", vec![module("ok", "Site", Some((".", "directory")), Some("webstorm"))])];
    let installations = vec![
        installation("webstorm", "windows", false, "available", "executable", "disabled.exe"),
        installation("webstorm", "macos", true, "available", "macosApp", "/Applications/WebStorm.app"),
        installation("webstorm", "windows", true, "missing", "executable", "missing.exe"),
        installation("vscode", "windows", true, "available", "command", "code"),
        installation("webstorm", "windows", true, "available", "command", "webstorm"),
        installation("webstorm", "windows", true, "available", "executable", "later.exe"),
    ];
    let plan = plan_launch(100, Some(90), &projects, "ok", None, &installations, "windows").unwrap();
    assert_eq!(plan.executable, "webstorm");
    assert_eq!(plan.kind, LaunchKind::Command);
    assert_eq!(plan.ide_id, "webstorm");
    assert_eq!(plan.ide_name, "WebStorm");
    assert_eq!(plan.path, ".");
    assert_eq!(plan.args, vec![".".to_string(), "--name=Site".to_string()]);
    let plan = plan_launch(100, None, &projects, "ok", Some("vscode".into()), &installations, "windows").unwrap();
    assert_eq!(plan.executable, "code");
    let plan = plan_launch(100, None, &projects, "ok", None, &installations, "macos").unwrap();
    assert_eq!(plan.kind, LaunchKind::MacosApp);
    let mac = plan.clone();
    let started = launch_started(plan);
    assert!(started.started);
    assert_eq!(started.message, "已提交给操作系统启动");
    assert_eq!(started.ide_name, "WebStorm");
    assert_eq!(launch_failure_message(&mac, "denied"), "无法使用 WebStorm 打开 .：denied");
}

#[test]
fn reveal_plans_follow_the_system() {
    let projects = vec![project(
        "p1",
        "业务",
        vec![
            module("dir", "Dir", Some((".", "directory")), None),
            module("file", "File", Some(("/etc/passwd", "file")), None),
            module("gone", "Gone", Some(("no-such-dir-here", "directory")), None),
            module("none", "None", None, None),
        ],
    )];
    assert_eq!(plan_reveal(&projects, "x", "windows").unwrap_err(), "项目不存在");
    assert_eq!(plan_reveal(&projects, "none", "windows").unwrap_err(), "项目未配置当前平台路径");
    assert_eq!(plan_reveal(&projects, "gone", "windows").unwrap_err(), "路径不存在：no-such-dir-here");
    let run = plan_reveal(&projects, "dir", "windows").unwrap().unwrap();
    assert_eq!(run.program, "explorer.exe");
    assert_eq!(run.args, vec![".".to_string()]);
    let run = plan_reveal(&projects, "file", "windows").unwrap().unwrap();
    assert_eq!(run.args, vec!["/select,/etc/passwd".to_string()]);
    let run = plan_reveal(&projects, "file", "macos").unwrap().unwrap();
    assert_eq!(run.program, "open");
    assert_eq!(run.args, vec!["-R".to_string(), "/etc/passwd".to_string()]);
    assert!(plan_reveal(&projects, "dir", "linux").unwrap().is_none());
}

#[test]
fn launch_commands_follow_the_installation_kind() {
    let projects = vec![project("p1", "业务", vec![module("ok", "Site", Some((".", "directory")), Some("webstorm"))])];
    let installations = vec![
        installation("webstorm", "macos", true, "available", "macosApp", "/Applications/WebStorm.app"),
        installation("webstorm", "windows", true, "available", "command", "webstorm"),
        installation("webstorm", "linux", true, "available", "executable", "/opt/ws/bin/webstorm.sh"),
    ];
    let mac = plan_launch(100, None, &projects, "ok", None, &installations, "macos").unwrap();
    let c = launch_command(&mac, None, false).unwrap();
    assert_eq!(c.program, "open");
    assert_eq!(c.args, vec!["-a".to_string(), "/Applications/WebStorm.app".to_string(), ".".to_string()]);
    assert!(!c.hidden_console);

    let win = plan_launch(100, None, &projects, "ok", None, &installations, "windows").unwrap();
    assert_eq!(
        launch_command(&win, None, true).unwrap_err().message(),
        "找不到 PATH 命令：webstorm"
    );
    let c = launch_command(&win, Some(r"C:\Tools\ws.cmd".to_string()), true).unwrap();
    assert_eq!(c.program, "cmd.exe");
    assert_eq!(
        c.args,
        vec![
            "/D".to_string(),
            "/S".to_string(),
            "/C".to_string(),
            r#""C:\Tools\ws.cmd" "." "--name=Site""#.to_string()
        ]
    );
    assert!(c.hidden_console);
    let c = launch_command(&win, Some(r"C:\Tools\ws.CMD".to_string()), true).unwrap();
    assert_eq!(c.program, r"C:\Tools\ws.CMD");
    assert_eq!(c.args, vec![".".to_string(), "--name=Site".to_string()]);
    let c = launch_command(&win, Some("/usr/bin/ws.cmd".to_string()), false).unwrap();
    assert_eq!(c.program, "/usr/bin/ws.cmd");

    let linux = plan_launch(100, None, &projects, "ok", None, &installations, "linux").unwrap();
    let c = launch_command(&linux, None, false).unwrap();
    assert_eq!(c.program, "/opt/ws/bin/webstorm.sh");
    assert_eq!(c.args, vec![".".to_string(), "--name=Site".to_string()]);
    assert!(c.hidden_console);
}

#[test]
fn parents_follow_the_path_components() {
    assert_eq!(parent_directory("a//b"), "a");
    assert_eq!(parent_directory("a/b/"), "a");
    assert_eq!(parent_directory("C:"), "C:");
    assert_eq!(parent_directory("C:x"), "C:");
    assert_eq!(parent_directory(r"C:\"), r"C:\");
    assert_eq!(parent_directory("/"), "/");
    assert_eq!(parent_directory("./x"), ".");
    assert_eq!(parent_directory("."), "");
    assert_eq!(parent_directory("a/./b"), "a");
    assert_eq!(parent_directory("a/b/."), "a");
    assert_eq!(parent_directory("a/.."), "a");
    assert_eq!(parent_directory(r"D:\项目 目录\\API\\"), r"D:\项目 目录");
}

#[test]
fn directories_for_files_and_directories() {
    assert_eq!(directory_for("a//b", false), "a");
    assert_eq!(directory_for("a//b", true), "a//b");
    let args = args_for(&vec!["{directory}".into(), "{path}".into()], r"D:\x\y.sln", false, "n");
    assert_eq!(args, vec![r"D:\x".to_string(), r"D:\x\y.sln".to_string()]);
}

#[test]
fn launch_decisions_given_the_path_status() {
    let projects = vec![project("p", "P", vec![
        module("m", "M", Some(("/somewhere", "directory")), Some("vscode")),
        module("blank", "B", Some(("  ", "directory")), Some("vscode")),
    ])];
    let disabled = vec![installation("vscode", "windows", false, "available", "executable", "no-such-editor")];
    assert_eq!(
        plan_for_status(100, None, &projects, "m", None, &disabled, "windows", "valid", true).unwrap_err().message(),
        "P / M 的 IDE 未检测到或未启用，请前往 IDE 管理重新配置。"
    );
    assert_eq!(
        plan_for_status(100, None, &projects, "m", None, &disabled, "windows", "missing", true).unwrap_err().message(),
        "无法打开 P / M：路径 /somewhere 当前状态为 missing，请编辑项目路径。"
    );
    let usable = vec![installation("vscode", "windows", true, "available", "executable", "code.exe")];
    let plan = plan_for_status(100, None, &projects, "m", None, &usable, "windows", "valid", true).unwrap();
    assert_eq!(plan.executable, "code.exe");
    assert_eq!(plan.path, "/somewhere");
    assert_eq!(
        plan_launch(100, None, &projects, "blank", None, &usable, "windows").unwrap_err().message(),
        "无法打开 P / B：路径    当前状态为 unconfigured，请编辑项目路径。"
    );
    assert_eq!(
        plan_launch(100, Some(99), &projects, "m", None, &usable, "windows").unwrap_err().message(),
        "该项目刚刚已经提交打开，请勿重复操作。"
    );
}

#[test]
fn reveal_given_what_the_disk_says() {
    let projects = vec![project("p", "P", vec![module("m", "M", Some((r"C:\x\y.sln", "file")), None)])];
    assert_eq!(reveal_for(&projects, "m", "windows", false, false).unwrap_err(), r"路径不存在：C:\x\y.sln");
    let run = reveal_for(&projects, "m", "windows", true, true).unwrap().unwrap();
    assert_eq!(run.program, "explorer.exe");
    assert_eq!(run.args, vec![r"/select,C:\x\y.sln".to_string()]);
    let run = reveal_for(&projects, "m", "windows", true, false).unwrap().unwrap();
    assert_eq!(run.args, vec![r"C:\x\y.sln".to_string()]);
    let run = reveal_for(&projects, "m", "macos", true, false).unwrap().unwrap();
    assert_eq!(run.program, "open");
    assert_eq!(run.args, vec![r"C:\x\y.sln".to_string()]);
    assert!(reveal_for(&projects, "m", "linux", true, true).unwrap().is_none());
    assert_eq!(reveal_for(&projects, "x", "macos", true, true).unwrap_err(), "项目不存在");
}

#[test]
fn parents_of_network_and_verbatim_paths() {
    assert_eq!(parent_directory(r"\\s\t\x"), r"\\s\t\");
    assert_eq!(parent_directory(r"\\server\share\dir\app.sln"), r"\\server\share\dir");
    assert_eq!(parent_directory(r"\\s\t"), r"\\s\t");
    assert_eq!(parent_directory(r"\\s\t\"), r"\\s\t\");
    assert_eq!(parent_directory("//s/t/x"), "//s/t/");
    assert_eq!(parent_directory(r"\\s"), r"\");
    assert_eq!(parent_directory(r"\\?\C:\a\b"), r"\\?\C:\a");
    assert_eq!(parent_directory(r"\\?\C:\a\."), r"\\?\C:\a");
    assert_eq!(parent_directory(r"\\?\C:\a/b"), r"\\?\C:\");
    assert_eq!(parent_directory(r"\\?\UNC\s\t\x"), r"\\?\UNC\s\t\");
    assert_eq!(parent_directory(r"\\.\COM1\x"), r"\\.\COM1\");
    let args = resolve_args(&vec!["{directory}".into()], r"\\s\t\x", "n");
    assert_eq!(args, vec![r"\\s\t\".to_string()]);
}
