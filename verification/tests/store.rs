use project_hub::tags::json_list;
use project_hub::models::{settings_or_default, AppSettings, IdeDefinitionInput, IdeInstallationInput, ModuleInput, ModulePath, PathInput, ProjectInput};
use project_hub::store::{
    builtin_ide_definitions,
    check_installation, check_module_name, deletion_outcome, find_ide_definition, find_installation,
    ide_definition_from_row, ide_deletion, installation_from_row, module_from_row, new_id,
    prepare_ide_definition, prepare_installation, prepare_module, prepare_project, project_from_row,
    IdeDefinitionRow, InstallationRow, ModuleRow, ProjectRow,
};

fn is_uuid_text(s: &str) -> bool {
    s.len() == 36
        && s.chars().enumerate().all(|(i, c)| {
            if [8, 13, 18, 23].contains(&i) { c == '-' } else { c.is_ascii_hexdigit() && !c.is_ascii_uppercase() }
        })
        && s.chars().nth(14) == Some('4')
}

#[test]
fn fresh_ids_are_random_uuids() {
    let a = new_id();
    let b = new_id();
    assert!(is_uuid_text(&a));
    assert!(is_uuid_text(&b));
    assert_ne!(a, b);
}

fn project_input(id: Option<&str>, name: &str) -> ProjectInput {
    ProjectInput {
        id: id.map(|s| s.to_string()),
        name: name.into(),
        description: Some("验收测试".into()),
        icon: None,
        color: Some("#7065e8".into()),
        tags: vec!["验收".into(), "验收".into(), " 核心 ".into()],
        is_favorite: true,
        is_pinned: false,
        sort_order: 3,
    }
}

#[test]
fn saving_a_project_trims_and_normalizes() {
    let w = prepare_project(project_input(None, "  业务项目 "), 42).unwrap();
    assert!(is_uuid_text(&w.id));
    assert_eq!(w.name, "业务项目");
    assert_eq!(w.tags, "[\"验收\",\"核心\"]");
    assert_eq!(w.is_favorite, 1);
    assert_eq!(w.is_pinned, 0);
    assert_eq!(w.sort_order, 3);
    assert_eq!(w.timestamp, 42);
    assert_eq!(w.color.as_deref(), Some("#7065e8"));
    let w = prepare_project(project_input(Some("keep"), "x"), 1).unwrap();
    assert_eq!(w.id, "keep");
    assert_eq!(prepare_project(project_input(None, " \t"), 1).unwrap_err(), "项目名称不能为空");
}

#[test]
fn deleting_nothing_is_an_error() {
    assert_eq!(deletion_outcome(0).unwrap_err(), "项目不存在或已删除");
    assert!(deletion_outcome(1).is_ok());
}

fn module_input(name: &str, path: Option<(&str, &str)>, ide: Option<&str>, template: Vec<String>) -> ModuleInput {
    ModuleInput {
        id: None,
        project_id: "p1".into(),
        name: name.into(),
        module_type: "web".into(),
        description: None,
        tags: vec!["前端".into(), "前端".into(), " Web ".into()],
        is_favorite: true,
        sort_order: 0,
        path: path.map(|(p, k)| PathInput { path: p.into(), path_kind: k.into() }),
        ide_id: ide.map(|s| s.to_string()),
        argument_template: template,
        linked_module_ids: vec![],
    }
}

#[test]
fn saving_a_module_checks_name_then_project() {
    let blank = module_input(" ", None, None, vec![]);
    assert_eq!(check_module_name(&blank).unwrap_err(), "项目名称不能为空");
    assert_eq!(prepare_module(blank, false, "windows", 1).unwrap_err(), "项目名称不能为空");
    let orphan = module_input("Web", None, None, vec![]);
    assert!(check_module_name(&orphan).is_ok());
    assert_eq!(prepare_module(orphan, false, "windows", 1).unwrap_err(), "所属业务项目不存在");
}

#[test]
fn saving_a_module_writes_path_and_profile() {
    let w = prepare_module(module_input(" Web ", Some((" . ", "directory")), Some("webstorm"), vec![]), true, "windows", 7).unwrap();
    assert_eq!(w.name, "Web");
    assert_eq!(w.tags, "[\"前端\",\"Web\"]");
    assert_eq!(w.platform, "windows");
    let path = w.path.unwrap();
    assert_eq!(path.path, ".");
    assert_eq!(path.status, "valid");
    let profile = w.launch_profile.unwrap();
    assert_eq!(profile.ide_id, "webstorm");
    assert_eq!(profile.argument_template, "[\"{path}\"]");
    let w = prepare_module(module_input("Web", None, None, vec!["-n".into()]), true, "macos", 7).unwrap();
    assert!(w.path.is_none());
    assert!(w.launch_profile.is_none());
    let w = prepare_module(module_input("Web", None, Some("vscode"), vec!["-n".into()]), true, "macos", 7).unwrap();
    assert_eq!(w.launch_profile.unwrap().argument_template, "[\"-n\"]");
}

fn ide_input(id: Option<&str>, name: &str) -> IdeDefinitionInput {
    IdeDefinitionInput {
        id: id.map(|s| s.to_string()),
        name: name.into(),
        icon: "terminal".into(),
        supported_platforms: vec![],
        supported_path_kinds: vec![],
        default_argument_template: vec![],
    }
}

#[test]
fn custom_ide_definitions_get_defaults() {
    let w = prepare_ide_definition(ide_input(None, " 我的编辑器 "), "macos").unwrap();
    assert!(w.id.starts_with("custom-"));
    assert!(is_uuid_text(&w.id["custom-".len()..]));
    assert_eq!(w.name, "我的编辑器");
    assert_eq!(w.supported_platforms, "[\"macos\"]");
    assert_eq!(w.supported_path_kinds, "[\"file\",\"directory\"]");
    assert_eq!(w.default_argument_template, "[\"{path}\"]");
    let mut input = ide_input(Some("mine"), "我的编辑器");
    input.supported_platforms = vec!["windows".into()];
    input.supported_path_kinds = vec!["directory".into()];
    input.default_argument_template = vec!["{path}".into(), "--reuse-window".into()];
    let w = prepare_ide_definition(input, "macos").unwrap();
    assert_eq!(w.id, "mine");
    assert_eq!(w.default_argument_template, "[\"{path}\",\"--reuse-window\"]");
    assert_eq!(w.supported_platforms, "[\"windows\"]");
    assert_eq!(prepare_ide_definition(ide_input(None, ""), "windows").unwrap_err(), "IDE 名称不能为空");
}

#[test]
fn builtin_ide_definitions_cannot_be_deleted() {
    assert_eq!(ide_deletion(Some(1)).unwrap_err(), "内置 IDE 不能删除");
    assert!(ide_deletion(Some(0)).is_ok());
    assert_eq!(ide_deletion(None).unwrap_err(), "IDE 不存在或已删除");
}

fn installation_input(exe: &str, source: &str) -> IdeInstallationInput {
    IdeInstallationInput {
        id: None,
        ide_id: "custom-1".into(),
        executable_path: exe.into(),
        launch_kind: "command".into(),
        detected_source: source.into(),
        enabled: true,
    }
}

#[test]
fn saving_an_installation() {
    assert_eq!(check_installation(&installation_input("  ", "manual")).unwrap_err(), "IDE 路径不能为空");
    assert_eq!(check_installation(&installation_input(" code ", "manual")).unwrap(), "code");
    let w = prepare_installation(installation_input(" missing-editor-one ", "manual"), "windows", false).unwrap();
    assert_eq!(w.executable_path, "missing-editor-one");
    assert_eq!(w.status, "missing");
    assert!(w.replaces_manual);
    assert_eq!(w.enabled, 1);
    assert_eq!(w.platform, "windows");
    let w = prepare_installation(installation_input("code", "automatic"), "windows", true).unwrap();
    assert_eq!(w.status, "available");
    assert!(!w.replaces_manual);
    assert!(prepare_installation(installation_input("", "manual"), "windows", true).is_err());
}

#[test]
fn stored_rows_read_back() {
    let p = project_from_row(
        ProjectRow {
            id: "p".into(),
            name: "业务项目".into(),
            description: None,
            icon: None,
            color: None,
            tags: "[\"验收\",\" 核心 \",\"验收\"]".into(),
            is_favorite: 1,
            is_pinned: 0,
            sort_order: 2,
            created_at: 1,
            updated_at: 2,
            last_opened_at: Some(9),
        },
        vec![],
    );
    assert_eq!(p.tags, vec!["验收".to_string(), "核心".to_string()]);
    assert!(p.is_favorite);
    assert!(!p.is_pinned);
    let row = |template: Option<&str>| ModuleRow {
        id: "m".into(),
        project_id: "p".into(),
        name: "Web".into(),
        module_type: "web".into(),
        description: None,
        tags: "oops".into(),
        is_favorite: 0,
        sort_order: 0,
        created_at: 1,
        updated_at: 1,
        path: Some(ModulePath {
            platform: "windows".into(),
            path: ".".into(),
            path_kind: "directory".into(),
            validation_status: "valid".into(),
            last_validated_at: 1,
        }),
        ide_id: None,
        argument_template: template.map(|s| s.to_string()),
        last_opened_at: None,
    };
    let m = module_from_row(row(None));
    assert_eq!(m.argument_template, vec!["{path}".to_string()]);
    assert!(m.tags.is_empty());
    assert!(m.linked_module_ids.is_empty());
    let m = module_from_row(row(Some("[\"-a\"]")));
    assert_eq!(m.argument_template, vec!["-a".to_string()]);
    let m = module_from_row(row(Some("bad")));
    assert!(m.argument_template.is_empty());
    let d = ide_definition_from_row(IdeDefinitionRow {
        id: "vscode".into(),
        name: "Visual Studio Code".into(),
        icon: "vscode".into(),
        supported_platforms: "[\"windows\",\"macos\"]".into(),
        supported_path_kinds: "[\"file\",\"directory\"]".into(),
        built_in: 1,
        default_argument_template: "[\"{path}\"]".into(),
    });
    assert!(d.built_in);
    assert_eq!(d.supported_platforms, vec!["windows".to_string(), "macos".to_string()]);
    let defs = vec![d];
    assert_eq!(find_ide_definition(&defs, "vscode"), Some(0));
    assert_eq!(find_ide_definition(&defs, "rider"), None);
    let i = installation_from_row(InstallationRow {
        id: "i".into(),
        ide_id: "vscode".into(),
        platform: "windows".into(),
        executable_path: "code".into(),
        launch_kind: "command".into(),
        detected_source: "manual".into(),
        status: "available".into(),
        enabled: 0,
        ide_name: "Visual Studio Code".into(),
    });
    assert!(!i.enabled);
    assert_eq!(i.ide_name.as_deref(), Some("Visual Studio Code"));
    let list = vec![i];
    assert_eq!(find_installation(&list, "vscode", "windows", "code"), Some(0));
    assert_eq!(find_installation(&list, "vscode", "macos", "code"), None);
}

#[test]
fn saved_lists_read_back() {
    let mut input = ide_input(None, "我的编辑器");
    input.supported_platforms = vec!["windows".into()];
    input.supported_path_kinds = vec!["directory".into()];
    input.default_argument_template = vec!["{path}".into(), "--reuse-window".into()];
    let w = prepare_ide_definition(input, "macos").unwrap();
    assert_eq!(json_list(w.default_argument_template), vec!["{path}".to_string(), "--reuse-window".to_string()]);
    assert_eq!(json_list(w.supported_platforms), vec!["windows".to_string()]);
    assert_eq!(json_list(w.supported_path_kinds), vec!["directory".to_string()]);
    let w = prepare_module(module_input("Web", None, Some("vscode"), vec![]), true, "macos", 7).unwrap();
    assert_eq!(json_list(w.launch_profile.unwrap().argument_template), vec!["{path}".to_string()]);
}

#[test]
fn builtin_ides() {
    let defs = builtin_ide_definitions();
    let ids: Vec<&str> = defs.iter().map(|d| d.id.as_str()).collect();
    assert_eq!(ids, vec!["rider", "webstorm", "visual-studio", "vscode", "hbuilderx"]);
    assert_eq!(defs[2].name, "Microsoft Visual Studio");
    assert_eq!(defs[2].supported_platforms, vec!["windows".to_string()]);
    assert_eq!(defs[0].supported_platforms, vec!["windows".to_string(), "macos".to_string()]);
    assert_eq!(defs[4].icon, "hbuilderx");
    assert!(defs.iter().all(|d| d.built_in && d.default_argument_template == vec!["{path}".to_string()]
        && d.supported_path_kinds == vec!["file".to_string(), "directory".to_string()]));
}

#[test]
fn settings_default_when_none_are_stored() {
    let s = settings_or_default(None);
    assert_eq!(s.theme, "system");
    assert_eq!(s.launcher_height, 440);
    let mut custom = AppSettings::default();
    custom.theme = "dark".into();
    assert_eq!(settings_or_default(Some(custom)).theme, "dark");
}
