use project_hub::models::{
    AppSettings, ExportBundle, IdeInstallation, ModulePath, ModulePlatformConfig, Project,
    ProjectModule,
};
use project_hub::tags::json_tags;
use project_hub::transfer::{assemble_export, config_from_row, plan_import, ConfigPathRow, ConfigRow};

fn module(id: &str, name: &str, tags: &[&str], path: Option<&str>, ide: Option<&str>) -> ProjectModule {
    ProjectModule {
        id: id.into(),
        project_id: "old-p".into(),
        name: name.into(),
        module_type: "web".into(),
        description: None,
        tags: tags.iter().map(|s| s.to_string()).collect(),
        is_favorite: true,
        sort_order: 0,
        created_at: 1,
        updated_at: 1,
        path: path.map(|p| ModulePath {
            platform: "windows".into(),
            path: p.into(),
            path_kind: "directory".into(),
            validation_status: "valid".into(),
            last_validated_at: 1,
        }),
        ide_id: ide.map(|s| s.to_string()),
        argument_template: vec!["{path}".into()],
        linked_module_ids: vec![],
        last_opened_at: None,
    }
}

fn bundle(version: u32, configs: Vec<ModulePlatformConfig>) -> ExportBundle {
    ExportBundle {
        schema_version: version,
        exported_at: 5,
        projects: vec![
            Project {
                id: "old-p".into(),
                name: "业务项目".into(),
                description: Some("验收测试".into()),
                icon: None,
                color: Some("#7065e8".into()),
                tags: vec!["验收".into(), "验收".into(), " 核心 ".into()],
                is_favorite: true,
                is_pinned: false,
                sort_order: 0,
                created_at: 1,
                updated_at: 1,
                modules: vec![
                    module("old-m1", "Web", &["前端", "前端", " Web "], Some("."), Some("webstorm")),
                    module("old-m2", "Api", &[], Some("no-such-dir-here"), None),
                ],
                last_opened_at: None,
            },
            Project {
                id: "old-q".into(),
                name: "空项目".into(),
                description: None,
                icon: None,
                color: None,
                tags: vec![],
                is_favorite: false,
                is_pinned: true,
                sort_order: 1,
                created_at: 1,
                updated_at: 1,
                modules: vec![],
                last_opened_at: None,
            },
        ],
        module_platform_configs: configs,
        ide_installations: vec![IdeInstallation {
            id: "i".into(),
            ide_id: "webstorm".into(),
            platform: "windows".into(),
            executable_path: "webstorm".into(),
            launch_kind: "command".into(),
            detected_source: "manual".into(),
            status: "available".into(),
            enabled: true,
            ide_name: None,
        }],
        settings: AppSettings::default(),
    }
}

#[test]
fn newer_bundles_are_refused() {
    let b = bundle(3, vec![]);
    assert_eq!(plan_import(&b, "windows", &vec![true], 9).unwrap_err(), "配置版本 3 比当前应用支持的版本新");
}

#[test]
fn older_bundles_use_the_current_paths() {
    let b = bundle(1, vec![]);
    let plan = plan_import(&b, "windows", &vec![false], 9).unwrap();
    assert_eq!(plan.result.projects_imported, 2);
    assert_eq!(plan.result.modules_imported, 2);
    assert_eq!(plan.result.installations_imported, 1);
    assert_eq!(plan.result.missing_paths, 1);
    assert_eq!(plan.projects[0].name, "业务项目");
    assert_eq!(plan.projects[0].tags, "[\"验收\",\"核心\"]");
    assert_eq!(plan.modules[0].tags, "[\"前端\",\"Web\"]");
    assert_eq!(plan.modules[0].project_id, plan.projects[0].id);
    assert_eq!(plan.modules[1].project_id, plan.projects[0].id);
    assert_ne!(plan.modules[0].id, "old-m1");
    assert_eq!(plan.paths.len(), 2);
    assert_eq!(plan.paths[0].module_id, plan.modules[0].id);
    assert_eq!(plan.paths[0].status, "valid");
    assert_eq!(plan.paths[1].status, "missing");
    assert_eq!(plan.profiles.len(), 1);
    assert_eq!(plan.profiles[0].ide_id, "webstorm");
    assert_eq!(plan.profiles[0].argument_template, "[\"{path}\"]");
    assert_eq!(plan.installations[0].status, "missing");
    assert_eq!(plan.timestamp, 9);
}

#[test]
fn platform_configurations_apply_to_known_modules_only() {
    let configs = vec![
        ModulePlatformConfig {
            module_id: "old-m2".into(),
            platform: "macos".into(),
            path: Some(ModulePath {
                platform: "macos".into(),
                path: ".".into(),
                path_kind: "directory".into(),
                validation_status: "valid".into(),
                last_validated_at: 1,
            }),
            ide_id: Some("vscode".into()),
            argument_template: vec!["-n".into()],
        },
        ModulePlatformConfig {
            module_id: "unknown".into(),
            platform: "windows".into(),
            path: None,
            ide_id: Some("vscode".into()),
            argument_template: vec![],
        },
    ];
    let plan = plan_import(&bundle(2, configs), "windows", &vec![true], 9).unwrap();
    assert_eq!(plan.paths.len(), 1);
    assert_eq!(plan.paths[0].module_id, plan.modules[1].id);
    assert_eq!(plan.paths[0].platform, "macos");
    assert_eq!(plan.profiles.len(), 1);
    assert_eq!(plan.profiles[0].argument_template, "[\"-n\"]");
    assert_eq!(plan.result.missing_paths, 0);
    assert_eq!(plan.installations[0].status, "available");
}

#[test]
fn exported_configurations() {
    let cfg = config_from_row(ConfigRow {
        module_id: "m".into(),
        platform: "windows".into(),
        path: Some(ConfigPathRow {
            path: "D:\\a".into(),
            path_kind: "directory".into(),
            validation_status: "valid".into(),
            last_validated_at: 3,
        }),
        ide_id: Some("vscode".into()),
        argument_template: Some("not json".into()),
    });
    assert_eq!(cfg.argument_template, vec!["{path}".to_string()]);
    assert_eq!(cfg.path.unwrap().platform, "windows");
    let cfg = config_from_row(ConfigRow {
        module_id: "m".into(),
        platform: "windows".into(),
        path: None,
        ide_id: None,
        argument_template: None,
    });
    assert!(cfg.argument_template.is_empty());
    assert!(cfg.path.is_none());
    let b = assemble_export(vec![], vec![], vec![], AppSettings::default(), 77);
    assert_eq!(b.schema_version, 2);
    assert_eq!(b.exported_at, 77);
    assert_eq!(b.settings.theme, "system");
    assert_eq!(b.settings.launcher_width, 720);
}

#[test]
fn exported_projects_read_back_after_import() {
    let source = bundle(2, vec![]);
    let exported = assemble_export(
        source.projects.clone(),
        vec![],
        source.ide_installations.clone(),
        AppSettings::default(),
        5,
    );
    let plan = plan_import(&exported, "windows", &vec![true], 9).unwrap();
    assert_eq!(plan.result.projects_imported, 2);
    assert_eq!(plan.result.modules_imported, 2);
    assert_eq!(plan.projects[0].name, "业务项目");
    assert_eq!(plan.modules[0].name, "Web");
    assert_eq!(json_tags(plan.projects[0].tags.clone()), vec!["验收", "核心"]);
    assert_eq!(json_tags(plan.modules[0].tags.clone()), vec!["前端", "Web"]);
    assert_eq!(json_tags(plan.projects[1].tags.clone()), Vec::<String>::new());
    let again = assemble_export(
        vec![Project { tags: json_tags(plan.projects[0].tags.clone()), ..source.projects[0].clone() }],
        vec![],
        vec![],
        AppSettings::default(),
        6,
    );
    let second = plan_import(&again, "windows", &vec![], 10).unwrap();
    assert_eq!(json_tags(second.projects[0].tags.clone()), vec!["验收", "核心"]);
}
