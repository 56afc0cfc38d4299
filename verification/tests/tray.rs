use project_hub::models::{Project, ProjectModule};
use project_hub::tray::{recent_modules, tray_action, tray_layout, TrayAction, TrayEntry};

fn module(id: &str, name: &str, opened: Option<i64>) -> ProjectModule {
    ProjectModule {
        id: id.into(),
        project_id: "p".into(),
        name: name.into(),
        module_type: "web".into(),
        description: None,
        tags: vec![],
        is_favorite: false,
        sort_order: 0,
        created_at: 1,
        updated_at: 1,
        path: None,
        ide_id: None,
        argument_template: vec![],
        linked_module_ids: vec![],
        last_opened_at: opened,
    }
}

fn project(id: &str, name: &str, pinned: bool, modules: Vec<ProjectModule>) -> Project {
    Project {
        id: id.into(),
        name: name.into(),
        description: None,
        icon: None,
        color: None,
        tags: vec![],
        is_favorite: false,
        is_pinned: pinned,
        sort_order: 0,
        created_at: 1,
        updated_at: 1,
        modules,
        last_opened_at: None,
    }
}

#[test]
fn recent_modules_are_the_five_newest() {
    let projects = vec![
        project("a", "甲", false, vec![module("a1", "A1", Some(10)), module("a2", "A2", None), module("a3", "A3", Some(30))]),
        project("b", "乙", true, vec![module("b1", "B1", Some(30)), module("b2", "B2", Some(5)), module("b3", "B3", Some(20))]),
        project("c", "丙", false, vec![module("c1", "C1", Some(1)), module("c2", "C2", Some(40))]),
    ];
    let recent = recent_modules(&projects);
    let ids: Vec<&str> = recent.iter().map(|e| e.module_id.as_str()).collect();
    assert_eq!(ids, vec!["c2", "a3", "b1", "b3", "a1"]);
    assert_eq!(recent[1].project_name, "甲");
    assert!(recent_modules(&vec![]).is_empty());
}

#[test]
fn tray_menu_layout() {
    let projects = vec![
        project("a", "甲", false, vec![module("a1", "", Some(10))]),
        project("b", "乙", true, vec![module("b1", "B1", None)]),
    ];
    let menu = tray_layout(&projects);
    assert_eq!(menu.len(), 8);
    match &menu[0] {
        TrayEntry::Item { id, label } => {
            assert_eq!(id, "tray-open-main");
            assert_eq!(label, "打开主窗口");
        }
        _ => panic!("main window entry first"),
    }
    match &menu[1] {
        TrayEntry::Submenu { id, label, items } => {
            assert_eq!(id, "tray-business-b");
            assert_eq!(label, "📌 乙");
            assert_eq!(items[0].id, "tray-project-b1");
            assert_eq!(items[0].label, "B1");
        }
        _ => panic!("pinned submenu second"),
    }
    assert!(matches!(menu[2], TrayEntry::Separator));
    match &menu[3] {
        TrayEntry::Item { id, label } => {
            assert_eq!(id, "tray-recent-a1");
            assert_eq!(label, " · 甲");
        }
        _ => panic!("recent entry"),
    }
    assert!(matches!(menu[4], TrayEntry::Separator));
    match &menu[5] {
        TrayEntry::Submenu { id, label, items } => {
            assert_eq!(id, "tray-business-a");
            assert_eq!(label, "甲");
            assert_eq!(items[0].label, "未命名项目");
        }
        _ => panic!("other submenu"),
    }
    assert!(matches!(menu[6], TrayEntry::Separator));
    match &menu[7] {
        TrayEntry::Item { id, label } => {
            assert_eq!(id, "tray-quit");
            assert_eq!(label, "退出");
        }
        _ => panic!("quit entry last"),
    }
    assert_eq!(tray_layout(&vec![]).len(), 3);
}

#[test]
fn tray_entries_launch_what_they_show() {
    assert!(matches!(tray_action("tray-open-main"), TrayAction::ShowMain));
    assert!(matches!(tray_action("tray-quit"), TrayAction::Quit));
    match tray_action("tray-recent-abc") {
        TrayAction::Launch(m) => assert_eq!(m, "abc"),
        _ => panic!("recent entry launches"),
    }
    match tray_action("tray-project-xyz") {
        TrayAction::Launch(m) => assert_eq!(m, "xyz"),
        _ => panic!("project entry launches"),
    }
    assert!(matches!(tray_action("tray-business-a"), TrayAction::Nothing));
    assert!(matches!(tray_action(""), TrayAction::Nothing));
}
