use project_hub::detect::{detected_installation, is_product_dir, jetbrains_executable, toolbox_ide, DetectedList};

#[test]
fn jetbrains_products_have_their_own_launchers() {
    assert_eq!(jetbrains_executable("rider"), "rider64.exe");
    assert_eq!(jetbrains_executable("webstorm"), "webstorm64.exe");
    assert_eq!(jetbrains_executable("anything"), "webstorm64.exe");
}

#[test]
fn toolbox_files_are_matched_without_case() {
    assert_eq!(toolbox_ide("rider64.exe"), Some("rider"));
    assert_eq!(toolbox_ide("Rider64.EXE"), Some("rider"));
    assert_eq!(toolbox_ide("WebStorm64.exe"), Some("webstorm"));
    assert_eq!(toolbox_ide("rider64.exe.bak"), None);
    assert_eq!(toolbox_ide("idea64.exe"), None);
    assert_eq!(toolbox_ide(""), None);
}

#[test]
fn each_file_is_listed_once() {
    let mut list = DetectedList::new();
    list.add_other("vscode", "code".to_string(), "command");
    list.add_file("vscode", r"C:\Program Files\Microsoft VS Code\Code.exe".to_string());
    list.add_file("rider", r"C:\Program Files\Microsoft VS Code\Code.exe".to_string());
    list.add_file("rider", r"C:\JetBrains\Rider 2024.1\bin\rider64.exe".to_string());
    assert_eq!(list.entries.len(), 3);
    assert_eq!(list.entries[0].ide_id, "vscode");
    assert_eq!(list.entries[0].path, "code");
    assert_eq!(list.entries[0].launch_kind, "command");
    assert_eq!(list.entries[1].ide_id, "vscode");
    assert_eq!(list.entries[1].launch_kind, "executable");
    assert_eq!(list.entries[2].ide_id, "rider");
    assert!(list.has_seen(r"C:\JetBrains\Rider 2024.1\bin\rider64.exe"));
    assert!(!list.has_seen("code"));
}

#[test]
fn detected_ides_are_saved_as_automatic() {
    let mut list = DetectedList::new();
    list.add_other("webstorm", "/Applications/WebStorm.app".to_string(), "macosApp");
    let input = detected_installation(list.entries[0].clone());
    assert_eq!(input.id, None);
    assert_eq!(input.ide_id, "webstorm");
    assert_eq!(input.executable_path, "/Applications/WebStorm.app");
    assert_eq!(input.launch_kind, "macosApp");
    assert_eq!(input.detected_source, "automatic");
    assert!(input.enabled);
}

#[test]
fn product_directories_start_with_the_product_name() {
    assert!(is_product_dir("Rider 2024.1", "Rider"));
    assert!(is_product_dir("WebStorm", "WebStorm"));
    assert!(!is_product_dir("rider 2024.1", "Rider"));
    assert!(!is_product_dir("Ride", "Rider"));
}
