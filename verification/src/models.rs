//! The records the manager keeps: business projects, their projects (modules), paths,
//! IDE definitions and installations, settings, and the export bundle.
use std::collections::HashMap;
use vstd::prelude::*;
use vstd::string::*;

verus! {

/// Version of the export bundle format written by this library.
pub const EXPORT_SCHEMA_VERSION: u32 = 2;

/// A business project grouping several code projects (modules).
#[derive(Debug, Clone)]
pub struct Project {
    pub id: String,
    pub name: String,
    pub description: Option<String>,
    pub icon: Option<String>,
    pub color: Option<String>,
    pub tags: Vec<String>,
    pub is_favorite: bool,
    pub is_pinned: bool,
    pub sort_order: i64,
    pub created_at: i64,
    pub updated_at: i64,
    pub modules: Vec<ProjectModule>,
    pub last_opened_at: Option<i64>,
}

/// What the user enters to create or edit a business project.
#[derive(Debug, Clone)]
pub struct ProjectInput {
    pub id: Option<String>,
    pub name: String,
    pub description: Option<String>,
    pub icon: Option<String>,
    pub color: Option<String>,
    pub tags: Vec<String>,
    pub is_favorite: bool,
    pub is_pinned: bool,
    pub sort_order: i64,
}

/// A code project (API, Web, App, ...) inside a business project.
#[derive(Debug, Clone)]
pub struct ProjectModule {
    pub id: String,
    pub project_id: String,
    pub name: String,
    pub module_type: String,
    pub description: Option<String>,
    pub tags: Vec<String>,
    pub is_favorite: bool,
    pub sort_order: i64,
    pub created_at: i64,
    pub updated_at: i64,
    pub path: Option<ModulePath>,
    pub ide_id: Option<String>,
    pub argument_template: Vec<String>,
    pub linked_module_ids: Vec<String>,
    pub last_opened_at: Option<i64>,
}

/// What the user enters to create or edit a code project.
#[derive(Debug, Clone)]
pub struct ModuleInput {
    pub id: Option<String>,
    pub project_id: String,
    pub name: String,
    pub module_type: String,
    pub description: Option<String>,
    pub tags: Vec<String>,
    pub is_favorite: bool,
    pub sort_order: i64,
    pub path: Option<PathInput>,
    pub ide_id: Option<String>,
    pub argument_template: Vec<String>,
    pub linked_module_ids: Vec<String>,
}

/// The target path of a code project on one platform, with its last validation.
#[derive(Debug, Clone)]
pub struct ModulePath {
    pub platform: String,
    pub path: String,
    pub path_kind: String,
    pub validation_status: String,
    pub last_validated_at: i64,
}

/// A path as the user enters it.
#[derive(Debug, Clone)]
pub struct PathInput {
    pub path: String,
    pub path_kind: String,
}

/// An IDE the manager knows how to launch.
#[derive(Debug, Clone)]
pub struct IdeDefinition {
    pub id: String,
    pub name: String,
    pub icon: String,
    pub supported_platforms: Vec<String>,
    pub supported_path_kinds: Vec<String>,
    pub built_in: bool,
    pub default_argument_template: Vec<String>,
}

/// What the user enters to define a custom IDE.
#[derive(Debug, Clone)]
pub struct IdeDefinitionInput {
    pub id: Option<String>,
    pub name: String,
    pub icon: String,
    pub supported_platforms: Vec<String>,
    pub supported_path_kinds: Vec<String>,
    pub default_argument_template: Vec<String>,
}

/// Where an IDE is installed on one platform, and whether it can be launched.
#[derive(Debug, Clone)]
pub struct IdeInstallation {
    pub id: String,
    pub ide_id: String,
    pub platform: String,
    pub executable_path: String,
    pub launch_kind: String,
    pub detected_source: String,
    pub status: String,
    pub enabled: bool,
    pub ide_name: Option<String>,
}

/// What the user (or detection) enters to register an IDE installation.
#[derive(Debug, Clone)]
pub struct IdeInstallationInput {
    pub id: Option<String>,
    pub ide_id: String,
    pub executable_path: String,
    pub launch_kind: String,
    pub detected_source: String,
    pub enabled: bool,
}

/// Application settings.
#[derive(Debug, Clone)]
pub struct AppSettings {
    pub theme: String,
    pub global_shortcut: String,
    pub launcher_width: i64,
    pub launcher_height: i64,
    pub default_ide_ids: HashMap<String, String>,
}

/// The outcome of a launch that was handed to the operating system.
#[derive(Debug, Clone)]
pub struct LaunchResult {
    pub module_id: String,
    pub project_name: String,
    pub module_name: String,
    pub ide_name: String,
    pub path: String,
    pub started: bool,
    pub message: String,
}

/// What an import added.
#[derive(Debug, Clone)]
pub struct ImportResult {
    pub projects_imported: usize,
    pub modules_imported: usize,
    pub installations_imported: usize,
    pub missing_paths: usize,
}

/// Everything the main window shows.
#[derive(Debug, Clone)]
pub struct Dashboard {
    pub projects: Vec<Project>,
    pub ide_definitions: Vec<IdeDefinition>,
    pub ide_installations: Vec<IdeInstallation>,
    pub settings: AppSettings,
}

/// The exported configuration.
#[derive(Debug, Clone)]
pub struct ExportBundle {
    pub schema_version: u32,
    pub exported_at: i64,
    pub projects: Vec<Project>,
    /// All platform-specific paths and launch profiles. `ProjectModule.path` remains the
    /// current-platform convenience value for UI callers.
    pub module_platform_configs: Vec<ModulePlatformConfig>,
    pub ide_installations: Vec<IdeInstallation>,
    pub settings: AppSettings,
}

/// The path and launch profile of one code project on one platform.
#[derive(Debug, Clone)]
pub struct ModulePlatformConfig {
    pub module_id: String,
    pub platform: String,
    pub path: Option<ModulePath>,
    pub ide_id: Option<String>,
    pub argument_template: Vec<String>,
}

/// Platforms assumed for an IDE definition that names none: Windows.
pub fn default_supported_platforms() -> (r: Vec<String>)
    ensures
        r@.len() == 1,
        r@[0]@ == "windows"@,
{
    let mut r: Vec<String> = Vec::new();
    r.push(String::from_str("windows"));
    r
}

/// Path kinds assumed for an IDE definition that names none: files and directories.
pub fn default_supported_path_kinds() -> (r: Vec<String>)
    ensures
        r@.len() == 2,
        r@[0]@ == "file"@,
        r@[1]@ == "directory"@,
{
    let mut r: Vec<String> = Vec::new();
    r.push(String::from_str("file"));
    r.push(String::from_str("directory"));
    r
}

/// The argument template used when none is given: the target path alone.
pub fn default_argument_template() -> (r: Vec<String>)
    ensures
        r@.len() == 1,
        r@[0]@ == "{path}"@,
{
    let mut r: Vec<String> = Vec::new();
    r.push(String::from_str("{path}"));
    r
}

/// The launch kind assumed for an installation that names none.
pub fn default_launch_kind() -> (r: String)
    ensures
        r@ == "executable"@,
{
    String::from_str("executable")
}

/// The source recorded for an installation entered by hand.
pub fn manual_source() -> (r: String)
    ensures
        r@ == "manual"@,
{
    String::from_str("manual")
}

/// Installations are enabled unless said otherwise.
pub fn default_enabled() -> (r: bool)
    ensures
        r,
{
    true
}

impl Default for AppSettings {
    fn default() -> (r: Self)
        ensures
            r.theme@ == "system"@,
            r.global_shortcut@ == "CommandOrControl+Shift+P"@,
            r.launcher_width == 720,
            r.launcher_height == 440,
            r.default_ide_ids@ == Map::<String, String>::empty(),
    {
        AppSettings {
            theme: String::from_str("system"),
            global_shortcut: String::from_str("CommandOrControl+Shift+P"),
            launcher_width: 720,
            launcher_height: 440,
            default_ide_ids: HashMap::new(),
        }
    }
}

/// The settings in effect: the stored ones, or the defaults when none are stored.
pub fn settings_or_default(stored: Option<AppSettings>) -> (r: AppSettings)
    ensures
        match stored {
            Some(s) => r == s,
            None => {
                &&& r.theme@ == "system"@
                &&& r.global_shortcut@ == "CommandOrControl+Shift+P"@
                &&& r.launcher_width == 720
                &&& r.launcher_height == 440
                &&& r.default_ide_ids@ == Map::<String, String>::empty()
            },
        },
{
    match stored {
        Some(s) => s,
        None => AppSettings::default(),
    }
}

} // verus!
