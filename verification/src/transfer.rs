//! Export and import of the whole configuration.
use vstd::prelude::*;
use vstd::string::*;

use crate::models::{
    AppSettings, ExportBundle, IdeInstallation, ImportResult, ModulePath, ModulePlatformConfig,
    Project, ProjectModule, EXPORT_SCHEMA_VERSION,
};
use crate::paths::{classify_path, is_status_of, status_text, validate_path};
use crate::store::{flag, is_uuid_v4_text, new_id};
use crate::tags::{
    clone_texts, encode_list, encode_tags, is_normal_tag_list, json_list_text, lemma_normalized_of_normal,
    normalized, stored_list, stored_tags, strings_of_json_text, texts,
};
use crate::text::{concat2, decimal, decimal_text, same_text};

verus! {

/// The argument template exported for a stored launch profile: the stored list, `{path}`
/// alone when the stored text is not a list, and nothing without a launch profile.
pub open spec fn exported_template(stored: Option<String>) -> Seq<Seq<char>> {
    match stored {
        None => seq![],
        Some(t) => match strings_of_json_text(t@) {
            Some(v) => v,
            None => seq!["{path}"@],
        },
    }
}

/// A stored path row of an exported platform configuration.
#[derive(Debug, Clone)]
pub struct ConfigPathRow {
    pub path: String,
    pub path_kind: String,
    pub validation_status: String,
    pub last_validated_at: i64,
}

/// A stored platform configuration of a code project: its path and launch profile rows.
#[derive(Debug, Clone)]
pub struct ConfigRow {
    pub module_id: String,
    pub platform: String,
    pub path: Option<ConfigPathRow>,
    pub ide_id: Option<String>,
    /// JSON list, absent without a launch profile.
    pub argument_template: Option<String>,
}

/// The exported platform configuration of a stored row.
pub fn config_from_row(row: ConfigRow) -> (r: ModulePlatformConfig)
    ensures
        r.module_id == row.module_id,
        r.platform == row.platform,
        match row.path {
            None => r.path is None,
            Some(p) => r.path matches Some(q) && q.platform == row.platform && q.path == p.path
                && q.path_kind == p.path_kind && q.validation_status == p.validation_status
                && q.last_validated_at == p.last_validated_at,
        },
        r.ide_id == row.ide_id,
        texts(r.argument_template@) == exported_template(row.argument_template),
{
    let path = match row.path {
        Some(p) => Some(ModulePath {
            platform: row.platform.clone(),
            path: p.path,
            path_kind: p.path_kind,
            validation_status: p.validation_status,
            last_validated_at: p.last_validated_at,
        }),
        None => None,
    };
    let argument_template = match row.argument_template {
        None => {
            let v: Vec<String> = Vec::new();
            assert(texts(v@) =~= Seq::<Seq<char>>::empty());
            v
        },
        Some(t) => {
            let decoded = crate::tags::decode_list(t.as_str());
            match decoded {
                Some(v) => v,
                None => {
                    let mut v: Vec<String> = Vec::new();
                    v.push(String::from_str("{path}"));
                    assert(texts(v@) =~= seq!["{path}"@]);
                    v
                },
            }
        },
    };
    ModulePlatformConfig {
        module_id: row.module_id,
        platform: row.platform,
        path,
        ide_id: row.ide_id,
        argument_template,
    }
}

/// A launch profile's argument template survives export: when the stored template is the text
/// that encoding a list of arguments wrote, the exported configuration carries exactly that
/// list, and a configuration without a launch profile exports no arguments.
pub proof fn lemma_exported_template_reads_back(
    row: ConfigRow,
    r: ModulePlatformConfig,
    args: Vec<String>,
    encoded: Result<String, String>,
)
    requires
        call_ensures(config_from_row, (row,), r),
        call_ensures(encode_list, (&args,), encoded),
    ensures
        (encoded matches Ok(s) && row.argument_template == Some(s)) ==> texts(r.argument_template@) == texts(args@),
        row.argument_template is None ==> r.argument_template@.len() == 0,
{
    assert(texts(r.argument_template@) == exported_template(row.argument_template));
}

/// The export bundle of the current configuration, written at `exported_at`.
pub fn assemble_export(
    projects: Vec<Project>,
    module_platform_configs: Vec<ModulePlatformConfig>,
    ide_installations: Vec<IdeInstallation>,
    settings: AppSettings,
    exported_at: i64,
) -> (r: ExportBundle)
    ensures
        r.schema_version == EXPORT_SCHEMA_VERSION,
        r.exported_at == exported_at,
        r.projects == projects,
        r.module_platform_configs == module_platform_configs,
        r.ide_installations == ide_installations,
        r.settings == settings,
{
    ExportBundle {
        schema_version: EXPORT_SCHEMA_VERSION,
        exported_at,
        projects,
        module_platform_configs,
        ide_installations,
        settings,
    }
}

/// All code projects of a list of business projects, in order.
pub open spec fn all_modules(projects: Seq<Project>) -> Seq<ProjectModule>
    decreases projects.len(),
{
    if projects.len() == 0 {
        seq![]
    } else {
        all_modules(projects.drop_last()) + projects.last().modules@
    }
}

/// The position of the first code project of `projects[p]` among all code projects.
pub open spec fn module_offset(projects: Seq<Project>, p: int) -> int {
    all_modules(projects.take(p)).len() as int
}

/// A platform configuration as plain values.
pub struct ConfigView {
    pub module_id: Seq<char>,
    pub platform: Seq<char>,
    /// Path and path kind.
    pub path: Option<(Seq<char>, Seq<char>)>,
    pub ide_id: Option<Seq<char>>,
    pub args: Seq<Seq<char>>,
}

pub open spec fn path_view(p: Option<ModulePath>) -> Option<(Seq<char>, Seq<char>)> {
    match p {
        Some(q) => Some((q.path@, q.path_kind@)),
        None => None,
    }
}

pub open spec fn text_view(o: Option<String>) -> Option<Seq<char>> {
    match o {
        Some(s) => Some(s@),
        None => None,
    }
}

pub open spec fn config_view(c: ModulePlatformConfig) -> ConfigView {
    ConfigView {
        module_id: c.module_id@,
        platform: c.platform@,
        path: path_view(c.path),
        ide_id: text_view(c.ide_id),
        args: texts(c.argument_template@),
    }
}

/// The configuration a code project stands for on `platform` in an older bundle that carries
/// no platform configurations.
pub open spec fn module_config_view(m: ProjectModule, platform: Seq<char>) -> ConfigView {
    ConfigView {
        module_id: m.id@,
        platform: platform,
        path: path_view(m.path),
        ide_id: text_view(m.ide_id),
        args: texts(m.argument_template@),
    }
}

/// The platform configurations an import applies: those of the bundle, or, for a bundle
/// without any, one per code project for the current platform.
pub open spec fn source_configs(bundle: ExportBundle, platform: Seq<char>) -> Seq<ConfigView> {
    if bundle.module_platform_configs@.len() == 0 {
        all_modules(bundle.projects@).map_values(|m: ProjectModule| module_config_view(m, platform))
    } else {
        bundle.module_platform_configs@.map_values(|c: ModulePlatformConfig| config_view(c))
    }
}

/// The new identifier given to the code project that had identifier `key`: the one of the
/// last code project with that identifier.
pub open spec fn lookup_last(pairs: Seq<(Seq<char>, Seq<char>)>, key: Seq<char>) -> Option<Seq<char>>
    decreases pairs.len(),
{
    if pairs.len() == 0 {
        None
    } else if pairs.last().0 == key {
        Some(pairs.last().1)
    } else {
        lookup_last(pairs.drop_last(), key)
    }
}

/// The path rows an import writes (code project, platform, path, kind), in order.
pub open spec fn imported_paths(configs: Seq<ConfigView>, pairs: Seq<(Seq<char>, Seq<char>)>) -> Seq<(Seq<char>, Seq<char>, Seq<char>, Seq<char>)>
    decreases configs.len(),
{
    if configs.len() == 0 {
        seq![]
    } else {
        let prev = imported_paths(configs.drop_last(), pairs);
        let c = configs.last();
        match (lookup_last(pairs, c.module_id), c.path) {
            (Some(mid), Some((p, k))) => prev.push((mid, c.platform, p, k)),
            _ => prev,
        }
    }
}

/// The launch profile rows an import writes (code project, platform, IDE, template), in order.
pub open spec fn imported_profiles(configs: Seq<ConfigView>, pairs: Seq<(Seq<char>, Seq<char>)>) -> Seq<(Seq<char>, Seq<char>, Seq<char>, Seq<Seq<char>>)>
    decreases configs.len(),
{
    if configs.len() == 0 {
        seq![]
    } else {
        let prev = imported_profiles(configs.drop_last(), pairs);
        let c = configs.last();
        match (lookup_last(pairs, c.module_id), c.ide_id) {
            (Some(mid), Some(ide)) => prev.push((mid, c.platform, ide, c.args)),
            _ => prev,
        }
    }
}

/// A business project row written by an import.
#[derive(Debug, Clone)]
pub struct ImportedProject {
    pub id: String,
    pub name: String,
    pub description: Option<String>,
    pub icon: Option<String>,
    pub color: Option<String>,
    pub tags: String,
    pub is_favorite: i64,
    pub sort_order: i64,
}

/// A code project row written by an import.
#[derive(Debug, Clone)]
pub struct ImportedModule {
    pub id: String,
    pub project_id: String,
    pub name: String,
    pub module_type: String,
    pub description: Option<String>,
    pub tags: String,
    pub is_favorite: i64,
    pub sort_order: i64,
}

/// A path row written by an import.
#[derive(Debug, Clone)]
pub struct ImportedPath {
    pub module_id: String,
    pub platform: String,
    pub path: String,
    pub path_kind: String,
    pub status: String,
}

/// A launch profile row written by an import.
#[derive(Debug, Clone)]
pub struct ImportedProfile {
    pub module_id: String,
    pub platform: String,
    pub ide_id: String,
    pub argument_template: String,
}

/// An installation row written by an import (its source is recorded as `import`).
#[derive(Debug, Clone)]
pub struct ImportedInstallation {
    pub id: String,
    pub ide_id: String,
    pub platform: String,
    pub executable_path: String,
    pub launch_kind: String,
    pub status: String,
    pub enabled: i64,
}

/// Everything an import writes, stamped with one time, and what it reports.
#[derive(Debug, Clone)]
pub struct ImportPlan {
    pub projects: Vec<ImportedProject>,
    pub modules: Vec<ImportedModule>,
    pub paths: Vec<ImportedPath>,
    pub profiles: Vec<ImportedProfile>,
    pub installations: Vec<ImportedInstallation>,
    pub timestamp: i64,
    pub result: ImportResult,
}

/// The old and new identifiers of the code projects an import writes, in order.
pub open spec fn id_pairs(bundle: ExportBundle, plan: ImportPlan) -> Seq<(Seq<char>, Seq<char>)> {
    Seq::new(plan.modules@.len(), |k: int| (all_modules(bundle.projects@)[k].id@, plan.modules@[k].id@))
}

pub open spec fn path_key(r: ImportedPath) -> (Seq<char>, Seq<char>, Seq<char>, Seq<char>) {
    (r.module_id@, r.platform@, r.path@, r.path_kind@)
}

/// How many path rows are not valid.
pub open spec fn count_unusable(rows: Seq<ImportedPath>) -> nat
    decreases rows.len(),
{
    if rows.len() == 0 {
        0
    } else {
        count_unusable(rows.drop_last()) + if rows.last().status@ == "valid"@ { 0nat } else { 1nat }
    }
}

/// The message for a bundle written by a newer version.
pub open spec fn too_new_text(version: u32) -> Seq<char> {
    "配置版本 "@ + decimal_text(version as nat) + " 比当前应用支持的版本新"@
}

/// The business project row an import writes for `p`.
pub open spec fn imports_project(row: ImportedProject, p: Project) -> bool {
    &&& is_uuid_v4_text(row.id@)
    &&& row.name == p.name
    &&& row.description == p.description
    &&& row.icon == p.icon
    &&& row.color == p.color
    &&& json_list_text(normalized(texts(p.tags@))) == row.tags@
    &&& stored_tags(row.tags@) == normalized(texts(p.tags@))
    &&& row.is_favorite == flag(p.is_favorite)
    &&& row.sort_order == p.sort_order
}

/// The code project row an import writes for `m` in the business project written as `pid`.
pub open spec fn imports_module(row: ImportedModule, m: ProjectModule, pid: Seq<char>) -> bool {
    &&& is_uuid_v4_text(row.id@)
    &&& row.project_id@ == pid
    &&& row.name == m.name
    &&& row.module_type == m.module_type
    &&& row.description == m.description
    &&& json_list_text(normalized(texts(m.tags@))) == row.tags@
    &&& stored_tags(row.tags@) == normalized(texts(m.tags@))
    &&& row.is_favorite == flag(m.is_favorite)
    &&& row.sort_order == m.sort_order
}

/// The installation row an import writes for `inst`.
pub open spec fn imports_installation(row: ImportedInstallation, inst: IdeInstallation, available: bool) -> bool {
    &&& is_uuid_v4_text(row.id@)
    &&& row.ide_id == inst.ide_id
    &&& row.platform == inst.platform
    &&& row.executable_path == inst.executable_path
    &&& row.launch_kind == inst.launch_kind
    &&& row.status@ == (if available { "available"@ } else { "missing"@ })
    &&& row.enabled == flag(inst.enabled)
}

proof fn lemma_all_modules_take(projects: Seq<Project>, p: int)
    requires
        0 <= p < projects.len(),
    ensures
        all_modules(projects.take(p + 1)) == all_modules(projects.take(p)) + projects[p].modules@,
{
    assert(projects.take(p + 1).drop_last() =~= projects.take(p));
    assert(projects.take(p + 1).last() == projects[p]);
}

fn clone_text(o: &Option<String>) -> (r: Option<String>)
    ensures
        r == *o,
{
    match o {
        Some(s) => Some(s.clone()),
        None => None,
    }
}

fn clone_path(o: &Option<ModulePath>) -> (r: Option<ModulePath>)
    ensures
        path_view(r) == path_view(*o),
{
    match o {
        Some(p) => Some(ModulePath {
            platform: p.platform.clone(),
            path: p.path.clone(),
            path_kind: p.path_kind.clone(),
            validation_status: p.validation_status.clone(),
            last_validated_at: p.last_validated_at,
        }),
        None => None,
    }
}

/// The position of the last pair whose old identifier is `key`.
fn find_last(old_ids: &Vec<String>, key: &str) -> (r: Option<usize>)
    ensures
        match r {
            Some(i) => i < old_ids.len() && old_ids@[i as int]@ == key@ && forall|j: int|
                i < j < old_ids.len() ==> old_ids@[j]@ != key@,
            None => forall|j: int| 0 <= j < old_ids.len() ==> old_ids@[j]@ != key@,
        },
{
    let mut j: usize = old_ids.len();
    while j > 0
        invariant
            j <= old_ids.len(),
            forall|q: int| j <= q < old_ids.len() ==> old_ids@[q]@ != key@,
        decreases j,
    {
        if same_text(old_ids[j - 1].as_str(), key) {
            return Some(j - 1);
        }
        j = j - 1;
    }
    None
}

proof fn lemma_lookup_last(pairs: Seq<(Seq<char>, Seq<char>)>, key: Seq<char>, i: int)
    requires
        0 <= i < pairs.len(),
        pairs[i].0 == key,
        forall|j: int| i < j < pairs.len() ==> pairs[j].0 != key,
    ensures
        lookup_last(pairs, key) == Some(pairs[i].1),
    decreases pairs.len(),
{
    if i < pairs.len() - 1 {
        assert(pairs.drop_last()[i] == pairs[i]);
        lemma_lookup_last(pairs.drop_last(), key, i);
    }
}

proof fn lemma_lookup_none(pairs: Seq<(Seq<char>, Seq<char>)>, key: Seq<char>)
    requires
        forall|j: int| 0 <= j < pairs.len() ==> pairs[j].0 != key,
    ensures
        lookup_last(pairs, key) is None,
    decreases pairs.len(),
{
    if pairs.len() > 0 {
        assert forall|j: int| 0 <= j < pairs.drop_last().len() implies pairs.drop_last()[j].0 != key by {
            assert(pairs.drop_last()[j] == pairs[j]);
        }
        lemma_lookup_none(pairs.drop_last(), key);
    }
}

proof fn lemma_all_modules_prefix(projects: Seq<Project>, q: int, p: int)
    requires
        0 <= q <= p <= projects.len(),
    ensures
        all_modules(projects.take(q)).len() <= all_modules(projects.take(p)).len(),
        all_modules(projects.take(p)).take(all_modules(projects.take(q)).len() as int) == all_modules(projects.take(q)),
    decreases p - q,
{
    if q < p {
        lemma_all_modules_prefix(projects, q, p - 1);
        lemma_all_modules_take(projects, p - 1);
        let a = all_modules(projects.take(q));
        let b = all_modules(projects.take(p - 1));
        let c = all_modules(projects.take(p));
        assert(c.take(a.len() as int) =~= b.take(a.len() as int));
    } else {
        let a = all_modules(projects.take(q));
        assert(a.take(a.len() as int) =~= a);
    }
}

/// The module `m` of project `q` sits at `module_offset(q) + m` among the modules of the first
/// `p` projects, for `q < p`.
proof fn lemma_module_position(projects: Seq<Project>, q: int, m: int, p: int)
    requires
        0 <= q < p <= projects.len(),
        0 <= m < projects[q].modules@.len(),
    ensures
        module_offset(projects, q) + m < all_modules(projects.take(p)).len(),
        all_modules(projects.take(p))[module_offset(projects, q) + m] == projects[q].modules@[m],
{
    lemma_all_modules_take(projects, q);
    lemma_all_modules_prefix(projects, q + 1, p);
    let b = all_modules(projects.take(q + 1));
    let c = all_modules(projects.take(p));
    assert(c.take(b.len() as int)[module_offset(projects, q) + m] == b[module_offset(projects, q) + m]);
}

/// The code project rows of one business project, with their old identifiers and their
/// configuration on the current platform.
struct ModuleBatch {
    rows: Vec<ImportedModule>,
    old_ids: Vec<String>,
    derived: Vec<ModulePlatformConfig>,
}

/// The code project rows an import writes for `project`, written as `pid`.
fn import_modules_of(project: &Project, pid: &String, platform: &str) -> (r: Result<ModuleBatch, String>)
    ensures
        r is Ok,
        r matches Ok(b) ==> {
            &&& b.rows.len() == project.modules.len()
            &&& b.old_ids.len() == project.modules.len()
            &&& b.derived.len() == project.modules.len()
            &&& forall|m: int| 0 <= m < project.modules.len() ==> imports_module(#[trigger] b.rows@[m], project.modules@[m], pid@)
            &&& forall|m: int| 0 <= m < project.modules.len() ==> (#[trigger] b.old_ids@[m])@ == project.modules@[m].id@
            &&& forall|m: int| 0 <= m < project.modules.len() ==> config_view(#[trigger] b.derived@[m]) == module_config_view(project.modules@[m], platform@)
        },
{
    let mut rows: Vec<ImportedModule> = Vec::new();
    let mut old_ids: Vec<String> = Vec::new();
    let mut derived: Vec<ModulePlatformConfig> = Vec::new();
    let mut m: usize = 0;
    while m < project.modules.len()
        invariant
            m <= project.modules.len(),
            rows.len() == m,
            old_ids.len() == m,
            derived.len() == m,
            forall|q: int| 0 <= q < m ==> imports_module(#[trigger] rows@[q], project.modules@[q], pid@),
            forall|q: int| 0 <= q < m ==> (#[trigger] old_ids@[q])@ == project.modules@[q].id@,
            forall|q: int| 0 <= q < m ==> config_view(#[trigger] derived@[q]) == module_config_view(project.modules@[q], platform@),
        decreases project.modules.len() - m,
    {
        let module = &project.modules[m];
        let mid = new_id();
        let tags = encode_tags(clone_texts(&module.tags))?;
        rows.push(ImportedModule {
            id: mid,
            project_id: pid.clone(),
            name: module.name.clone(),
            module_type: module.module_type.clone(),
            description: clone_text(&module.description),
            tags,
            is_favorite: if module.is_favorite { 1 } else { 0 },
            sort_order: module.sort_order,
        });
        old_ids.push(module.id.clone());
        derived.push(ModulePlatformConfig {
            module_id: module.id.clone(),
            platform: String::from_str(platform),
            path: clone_path(&module.path),
            ide_id: clone_text(&module.ide_id),
            argument_template: clone_texts(&module.argument_template),
        });
        m = m + 1;
    }
    Ok(ModuleBatch { rows, old_ids, derived })
}

/// The business project and code project rows of an import.
struct ProjectBatch {
    projects: Vec<ImportedProject>,
    modules: Vec<ImportedModule>,
    old_ids: Vec<String>,
    derived: Vec<ModulePlatformConfig>,
}

/// The business project and code project rows an import writes for `bundle`.
fn import_projects(bundle: &ExportBundle, platform: &str) -> (r: Result<ProjectBatch, String>)
    ensures
        r is Ok,
        r matches Ok(b) ==> {
            let all = all_modules(bundle.projects@);
            &&& b.projects.len() == bundle.projects.len()
            &&& forall|p: int| 0 <= p < bundle.projects.len() ==> imports_project(#[trigger] b.projects@[p], bundle.projects@[p])
            &&& b.modules.len() == all.len()
            &&& b.old_ids.len() == all.len()
            &&& b.derived.len() == all.len()
            &&& forall|p: int, m: int| 0 <= p < bundle.projects.len() && 0 <= m < bundle.projects@[p].modules.len()
                ==> imports_module(#[trigger] b.modules@[module_offset(bundle.projects@, p) + m], bundle.projects@[p].modules@[m], b.projects@[p].id@)
            &&& forall|k: int| 0 <= k < all.len() ==> (#[trigger] b.old_ids@[k])@ == all[k].id@
            &&& forall|k: int| 0 <= k < all.len() ==> config_view(#[trigger] b.derived@[k]) == module_config_view(all[k], platform@)
        },
{
    let ghost projs = bundle.projects@;
    let mut projects: Vec<ImportedProject> = Vec::new();
    let mut modules: Vec<ImportedModule> = Vec::new();
    let mut old_ids: Vec<String> = Vec::new();
    let mut derived: Vec<ModulePlatformConfig> = Vec::new();
    let mut p: usize = 0;
    assert(projs.take(0) =~= Seq::<Project>::empty());
    while p < bundle.projects.len()
        invariant
            projs == bundle.projects@,
            p <= projs.len(),
            projects.len() == p,
            modules.len() == all_modules(projs.take(p as int)).len(),
            old_ids.len() == modules.len(),
            derived.len() == modules.len(),
            forall|k: int| 0 <= k < modules.len() ==> (#[trigger] old_ids@[k])@ == all_modules(projs.take(p as int))[k].id@,
            forall|k: int| 0 <= k < modules.len() ==> config_view(#[trigger] derived@[k]) == module_config_view(all_modules(projs.take(p as int))[k], platform@),
            forall|q: int| 0 <= q < p ==> imports_project(#[trigger] projects@[q], projs[q]),
            forall|q: int, m: int| 0 <= q < p && 0 <= m < projs[q].modules@.len()
                ==> imports_module(#[trigger] modules@[module_offset(projs, q) + m], projs[q].modules@[m], projects@[q].id@),
        decreases projs.len() - p,
    {
        let project = &bundle.projects[p];
        let pid = new_id();
        let tags = match encode_tags(clone_texts(&project.tags)) {
            Ok(t) => t,
            Err(e) => {
                return Err(e);
            },
        };
        let ghost old_projects = projects@;
        let ghost old_modules = modules@;
        let ghost old_ids_seq = old_ids@;
        let ghost old_derived = derived@;
        projects.push(ImportedProject {
            id: pid.clone(),
            name: project.name.clone(),
            description: clone_text(&project.description),
            icon: clone_text(&project.icon),
            color: clone_text(&project.color),
            tags,
            is_favorite: if project.is_favorite { 1 } else { 0 },
            sort_order: project.sort_order,
        });
        let mut batch = match import_modules_of(project, &pid, platform) {
            Ok(b) => b,
            Err(e) => {
                return Err(e);
            },
        };
        let ghost rows = batch.rows@;
        let ghost ids = batch.old_ids@;
        let ghost cfgs = batch.derived@;
        modules.append(&mut batch.rows);
        old_ids.append(&mut batch.old_ids);
        derived.append(&mut batch.derived);
        proof {
            lemma_all_modules_take(projs, p as int);
            let before = all_modules(projs.take(p as int));
            let after = all_modules(projs.take(p + 1));
            let start = old_modules.len() as int;
            assert(after == before + projs[p as int].modules@);
            assert(module_offset(projs, p as int) == start);
            assert forall|k: int| 0 <= k < modules.len() implies (#[trigger] old_ids@[k])@ == after[k].id@ by {
                if k < start {
                    assert(old_ids@[k] == old_ids_seq[k]);
                    assert(after[k] == before[k]);
                } else {
                    assert(old_ids@[k] == ids[k - start]);
                    assert(after[k] == projs[p as int].modules@[k - start]);
                }
            }
            assert forall|k: int| 0 <= k < modules.len() implies config_view(#[trigger] derived@[k]) == module_config_view(after[k], platform@) by {
                if k < start {
                    assert(derived@[k] == old_derived[k]);
                    assert(after[k] == before[k]);
                } else {
                    assert(derived@[k] == cfgs[k - start]);
                    assert(after[k] == projs[p as int].modules@[k - start]);
                }
            }
            assert forall|q: int| 0 <= q < p + 1 implies imports_project(#[trigger] projects@[q], projs[q]) by {
                if q < p {
                    assert(projects@[q] == old_projects[q]);
                }
            }
            lemma_rows_extend(projs, old_projects, projects@, old_modules, rows, modules@, p as int, pid@);
        }
        p = p + 1;
    }
    proof {
        assert(projs.take(projs.len() as int) =~= projs);
    }
    Ok(ProjectBatch { projects, modules, old_ids, derived })
}

/// The path and profile rows of an import, and the number of unusable paths.
struct ConfigBatch {
    paths: Vec<ImportedPath>,
    profiles: Vec<ImportedProfile>,
    missing: usize,
}

/// The path and launch profile rows an import writes for `cfgs`, where the code project that
/// had identifier `old_ids[k]` is written as `modules[k]`.
fn import_configs(
    cfgs: &Vec<ModulePlatformConfig>,
    old_ids: &Vec<String>,
    modules: &Vec<ImportedModule>,
) -> (r: Result<ConfigBatch, String>)
    requires
        old_ids.len() == modules.len(),
    ensures
        ({
            let cv = cfgs@.map_values(|c: ModulePlatformConfig| config_view(c));
            let olds = texts(old_ids@);
            let pairs = Seq::new(modules@.len(), |k: int| (old_ids@[k]@, modules@[k].id@));
            &&& r is Ok
            &&& r matches Ok(b) ==> {
                &&& b.paths@.map_values(|x: ImportedPath| path_key(x)) == imported_paths(cv, pairs)
                &&& forall|i: int| 0 <= i < b.paths.len() ==> is_status_of((#[trigger] b.paths@[i]).status@, b.paths@[i].path@, b.paths@[i].path_kind@)
                &&& b.missing as nat == count_unusable(b.paths@)
                &&& b.profiles.len() == imported_profiles(cv, pairs).len()
                &&& forall|i: int| 0 <= i < b.profiles.len() ==> profile_matches(#[trigger] b.profiles@[i], imported_profiles(cv, pairs)[i])
            }
        }),
{
    let ghost cv = cfgs@.map_values(|c: ModulePlatformConfig| config_view(c));
    let ghost olds = texts(old_ids@);
    let ghost pairs = Seq::new(modules@.len(), |k: int| (old_ids@[k]@, modules@[k].id@));
    let mut paths: Vec<ImportedPath> = Vec::new();
    let mut profiles: Vec<ImportedProfile> = Vec::new();
    let mut missing: usize = 0;
    let mut c: usize = 0;
    assert(cv.take(0) =~= Seq::<ConfigView>::empty());
    assert(paths@.map_values(|x: ImportedPath| path_key(x)) =~= Seq::<(Seq<char>, Seq<char>, Seq<char>, Seq<char>)>::empty());
    while c < cfgs.len()
        invariant
            cv == cfgs@.map_values(|c: ModulePlatformConfig| config_view(c)),
            olds == texts(old_ids@),
            pairs == Seq::new(modules@.len(), |k: int| (old_ids@[k]@, modules@[k].id@)),
            old_ids.len() == modules.len(),
            c <= cfgs.len(),
            paths@.map_values(|x: ImportedPath| path_key(x)) == imported_paths(cv.take(c as int), pairs),
            forall|i: int| 0 <= i < paths.len() ==> is_status_of((#[trigger] paths@[i]).status@, paths@[i].path@, paths@[i].path_kind@),
            missing as nat == count_unusable(paths@),
            missing <= paths.len(),
            paths.len() <= c,
            profiles.len() == imported_profiles(cv.take(c as int), pairs).len(),
            forall|i: int| 0 <= i < profiles.len() ==> profile_matches(#[trigger] profiles@[i], imported_profiles(cv.take(c as int), pairs)[i]),
        decreases cfgs.len() - c,
    {
        let cfg = &cfgs[c];
        let ghost view = cv[c as int];
        assert(view == config_view(*cfg));
        proof {
            assert(cv.take(c + 1).drop_last() =~= cv.take(c as int));
            assert(cv.take(c + 1).last() == view);
        }
        let ghost old_paths = paths@;
        let ghost old_profiles = profiles@;
        match find_last(old_ids, cfg.module_id.as_str()) {
            None => {
                proof {
                    lemma_lookup_none(pairs, view.module_id);
                    assert(!olds.contains(view.module_id)) by {
                        if olds.contains(view.module_id) {
                            let k = choose|k: int| 0 <= k < olds.len() && olds[k] == view.module_id;
                            assert(olds[k] == old_ids@[k]@);
                        }
                    }
                    assert(imported_profiles(cv.take(c + 1), pairs) == imported_profiles(cv.take(c as int), pairs));
                    assert(imported_paths(cv.take(c + 1), pairs) == imported_paths(cv.take(c as int), pairs));
                }
            },
            Some(j) => {
                proof {
                    lemma_lookup_last(pairs, view.module_id, j as int);
                    assert(olds[j as int] == old_ids@[j as int]@);
                    assert(olds.contains(view.module_id));
                }
                let mid = &modules[j].id;
                match &cfg.path {
                    Some(path) => {
                        let status = validate_path(path.path.as_str(), path.path_kind.as_str());
                        let usable = same_text(status.as_str(), "valid");
                        paths.push(ImportedPath {
                            module_id: mid.clone(),
                            platform: cfg.platform.clone(),
                            path: path.path.clone(),
                            path_kind: path.path_kind.clone(),
                            status,
                        });
                        proof {
                            assert(paths@.drop_last() =~= old_paths);
                            assert(paths@.map_values(|x: ImportedPath| path_key(x)) =~= old_paths.map_values(
                                |x: ImportedPath| path_key(x),
                            ).push(path_key(paths@.last())));
                            assert forall|i: int| 0 <= i < paths.len() implies is_status_of((#[trigger] paths@[i]).status@, paths@[i].path@, paths@[i].path_kind@) by {
                                if i < old_paths.len() {
                                    assert(paths@[i] == old_paths[i]);
                                }
                            }
                        }
                        if !usable {
                            missing = missing + 1;
                        }
                    },
                    None => {
                        assert(imported_paths(cv.take(c + 1), pairs) == imported_paths(cv.take(c as int), pairs));
                    },
                }
                match &cfg.ide_id {
                    Some(ide) => {
                        let encoded = match encode_list(&cfg.argument_template) {
                            Ok(e) => e,
                            Err(e) => {
                                return Err(e);
                            },
                        };
                        profiles.push(ImportedProfile {
                            module_id: mid.clone(),
                            platform: cfg.platform.clone(),
                            ide_id: ide.clone(),
                            argument_template: encoded,
                        });
                        proof {
                            assert forall|i: int| 0 <= i < profiles.len() implies profile_matches(#[trigger] profiles@[i], imported_profiles(cv.take(c + 1), pairs)[i]) by {
                                if i < old_profiles.len() {
                                    assert(profiles@[i] == old_profiles[i]);
                                }
                            }
                        }
                    },
                    None => {
                        assert(imported_profiles(cv.take(c + 1), pairs) == imported_profiles(cv.take(c as int), pairs));
                    },
                }
            },
        }
        c = c + 1;
    }
    proof {
        assert(cv.take(cfgs.len() as int) =~= cv);
    }
    let r = ConfigBatch { paths, profiles, missing };
    assert(r.paths@.map_values(|x: ImportedPath| path_key(x)) == imported_paths(cv, pairs));
    Ok(r)
}

/// A profile row holds the code project, platform, IDE and encoded template of `want`.
pub open spec fn profile_matches(row: ImportedProfile, want: (Seq<char>, Seq<char>, Seq<char>, Seq<Seq<char>>)) -> bool {
    &&& row.module_id@ == want.0
    &&& row.platform@ == want.1
    &&& row.ide_id@ == want.2
    &&& json_list_text(want.3) == row.argument_template@
    &&& stored_list(row.argument_template@) == want.3
}

/// The installation rows an import writes.
fn import_installations(installations: &Vec<IdeInstallation>, available: &Vec<bool>) -> (r: Vec<ImportedInstallation>)
    requires
        available.len() == installations.len(),
    ensures
        r.len() == installations.len(),
        forall|i: int| 0 <= i < r.len() ==> imports_installation(#[trigger] r@[i], installations@[i], available@[i]),
{
    let mut out: Vec<ImportedInstallation> = Vec::new();
    let mut i: usize = 0;
    while i < installations.len()
        invariant
            available.len() == installations.len(),
            i <= installations.len(),
            out.len() == i,
            forall|q: int| 0 <= q < i ==> imports_installation(#[trigger] out@[q], installations@[q], available@[q]),
        decreases installations.len() - i,
    {
        let inst = &installations[i];
        let status = crate::paths::installation_status(available[i]);
        out.push(ImportedInstallation {
            id: new_id(),
            ide_id: inst.ide_id.clone(),
            platform: inst.platform.clone(),
            executable_path: inst.executable_path.clone(),
            launch_kind: inst.launch_kind.clone(),
            status: String::from_str(status),
            enabled: if inst.enabled { 1 } else { 0 },
        });
        i = i + 1;
    }
    out
}

/// Appending the rows of project `p` keeps the rows of the earlier projects in place.
proof fn lemma_rows_extend(
    projs: Seq<Project>,
    old_projects: Seq<ImportedProject>,
    projects: Seq<ImportedProject>,
    old_modules: Seq<ImportedModule>,
    rows: Seq<ImportedModule>,
    modules: Seq<ImportedModule>,
    p: int,
    pid: Seq<char>,
)
    requires
        0 <= p < projs.len(),
        old_projects.len() == p,
        projects == old_projects.push(projects.last()),
        projects.last().id@ == pid,
        old_modules.len() == module_offset(projs, p),
        rows.len() == projs[p].modules@.len(),
        modules == old_modules + rows,
        forall|q: int, m: int| 0 <= q < p && 0 <= m < projs[q].modules@.len()
            ==> imports_module(#[trigger] old_modules[module_offset(projs, q) + m], projs[q].modules@[m], old_projects[q].id@),
        forall|m: int| 0 <= m < projs[p].modules@.len() ==> imports_module(#[trigger] rows[m], projs[p].modules@[m], pid),
    ensures
        forall|q: int, m: int| 0 <= q < p + 1 && 0 <= m < projs[q].modules@.len()
            ==> imports_module(#[trigger] modules[module_offset(projs, q) + m], projs[q].modules@[m], projects[q].id@),
{
    assert forall|q: int, m: int| 0 <= q < p + 1 && 0 <= m < projs[q].modules@.len() implies
        imports_module(#[trigger] modules[module_offset(projs, q) + m], projs[q].modules@[m], projects[q].id@) by {
        if q < p {
            lemma_module_position(projs, q, m, p);
            assert(module_offset(projs, q) + m < old_modules.len());
            assert(modules[module_offset(projs, q) + m] == old_modules[module_offset(projs, q) + m]);
            assert(projects[q] == old_projects[q]);
        } else {
            assert(module_offset(projs, q) == old_modules.len());
            assert(module_offset(projs, q) + m < modules.len());
            assert(modules[module_offset(projs, q) + m] == rows[m]);
        }
    }
}

/// What importing `bundle` writes on `platform` at `timestamp`, given for each installation of
/// the bundle whether its target can be launched here. A bundle of a newer format is refused.
/// Every business project and code project is written under a fresh identifier with its
/// normalized tags; platform configurations (or, in a bundle without any, the current path and
/// profile of each code project) are applied to the code project that last carried their
/// identifier, and configurations of unknown code projects are skipped; paths are validated on
/// the disk and counted when not valid; installations are added with their launch status.
pub fn plan_import(
    bundle: &ExportBundle,
    platform: &str,
    installation_available: &Vec<bool>,
    timestamp: i64,
) -> (r: Result<ImportPlan, String>)
    requires
        installation_available.len() == bundle.ide_installations.len(),
    ensures
        bundle.schema_version > EXPORT_SCHEMA_VERSION ==> (r matches Err(e) && e@ == too_new_text(bundle.schema_version)),
        bundle.schema_version <= EXPORT_SCHEMA_VERSION ==> r is Ok,
        r matches Ok(plan) ==> import_matches(*bundle, platform@, installation_available@, timestamp, plan),
{
    if bundle.schema_version > EXPORT_SCHEMA_VERSION {
        let mut msg = String::from_str("配置版本 ");
        let v = decimal(bundle.schema_version);
        msg.append(v.as_str());
        msg.append(" 比当前应用支持的版本新");
        return Err(msg);
    }
    let batch = import_projects(bundle, platform)?;
    let ghost all = all_modules(bundle.projects@);
    let ghost cv = source_configs(*bundle, platform@);
    let cfgs: &Vec<ModulePlatformConfig> = if bundle.module_platform_configs.len() == 0 {
        &batch.derived
    } else {
        &bundle.module_platform_configs
    };
    proof {
        assert(cfgs@.map_values(|c: ModulePlatformConfig| config_view(c)) =~= cv);
        assert(texts(batch.old_ids@) =~= all.map_values(|m: ProjectModule| m.id@));
    }
    let configs = match import_configs(cfgs, &batch.old_ids, &batch.modules) {
        Ok(c) => c,
        Err(e) => {
            return Err(e);
        },
    };
    let installations = import_installations(&bundle.ide_installations, installation_available);
    let result = ImportResult {
        projects_imported: batch.projects.len(),
        modules_imported: batch.modules.len(),
        installations_imported: installations.len(),
        missing_paths: configs.missing,
    };
    let ghost pairs = Seq::new(batch.modules@.len(), |k: int| (batch.old_ids@[k]@, batch.modules@[k].id@));
    let plan = ImportPlan {
        projects: batch.projects,
        modules: batch.modules,
        paths: configs.paths,
        profiles: configs.profiles,
        installations,
        timestamp,
        result,
    };
    proof {
        assert(id_pairs(*bundle, plan) =~= pairs);
        let configs_v = source_configs(*bundle, platform@);
        assert(plan.timestamp == timestamp);
        assert(plan.projects.len() == bundle.projects.len());
        assert(forall|p: int| 0 <= p < bundle.projects.len() ==> imports_project(#[trigger] plan.projects@[p], bundle.projects@[p]));
        assert(plan.modules.len() == all_modules(bundle.projects@).len());
        assert(forall|p: int, m: int| 0 <= p < bundle.projects.len() && 0 <= m < bundle.projects@[p].modules.len()
            ==> imports_module(#[trigger] plan.modules@[module_offset(bundle.projects@, p) + m], bundle.projects@[p].modules@[m], plan.projects@[p].id@));
        assert(plan.paths@.map_values(|x: ImportedPath| path_key(x)) == imported_paths(configs_v, pairs));
        assert(plan.profiles.len() == imported_profiles(configs_v, pairs).len());
        assert(forall|i: int| 0 <= i < plan.profiles.len() ==> profile_matches(#[trigger] plan.profiles@[i], imported_profiles(configs_v, pairs)[i]));
        assert(plan.installations.len() == bundle.ide_installations.len());
        assert(plan.result.missing_paths == count_unusable(plan.paths@));
    }
    Ok(plan)
}

/// `plan` is what importing `bundle` on `platform` at `timestamp` writes.
pub open spec fn import_matches(
    bundle: ExportBundle,
    platform: Seq<char>,
    available: Seq<bool>,
    timestamp: i64,
    plan: ImportPlan,
) -> bool {
    let pairs = id_pairs(bundle, plan);
    let configs = source_configs(bundle, platform);
    &&& plan.timestamp == timestamp
    &&& plan.projects.len() == bundle.projects.len()
    &&& forall|p: int| 0 <= p < bundle.projects.len() ==> imports_project(#[trigger] plan.projects@[p], bundle.projects@[p])
    &&& plan.modules.len() == all_modules(bundle.projects@).len()
    &&& forall|p: int, m: int| 0 <= p < bundle.projects.len() && 0 <= m < bundle.projects@[p].modules.len()
        ==> imports_module(#[trigger] plan.modules@[module_offset(bundle.projects@, p) + m], bundle.projects@[p].modules@[m], plan.projects@[p].id@)
    &&& plan.paths@.map_values(|x: ImportedPath| path_key(x)) == imported_paths(configs, pairs)
    &&& forall|i: int| 0 <= i < plan.paths.len() ==> is_status_of((#[trigger] plan.paths@[i]).status@, plan.paths@[i].path@, plan.paths@[i].path_kind@)
    &&& plan.profiles.len() == imported_profiles(configs, pairs).len()
    &&& forall|i: int| 0 <= i < plan.profiles.len() ==> profile_matches(#[trigger] plan.profiles@[i], imported_profiles(configs, pairs)[i])
    &&& plan.installations.len() == bundle.ide_installations.len()
    &&& forall|i: int| 0 <= i < plan.installations.len() ==> imports_installation(#[trigger] plan.installations@[i], bundle.ide_installations@[i], available[i])
    &&& plan.result.projects_imported == plan.projects.len()
    &&& plan.result.modules_imported == plan.modules.len()
    &&& plan.result.installations_imported == plan.installations.len()
    &&& plan.result.missing_paths == count_unusable(plan.paths@)
}

/// Export, then import: each business project and code project of the bundle is written again
/// under its name, its tags read back as its exported tags normalized, and tags that were
/// already in normal form (as every list read from the store is) read back unchanged. The
/// import reports as many business projects and code projects as the bundle holds.
pub proof fn lemma_import_round_trip(
    bundle: ExportBundle,
    platform: Seq<char>,
    available: Seq<bool>,
    timestamp: i64,
    plan: ImportPlan,
)
    requires
        import_matches(bundle, platform, available, timestamp, plan),
    ensures
        plan.result.projects_imported == bundle.projects.len(),
        plan.result.modules_imported == all_modules(bundle.projects@).len(),
        forall|p: int| 0 <= p < bundle.projects.len() ==> {
            let row = #[trigger] plan.projects@[p];
            let tags = texts(bundle.projects@[p].tags@);
            &&& row.name == bundle.projects@[p].name
            &&& stored_tags(row.tags@) == normalized(tags)
            &&& is_normal_tag_list(tags) ==> stored_tags(row.tags@) == tags
        },
        forall|p: int, m: int| 0 <= p < bundle.projects.len() && 0 <= m < bundle.projects@[p].modules.len() ==> {
            let row = #[trigger] plan.modules@[module_offset(bundle.projects@, p) + m];
            let tags = texts(bundle.projects@[p].modules@[m].tags@);
            &&& row.name == bundle.projects@[p].modules@[m].name
            &&& row.project_id@ == plan.projects@[p].id@
            &&& stored_tags(row.tags@) == normalized(tags)
            &&& is_normal_tag_list(tags) ==> stored_tags(row.tags@) == tags
        },
{
    assert forall|p: int| 0 <= p < bundle.projects.len() implies {
        let row = #[trigger] plan.projects@[p];
        let tags = texts(bundle.projects@[p].tags@);
        is_normal_tag_list(tags) ==> stored_tags(row.tags@) == tags
    } by {
        let tags = texts(bundle.projects@[p].tags@);
        assert(imports_project(plan.projects@[p], bundle.projects@[p]));
        if is_normal_tag_list(tags) {
            lemma_normalized_of_normal(tags);
        }
    }
    assert forall|p: int, m: int| 0 <= p < bundle.projects.len() && 0 <= m < bundle.projects@[p].modules.len() implies {
        let row = #[trigger] plan.modules@[module_offset(bundle.projects@, p) + m];
        let tags = texts(bundle.projects@[p].modules@[m].tags@);
        &&& row.project_id@ == plan.projects@[p].id@
        &&& is_normal_tag_list(tags) ==> stored_tags(row.tags@) == tags
    } by {
        let row = plan.modules@[module_offset(bundle.projects@, p) + m];
        let tags = texts(bundle.projects@[p].modules@[m].tags@);
        assert(imports_module(row, bundle.projects@[p].modules@[m], plan.projects@[p].id@));
        if is_normal_tag_list(tags) {
            lemma_normalized_of_normal(tags);
        }
    }
}

} // verus!
