//! The rules of the local store: what is written when a business project, a code project, an
//! IDE definition or an installation is saved, when a deletion is allowed, and how stored rows
//! read back as records.
use vstd::prelude::*;
use vstd::string::*;

use crate::models::{
    IdeDefinition, IdeDefinitionInput, IdeInstallation, IdeInstallationInput, ModuleInput,
    ModulePath, Project, ProjectInput, ProjectModule,
};
use crate::paths::{
    classify_path, disk_answers, exists_answer, is_dir_answer, is_file_answer, is_status_of, status_text,
    validate_path,
};
use crate::tags::{
    bool_from, encode_list, encode_tags, json_list, json_tags, json_list_text, normalized,
    stored_list, stored_tags, texts,
};
use crate::text::{concat2, same_text, trim, trim_text};

verus! {

/// A lowercase hexadecimal digit.
pub open spec fn is_lower_hex(c: char) -> bool {
    ('0' <= c && c <= '9') || ('a' <= c && c <= 'f')
}

/// The hyphenated text of a random (version 4) UUID:
/// `xxxxxxxx-xxxx-4xxx-yxxx-xxxxxxxxxxxx` with lowercase hex digits and `y` in `8`..`b`.
pub open spec fn is_uuid_v4_text(s: Seq<char>) -> bool {
    &&& s.len() == 36
    &&& forall|i: int| 0 <= i < 36 ==> (if i == 8 || i == 13 || i == 18 || i == 23 {
        #[trigger] s[i] == '-'
    } else {
        is_lower_hex(s[i])
    })
    &&& s[14] == '4'
    &&& (s[19] == '8' || s[19] == '9' || s[19] == 'a' || s[19] == 'b')
}

/// A fresh identifier: `uuid::Uuid::new_v4().to_string()`. The contract states the shape of
/// the hyphenated lowercase text that uuid's `Display` writes; the digits are random.
#[verifier::external_body]
pub fn new_id() -> (r: String)
    ensures
        is_uuid_v4_text(r@),
{
    uuid::Uuid::new_v4().to_string()
}

/// The identifier a saved record gets: the one it names, or a fresh one.
pub open spec fn keeps_or_makes_id(given: Option<String>, id: Seq<char>) -> bool {
    match given {
        Some(i) => id == i@,
        None => is_uuid_v4_text(id),
    }
}

fn id_or_new(given: Option<String>) -> (r: String)
    ensures
        keeps_or_makes_id(given, r@),
{
    match given {
        Some(i) => i,
        None => new_id(),
    }
}

/// A stored boolean column: 1 for true, 0 for false.
pub open spec fn flag(b: bool) -> i64 {
    if b { 1 } else { 0 }
}

/// The row written for a business project.
#[derive(Debug, Clone)]
pub struct ProjectWrite {
    pub id: String,
    pub name: String,
    pub description: Option<String>,
    pub icon: Option<String>,
    pub color: Option<String>,
    /// The normalized tags, as a JSON list.
    pub tags: String,
    pub is_favorite: i64,
    pub is_pinned: i64,
    pub sort_order: i64,
    pub timestamp: i64,
}

/// What saving a business project writes: its trimmed name, normalized tags and flags, stamped
/// with `timestamp`. A blank name is refused.
pub fn prepare_project(input: ProjectInput, timestamp: i64) -> (r: Result<ProjectWrite, String>)
    ensures
        trim_text(input.name@).len() == 0 ==> (r matches Err(e) && e@ == "项目名称不能为空"@),
        trim_text(input.name@).len() > 0 ==> r is Ok,
        r matches Ok(w) ==> {
            &&& keeps_or_makes_id(input.id, w.id@)
            &&& w.name@ == trim_text(input.name@)
            &&& w.description == input.description
            &&& w.icon == input.icon
            &&& w.color == input.color
            &&& json_list_text(normalized(texts(input.tags@))) == w.tags@
            &&& stored_tags(w.tags@) == normalized(texts(input.tags@))
            &&& w.is_favorite == flag(input.is_favorite)
            &&& w.is_pinned == flag(input.is_pinned)
            &&& w.sort_order == input.sort_order
            &&& w.timestamp == timestamp
        },
{
    let name = trim(input.name.as_str());
    if name.unicode_len() == 0 {
        return Err(String::from_str("项目名称不能为空"));
    }
    let id = id_or_new(input.id);
    let tags = encode_tags(input.tags)?;
    Ok(ProjectWrite {
        id,
        name,
        description: input.description,
        icon: input.icon,
        color: input.color,
        tags,
        is_favorite: if input.is_favorite { 1 } else { 0 },
        is_pinned: if input.is_pinned { 1 } else { 0 },
        sort_order: input.sort_order,
        timestamp,
    })
}

/// The outcome of deleting a business project or code project that removed `rows` rows.
pub fn deletion_outcome(rows: usize) -> (r: Result<(), String>)
    ensures
        rows == 0 <==> r is Err,
        r matches Err(e) ==> e@ == "项目不存在或已删除"@,
{
    if rows == 0 {
        Err(String::from_str("项目不存在或已删除"))
    } else {
        Ok(())
    }
}

/// The path row written for a code project on one platform.
#[derive(Debug, Clone)]
pub struct PathWrite {
    pub path: String,
    pub path_kind: String,
    pub status: String,
}

/// The launch profile row written for a code project on one platform.
#[derive(Debug, Clone)]
pub struct LaunchProfileWrite {
    pub ide_id: String,
    /// The argument template as a JSON list.
    pub argument_template: String,
}

/// The rows written for a code project.
#[derive(Debug, Clone)]
pub struct ModuleWrite {
    pub id: String,
    pub project_id: String,
    pub name: String,
    pub module_type: String,
    pub description: Option<String>,
    pub tags: String,
    pub is_favorite: i64,
    pub sort_order: i64,
    pub timestamp: i64,
    /// The platform the path and the launch profile are stored under.
    pub platform: String,
    /// The path row to write, if the input names a path.
    pub path: Option<PathWrite>,
    /// The launch profile to write; none means the profile of this platform is removed.
    pub launch_profile: Option<LaunchProfileWrite>,
}

/// A code project's name must not be blank.
pub fn check_module_name(input: &ModuleInput) -> (r: Result<(), String>)
    ensures
        r is Err <==> trim_text(input.name@).len() == 0,
        r matches Err(e) ==> e@ == "项目名称不能为空"@,
{
    let name = trim(input.name.as_str());
    if name.unicode_len() == 0 {
        Err(String::from_str("项目名称不能为空"))
    } else {
        Ok(())
    }
}

/// The argument template stored for a launch profile: the given one, or `{path}` alone.
pub open spec fn effective_template(template: Seq<Seq<char>>) -> Seq<Seq<char>> {
    if template.len() == 0 {
        seq!["{path}"@]
    } else {
        template
    }
}

/// What saving a code project writes: a blank name is refused, then a project that belongs to
/// no existing business project; the name and path are trimmed, the tags normalized, the path
/// validated on the disk, and the launch profile stored with the template (`{path}` when
/// empty) or removed when no IDE is chosen.
pub fn prepare_module(
    input: ModuleInput,
    project_exists: bool,
    platform: &str,
    timestamp: i64,
) -> (r: Result<ModuleWrite, String>)
    ensures
        trim_text(input.name@).len() == 0 ==> (r matches Err(e) && e@ == "项目名称不能为空"@),
        trim_text(input.name@).len() > 0 && !project_exists ==> (r matches Err(e) && e@ == "所属业务项目不存在"@),
        trim_text(input.name@).len() > 0 && project_exists ==> r is Ok,
        r matches Ok(w) ==> {
            &&& keeps_or_makes_id(input.id, w.id@)
            &&& w.project_id == input.project_id
            &&& w.name@ == trim_text(input.name@)
            &&& w.module_type == input.module_type
            &&& w.description == input.description
            &&& json_list_text(normalized(texts(input.tags@))) == w.tags@
            &&& stored_tags(w.tags@) == normalized(texts(input.tags@))
            &&& w.is_favorite == flag(input.is_favorite)
            &&& w.sort_order == input.sort_order
            &&& w.timestamp == timestamp
            &&& w.platform@ == platform@
            &&& match input.path {
                None => w.path is None,
                Some(p) => w.path matches Some(pw) && pw.path@ == trim_text(p.path@) && pw.path_kind == p.path_kind
                    && is_status_of(pw.status@, trim_text(p.path@), p.path_kind@),
            }
            &&& match input.ide_id {
                None => w.launch_profile is None,
                Some(ide) => w.launch_profile matches Some(lp) && lp.ide_id == ide
                    && json_list_text(effective_template(texts(input.argument_template@))) == lp.argument_template@
                    && stored_list(lp.argument_template@) == effective_template(texts(input.argument_template@)),
            }
        },
{
    check_module_name(&input)?;
    if !project_exists {
        return Err(String::from_str("所属业务项目不存在"));
    }
    let name = trim(input.name.as_str());
    let id = id_or_new(input.id);
    let tags = encode_tags(input.tags)?;
    let path = match input.path {
        Some(p) => {
            let trimmed = trim(p.path.as_str());
            let status = validate_path(trimmed.as_str(), p.path_kind.as_str());
            Some(PathWrite { path: trimmed, path_kind: p.path_kind, status })
        },
        None => None,
    };
    let launch_profile = match input.ide_id {
        Some(ide) => {
            let args = if input.argument_template.len() == 0 {
                let mut d: Vec<String> = Vec::new();
                d.push(String::from_str("{path}"));
                assert(texts(d@) =~= seq!["{path}"@]);
                d
            } else {
                input.argument_template
            };
            let encoded = encode_list(&args)?;
            Some(LaunchProfileWrite { ide_id: ide, argument_template: encoded })
        },
        None => None,
    };
    Ok(ModuleWrite {
        id,
        project_id: input.project_id,
        name,
        module_type: input.module_type,
        description: input.description,
        tags,
        is_favorite: if input.is_favorite { 1 } else { 0 },
        sort_order: input.sort_order,
        timestamp,
        platform: String::from_str(platform),
        path,
        launch_profile,
    })
}

/// The status a saved code project's path is written with is what the disk says of that
/// (trimmed) path: `unconfigured` exactly when it is blank; otherwise `missing` when the disk
/// answers that it does not exist, and `valid` only when the disk answers that it exists (and,
/// for the kinds `file` and `directory`, that it is one).
pub proof fn lemma_saved_path_status_follows_disk(
    input: ModuleInput,
    project_exists: bool,
    platform: &str,
    timestamp: i64,
    r: Result<ModuleWrite, String>,
)
    requires
        call_ensures(prepare_module, (input, project_exists, platform, timestamp), r),
        r matches Ok(w) && w.path is Some,
    ensures
        ({
            let pw = r->Ok_0.path->Some_0;
            &&& trim_text(pw.path@).len() == 0 <==> pw.status@ == "unconfigured"@
            &&& trim_text(pw.path@).len() > 0 ==> exists|e: bool| #![trigger exists_answer(pw.path@, e)]
                exists_answer(pw.path@, e)
                && (!e ==> pw.status@ == "missing"@)
                && (pw.status@ == "valid"@ ==> e)
                && (pw.status@ == "valid"@ && pw.path_kind@ == "file"@ ==> is_file_answer(pw.path@, true))
                && (pw.status@ == "valid"@ && pw.path_kind@ == "directory"@ ==> is_dir_answer(pw.path@, true))
        }),
{
    let w = r->Ok_0;
    let pw = w.path->Some_0;
    let p = input.path->Some_0;
    assert(pw.path@ == trim_text(p.path@));
    crate::tags::lemma_trim_idempotent(p.path@);
    assert(is_status_of(pw.status@, pw.path@, pw.path_kind@));
    let (e, f, d) = choose|e: bool, f: bool, d: bool| disk_answers(pw.path@, pw.path_kind@, e, f, d)
        && pw.status@ == status_text(classify_path(pw.path@, pw.path_kind@, e, f, d));
    reveal_strlit("unconfigured");
    reveal_strlit("missing");
    reveal_strlit("wrongKind");
    reveal_strlit("valid");
    assert("missing"@.len() != "unconfigured"@.len());
    assert("wrongKind"@.len() != "unconfigured"@.len());
    assert("valid"@.len() != "unconfigured"@.len());
    assert("valid"@.len() != "missing"@.len());
    assert("valid"@.len() != "wrongKind"@.len());
    if trim_text(pw.path@).len() > 0 {
        assert(exists_answer(pw.path@, e));
    }
}

/// The row written for an IDE definition.
#[derive(Debug, Clone)]
pub struct IdeDefinitionWrite {
    pub id: String,
    pub name: String,
    pub icon: String,
    /// JSON lists.
    pub supported_platforms: String,
    pub supported_path_kinds: String,
    pub default_argument_template: String,
}

/// The identifier of a custom IDE definition: `custom-` followed by a fresh id.
pub open spec fn is_custom_ide_id(id: Seq<char>) -> bool {
    &&& id.len() == 43
    &&& id.take(7) == "custom-"@
    &&& is_uuid_v4_text(id.skip(7))
}

/// A list, or `fallback` when it is empty.
pub open spec fn or_default(items: Seq<Seq<char>>, fallback: Seq<Seq<char>>) -> Seq<Seq<char>> {
    if items.len() == 0 { fallback } else { items }
}

/// What saving an IDE definition writes: a blank name is refused; the name is trimmed; a new
/// definition gets a `custom-` id; empty lists default to the current platform, to files and
/// directories, and to the `{path}` template.
pub fn prepare_ide_definition(input: IdeDefinitionInput, platform: &str) -> (r: Result<IdeDefinitionWrite, String>)
    ensures
        trim_text(input.name@).len() == 0 ==> (r matches Err(e) && e@ == "IDE 名称不能为空"@),
        trim_text(input.name@).len() > 0 ==> r is Ok,
        r matches Ok(w) ==> {
            &&& match input.id {
                Some(i) => w.id == i,
                None => is_custom_ide_id(w.id@),
            }
            &&& w.name@ == trim_text(input.name@)
            &&& w.icon == input.icon
            &&& json_list_text(or_default(texts(input.supported_platforms@), seq![platform@])) == w.supported_platforms@
            &&& json_list_text(or_default(texts(input.supported_path_kinds@), seq!["file"@, "directory"@])) == w.supported_path_kinds@
            &&& json_list_text(or_default(texts(input.default_argument_template@), seq!["{path}"@])) == w.default_argument_template@
            &&& stored_list(w.supported_platforms@) == or_default(texts(input.supported_platforms@), seq![platform@])
            &&& stored_list(w.supported_path_kinds@) == or_default(texts(input.supported_path_kinds@), seq!["file"@, "directory"@])
            &&& stored_list(w.default_argument_template@) == or_default(texts(input.default_argument_template@), seq!["{path}"@])
        },
{
    let name = trim(input.name.as_str());
    if name.unicode_len() == 0 {
        return Err(String::from_str("IDE 名称不能为空"));
    }
    let id = match input.id {
        Some(i) => i,
        None => {
            let fresh = new_id();
            let r = concat2("custom-", fresh.as_str());
            proof {
                reveal_strlit("custom-");
                assert(r@.take(7) =~= "custom-"@);
                assert(r@.skip(7) =~= fresh@);
            }
            r
        },
    };
    let template = if input.default_argument_template.len() == 0 {
        let mut d: Vec<String> = Vec::new();
        d.push(String::from_str("{path}"));
        assert(texts(d@) =~= seq!["{path}"@]);
        d
    } else {
        input.default_argument_template
    };
    let platforms = if input.supported_platforms.len() == 0 {
        let mut d: Vec<String> = Vec::new();
        d.push(String::from_str(platform));
        assert(texts(d@) =~= seq![platform@]);
        d
    } else {
        input.supported_platforms
    };
    let kinds = if input.supported_path_kinds.len() == 0 {
        let mut d: Vec<String> = Vec::new();
        d.push(String::from_str("file"));
        d.push(String::from_str("directory"));
        assert(texts(d@) =~= seq!["file"@, "directory"@]);
        d
    } else {
        input.supported_path_kinds
    };
    let encoded_platforms = encode_list(&platforms)?;
    let encoded_kinds = encode_list(&kinds)?;
    let encoded_template = encode_list(&template)?;
    Ok(IdeDefinitionWrite {
        id,
        name,
        icon: input.icon,
        supported_platforms: encoded_platforms,
        supported_path_kinds: encoded_kinds,
        default_argument_template: encoded_template,
    })
}

/// The IDEs the store knows from the start: id (also the icon), name and platforms, in order.
pub open spec fn builtin_ide_table() -> Seq<(Seq<char>, Seq<char>, Seq<Seq<char>>)> {
    seq![
        ("rider"@, "JetBrains Rider"@, seq!["windows"@, "macos"@]),
        ("webstorm"@, "JetBrains WebStorm"@, seq!["windows"@, "macos"@]),
        ("visual-studio"@, "Microsoft Visual Studio"@, seq!["windows"@]),
        ("vscode"@, "Visual Studio Code"@, seq!["windows"@, "macos"@]),
        ("hbuilderx"@, "HBuilderX"@, seq!["windows"@, "macos"@]),
    ]
}

/// `d` is the built-in definition of the entry `e` of the table.
pub open spec fn is_builtin_definition(d: IdeDefinition, e: (Seq<char>, Seq<char>, Seq<Seq<char>>)) -> bool {
    &&& d.id@ == e.0
    &&& d.name@ == e.1
    &&& d.icon@ == e.0
    &&& texts(d.supported_platforms@) == e.2
    &&& texts(d.supported_path_kinds@) == seq!["file"@, "directory"@]
    &&& texts(d.default_argument_template@) == seq!["{path}"@]
    &&& d.built_in
}

fn builtin_definition(id: &str, name: &str, macos: bool) -> (r: IdeDefinition)
    ensures
        r.id@ == id@,
        r.name@ == name@,
        r.icon@ == id@,
        texts(r.supported_platforms@) == (if macos { seq!["windows"@, "macos"@] } else { seq!["windows"@] }),
        texts(r.supported_path_kinds@) == seq!["file"@, "directory"@],
        texts(r.default_argument_template@) == seq!["{path}"@],
        r.built_in,
{
    let mut platforms: Vec<String> = Vec::new();
    platforms.push(String::from_str("windows"));
    if macos {
        platforms.push(String::from_str("macos"));
    }
    let mut kinds: Vec<String> = Vec::new();
    kinds.push(String::from_str("file"));
    kinds.push(String::from_str("directory"));
    let mut template: Vec<String> = Vec::new();
    template.push(String::from_str("{path}"));
    proof {
        if macos {
            assert(texts(platforms@) =~= seq!["windows"@, "macos"@]);
        } else {
            assert(texts(platforms@) =~= seq!["windows"@]);
        }
        assert(texts(kinds@) =~= seq!["file"@, "directory"@]);
        assert(texts(template@) =~= seq!["{path}"@]);
    }
    IdeDefinition {
        id: String::from_str(id),
        name: String::from_str(name),
        icon: String::from_str(id),
        supported_platforms: platforms,
        supported_path_kinds: kinds,
        built_in: true,
        default_argument_template: template,
    }
}

/// The built-in IDE definitions the store is seeded with: Rider, WebStorm, Visual Studio
/// (Windows only), VS Code and HBuilderX, each for files and directories with the `{path}`
/// template.
pub fn builtin_ide_definitions() -> (r: Vec<IdeDefinition>)
    ensures
        r.len() == builtin_ide_table().len(),
        forall|i: int| 0 <= i < r.len() ==> is_builtin_definition(#[trigger] r@[i], builtin_ide_table()[i]),
{
    let mut r: Vec<IdeDefinition> = Vec::new();
    r.push(builtin_definition("rider", "JetBrains Rider", true));
    r.push(builtin_definition("webstorm", "JetBrains WebStorm", true));
    r.push(builtin_definition("visual-studio", "Microsoft Visual Studio", false));
    r.push(builtin_definition("vscode", "Visual Studio Code", true));
    r.push(builtin_definition("hbuilderx", "HBuilderX", true));
    proof {
        let t = builtin_ide_table();
        assert(is_builtin_definition(r@[0], t[0]));
        assert(is_builtin_definition(r@[1], t[1]));
        assert(is_builtin_definition(r@[2], t[2]));
        assert(is_builtin_definition(r@[3], t[3]));
        assert(is_builtin_definition(r@[4], t[4]));
    }
    r
}

/// Whether an IDE definition whose stored `built_in` flag is `built_in` (none when there is no
/// such definition) may be deleted: built-in definitions and missing ones may not.
pub fn ide_deletion(built_in: Option<i64>) -> (r: Result<(), String>)
    ensures
        built_in == Some(1i64) ==> (r matches Err(e) && e@ == "内置 IDE 不能删除"@),
        built_in is None ==> (r matches Err(e) && e@ == "IDE 不存在或已删除"@),
        (built_in matches Some(b) && b != 1) <==> r is Ok,
{
    match built_in {
        Some(1) => Err(String::from_str("内置 IDE 不能删除")),
        Some(_) => Ok(()),
        None => Err(String::from_str("IDE 不存在或已删除")),
    }
}

/// An installation's executable path, trimmed; a blank path is refused.
pub fn check_installation(input: &IdeInstallationInput) -> (r: Result<String, String>)
    ensures
        trim_text(input.executable_path@).len() == 0 <==> r is Err,
        r matches Err(e) ==> e@ == "IDE 路径不能为空"@,
        r matches Ok(p) ==> p@ == trim_text(input.executable_path@),
{
    let exe = trim(input.executable_path.as_str());
    if exe.unicode_len() == 0 {
        Err(String::from_str("IDE 路径不能为空"))
    } else {
        Ok(exe)
    }
}

/// The row written for an installation.
#[derive(Debug, Clone)]
pub struct InstallationWrite {
    pub id: String,
    pub ide_id: String,
    pub platform: String,
    pub executable_path: String,
    pub launch_kind: String,
    pub detected_source: String,
    pub status: String,
    pub enabled: i64,
    /// Whether the other manual installations of the same IDE on this platform are removed
    /// first, so that one manual installation per IDE and platform remains.
    pub replaces_manual: bool,
}

/// What saving an installation writes, given whether its trimmed target can be launched: a
/// blank path is refused; the status is `available` or `missing`; a manual installation
/// replaces the other manual ones of its IDE on this platform.
pub fn prepare_installation(
    input: IdeInstallationInput,
    platform: &str,
    available: bool,
) -> (r: Result<InstallationWrite, String>)
    ensures
        trim_text(input.executable_path@).len() == 0 <==> r is Err,
        r matches Err(e) ==> e@ == "IDE 路径不能为空"@,
        r matches Ok(w) ==> {
            &&& keeps_or_makes_id(input.id, w.id@)
            &&& w.ide_id == input.ide_id
            &&& w.platform@ == platform@
            &&& w.executable_path@ == trim_text(input.executable_path@)
            &&& w.launch_kind == input.launch_kind
            &&& w.detected_source == input.detected_source
            &&& w.status@ == (if available { "available"@ } else { "missing"@ })
            &&& w.enabled == flag(input.enabled)
            &&& w.replaces_manual == (input.detected_source@ == "manual"@)
        },
{
    let exe = check_installation(&input)?;
    let id = id_or_new(input.id);
    let replaces_manual = same_text(input.detected_source.as_str(), "manual");
    Ok(InstallationWrite {
        id,
        ide_id: input.ide_id,
        platform: String::from_str(platform),
        executable_path: exe,
        launch_kind: input.launch_kind,
        detected_source: input.detected_source,
        status: String::from_str(crate::paths::installation_status(available)),
        enabled: if input.enabled { 1 } else { 0 },
        replaces_manual,
    })
}

/// The first installation of `ide_id` on `platform` at `executable_path`.
pub fn find_installation(
    installations: &Vec<IdeInstallation>,
    ide_id: &str,
    platform: &str,
    executable_path: &str,
) -> (r: Option<usize>)
    ensures
        match r {
            Some(i) => i < installations.len() && installations@[i as int].ide_id@ == ide_id@
                && installations@[i as int].platform@ == platform@
                && installations@[i as int].executable_path@ == executable_path@
                && forall|j: int| 0 <= j < i ==> !(installations@[j].ide_id@ == ide_id@
                    && installations@[j].platform@ == platform@
                    && installations@[j].executable_path@ == executable_path@),
            None => forall|j: int| 0 <= j < installations.len() ==> !(installations@[j].ide_id@ == ide_id@
                && installations@[j].platform@ == platform@
                && installations@[j].executable_path@ == executable_path@),
        },
{
    let mut i: usize = 0;
    while i < installations.len()
        invariant
            i <= installations.len(),
            forall|j: int| 0 <= j < i ==> !(installations@[j].ide_id@ == ide_id@
                && installations@[j].platform@ == platform@
                && installations@[j].executable_path@ == executable_path@),
        decreases installations.len() - i,
    {
        let it = &installations[i];
        if same_text(it.ide_id.as_str(), ide_id) && same_text(it.platform.as_str(), platform)
            && same_text(it.executable_path.as_str(), executable_path) {
            return Some(i);
        }
        i = i + 1;
    }
    None
}

/// The first IDE definition with id `id`.
pub fn find_ide_definition(definitions: &Vec<IdeDefinition>, id: &str) -> (r: Option<usize>)
    ensures
        match r {
            Some(i) => i < definitions.len() && definitions@[i as int].id@ == id@
                && forall|j: int| 0 <= j < i ==> definitions@[j].id@ != id@,
            None => forall|j: int| 0 <= j < definitions.len() ==> definitions@[j].id@ != id@,
        },
{
    let mut i: usize = 0;
    while i < definitions.len()
        invariant
            i <= definitions.len(),
            forall|j: int| 0 <= j < i ==> definitions@[j].id@ != id@,
        decreases definitions.len() - i,
    {
        if same_text(definitions[i].id.as_str(), id) {
            return Some(i);
        }
        i = i + 1;
    }
    None
}

/// A stored business project row, as the store returns it.
#[derive(Debug, Clone)]
pub struct ProjectRow {
    pub id: String,
    pub name: String,
    pub description: Option<String>,
    pub icon: Option<String>,
    pub color: Option<String>,
    /// JSON list.
    pub tags: String,
    pub is_favorite: i64,
    pub is_pinned: i64,
    pub sort_order: i64,
    pub created_at: i64,
    pub updated_at: i64,
    pub last_opened_at: Option<i64>,
}

/// The business project a row stands for, holding `modules`.
pub fn project_from_row(row: ProjectRow, modules: Vec<ProjectModule>) -> (r: Project)
    ensures
        r.id == row.id,
        r.name == row.name,
        r.description == row.description,
        r.icon == row.icon,
        r.color == row.color,
        texts(r.tags@) == stored_tags(row.tags@),
        r.is_favorite == (row.is_favorite != 0),
        r.is_pinned == (row.is_pinned != 0),
        r.sort_order == row.sort_order,
        r.created_at == row.created_at,
        r.updated_at == row.updated_at,
        r.modules == modules,
        r.last_opened_at == row.last_opened_at,
{
    Project {
        id: row.id,
        name: row.name,
        description: row.description,
        icon: row.icon,
        color: row.color,
        tags: json_tags(row.tags),
        is_favorite: bool_from(row.is_favorite),
        is_pinned: bool_from(row.is_pinned),
        sort_order: row.sort_order,
        created_at: row.created_at,
        updated_at: row.updated_at,
        modules,
        last_opened_at: row.last_opened_at,
    }
}

/// A stored code project row, joined with its path and launch profile on this platform.
#[derive(Debug, Clone)]
pub struct ModuleRow {
    pub id: String,
    pub project_id: String,
    pub name: String,
    pub module_type: String,
    pub description: Option<String>,
    /// JSON list.
    pub tags: String,
    pub is_favorite: i64,
    pub sort_order: i64,
    pub created_at: i64,
    pub updated_at: i64,
    pub path: Option<ModulePath>,
    pub ide_id: Option<String>,
    /// JSON list, absent without a launch profile.
    pub argument_template: Option<String>,
    pub last_opened_at: Option<i64>,
}

/// The argument template a code project reads back: the stored list, or `{path}` alone when
/// there is no launch profile.
pub open spec fn read_template(stored: Option<String>) -> Seq<Seq<char>> {
    match stored {
        Some(t) => stored_list(t@),
        None => seq!["{path}"@],
    }
}

/// The code project a row stands for.
pub fn module_from_row(row: ModuleRow) -> (r: ProjectModule)
    ensures
        r.id == row.id,
        r.project_id == row.project_id,
        r.name == row.name,
        r.module_type == row.module_type,
        r.description == row.description,
        texts(r.tags@) == stored_tags(row.tags@),
        r.is_favorite == (row.is_favorite != 0),
        r.sort_order == row.sort_order,
        r.created_at == row.created_at,
        r.updated_at == row.updated_at,
        r.path == row.path,
        r.ide_id == row.ide_id,
        texts(r.argument_template@) == read_template(row.argument_template),
        r.linked_module_ids@.len() == 0,
        r.last_opened_at == row.last_opened_at,
{
    let template = match row.argument_template {
        Some(t) => json_list(t),
        None => {
            let mut d: Vec<String> = Vec::new();
            d.push(String::from_str("{path}"));
            assert(texts(d@) =~= seq!["{path}"@]);
            d
        },
    };
    ProjectModule {
        id: row.id,
        project_id: row.project_id,
        name: row.name,
        module_type: row.module_type,
        description: row.description,
        tags: json_tags(row.tags),
        is_favorite: bool_from(row.is_favorite),
        sort_order: row.sort_order,
        created_at: row.created_at,
        updated_at: row.updated_at,
        path: row.path,
        ide_id: row.ide_id,
        argument_template: template,
        linked_module_ids: Vec::new(),
        last_opened_at: row.last_opened_at,
    }
}

/// A stored IDE definition row.
#[derive(Debug, Clone)]
pub struct IdeDefinitionRow {
    pub id: String,
    pub name: String,
    pub icon: String,
    /// JSON lists.
    pub supported_platforms: String,
    pub supported_path_kinds: String,
    pub built_in: i64,
    pub default_argument_template: String,
}

/// The IDE definition a row stands for.
pub fn ide_definition_from_row(row: IdeDefinitionRow) -> (r: IdeDefinition)
    ensures
        r.id == row.id,
        r.name == row.name,
        r.icon == row.icon,
        texts(r.supported_platforms@) == stored_list(row.supported_platforms@),
        texts(r.supported_path_kinds@) == stored_list(row.supported_path_kinds@),
        r.built_in == (row.built_in != 0),
        texts(r.default_argument_template@) == stored_list(row.default_argument_template@),
{
    IdeDefinition {
        id: row.id,
        name: row.name,
        icon: row.icon,
        supported_platforms: json_list(row.supported_platforms),
        supported_path_kinds: json_list(row.supported_path_kinds),
        built_in: bool_from(row.built_in),
        default_argument_template: json_list(row.default_argument_template),
    }
}

/// A stored installation row, joined with the name of its IDE.
#[derive(Debug, Clone)]
pub struct InstallationRow {
    pub id: String,
    pub ide_id: String,
    pub platform: String,
    pub executable_path: String,
    pub launch_kind: String,
    pub detected_source: String,
    pub status: String,
    pub enabled: i64,
    pub ide_name: String,
}

/// The installation a row stands for.
pub fn installation_from_row(row: InstallationRow) -> (r: IdeInstallation)
    ensures
        r.id == row.id,
        r.ide_id == row.ide_id,
        r.platform == row.platform,
        r.executable_path == row.executable_path,
        r.launch_kind == row.launch_kind,
        r.detected_source == row.detected_source,
        r.status == row.status,
        r.enabled == (row.enabled != 0),
        r.ide_name == Some(row.ide_name),
{
    IdeInstallation {
        id: row.id,
        ide_id: row.ide_id,
        platform: row.platform,
        executable_path: row.executable_path,
        launch_kind: row.launch_kind,
        detected_source: row.detected_source,
        status: row.status,
        enabled: bool_from(row.enabled),
        ide_name: Some(row.ide_name),
    }
}

} // verus!
