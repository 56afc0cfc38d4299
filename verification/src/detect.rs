//! Automatic detection of installed IDEs: which files name which IDE, and the list of
//! candidates found, each path once.
use vstd::prelude::*;
use vstd::string::*;

use crate::models::IdeInstallationInput;
use crate::tags::texts;
use crate::text::{chars_of, same_text};
use crate::tray::{starts_with, strip_prefix};

verus! {

/// An IDE found on this machine: its IDE id, target and launch kind.
#[derive(Debug, Clone)]
pub struct DetectedIde {
    pub ide_id: String,
    pub path: String,
    pub launch_kind: String,
}

/// The candidates found so far, and the paths already taken.
#[derive(Debug, Clone)]
pub struct DetectedList {
    pub entries: Vec<DetectedIde>,
    pub seen: Vec<String>,
}

/// The executable inside a JetBrains product directory for `ide_id`.
pub fn jetbrains_executable(ide_id: &str) -> (r: &'static str)
    ensures
        ide_id@ == "rider"@ ==> r@ == "rider64.exe"@,
        ide_id@ != "rider"@ ==> r@ == "webstorm64.exe"@,
{
    if same_text(ide_id, "rider") {
        "rider64.exe"
    } else {
        "webstorm64.exe"
    }
}

/// Whether a directory named `name` holds an installation of the JetBrains product `product`
/// (its name starts with the product's name).
pub fn is_product_dir(name: &str, product: &str) -> (r: bool)
    ensures
        r == starts_with(name@, product@),
{
    strip_prefix(name, product).is_some()
}

/// The code of `c` lowercased in ASCII: `A`..`Z` move up by 32, every other character stays.
pub open spec fn ascii_lower(c: char) -> u32 {
    if 65 <= (c as u32) && (c as u32) <= 90 {
        (c as u32 + 32) as u32
    } else {
        c as u32
    }
}

fn lower_code(c: char) -> (r: u32)
    ensures
        r == ascii_lower(c),
{
    let code: u32 = c as u32;
    if 65 <= code && code <= 90 {
        code + 32
    } else {
        code
    }
}

/// `name` equals `word` after ASCII lowercasing.
pub open spec fn lower_equals(name: Seq<char>, word: Seq<char>) -> bool {
    &&& name.len() == word.len()
    &&& forall|i: int| 0 <= i < name.len() ==> ascii_lower(#[trigger] name[i]) == word[i] as u32
}

fn lower_eq(name: &Vec<char>, word: &str) -> (r: bool)
    ensures
        r == lower_equals(name@, word@),
{
    let w = chars_of(word);
    if name.len() != w.len() {
        return false;
    }
    let mut i: usize = 0;
    while i < name.len()
        invariant
            w@ == word@,
            name.len() == w.len(),
            i <= name.len(),
            forall|k: int| 0 <= k < i ==> ascii_lower(#[trigger] name@[k]) == w@[k] as u32,
        decreases name.len() - i,
    {
        if lower_code(name[i]) != w[i] as u32 {
            return false;
        }
        i = i + 1;
    }
    true
}

/// The IDE that a file in the JetBrains Toolbox directory starts: Rider for `rider64.exe`,
/// WebStorm for `webstorm64.exe`, compared without ASCII case.
pub fn toolbox_ide(file_name: &str) -> (r: Option<&'static str>)
    ensures
        lower_equals(file_name@, "rider64.exe"@) ==> (r matches Some(i) && i@ == "rider"@),
        !lower_equals(file_name@, "rider64.exe"@) && lower_equals(file_name@, "webstorm64.exe"@)
            ==> (r matches Some(i) && i@ == "webstorm"@),
        !lower_equals(file_name@, "rider64.exe"@) && !lower_equals(file_name@, "webstorm64.exe"@) ==> r is None,
{
    let name = chars_of(file_name);
    if lower_eq(&name, "rider64.exe") {
        Some("rider")
    } else if lower_eq(&name, "webstorm64.exe") {
        Some("webstorm")
    } else {
        None
    }
}

/// The paths of the executable files among `entries`, in order.
pub open spec fn file_paths(entries: Seq<DetectedIde>) -> Seq<Seq<char>>
    decreases entries.len(),
{
    if entries.len() == 0 {
        seq![]
    } else if entries.last().launch_kind@ == "executable"@ {
        file_paths(entries.drop_last()).push(entries.last().path@)
    } else {
        file_paths(entries.drop_last())
    }
}

impl DetectedList {
    /// The paths taken are those of the executable files listed, and no file is listed twice.
    pub open spec fn wf(&self) -> bool {
        &&& texts(self.seen@) == file_paths(self.entries@)
        &&& file_paths(self.entries@).no_duplicates()
    }

    /// An empty list.
    pub fn new() -> (r: Self)
        ensures
            r.entries@.len() == 0,
            r.seen@.len() == 0,
            r.wf(),
    {
        let r = DetectedList { entries: Vec::new(), seen: Vec::new() };
        assert(texts(r.seen@) =~= file_paths(r.entries@));
        r
    }

    /// Whether `path` was taken already.
    pub fn has_seen(&self, path: &str) -> (r: bool)
        ensures
            r == texts(self.seen@).contains(path@),
    {
        let mut i: usize = 0;
        while i < self.seen.len()
            invariant
                i <= self.seen.len(),
                forall|k: int| 0 <= k < i ==> self.seen@[k]@ != path@,
            decreases self.seen.len() - i,
        {
            if same_text(self.seen[i].as_str(), path) {
                assert(texts(self.seen@)[i as int] == path@);
                return true;
            }
            i = i + 1;
        }
        assert forall|k: int| 0 <= k < texts(self.seen@).len() implies texts(self.seen@)[k] != path@ by {
            assert(texts(self.seen@)[k] == self.seen@[k]@);
        }
        false
    }

    /// Adds an executable file found on the disk, unless its path was taken already.
    pub fn add_file(&mut self, ide_id: &str, path: String)
        requires
            old(self).wf(),
        ensures
            final(self).wf(),
            texts(old(self).seen@).contains(path@) ==> *final(self) == *old(self),
            !texts(old(self).seen@).contains(path@) ==> {
                &&& final(self).seen@ == old(self).seen@.push(path)
                &&& final(self).entries@.len() == old(self).entries@.len() + 1
                &&& final(self).entries@.take(old(self).entries@.len() as int) == old(self).entries@
                &&& final(self).entries@.last().ide_id@ == ide_id@
                &&& final(self).entries@.last().path == path
                &&& final(self).entries@.last().launch_kind@ == "executable"@
            },
    {
        if self.has_seen(path.as_str()) {
            return;
        }
        let ghost before = self.entries@;
        let ghost seen_before = texts(self.seen@);
        self.seen.push(path.clone());
        self.entries.push(DetectedIde {
            ide_id: String::from_str(ide_id),
            path,
            launch_kind: String::from_str("executable"),
        });
        proof {
            reveal_strlit("executable");
            assert(self.entries@.take(before.len() as int) =~= before);
            assert(self.entries@.drop_last() =~= before);
            assert(texts(self.seen@) =~= seen_before.push(self.entries@.last().path@));
            let fp = file_paths(self.entries@);
            assert(fp == seen_before.push(self.entries@.last().path@));
            assert forall|i: int, j: int| 0 <= i < fp.len() && 0 <= j < fp.len() && i != j
                implies fp[i] != fp[j] by {
                if i < seen_before.len() && j < seen_before.len() {
                    assert(fp[i] == seen_before[i] && fp[j] == seen_before[j]);
                } else if i < seen_before.len() {
                    assert(fp[i] == seen_before[i]);
                    assert(seen_before.contains(fp[i]));
                } else {
                    assert(fp[j] == seen_before[j]);
                    assert(seen_before.contains(fp[j]));
                }
            }
        }
    }

    /// Adds a candidate that is not a file checked against the paths taken (a PATH command or
    /// a macOS application bundle).
    pub fn add_other(&mut self, ide_id: &str, path: String, launch_kind: &str)
        requires
            old(self).wf(),
            launch_kind@ != "executable"@,
        ensures
            final(self).wf(),
            final(self).seen == old(self).seen,
            final(self).entries@.len() == old(self).entries@.len() + 1,
            final(self).entries@.take(old(self).entries@.len() as int) == old(self).entries@,
            final(self).entries@.last().ide_id@ == ide_id@,
            final(self).entries@.last().path == path,
            final(self).entries@.last().launch_kind@ == launch_kind@,
    {
        let ghost before = self.entries@;
        self.entries.push(DetectedIde {
            ide_id: String::from_str(ide_id),
            path,
            launch_kind: String::from_str(launch_kind),
        });
        assert(self.entries@.take(before.len() as int) =~= before);
        assert(self.entries@.drop_last() =~= before);
    }
}

/// The installation saved for a detected IDE: a new, enabled, automatically detected one.
pub fn detected_installation(found: DetectedIde) -> (r: IdeInstallationInput)
    ensures
        r.id is None,
        r.ide_id == found.ide_id,
        r.executable_path == found.path,
        r.launch_kind == found.launch_kind,
        r.detected_source@ == "automatic"@,
        r.enabled,
{
    IdeInstallationInput {
        id: None,
        ide_id: found.ide_id,
        executable_path: found.path,
        launch_kind: found.launch_kind,
        detected_source: String::from_str("automatic"),
        enabled: true,
    }
}

} // verus!
