//! Paths on the local disk: validation of configured targets, the choice of a launch target
//! among the candidates that a command lookup reports, the clock and the platform name.
use std::time::{Duration, SystemTime, SystemTimeError};
use vstd::prelude::*;
use vstd::string::*;

use crate::tags::texts;
use crate::text::{chars_of, same_text, string_of, trim, trim_text};

verus! {

#[verifier::external_type_specification]
#[verifier::external_body]
pub struct ExSystemTime(SystemTime);

#[verifier::external_type_specification]
#[verifier::external_body]
pub struct ExSystemTimeError(SystemTimeError);

/// `SystemTime::now`; nothing is stated of the time it reads.
#[verifier::external_body]
fn system_now() -> SystemTime {
    SystemTime::now()
}

/// `SystemTime::duration_since(UNIX_EPOCH)`; nothing is stated of the outcome.
#[verifier::external_body]
fn since_unix_epoch(t: &SystemTime) -> Result<Duration, SystemTimeError> {
    t.duration_since(std::time::UNIX_EPOCH)
}

/// `Duration::as_secs`; nothing is stated of the number.
#[verifier::external_body]
fn whole_seconds(d: &Duration) -> u64 {
    d.as_secs()
}

/// `Path::exists` on the disk; nothing is stated of the answer, which depends on the disk.
#[verifier::external_body]
pub(crate) fn path_exists(p: &str) -> bool {
    std::path::Path::new(p).exists()
}

/// `Path::is_file` on the disk; nothing is stated of the answer, which depends on the disk.
#[verifier::external_body]
pub(crate) fn path_is_file(p: &str) -> bool {
    std::path::Path::new(p).is_file()
}

/// `Path::is_dir` on the disk; nothing is stated of the answer, which depends on the disk.
#[verifier::external_body]
pub(crate) fn path_is_dir(p: &str) -> bool {
    std::path::Path::new(p).is_dir()
}

/// `r` is an answer that `Path::exists` gave for the path `p` (some call of `path_exists` on
/// a text equal to `p` returned `r`).
pub closed spec fn exists_answer(p: Seq<char>, r: bool) -> bool {
    exists|s: &str| #![trigger call_ensures(path_exists, (s,), r)] s@ == p && call_ensures(path_exists, (s,), r)
}

/// `r` is an answer that `Path::is_file` gave for the path `p`.
pub closed spec fn is_file_answer(p: Seq<char>, r: bool) -> bool {
    exists|s: &str| #![trigger call_ensures(path_is_file, (s,), r)] s@ == p && call_ensures(path_is_file, (s,), r)
}

/// `r` is an answer that `Path::is_dir` gave for the path `p`.
pub closed spec fn is_dir_answer(p: Seq<char>, r: bool) -> bool {
    exists|s: &str| #![trigger call_ensures(path_is_dir, (s,), r)] s@ == p && call_ensures(path_is_dir, (s,), r)
}

/// Asks the disk whether `p` exists.
pub fn disk_exists(p: &str) -> (r: bool)
    ensures
        exists_answer(p@, r),
{
    let r = path_exists(p);
    assert(call_ensures(path_exists, (p,), r));
    r
}

/// Asks the disk whether `p` is a file.
pub fn disk_is_file(p: &str) -> (r: bool)
    ensures
        is_file_answer(p@, r),
{
    let r = path_is_file(p);
    assert(call_ensures(path_is_file, (p,), r));
    r
}

/// Asks the disk whether `p` is a directory.
pub fn disk_is_dir(p: &str) -> (r: bool)
    ensures
        is_dir_answer(p@, r),
{
    let r = path_is_dir(p);
    assert(call_ensures(path_is_dir, (p,), r));
    r
}

/// The Unix time a clock reading gives: its whole seconds since the epoch (as `i64`, like
/// `as_secs() as i64`), or 0 for a clock before the epoch.
pub open spec fn clock_seconds(elapsed: Option<u64>) -> i64 {
    match elapsed {
        Some(s) => s as i64,
        None => 0,
    }
}

/// The Unix time of a clock reading: `elapsed` is the whole seconds since the epoch, none when
/// the clock is before the epoch.
pub fn unix_seconds(elapsed: Option<u64>) -> (r: i64)
    ensures
        r == clock_seconds(elapsed),
{
    match elapsed {
        Some(s) => s as i64,
        None => 0,
    }
}

/// The current Unix time in whole seconds, or 0 when the clock is before the epoch. The time
/// read is the clock's and is not stated.
pub fn now() -> (r: i64)
    ensures
        exists|elapsed: Option<u64>| r == clock_seconds(elapsed),
{
    let t = system_now();
    let elapsed = match since_unix_epoch(&t) {
        Ok(d) => Some(whole_seconds(&d)),
        Err(_) => None,
    };
    unix_seconds(elapsed)
}

/// The platform name under which paths and launch profiles are stored for an operating system
/// (as `std::env::consts::OS` names it): `macos` on macOS, `windows` everywhere else.
pub fn platform(os: &str) -> (r: &'static str)
    ensures
        os@ == "macos"@ ==> r@ == "macos"@,
        os@ != "macos"@ ==> r@ == "windows"@,
{
    if same_text(os, "macos") {
        "macos"
    } else {
        "windows"
    }
}

/// The validation state of a configured path.
#[derive(Debug, Clone, Copy, PartialEq, Eq)]
pub enum PathStatus {
    Unconfigured,
    Missing,
    WrongKind,
    Valid,
}

/// The stored name of a path status.
pub open spec fn status_text(s: PathStatus) -> Seq<char> {
    match s {
        PathStatus::Unconfigured => "unconfigured"@,
        PathStatus::Missing => "missing"@,
        PathStatus::WrongKind => "wrongKind"@,
        PathStatus::Valid => "valid"@,
    }
}

/// The status of a path given what the disk says of it: an empty (or blank) path is
/// unconfigured; a path that does not exist is missing; a path that should be a file or a
/// directory and is not is of the wrong kind; any other path is valid.
pub open spec fn classify_path(
    value: Seq<char>,
    kind: Seq<char>,
    exists: bool,
    is_file: bool,
    is_dir: bool,
) -> PathStatus {
    if trim_text(value).len() == 0 {
        PathStatus::Unconfigured
    } else if !exists {
        PathStatus::Missing
    } else if kind == "file"@ && !is_file {
        PathStatus::WrongKind
    } else if kind == "directory"@ && !is_dir {
        PathStatus::WrongKind
    } else {
        PathStatus::Valid
    }
}

impl PathStatus {
    /// The stored name of this status.
    pub fn name(&self) -> (r: String)
        ensures
            r@ == status_text(*self),
    {
        match self {
            PathStatus::Unconfigured => String::from_str("unconfigured"),
            PathStatus::Missing => String::from_str("missing"),
            PathStatus::WrongKind => String::from_str("wrongKind"),
            PathStatus::Valid => String::from_str("valid"),
        }
    }
}

/// The status of `value` as a path of kind `kind`, given what the disk says of it.
pub fn classify(value: &str, kind: &str, exists: bool, is_file: bool, is_dir: bool) -> (r: PathStatus)
    ensures
        r == classify_path(value@, kind@, exists, is_file, is_dir),
{
    let t = trim(value);
    if t.unicode_len() == 0 {
        PathStatus::Unconfigured
    } else if !exists {
        PathStatus::Missing
    } else if same_text(kind, "file") && !is_file {
        PathStatus::WrongKind
    } else if same_text(kind, "directory") && !is_dir {
        PathStatus::WrongKind
    } else {
        PathStatus::Valid
    }
}

/// `e`, `f` and `d` are the disk's answers for the path `value` of kind `kind`, as far as the
/// rule asks it: whether a non-blank path exists, and, when it does, whether it is a file (for
/// the kind `file`) or a directory (for the kind `directory`).
pub open spec fn disk_answers(value: Seq<char>, kind: Seq<char>, e: bool, f: bool, d: bool) -> bool {
    &&& trim_text(value).len() > 0 ==> exists_answer(value, e)
    &&& (trim_text(value).len() > 0 && e && kind == "file"@) ==> is_file_answer(value, f)
    &&& (trim_text(value).len() > 0 && e && kind == "directory"@) ==> is_dir_answer(value, d)
}

/// The status of `value` as a path of kind `kind`, asking the disk only what the rule needs.
pub fn path_status(value: &str, kind: &str) -> (r: PathStatus)
    ensures
        exists|e: bool, f: bool, d: bool| #![trigger classify_path(value@, kind@, e, f, d)]
            disk_answers(value@, kind@, e, f, d) && r == classify_path(value@, kind@, e, f, d),
        trim_text(value@).len() == 0 <==> r == PathStatus::Unconfigured,
{
    let t = trim(value);
    let blank = t.unicode_len() == 0;
    let exists = if blank { true } else { disk_exists(value) };
    let is_file = if !blank && exists && same_text(kind, "file") { disk_is_file(value) } else { true };
    let is_dir = if !blank && exists && same_text(kind, "directory") { disk_is_dir(value) } else { true };
    let r = classify(value, kind, exists, is_file, is_dir);
    assert(disk_answers(value@, kind@, exists, is_file, is_dir));
    r
}

/// `status` is the stored status of the path `value` of kind `kind`, given the disk's answers
/// for it.
pub open spec fn is_status_of(status: Seq<char>, value: Seq<char>, kind: Seq<char>) -> bool {
    exists|e: bool, f: bool, d: bool| #![trigger classify_path(value, kind, e, f, d)]
        disk_answers(value, kind, e, f, d) && status == status_text(classify_path(value, kind, e, f, d))
}

/// The stored validation status of `value` as a path of kind `kind`: `unconfigured`,
/// `missing`, `wrongKind` or `valid`.
pub fn validate_path(value: &str, kind: &str) -> (r: String)
    ensures
        is_status_of(r@, value@, kind@),
        trim_text(value@).len() == 0 <==> r@ == "unconfigured"@,
{
    let s = path_status(value, kind);
    proof {
        reveal_strlit("unconfigured");
        reveal_strlit("missing");
        reveal_strlit("wrongKind");
        reveal_strlit("valid");
        assert("missing"@.len() != "unconfigured"@.len());
        assert("wrongKind"@.len() != "unconfigured"@.len());
        assert("valid"@.len() != "unconfigured"@.len());
    }
    let r = s.name();
    assert(r@ == status_text(s));
    r
}

/// The stored status of an installation: `available` when its target can be launched.
pub fn installation_status(available: bool) -> (r: &'static str)
    ensures
        available ==> r@ == "available"@,
        !available ==> r@ == "missing"@,
{
    if available {
        "available"
    } else {
        "missing"
    }
}


/// The lines of a command's output, split at each line feed.
pub open spec fn split_lines(s: Seq<char>) -> Seq<Seq<char>>
    decreases s.len(),
{
    if s.len() == 0 {
        seq![seq![]]
    } else {
        let prev = split_lines(s.drop_last());
        if s.last() == '\n' {
            prev.push(seq![])
        } else {
            prev.update(prev.len() - 1, prev.last().push(s.last()))
        }
    }
}

/// The trimmed lines that are not blank, in order.
pub open spec fn nonblank_trimmed(lines: Seq<Seq<char>>) -> Seq<Seq<char>>
    decreases lines.len(),
{
    if lines.len() == 0 {
        seq![]
    } else {
        let prev = nonblank_trimmed(lines.drop_last());
        let t = trim_text(lines.last());
        if t.len() > 0 {
            prev.push(t)
        } else {
            prev
        }
    }
}

/// The paths a command lookup (`which`, `where.exe`) reports: its non-blank output lines, trimmed.
pub open spec fn lookup_candidates(output: Seq<char>) -> Seq<Seq<char>> {
    nonblank_trimmed(split_lines(output))
}

proof fn lemma_split_lines_nonempty(s: Seq<char>)
    ensures
        split_lines(s).len() >= 1,
    decreases s.len(),
{
    if s.len() > 0 {
        lemma_split_lines_nonempty(s.drop_last());
    }
}

/// The non-blank trimmed lines of a command's output.
pub fn lookup_lines(output: &str) -> (r: Vec<String>)
    ensures
        texts(r@) == lookup_candidates(output@),
{
    let v = chars_of(output);
    let mut out: Vec<String> = Vec::new();
    let mut cur: Vec<char> = Vec::new();
    let ghost mut done: Seq<Seq<char>> = seq![];
    let mut i: usize = 0;
    assert(v@.take(0) =~= Seq::<char>::empty());
    assert(texts(out@) =~= Seq::<Seq<char>>::empty());
    while i < v.len()
        invariant
            v@ == output@,
            i <= v.len(),
            split_lines(v@.take(i as int)) == done.push(cur@),
            texts(out@) == nonblank_trimmed(done),
        decreases v.len() - i,
    {
        let c = v[i];
        proof {
            assert(v@.take(i + 1).drop_last() =~= v@.take(i as int));
            assert(v@.take(i + 1).last() == c);
            lemma_split_lines_nonempty(v@.take(i as int));
        }
        if c == '\n' {
            let line = string_of(&cur);
            let t = trim(line.as_str());
            proof {
                assert(done.push(cur@).drop_last() =~= done);
            }
            if t.unicode_len() > 0 {
                out.push(t);
                assert(texts(out@) =~= nonblank_trimmed(done).push(t@));
            }
            proof {
                assert(split_lines(v@.take(i + 1)) == done.push(cur@).push(seq![]));
                done = done.push(cur@);
            }
            cur = Vec::new();
            assert(split_lines(v@.take(i + 1)) =~= done.push(cur@));
        } else {
            cur.push(c);
            assert(split_lines(v@.take(i + 1)) =~= done.push(cur@));
        }
        i = i + 1;
    }
    let line = string_of(&cur);
    let t = trim(line.as_str());
    assert(v@.take(v.len() as int) =~= v@);
    assert(done.push(cur@).drop_last() =~= done);
    if t.unicode_len() > 0 {
        out.push(t);
        assert(texts(out@) =~= nonblank_trimmed(done).push(t@));
    }
    out
}

/// The text of a command's output before its first line feed.
pub open spec fn first_segment(s: Seq<char>) -> Seq<char>
    decreases s.len(),
{
    if s.len() == 0 || s[0] == '\n' {
        seq![]
    } else {
        seq![s[0]] + first_segment(s.drop_first())
    }
}

/// The first line of a command's output, trimmed; nothing when the output is empty.
pub fn first_output_line(output: &str) -> (r: Option<String>)
    ensures
        output@.len() == 0 <==> r is None,
        r matches Some(l) ==> l@ == trim_text(first_segment(output@)),
{
    let v = chars_of(output);
    if v.len() == 0 {
        return None;
    }
    let mut line: Vec<char> = Vec::new();
    let mut i: usize = 0;
    assert(v@.skip(0) =~= v@);
    while i < v.len() && v[i] != '\n'
        invariant
            v@ == output@,
            i <= v.len(),
            line@ == v@.take(i as int),
            first_segment(v@) == line@ + first_segment(v@.skip(i as int)),
        decreases v.len() - i,
    {
        proof {
            assert(v@.skip(i as int).drop_first() =~= v@.skip(i + 1));
            assert(v@.skip(i as int)[0] == v@[i as int]);
        }
        line.push(v[i]);
        i = i + 1;
        assert(line@ =~= v@.take(i as int));
        assert(line@ =~= v@.take(i - 1) + seq![v@[i - 1]]);
    }
    proof {
        if i < v.len() {
            assert(v@.skip(i as int)[0] == '\n');
        }
        assert(first_segment(v@.skip(i as int)) =~= Seq::<char>::empty());
        assert(line@ + Seq::<char>::empty() =~= line@);
    }
    let text = string_of(&line);
    Some(trim(text.as_str()))
}

/// A path separator on Windows, the platform whose launchers the extension rule serves.
pub open spec fn is_separator(c: char) -> bool {
    c == '\\' || c == '/'
}

/// `k` is where the file name of `p` starts: just after its last separator.
pub open spec fn is_name_start(p: Seq<char>, k: int) -> bool {
    &&& 0 <= k <= p.len()
    &&& (k == 0 || is_separator(p[k - 1]))
    &&& forall|j: int| k <= j < p.len() ==> !is_separator(#[trigger] p[j])
}

/// `d` is the last dot of the file name starting at `k`, and not its first character.
pub open spec fn is_extension_dot(p: Seq<char>, k: int, d: int) -> bool {
    &&& k < d < p.len()
    &&& p[d] == '.'
    &&& forall|j: int| d < j < p.len() ==> #[trigger] p[j] != '.'
}

/// `e` spells the word whose lowercase letters are `w` and uppercase letters `u`, in any case
/// per letter (equality after `to_ascii_lowercase`).
pub open spec fn ascii_case_equal(e: Seq<char>, w: Seq<char>, u: Seq<char>) -> bool {
    &&& e.len() == w.len()
    &&& forall|i: int| 0 <= i < e.len() ==> (#[trigger] e[i] == w[i] || e[i] == u[i])
}

/// The file name of `p` has the extension `w` (uppercase `u`), compared without ASCII case
/// (`Path::extension`).
pub open spec fn has_extension(p: Seq<char>, w: Seq<char>, u: Seq<char>) -> bool {
    exists|k: int, d: int|
        is_name_start(p, k) && is_extension_dot(p, k, d) && ascii_case_equal(p.skip(d + 1), w, u)
}

/// A native Windows program: `.exe` or `.com`.
pub open spec fn is_native_program(p: Seq<char>) -> bool {
    has_extension(p, "exe"@, "EXE"@) || has_extension(p, "com"@, "COM"@)
}

/// A Windows batch launcher: `.cmd` or `.bat`.
pub open spec fn is_batch_program(p: Seq<char>) -> bool {
    has_extension(p, "cmd"@, "CMD"@) || has_extension(p, "bat"@, "BAT"@)
}

proof fn lemma_name_start_unique(p: Seq<char>, k1: int, k2: int)
    requires
        is_name_start(p, k1),
        is_name_start(p, k2),
    ensures
        k1 == k2,
{
    if k1 < k2 {
        assert(is_separator(p[k2 - 1]));
    } else if k2 < k1 {
        assert(is_separator(p[k1 - 1]));
    }
}

proof fn lemma_dot_unique(p: Seq<char>, k: int, d1: int, d2: int)
    requires
        is_extension_dot(p, k, d1),
        is_extension_dot(p, k, d2),
    ensures
        d1 == d2,
{
    if d1 < d2 {
        assert(p[d2] == '.');
    } else if d2 < d1 {
        assert(p[d1] == '.');
    }
}

/// Whether the file name of `p` has the extension `w` (uppercase `u`).
fn extension_is(p: &Vec<char>, w: &Vec<char>, u: &Vec<char>) -> (r: bool)
    requires
        w.len() == u.len(),
    ensures
        r == has_extension(p@, w@, u@),
{
    let n = p.len();
    let mut k: usize = n;
    while k > 0 && p[k - 1] != '\\' && p[k - 1] != '/'
        invariant
            n == p.len(),
            k <= n,
            forall|j: int| k <= j < n ==> !is_separator(#[trigger] p@[j]),
        decreases k,
    {
        k = k - 1;
    }
    assert(is_name_start(p@, k as int));
    let mut d: usize = n;
    while d > k && p[d - 1] != '.'
        invariant
            n == p.len(),
            k <= d <= n,
            forall|j: int| d <= j < n ==> #[trigger] p@[j] != '.',
        decreases d,
    {
        d = d - 1;
    }
    // d - 1 is the last dot at or after k, when d > k
    if d - k <= 1 {
        proof {
            assert forall|k2: int, d2: int|
                !(is_name_start(p@, k2) && is_extension_dot(p@, k2, d2) && ascii_case_equal(
                    p@.skip(d2 + 1),
                    w@,
                    u@,
                )) by {
                if is_name_start(p@, k2) && is_extension_dot(p@, k2, d2) {
                    lemma_name_start_unique(p@, k as int, k2);
                    if d2 >= d {
                        assert(p@[d2] != '.');
                    }
                }
            }
        }
        return false;
    }
    let dot: usize = d - 1;
    assert(is_extension_dot(p@, k as int, dot as int));
    let ext_len: usize = n - dot - 1;
    if ext_len != w.len() {
        proof {
            assert forall|k2: int, d2: int|
                !(is_name_start(p@, k2) && is_extension_dot(p@, k2, d2) && ascii_case_equal(
                    p@.skip(d2 + 1),
                    w@,
                    u@,
                )) by {
                if is_name_start(p@, k2) && is_extension_dot(p@, k2, d2) {
                    lemma_name_start_unique(p@, k as int, k2);
                    lemma_dot_unique(p@, k as int, dot as int, d2);
                }
            }
        }
        return false;
    }
    let mut i: usize = 0;
    while i < ext_len
        invariant
            n == p.len(),
            dot < n,
            ext_len == n - dot - 1,
            ext_len == w.len(),
            i <= ext_len,
            is_name_start(p@, k as int),
            is_extension_dot(p@, k as int, dot as int),
            w.len() == u.len(),
            forall|q: int| 0 <= q < i ==> (#[trigger] p@[dot + 1 + q] == w@[q] || p@[dot + 1 + q] == u@[q]),
        decreases ext_len - i,
    {
        let c = p[dot + 1 + i];
        if c != w[i] && c != u[i] {
            proof {
                assert forall|k2: int, d2: int|
                    !(is_name_start(p@, k2) && is_extension_dot(p@, k2, d2) && ascii_case_equal(
                        p@.skip(d2 + 1),
                        w@,
                        u@,
                    )) by {
                    if is_name_start(p@, k2) && is_extension_dot(p@, k2, d2) {
                        lemma_name_start_unique(p@, k as int, k2);
                        lemma_dot_unique(p@, k as int, dot as int, d2);
                        assert(p@.skip(d2 + 1)[i as int] == c);
                    }
                }
            }
            return false;
        }
        i = i + 1;
    }
    assert(ascii_case_equal(p@.skip(dot + 1), w@, u@)) by {
        assert forall|q: int| 0 <= q < p@.skip(dot + 1).len() implies (#[trigger] p@.skip(dot + 1)[q]
            == w@[q] || p@.skip(dot + 1)[q] == u@[q]) by {
            assert(p@.skip(dot + 1)[q] == p@[dot + 1 + q]);
        }
    }
    true
}

fn word3(a: char, b: char, c: char) -> (r: Vec<char>)
    ensures
        r@ == seq![a, b, c],
{
    let mut r: Vec<char> = Vec::new();
    r.push(a);
    r.push(b);
    r.push(c);
    assert(r@ =~= seq![a, b, c]);
    r
}

/// Whether `p` names a native Windows program.
pub fn native_program(p: &str) -> (r: bool)
    ensures
        r == is_native_program(p@),
{
    let v = chars_of(p);
    let exe = word3('e', 'x', 'e');
    let exe_upper = word3('E', 'X', 'E');
    let com = word3('c', 'o', 'm');
    let com_upper = word3('C', 'O', 'M');
    proof {
        reveal_strlit("exe");
        reveal_strlit("EXE");
        reveal_strlit("com");
        reveal_strlit("COM");
        assert(exe@ =~= "exe"@);
        assert(exe_upper@ =~= "EXE"@);
        assert(com@ =~= "com"@);
        assert(com_upper@ =~= "COM"@);
    }
    extension_is(&v, &exe, &exe_upper) || extension_is(&v, &com, &com_upper)
}

/// Whether `p` names a Windows batch launcher.
pub fn batch_program(p: &str) -> (r: bool)
    ensures
        r == is_batch_program(p@),
{
    let v = chars_of(p);
    let cmd = word3('c', 'm', 'd');
    let cmd_upper = word3('C', 'M', 'D');
    let bat = word3('b', 'a', 't');
    let bat_upper = word3('B', 'A', 'T');
    proof {
        reveal_strlit("cmd");
        reveal_strlit("CMD");
        reveal_strlit("bat");
        reveal_strlit("BAT");
        assert(cmd@ =~= "cmd"@);
        assert(cmd_upper@ =~= "CMD"@);
        assert(bat@ =~= "bat"@);
        assert(bat_upper@ =~= "BAT"@);
    }
    extension_is(&v, &cmd, &cmd_upper) || extension_is(&v, &bat, &bat_upper)
}

/// A batch launcher named with a lowercase `.cmd` or `.bat` extension (compared with case).
pub open spec fn is_batch_script(p: Seq<char>) -> bool {
    has_extension(p, "cmd"@, "cmd"@) || has_extension(p, "bat"@, "bat"@)
}

/// Whether `p` names a batch launcher with a lowercase `.cmd` or `.bat` extension.
pub fn batch_script(p: &str) -> (r: bool)
    ensures
        r == is_batch_script(p@),
{
    let v = chars_of(p);
    let cmd = word3('c', 'm', 'd');
    let bat = word3('b', 'a', 't');
    proof {
        reveal_strlit("cmd");
        reveal_strlit("bat");
        assert(cmd@ =~= "cmd"@);
        assert(bat@ =~= "bat"@);
    }
    extension_is(&v, &cmd, &cmd) || extension_is(&v, &bat, &bat)
}

/// The launch target chosen among the paths a lookup reported. On Windows the first native
/// program wins, then the first batch launcher; elsewhere the first path.
pub open spec fn picked_target(paths: Seq<Seq<char>>, windows: bool) -> Option<int> {
    if !windows {
        if paths.len() > 0 { Some(0) } else { None }
    } else if exists|i: int| 0 <= i < paths.len() && is_native_program(#[trigger] paths[i]) {
        Some(choose|i: int| 0 <= i < paths.len() && is_native_program(#[trigger] paths[i])
            && forall|j: int| 0 <= j < i ==> !is_native_program(#[trigger] paths[j]))
    } else if exists|i: int| 0 <= i < paths.len() && is_batch_program(#[trigger] paths[i]) {
        Some(choose|i: int| 0 <= i < paths.len() && is_batch_program(#[trigger] paths[i])
            && forall|j: int| 0 <= j < i ==> !is_batch_program(#[trigger] paths[j]))
    } else {
        None
    }
}

/// The first index in `paths` that satisfies `native` (or batch when `native` is false).
fn first_of_kind(paths: &Vec<String>, native: bool) -> (r: Option<usize>)
    ensures
        match r {
            Some(i) => i < paths.len() && (if native { is_native_program(paths@[i as int]@) } else {
                is_batch_program(paths@[i as int]@)
            }) && forall|j: int| 0 <= j < i ==> !(if native { is_native_program(#[trigger] paths@[j]@) } else {
                is_batch_program(paths@[j]@)
            }),
            None => forall|j: int| 0 <= j < paths.len() ==> !(if native { is_native_program(#[trigger] paths@[j]@) } else {
                is_batch_program(paths@[j]@)
            }),
        },
{
    let mut i: usize = 0;
    while i < paths.len()
        invariant
            i <= paths.len(),
            forall|j: int| 0 <= j < i ==> !(if native { is_native_program(#[trigger] paths@[j]@) } else {
                is_batch_program(paths@[j]@)
            }),
        decreases paths.len() - i,
    {
        let hit = if native { native_program(paths[i].as_str()) } else { batch_program(paths[i].as_str()) };
        if hit {
            return Some(i);
        }
        i = i + 1;
    }
    None
}

/// The launch target among `paths` (see `picked_target`).
pub fn pick_launch_target(paths: &Vec<String>, windows: bool) -> (r: Option<String>)
    ensures
        match picked_target(texts(paths@), windows) {
            Some(i) => r matches Some(p) && 0 <= i < paths.len() && p@ == paths@[i]@,
            None => r is None,
        },
        r matches Some(p) ==> texts(paths@).contains(p@),
        windows ==> (r matches Some(p) ==> is_native_program(p@) || is_batch_program(p@)),
{
    if !windows {
        if paths.len() > 0 {
            assert(texts(paths@)[0] == paths@[0]@);
            return Some(paths[0].clone());
        }
        return None;
    }
    let ghost ps = texts(paths@);
    match first_of_kind(paths, true) {
        Some(i) => {
            assert(ps[i as int] == paths@[i as int]@);
            assert(forall|j: int| 0 <= j < i ==> !is_native_program(#[trigger] ps[j])) by {
                assert forall|j: int| 0 <= j < i implies !is_native_program(#[trigger] ps[j]) by {
                    assert(ps[j] == paths@[j]@);
                }
            }
            proof {
                let c = choose|c: int| 0 <= c < ps.len() && is_native_program(#[trigger] ps[c])
                    && forall|j: int| 0 <= j < c ==> !is_native_program(#[trigger] ps[j]);
                if c < i {
                    assert(!is_native_program(ps[c]));
                } else if c > i {
                    assert(!is_native_program(ps[i as int]));
                }
                assert(ps.contains(paths@[i as int]@));
            }
            return Some(paths[i].clone());
        },
        None => {
            assert(!exists|c: int| 0 <= c < ps.len() && is_native_program(#[trigger] ps[c])) by {
                assert forall|c: int| 0 <= c < ps.len() implies !is_native_program(#[trigger] ps[c]) by {
                    assert(ps[c] == paths@[c]@);
                }
            }
        },
    }
    match first_of_kind(paths, false) {
        Some(i) => {
            assert(ps[i as int] == paths@[i as int]@);
            assert(forall|j: int| 0 <= j < i ==> !is_batch_program(#[trigger] ps[j])) by {
                assert forall|j: int| 0 <= j < i implies !is_batch_program(#[trigger] ps[j]) by {
                    assert(ps[j] == paths@[j]@);
                }
            }
            proof {
                let c = choose|c: int| 0 <= c < ps.len() && is_batch_program(#[trigger] ps[c])
                    && forall|j: int| 0 <= j < c ==> !is_batch_program(#[trigger] ps[j]);
                if c < i {
                    assert(!is_batch_program(ps[c]));
                } else if c > i {
                    assert(!is_batch_program(ps[i as int]));
                }
                assert(ps.contains(paths@[i as int]@));
            }
            Some(paths[i].clone())
        },
        None => {
            assert(!exists|c: int| 0 <= c < ps.len() && is_batch_program(#[trigger] ps[c])) by {
                assert forall|c: int| 0 <= c < ps.len() implies !is_batch_program(#[trigger] ps[c]) by {
                    assert(ps[c] == paths@[c]@);
                }
            }
            None
        },
    }
}

/// The target of a launch kind other than a PATH command: the configured path, when it exists.
pub fn target_from_path(value: &str) -> (r: Option<String>)
    ensures
        r matches Some(p) ==> p@ == value@,
        exists_answer(value@, r is Some),
{
    if disk_exists(value) {
        Some(String::from_str(value))
    } else {
        None
    }
}

/// Whether a launch kind names a command to be looked up on the PATH.
pub fn needs_command_lookup(launch_kind: &str) -> (r: bool)
    ensures
        r == (launch_kind@ == "command"@),
{
    same_text(launch_kind, "command")
}

/// The paths among `paths` whose entry in `keep` is true, in order.
pub open spec fn kept(paths: Seq<Seq<char>>, keep: Seq<bool>) -> Seq<Seq<char>>
    decreases paths.len(),
{
    if paths.len() == 0 {
        seq![]
    } else if keep[paths.len() - 1] {
        kept(paths.drop_last(), keep).push(paths.last())
    } else {
        kept(paths.drop_last(), keep)
    }
}

/// `r` is the launch target picked among `files` (see `picked_target`).
pub open spec fn picks(files: Seq<Seq<char>>, windows: bool, r: Option<String>) -> bool {
    match picked_target(files, windows) {
        Some(i) => r matches Some(p) && p@ == files[i],
        None => r is None,
    }
}

/// The target a lookup's output gives when the disk reports, for each reported path in turn,
/// whether it is a file (`is_file`): the pick among the paths that are files.
pub open spec fn lookup_picks(output: Seq<char>, is_file: Seq<bool>, windows: bool, r: Option<String>) -> bool {
    &&& is_file.len() == lookup_candidates(output).len()
    &&& picks(kept(lookup_candidates(output), is_file), windows, r)
}

/// `is_file` holds, for each path of `paths` in turn, the disk's answer whether it is a file.
pub open spec fn file_answers(paths: Seq<Seq<char>>, is_file: Seq<bool>) -> bool {
    &&& is_file.len() == paths.len()
    &&& forall|k: int| 0 <= k < is_file.len() ==> is_file_answer(paths[k], #[trigger] is_file[k])
}

/// The target of a PATH command, given the output of a successful lookup: among the reported
/// paths that are files on the disk, the one `pick_launch_target` chooses. Which reported
/// paths are files is the disk's answer and is not stated; the result is the pick for some
/// such answers.
pub fn target_from_lookup(output: &str, windows: bool) -> (r: Option<String>)
    ensures
        exists|is_file: Seq<bool>| #![trigger lookup_picks(output@, is_file, windows, r)]
            lookup_picks(output@, is_file, windows, r) && file_answers(lookup_candidates(output@), is_file),
        r matches Some(p) ==> lookup_candidates(output@).contains(p@),
        windows ==> (r matches Some(p) ==> is_native_program(p@) || is_batch_program(p@)),
{
    let candidates = lookup_lines(output);
    let ghost cands = texts(candidates@);
    let ghost mut answers: Seq<bool> = seq![];
    let mut files: Vec<String> = Vec::new();
    let mut i: usize = 0;
    while i < candidates.len()
        invariant
            i <= candidates.len(),
            cands == texts(candidates@),
            answers.len() == i,
            file_answers(cands.take(i as int), answers),
            texts(files@) == kept(cands.take(i as int), answers),
            forall|j: int| 0 <= j < files.len() ==> cands.contains(#[trigger] files@[j]@),
        decreases candidates.len() - i,
    {
        let f = disk_is_file(candidates[i].as_str());
        let ghost prev_answers = answers;
        let ghost before = texts(files@);
        proof {
            answers = answers.push(f);
            assert(prev_answers =~= answers.take(i as int));
            lemma_kept_prefix(cands.take(i as int), prev_answers, answers);
            assert(cands.take(i + 1).drop_last() =~= cands.take(i as int));
            assert(cands.take(i + 1).last() == candidates@[i as int]@);
            assert(answers[i as int] == f);
            assert(cands[i as int] == candidates@[i as int]@);
            assert forall|k: int| 0 <= k < answers.len() implies is_file_answer(cands.take(i + 1)[k], #[trigger] answers[k]) by {
                if k < i {
                    assert(cands.take(i + 1)[k] == cands.take(i as int)[k]);
                    assert(answers[k] == prev_answers[k]);
                }
            }
        }
        if f {
            assert(cands[i as int] == candidates@[i as int]@);
            files.push(candidates[i].clone());
            assert(texts(files@) =~= before.push(candidates@[i as int]@));
        }
        proof {
            let t = cands.take(i + 1);
            assert(t.len() == i + 1);
            assert(kept(t, answers) == if answers[i as int] {
                kept(t.drop_last(), answers).push(t.last())
            } else {
                kept(t.drop_last(), answers)
            });
        }
        i = i + 1;
    }
    let r = pick_launch_target(&files, windows);
    proof {
        assert(cands.take(candidates.len() as int) =~= cands);
        assert(lookup_picks(output@, answers, windows, r));
        assert(file_answers(lookup_candidates(output@), answers));
        if r is Some {
            let p = r->0;
            let j = choose|j: int| 0 <= j < texts(files@).len() && texts(files@)[j] == p@;
            assert(texts(files@)[j] == files@[j]@);
        }
    }
    r
}

/// Extending the answers past the paths changes nothing of what is kept.
proof fn lemma_kept_prefix(paths: Seq<Seq<char>>, short: Seq<bool>, long: Seq<bool>)
    requires
        short.len() >= paths.len(),
        long.len() >= short.len(),
        short == long.take(short.len() as int),
    ensures
        kept(paths, short) == kept(paths, long),
    decreases paths.len(),
{
    if paths.len() > 0 {
        lemma_kept_prefix(paths.drop_last(), short, long);
        assert(short[paths.len() - 1] == long[paths.len() - 1]);
    }
}

/// The text of a lookup's output, if there is one.
pub open spec fn lookup_view(lookup_output: Option<&str>) -> Option<Seq<char>> {
    match lookup_output {
        Some(o) => Some(o@),
        None => None,
    }
}

/// `r` is the program that launches an installation configured as `value` with
/// `launch_kind`, when the disk says that the configured path exists (`exists`) and, for each
/// path the lookup reported, whether it is a file (`is_file`): for a PATH command the pick
/// among the reported files (nothing without a lookup), for any other kind the configured
/// path when it exists.
pub open spec fn resolved_target(
    value: Seq<char>,
    launch_kind: Seq<char>,
    lookup: Option<Seq<char>>,
    windows: bool,
    exists: bool,
    is_file: Seq<bool>,
    r: Option<String>,
) -> bool {
    if launch_kind != "command"@ {
        if exists { r matches Some(p) && p@ == value } else { r is None }
    } else {
        match lookup {
            None => r is None,
            Some(o) => lookup_picks(o, is_file, windows, r),
        }
    }
}

/// `exists` and `is_file` are the disk's answers for an installation configured as `value`
/// with `launch_kind`: whether the configured path exists (for kinds other than a PATH
/// command), and whether each path the lookup reported is a file (for a PATH command).
pub open spec fn target_answers(
    value: Seq<char>,
    launch_kind: Seq<char>,
    lookup: Option<Seq<char>>,
    exists: bool,
    is_file: Seq<bool>,
) -> bool {
    if launch_kind != "command"@ {
        exists_answer(value, exists)
    } else {
        match lookup {
            Some(o) => file_answers(lookup_candidates(o), is_file),
            None => true,
        }
    }
}

/// Whether an installation configured as `value` with `launch_kind` can be launched, for the
/// same answers of the disk as `resolved_target`.
pub open spec fn target_available(
    value: Seq<char>,
    launch_kind: Seq<char>,
    lookup: Option<Seq<char>>,
    windows: bool,
    exists: bool,
    is_file: Seq<bool>,
) -> bool {
    if launch_kind != "command"@ {
        exists
    } else {
        match lookup {
            None => false,
            Some(o) => picked_target(kept(lookup_candidates(o), is_file), windows) is Some,
        }
    }
}

/// An installation can be launched exactly when a program is resolved for it, for the same
/// answers of the disk.
pub proof fn lemma_available_iff_resolved(
    value: Seq<char>,
    launch_kind: Seq<char>,
    lookup: Option<Seq<char>>,
    windows: bool,
    exists: bool,
    is_file: Seq<bool>,
    r: Option<String>,
)
    requires
        resolved_target(value, launch_kind, lookup, windows, exists, is_file, r),
    ensures
        (r is Some) == target_available(value, launch_kind, lookup, windows, exists, is_file),
{
}

/// The program that launches an installation configured as `value` with `launch_kind`, given
/// the output of a successful PATH lookup of `value` (none when the lookup was not made or
/// failed) and whether this is Windows (see `resolved_target`). Which paths exist and are
/// files is the disk's answer; the result is the one for some such answers.
pub fn resolve_launch_target(value: &str, launch_kind: &str, lookup_output: Option<&str>, windows: bool) -> (r: Option<String>)
    ensures
        exists|exists: bool, is_file: Seq<bool>|
            #![trigger resolved_target(value@, launch_kind@, lookup_view(lookup_output), windows, exists, is_file, r)]
            target_answers(value@, launch_kind@, lookup_view(lookup_output), exists, is_file)
            && resolved_target(value@, launch_kind@, lookup_view(lookup_output), windows, exists, is_file, r),
        launch_kind@ == "command"@ ==> match lookup_output {
            None => r is None,
            Some(o) => r matches Some(p) ==> lookup_candidates(o@).contains(p@)
                && (windows ==> is_native_program(p@) || is_batch_program(p@)),
        },
{
    if !needs_command_lookup(launch_kind) {
        let r = target_from_path(value);
        assert(resolved_target(value@, launch_kind@, lookup_view(lookup_output), windows, r is Some, seq![], r));
        return r;
    }
    match lookup_output {
        Some(o) => {
            let r = target_from_lookup(o, windows);
            let ghost is_file = choose|is_file: Seq<bool>| lookup_picks(o@, is_file, windows, r)
                && file_answers(lookup_candidates(o@), is_file);
            assert(resolved_target(value@, launch_kind@, lookup_view(lookup_output), windows, false, is_file, r));
            r
        },
        None => {
            assert(resolved_target(value@, launch_kind@, lookup_view(lookup_output), windows, false, seq![], None));
            None
        },
    }
}

/// Whether an installation configured as `value` with `launch_kind` can be launched: whether
/// `resolve_launch_target` finds a program (see `target_available`); a PATH command whose
/// lookup failed, or reported no usable program, cannot.
pub fn launch_target_available(value: &str, launch_kind: &str, lookup_output: Option<&str>, windows: bool) -> (r: bool)
    ensures
        exists|exists: bool, is_file: Seq<bool>|
            #![trigger target_available(value@, launch_kind@, lookup_view(lookup_output), windows, exists, is_file)]
            target_answers(value@, launch_kind@, lookup_view(lookup_output), exists, is_file)
            && r == target_available(value@, launch_kind@, lookup_view(lookup_output), windows, exists, is_file),
        launch_kind@ == "command"@ && lookup_output is None ==> !r,
        launch_kind@ == "command"@ && (lookup_output matches Some(o) && lookup_candidates(o@).len() == 0) ==> !r,
{
    let t = resolve_launch_target(value, launch_kind, lookup_output, windows);
    proof {
        let (e, f) = choose|exists: bool, is_file: Seq<bool>|
            target_answers(value@, launch_kind@, lookup_view(lookup_output), exists, is_file)
            && resolved_target(value@, launch_kind@, lookup_view(lookup_output), windows, exists, is_file, t);
        lemma_available_iff_resolved(value@, launch_kind@, lookup_view(lookup_output), windows, e, f, t);
        assert(target_available(value@, launch_kind@, lookup_view(lookup_output), windows, e, f) == t is Some);
    }
    t.is_some()
}

} // verus!
