//! Launching a code project in its IDE: argument templates, Windows command lines, and the
//! decision of what to start.
use vstd::prelude::*;
use vstd::string::*;

use crate::models::{IdeInstallation, LaunchResult, ModulePath, Project, ProjectModule};
use crate::paths::{
    batch_script, classify_path, disk_exists, disk_is_dir, disk_is_file, exists_answer, is_batch_script,
    is_dir_answer, is_file_answer, is_separator, is_status_of, status_text, validate_path,
};
use crate::tags::{clone_texts, texts};
use crate::text::{chars_of, concat2, replace_all, replace_text, same_text, string_of, trim_text};

verus! {

/// An ASCII letter, as a drive letter.
pub open spec fn is_ascii_letter(c: char) -> bool {
    ('a' <= c && c <= 'z') || ('A' <= c && c <= 'Z')
}

/// A separator of a path's components: `\` alone in a verbatim (`\\?\`) path, `\` or `/`
/// otherwise.
pub open spec fn is_sep(c: char, verbatim: bool) -> bool {
    if verbatim { c == '\\' } else { is_separator(c) }
}

/// `p` holds a backslash at `i`, where a `/` among the first eight characters counts as one
/// (the prefix of a Windows path is read with `/` turned into `\` there).
pub open spec fn back_at(p: Seq<char>, i: int) -> bool {
    0 <= i < p.len() && (p[i] == '\\' || (i < 8 && p[i] == '/'))
}

/// Where the component of `p` that starts at `start` ends: the first separator at or after
/// `start`, or the end of `p`.
pub open spec fn comp_end(p: Seq<char>, start: int, verbatim: bool) -> int
    decreases p.len() - start,
{
    if start < 0 || start >= p.len() {
        p.len() as int
    } else if is_sep(p[start], verbatim) {
        start
    } else {
        comp_end(p, start + 1, verbatim)
    }
}

/// The prefix of the Windows path `p`, as `std::path` reads it: its length, whether it is
/// verbatim, and whether it is a drive (`C:`). The prefixes are `\\?\UNC\server\share`,
/// `\\?\C:`, `\\?\name`, `\\.\device`, `\\server\share` (server and share not empty) and
/// `C:`; any other path has none.
pub open spec fn prefix_info(p: Seq<char>) -> (int, bool, bool) {
    if back_at(p, 0) && back_at(p, 1) {
        if p.len() >= 4 && p[0] == '\\' && p[1] == '\\' && p[2] == '?' && p[3] == '\\' {
            if p.len() >= 8 && p[4] == 'U' && p[5] == 'N' && p[6] == 'C' && back_at(p, 7) {
                let e1 = comp_end(p, 8, true);
                if e1 < p.len() && comp_end(p, e1 + 1, true) > e1 + 1 {
                    (comp_end(p, e1 + 1, true), true, false)
                } else {
                    (e1, true, false)
                }
            } else if p.len() >= 6 && p[5] == ':' && is_ascii_letter(p[4]) && (p.len() == 6 || p[6] == '\\') {
                (6, true, false)
            } else {
                (comp_end(p, 4, true), true, false)
            }
        } else if p.len() >= 4 && p[2] == '.' && back_at(p, 3) {
            (comp_end(p, 4, false), false, false)
        } else {
            let e1 = comp_end(p, 2, false);
            if e1 > 2 && e1 < p.len() && comp_end(p, e1 + 1, false) > e1 + 1 {
                (comp_end(p, e1 + 1, false), false, false)
            } else {
                (0, false, false)
            }
        }
    } else if p.len() >= 2 && p[1] == ':' && is_ascii_letter(p[0]) {
        (2, false, true)
    } else {
        (0, false, false)
    }
}

/// The length of the prefix of `p`, 0 when it has none.
pub open spec fn prefix_len(p: Seq<char>) -> int {
    prefix_info(p).0
}

/// `p` has a verbatim (`\\?\`) prefix.
pub open spec fn is_verbatim(p: Seq<char>) -> bool {
    prefix_info(p).1
}

/// `p` has a prefix other than a drive, which brings a root of its own.
pub open spec fn has_implicit_root(p: Seq<char>) -> bool {
    prefix_len(p) > 0 && !prefix_info(p).2
}

/// `p` has a root separator right after its prefix.
pub open spec fn has_root(p: Seq<char>) -> bool {
    p.len() > prefix_len(p) && is_sep(p[prefix_len(p)], is_verbatim(p))
}

/// `p` has no root and starts (after its prefix) with the component `.`.
pub open spec fn starts_cur_dir(p: Seq<char>) -> bool {
    let k = prefix_len(p);
    &&& !has_root(p)
    &&& !has_implicit_root(p)
    &&& p.len() > k
    &&& p[k] == '.'
    &&& (p.len() == k + 1 || is_sep(p[k + 1], is_verbatim(p)))
}

/// The length of what comes before the components of `p`: its prefix, then its root
/// separator or its leading `.` component.
pub open spec fn head_len(p: Seq<char>) -> int {
    prefix_len(p) + if has_root(p) || starts_cur_dir(p) { 1int } else { 0int }
}

/// `p` without trailing separators and, unless verbatim, trailing `.` components; never
/// shorter than `h`.
pub open spec fn trim_back(p: Seq<char>, h: int, verbatim: bool) -> Seq<char>
    decreases p.len(),
{
    if p.len() == 0 || p.len() <= h {
        p
    } else if is_sep(p.last(), verbatim) {
        trim_back(p.drop_last(), h, verbatim)
    } else if !verbatim && p.last() == '.' && (p.len() - 1 == h || is_sep(p[p.len() - 2], verbatim)) {
        trim_back(p.drop_last(), h, verbatim)
    } else {
        p
    }
}

/// `p` without its last component, never shorter than `h`.
pub open spec fn drop_comp(p: Seq<char>, h: int, verbatim: bool) -> Seq<char>
    decreases p.len(),
{
    if p.len() == 0 || p.len() <= h || is_sep(p.last(), verbatim) {
        p
    } else {
        drop_comp(p.drop_last(), h, verbatim)
    }
}

/// The parent of the Windows path `p`, as `Path::parent(p).unwrap_or(p)` gives it: the path
/// without its last component, where empty components (repeated separators) and, outside
/// verbatim paths, `.` components do not count, and without trailing separators, but keeping
/// the prefix and root (`C:\x` gives `C:\`, `\\server\share\x` gives `\\server\share\`,
/// `a//b` gives `a`, `a/b/` gives `a`); a path made only of a prefix or a root has no parent
/// and stays itself (`C:`, `\`, `\\server\share`).
pub open spec fn parent_text(p: Seq<char>) -> Seq<char> {
    let h = head_len(p);
    let v = is_verbatim(p);
    let t = trim_back(p, h, v);
    if t.len() <= h {
        if starts_cur_dir(p) { p.take(prefix_len(p)) } else { p }
    } else {
        trim_back(drop_comp(t, h, v), h, v)
    }
}

/// The directory a template's `{directory}` stands for: the target itself when it is a
/// directory, its parent otherwise.
pub open spec fn dir_for(target: Seq<char>, is_dir: bool) -> Seq<char> {
    if is_dir { target } else { parent_text(target) }
}

fn sep_of(c: char, verbatim: bool) -> (r: bool)
    ensures
        r == is_sep(c, verbatim),
{
    if verbatim { c == '\\' } else { c == '\\' || c == '/' }
}

fn back_at_exec(v: &Vec<char>, i: usize) -> (r: bool)
    ensures
        r == back_at(v@, i as int),
{
    i < v.len() && (v[i] == '\\' || (i < 8 && v[i] == '/'))
}

fn comp_end_exec(v: &Vec<char>, start: usize, verbatim: bool) -> (r: usize)
    requires
        start <= v.len(),
    ensures
        r as int == comp_end(v@, start as int, verbatim),
        start <= r <= v.len(),
{
    let mut i: usize = start;
    while i < v.len() && !sep_of(v[i], verbatim)
        invariant
            start <= i <= v.len(),
            comp_end(v@, i as int, verbatim) == comp_end(v@, start as int, verbatim),
        decreases v.len() - i,
    {
        i = i + 1;
    }
    i
}

fn letter(c: char) -> (r: bool)
    ensures
        r == is_ascii_letter(c),
{
    ('a' <= c && c <= 'z') || ('A' <= c && c <= 'Z')
}

/// The prefix of a path (see `prefix_info`).
fn prefix_of(v: &Vec<char>) -> (r: (usize, bool, bool))
    ensures
        (r.0 as int, r.1, r.2) == prefix_info(v@),
        r.0 <= v.len(),
{
    let n = v.len();
    if back_at_exec(v, 0) && back_at_exec(v, 1) {
        if n >= 4 && v[0] == '\\' && v[1] == '\\' && v[2] == '?' && v[3] == '\\' {
            if n >= 8 && v[4] == 'U' && v[5] == 'N' && v[6] == 'C' && back_at_exec(v, 7) {
                let e1 = comp_end_exec(v, 8, true);
                if e1 < n {
                    let e2 = comp_end_exec(v, e1 + 1, true);
                    if e2 > e1 + 1 {
                        return (e2, true, false);
                    }
                }
                (e1, true, false)
            } else if n >= 6 && v[5] == ':' && letter(v[4]) && (n == 6 || v[6] == '\\') {
                (6, true, false)
            } else {
                (comp_end_exec(v, 4, true), true, false)
            }
        } else if n >= 4 && v[2] == '.' && back_at_exec(v, 3) {
            (comp_end_exec(v, 4, false), false, false)
        } else {
            let e1 = comp_end_exec(v, 2, false);
            if e1 > 2 && e1 < n {
                let e2 = comp_end_exec(v, e1 + 1, false);
                if e2 > e1 + 1 {
                    return (e2, false, false);
                }
            }
            (0, false, false)
        }
    } else if n >= 2 && v[1] == ':' && letter(v[0]) {
        (2, false, true)
    } else {
        (0, false, false)
    }
}

/// The length `r` with `v.take(r) == trim_back(v.take(n), h, verbatim)`.
fn trim_back_len(v: &Vec<char>, n: usize, h: usize, verbatim: bool) -> (r: usize)
    requires
        n <= v.len(),
    ensures
        r <= n,
        v@.take(r as int) == trim_back(v@.take(n as int), h as int, verbatim),
{
    let mut i: usize = n;
    while i > h && (sep_of(v[i - 1], verbatim) || (!verbatim && v[i - 1] == '.' && (i - 1 == h || sep_of(v[i - 2], verbatim))))
        invariant
            i <= n <= v.len(),
            trim_back(v@.take(i as int), h as int, verbatim) == trim_back(v@.take(n as int), h as int, verbatim),
        decreases i,
    {
        proof {
            let t = v@.take(i as int);
            assert(t.drop_last() =~= v@.take(i - 1));
            assert(t.last() == v@[i - 1]);
            if i >= 2 {
                assert(t[t.len() - 2] == v@[i - 2]);
            }
        }
        i = i - 1;
    }
    proof {
        let t = v@.take(i as int);
        if i > h {
            assert(t.last() == v@[i - 1]);
            if i >= 2 {
                assert(t[t.len() - 2] == v@[i - 2]);
            }
        }
    }
    i
}

/// The length `r` with `v.take(r) == drop_comp(v.take(n), h, verbatim)`.
fn drop_comp_len(v: &Vec<char>, n: usize, h: usize, verbatim: bool) -> (r: usize)
    requires
        n <= v.len(),
    ensures
        r <= n,
        v@.take(r as int) == drop_comp(v@.take(n as int), h as int, verbatim),
{
    let mut i: usize = n;
    while i > h && !sep_of(v[i - 1], verbatim)
        invariant
            i <= n <= v.len(),
            drop_comp(v@.take(i as int), h as int, verbatim) == drop_comp(v@.take(n as int), h as int, verbatim),
        decreases i,
    {
        proof {
            let t = v@.take(i as int);
            assert(t.drop_last() =~= v@.take(i - 1));
            assert(t.last() == v@[i - 1]);
        }
        i = i - 1;
    }
    proof {
        if i > h {
            assert(v@.take(i as int).last() == v@[i - 1]);
        }
    }
    i
}

fn copy_prefix(v: &Vec<char>, k: usize) -> (r: String)
    requires
        k <= v.len(),
    ensures
        r@ == v@.take(k as int),
{
    let mut out: Vec<char> = Vec::new();
    let mut i: usize = 0;
    while i < k
        invariant
            k <= v.len(),
            i <= k,
            out@ == v@.take(i as int),
        decreases k - i,
    {
        out.push(v[i]);
        i = i + 1;
        assert(out@ =~= v@.take(i as int));
    }
    string_of(&out)
}

/// One argument of a template with `{path}`, `{directory}` and `{name}` substituted, in that
/// order, without any quoting.
pub open spec fn substituted(arg: Seq<char>, path: Seq<char>, dir: Seq<char>, name: Seq<char>) -> Seq<char> {
    replace_text(
        replace_text(replace_text(arg, "{path}"@, path), "{directory}"@, dir),
        "{name}"@,
        name,
    )
}

/// The directory part of a path (see `parent_text`).
pub fn parent_directory(p: &str) -> (r: String)
    ensures
        r@ == parent_text(p@),
{
    let v = chars_of(p);
    let n = v.len();
    let (pl, verbatim, disk) = prefix_of(&v);
    let root = n > pl && sep_of(v[pl], verbatim);
    let implicit = pl > 0 && !disk;
    let cur = !root && !implicit && n > pl && v[pl] == '.' && (n == pl + 1 || sep_of(v[pl + 1], verbatim));
    let h: usize = if root || cur { pl + 1 } else { pl };
    assert(pl == prefix_len(p@) && verbatim == is_verbatim(p@) && root == has_root(p@)
        && implicit == has_implicit_root(p@) && cur == starts_cur_dir(p@) && h == head_len(p@));
    assert(v@.take(n as int) =~= v@);
    let t = trim_back_len(&v, n, h, verbatim);
    if t <= h {
        if cur {
            return copy_prefix(&v, pl);
        }
        return String::from_str(p);
    }
    let d = drop_comp_len(&v, t, h, verbatim);
    let k = trim_back_len(&v, d, h, verbatim);
    copy_prefix(&v, k)
}

/// The directory a template's `{directory}` stands for, given whether the target is a
/// directory: the target itself, or its parent.
pub fn directory_for(target: &str, is_dir: bool) -> (r: String)
    ensures
        r@ == dir_for(target@, is_dir),
{
    if is_dir {
        String::from_str(target)
    } else {
        parent_directory(target)
    }
}

/// The directory a template's `{directory}` stands for: the target itself when it is a
/// directory on the disk, its parent otherwise. Whether it is a directory is the disk's answer.
pub fn target_directory(target: &str) -> (r: String)
    ensures
        exists|is_dir: bool| #![trigger dir_for(target@, is_dir)] is_dir_answer(target@, is_dir) && r@ == dir_for(target@, is_dir),
{
    let is_dir = disk_is_dir(target);
    let r = directory_for(target, is_dir);
    assert(is_dir_answer(target@, is_dir) && r@ == dir_for(target@, is_dir));
    r
}

/// The directory a template's `{directory}` stands for is the target itself exactly when the
/// disk answers that the target is a directory, and the target's parent otherwise.
pub proof fn lemma_target_directory_follows_disk(target: &str, r: String)
    requires
        call_ensures(target_directory, (target,), r),
    ensures
        exists|is_dir: bool| #![trigger is_dir_answer(target@, is_dir)] is_dir_answer(target@, is_dir)
            && (is_dir ==> r@ == target@)
            && (!is_dir ==> r@ == parent_text(target@)),
{
    let is_dir = choose|is_dir: bool| is_dir_answer(target@, is_dir) && r@ == dir_for(target@, is_dir);
    assert(is_dir_answer(target@, is_dir));
}

/// One template argument with the placeholders substituted.
pub fn substitute_arg(arg: &str, path: &str, dir: &str, name: &str) -> (r: String)
    ensures
        r@ == substituted(arg@, path@, dir@, name@),
{
    let a = chars_of(arg);
    let p = chars_of("{path}");
    let d = chars_of("{directory}");
    let n = chars_of("{name}");
    proof {
        reveal_strlit("{path}");
        reveal_strlit("{directory}");
        reveal_strlit("{name}");
    }
    let step1 = replace_all(&a, &p, &chars_of(path));
    let step2 = replace_all(&step1, &d, &chars_of(dir));
    let step3 = replace_all(&step2, &n, &chars_of(name));
    string_of(&step3)
}

/// Every argument of a template with the placeholders substituted.
pub fn substitute_args(template: &Vec<String>, path: &str, dir: &str, name: &str) -> (r: Vec<String>)
    ensures
        r.len() == template.len(),
        forall|i: int| 0 <= i < r.len() ==> (#[trigger] r@[i])@ == substituted(template@[i]@, path@, dir@, name@),
{
    let mut out: Vec<String> = Vec::new();
    let mut i: usize = 0;
    while i < template.len()
        invariant
            i <= template.len(),
            out.len() == i,
            forall|q: int| 0 <= q < i ==> (#[trigger] out@[q])@ == substituted(template@[q]@, path@, dir@, name@),
        decreases template.len() - i,
    {
        let s = substitute_arg(template[i].as_str(), path, dir, name);
        out.push(s);
        i = i + 1;
    }
    out
}

/// The arguments to start an IDE on `target`, given whether it is a directory: the template
/// with `{path}` the target, `{directory}` the target's directory and `{name}` the project's
/// name.
pub fn args_for(template: &Vec<String>, target: &str, is_dir: bool, name: &str) -> (r: Vec<String>)
    ensures
        r.len() == template.len(),
        forall|i: int| 0 <= i < r.len() ==> (#[trigger] r@[i])@ == substituted(template@[i]@, target@, dir_for(target@, is_dir), name@),
{
    let dir = directory_for(target, is_dir);
    substitute_args(template, target, dir.as_str(), name)
}

/// The arguments to start an IDE on `target` (see `args_for`); whether the target is a
/// directory is the disk's answer.
pub fn resolve_args(template: &Vec<String>, target: &str, name: &str) -> (r: Vec<String>)
    ensures
        r.len() == template.len(),
        exists|is_dir: bool| #![trigger dir_for(target@, is_dir)] is_dir_answer(target@, is_dir)
            && forall|i: int| 0 <= i < r.len() ==> (#[trigger] r@[i])@
            == substituted(template@[i]@, target@, dir_for(target@, is_dir), name@),
{
    let dir = target_directory(target);
    let r = substitute_args(template, target, dir.as_str(), name);
    let ghost is_dir = choose|is_dir: bool| is_dir_answer(target@, is_dir) && dir@ == dir_for(target@, is_dir);
    assert(dir_for(target@, is_dir) == dir@);
    r
}

/// `n` backslashes.
pub open spec fn backslashes(n: nat) -> Seq<char> {
    Seq::new(n, |i: int| '\\')
}

/// The quoted body of a Windows argument after its opening quote, with `slashes` pending
/// backslashes: backslashes before a quote are doubled and the quote escaped, backslashes
/// before the closing quote are doubled, other backslashes are kept.
pub open spec fn quoted_rest(s: Seq<char>, slashes: nat) -> Seq<char>
    decreases s.len(),
{
    if s.len() == 0 {
        backslashes(2 * slashes).push('"')
    } else if s[0] == '\\' {
        quoted_rest(s.drop_first(), slashes + 1)
    } else if s[0] == '"' {
        backslashes(2 * slashes + 1).push('"') + quoted_rest(s.drop_first(), 0)
    } else {
        backslashes(slashes).push(s[0]) + quoted_rest(s.drop_first(), 0)
    }
}

/// A Windows command-line argument in quotes, read back as `value` by the C runtime.
pub open spec fn quoted_arg(value: Seq<char>) -> Seq<char> {
    if value.len() == 0 {
        seq!['"', '"']
    } else {
        seq!['"'] + quoted_rest(value, 0)
    }
}

/// Parts joined with single spaces.
pub open spec fn joined_with_spaces(parts: Seq<Seq<char>>) -> Seq<char>
    decreases parts.len(),
{
    if parts.len() == 0 {
        seq![]
    } else if parts.len() == 1 {
        parts[0]
    } else {
        joined_with_spaces(parts.drop_last()) + seq![' '] + parts.last()
    }
}

fn push_backslashes(out: &mut Vec<char>, n: usize)
    ensures
        final(out)@ == old(out)@ + backslashes(n as nat),
{
    let ghost start = out@;
    let mut i: usize = 0;
    while i < n
        invariant
            i <= n,
            out@ == start + backslashes(i as nat),
        decreases n - i,
    {
        out.push('\\');
        i = i + 1;
        assert(out@ =~= start + backslashes(i as nat));
    }
}

proof fn lemma_quoted_rest_step(s: Seq<char>, i: int, slashes: nat)
    requires
        0 <= i < s.len(),
    ensures
        quoted_rest(s.skip(i), slashes) == (if s[i] == '\\' {
            quoted_rest(s.skip(i + 1), slashes + 1)
        } else if s[i] == '"' {
            backslashes(2 * slashes + 1).push('"') + quoted_rest(s.skip(i + 1), 0)
        } else {
            backslashes(slashes).push(s[i]) + quoted_rest(s.skip(i + 1), 0)
        }),
{
    assert(s.skip(i).drop_first() =~= s.skip(i + 1));
    assert(s.skip(i)[0] == s[i]);
}

/// Quotes one argument for a Windows command line (the rules of `CommandLineToArgvW`).
pub fn quote_windows_arg(value: &str) -> (r: String)
    ensures
        r@ == quoted_arg(value@),
{
    let v = chars_of(value);
    if v.len() == 0 {
        let mut e: Vec<char> = Vec::new();
        e.push('"');
        e.push('"');
        assert(e@ =~= seq!['"', '"']);
        return string_of(&e);
    }
    let mut out: Vec<char> = Vec::new();
    out.push('"');
    let mut slashes: usize = 0;
    let mut i: usize = 0;
    assert(v@.skip(0) =~= v@);
    while i < v.len()
        invariant
            v@ == value@,
            v.len() > 0,
            i <= v.len(),
            slashes <= i,
            out@ + quoted_rest(v@.skip(i as int), slashes as nat) == seq!['"'] + quoted_rest(v@, 0),
        decreases v.len() - i,
    {
        let ch = v[i];
        proof {
            lemma_quoted_rest_step(v@, i as int, slashes as nat);
        }
        if ch == '\\' {
            slashes = slashes + 1;
        } else if ch == '"' {
            let ghost before = out@;
            push_backslashes(&mut out, slashes);
            push_backslashes(&mut out, slashes);
            push_backslashes(&mut out, 1);
            out.push('"');
            proof {
                assert(backslashes(slashes as nat) + backslashes(slashes as nat) + backslashes(1)
                    =~= backslashes(2 * slashes as nat + 1));
                assert(out@ =~= before + backslashes(2 * slashes as nat + 1).push('"'));
            }
            slashes = 0;
        } else {
            let ghost before = out@;
            push_backslashes(&mut out, slashes);
            out.push(ch);
            assert(out@ =~= before + backslashes(slashes as nat).push(ch));
            slashes = 0;
        }
        i = i + 1;
    }
    let ghost before = out@;
    push_backslashes(&mut out, slashes);
    push_backslashes(&mut out, slashes);
    out.push('"');
    proof {
        assert(v@.skip(i as int).len() == 0);
        assert(backslashes(slashes as nat) + backslashes(slashes as nat) =~= backslashes(
            2 * slashes as nat,
        ));
        assert(out@ =~= before + backslashes(2 * slashes as nat).push('"'));
    }
    string_of(&out)
}

/// How the Microsoft C runtime reads the inside of a quoted argument, after its opening quote,
/// with `slashes` backslashes seen and not yet read: `2n` backslashes before a quote give `n`
/// backslashes and the quote closes the argument (here it must be the last character); `2n + 1`
/// backslashes before a quote give `n` backslashes and a literal quote; backslashes before any
/// other character are literal.
pub open spec fn read_quoted_rest(s: Seq<char>, slashes: nat) -> Option<Seq<char>>
    decreases s.len(),
{
    if s.len() == 0 {
        None
    } else if s[0] == '\\' {
        read_quoted_rest(s.drop_first(), slashes + 1)
    } else if s[0] == '"' {
        if slashes % 2 == 0 {
            if s.len() == 1 {
                Some(backslashes(slashes / 2))
            } else {
                None
            }
        } else {
            match read_quoted_rest(s.drop_first(), 0) {
                Some(rest) => Some(backslashes((slashes / 2) as nat).push('"') + rest),
                None => None,
            }
        }
    } else {
        match read_quoted_rest(s.drop_first(), 0) {
            Some(rest) => Some(backslashes(slashes).push(s[0]) + rest),
            None => None,
        }
    }
}

/// The argument that the C runtime reads from a whole quoted argument, if it is one.
pub open spec fn read_quoted_arg(s: Seq<char>) -> Option<Seq<char>> {
    if s.len() > 0 && s[0] == '"' {
        read_quoted_rest(s.drop_first(), 0)
    } else {
        None
    }
}

proof fn lemma_read_after_backslashes(n: nat, t: Seq<char>, k: nat)
    ensures
        read_quoted_rest(backslashes(n) + t, k) == read_quoted_rest(t, k + n),
    decreases n,
{
    if n > 0 {
        let s = backslashes(n) + t;
        assert(s[0] == '\\');
        assert(s.drop_first() =~= backslashes((n - 1) as nat) + t);
        lemma_read_after_backslashes((n - 1) as nat, t, k + 1);
    } else {
        assert(backslashes(0) + t =~= t);
    }
}

proof fn lemma_quoted_rest_read_back(s: Seq<char>, k: nat)
    ensures
        read_quoted_rest(quoted_rest(s, k), 0) == Some(backslashes(k) + s),
    decreases s.len(),
{
    if s.len() == 0 {
        lemma_read_after_backslashes(2 * k, seq!['"'], 0);
        assert(backslashes(2 * k).push('"') =~= backslashes(2 * k) + seq!['"']);
        assert((2 * k) / 2 == k) by (nonlinear_arith);
        assert(backslashes(k) + s =~= backslashes(k));
    } else if s[0] == '\\' {
        lemma_quoted_rest_read_back(s.drop_first(), k + 1);
        assert(backslashes(k + 1) + s.drop_first() =~= backslashes(k) + s);
    } else if s[0] == '"' {
        let q = quoted_rest(s.drop_first(), 0);
        lemma_quoted_rest_read_back(s.drop_first(), 0);
        assert(backslashes(0) + s.drop_first() =~= s.drop_first());
        let t = seq!['"'] + q;
        assert(backslashes(2 * k + 1).push('"') + q =~= backslashes(2 * k + 1) + t);
        lemma_read_after_backslashes(2 * k + 1, t, 0);
        assert(t.drop_first() =~= q);
        assert((2 * k + 1) % 2 == 1 && (2 * k + 1) / 2 == k) by (nonlinear_arith);
        assert(backslashes(k).push('"') + s.drop_first() =~= backslashes(k) + s);
    } else {
        let q = quoted_rest(s.drop_first(), 0);
        lemma_quoted_rest_read_back(s.drop_first(), 0);
        assert(backslashes(0) + s.drop_first() =~= s.drop_first());
        let t = seq![s[0]] + q;
        assert(backslashes(k).push(s[0]) + q =~= backslashes(k) + t);
        lemma_read_after_backslashes(k, t, 0);
        assert(t.drop_first() =~= q);
        assert(backslashes(k).push(s[0]) + s.drop_first() =~= backslashes(k) + s);
    }
}

/// A quoted argument is read back by the C runtime as exactly the value that was quoted,
/// whatever quotes, backslashes, spaces or other characters the value holds.
pub proof fn lemma_quote_read_back(value: Seq<char>)
    ensures
        read_quoted_arg(quoted_arg(value)) == Some(value),
{
    if value.len() == 0 {
        assert(quoted_arg(value).drop_first() =~= seq!['"']);
        assert(backslashes(0) =~= value);
    } else {
        assert(quoted_arg(value).drop_first() =~= quoted_rest(value, 0));
        lemma_quoted_rest_read_back(value, 0);
        assert(backslashes(0) + value =~= value);
    }
}

/// The Windows command line that runs `executable` with `args`, each quoted.
pub fn windows_command_line(executable: &str, args: &Vec<String>) -> (r: String)
    ensures
        r@ == joined_with_spaces(seq![quoted_arg(executable@)] + texts(args@).map_values(
            |a: Seq<char>| quoted_arg(a),
        )),
{
    let ghost parts = seq![quoted_arg(executable@)] + texts(args@).map_values(|a: Seq<char>| quoted_arg(a));
    let first = quote_windows_arg(executable);
    let mut out: Vec<char> = chars_of(first.as_str());
    let mut i: usize = 0;
    assert(parts.take(1) =~= seq![quoted_arg(executable@)]);
    while i < args.len()
        invariant
            i <= args.len(),
            parts == seq![quoted_arg(executable@)] + texts(args@).map_values(|a: Seq<char>| quoted_arg(a)),
            parts.len() == args.len() + 1,
            out@ == joined_with_spaces(parts.take(i + 1)),
        decreases args.len() - i,
    {
        let q = quote_windows_arg(args[i].as_str());
        let qv = chars_of(q.as_str());
        let ghost before = out@;
        out.push(' ');
        crate::text::extend_chars(&mut out, &qv);
        proof {
            assert(parts.take(i + 2).drop_last() =~= parts.take(i + 1));
            assert(parts[i + 1] == quoted_arg(args@[i as int]@));
            assert(parts.take(i + 2).last() == parts[i + 1]);
            assert(out@ =~= before + seq![' '] + qv@);
        }
        i = i + 1;
    }
    assert(parts.take(args.len() + 1) =~= parts);
    string_of(&out)
}


/// `projects[p].modules[m]` is the code project with id `id`.
pub open spec fn module_at(projects: Seq<Project>, id: Seq<char>, p: int, m: int) -> bool {
    &&& 0 <= p < projects.len()
    &&& 0 <= m < projects[p].modules@.len()
    &&& projects[p].modules@[m].id@ == id
}

/// `(p, m)` is the first place, in list order, that holds the code project with id `id`.
pub open spec fn is_first_module(projects: Seq<Project>, id: Seq<char>, p: int, m: int) -> bool {
    &&& module_at(projects, id, p, m)
    &&& forall|p2: int, m2: int| 0 <= p2 < p ==> !module_at(projects, id, p2, m2)
    &&& forall|m2: int| 0 <= m2 < m ==> !module_at(projects, id, p, m2)
}

/// The first place that holds the code project with id `module_id`.
pub fn locate_module(projects: &Vec<Project>, module_id: &str) -> (r: Option<(usize, usize)>)
    ensures
        match r {
            Some((p, m)) => is_first_module(projects@, module_id@, p as int, m as int),
            None => forall|p: int, m: int| !module_at(projects@, module_id@, p, m),
        },
{
    let mut p: usize = 0;
    while p < projects.len()
        invariant
            p <= projects.len(),
            forall|p2: int, m2: int| 0 <= p2 < p ==> !module_at(projects@, module_id@, p2, m2),
        decreases projects.len() - p,
    {
        let modules = &projects[p].modules;
        let mut m: usize = 0;
        while m < modules.len()
            invariant
                p < projects.len(),
                modules@ == projects@[p as int].modules@,
                forall|p2: int, m2: int| 0 <= p2 < p ==> !module_at(projects@, module_id@, p2, m2),
                m <= modules.len(),
                forall|m2: int| 0 <= m2 < m ==> !module_at(projects@, module_id@, p as int, m2),
            decreases modules.len() - m,
        {
            if same_text(modules[m].id.as_str(), module_id) {
                return Some((p, m));
            }
            m = m + 1;
        }
        p = p + 1;
    }
    None
}

/// An installation that can launch the IDE `ide` on `platform`: same IDE and platform,
/// enabled, and found available.
pub open spec fn installation_fits(inst: IdeInstallation, ide: Seq<char>, platform: Seq<char>) -> bool {
    &&& inst.ide_id@ == ide
    &&& inst.platform@ == platform
    &&& inst.enabled
    &&& inst.status@ == "available"@
}

/// The first installation that can launch `ide` on `platform`.
pub fn choose_installation(installations: &Vec<IdeInstallation>, ide: &str, platform: &str) -> (r: Option<usize>)
    ensures
        match r {
            Some(i) => i < installations.len() && installation_fits(installations@[i as int], ide@, platform@)
                && forall|j: int| 0 <= j < i ==> !installation_fits(#[trigger] installations@[j], ide@, platform@),
            None => forall|j: int| 0 <= j < installations.len() ==> !installation_fits(#[trigger] installations@[j], ide@, platform@),
        },
{
    let mut i: usize = 0;
    while i < installations.len()
        invariant
            i <= installations.len(),
            forall|j: int| 0 <= j < i ==> !installation_fits(#[trigger] installations@[j], ide@, platform@),
        decreases installations.len() - i,
    {
        let inst = &installations[i];
        if same_text(inst.ide_id.as_str(), ide) && same_text(inst.platform.as_str(), platform) && inst.enabled
            && same_text(inst.status.as_str(), "available") {
            return Some(i);
        }
        i = i + 1;
    }
    None
}

/// A launch of the same code project started less than two seconds ago.
pub open spec fn started_recently(now: i64, last_started: Option<i64>) -> bool {
    last_started matches Some(v) && now - v < 2
}

/// Whether a launch started at `last_started` is too recent to start another at `now`.
pub fn recently_started(now: i64, last_started: Option<i64>) -> (r: bool)
    ensures
        r == started_recently(now, last_started),
{
    match last_started {
        Some(v) => (now as i128) - (v as i128) < 2,
        None => false,
    }
}

/// How an installation is started.
#[derive(Debug, Clone, Copy, PartialEq, Eq)]
pub enum LaunchKind {
    /// A macOS application bundle, opened with `open -a`.
    MacosApp,
    /// A command looked up on the PATH.
    Command,
    /// An executable file started directly.
    Executable,
}

/// The launch kind stored for an installation.
pub open spec fn kind_of(launch_kind: Seq<char>) -> LaunchKind {
    if launch_kind == "macosApp"@ {
        LaunchKind::MacosApp
    } else if launch_kind == "command"@ {
        LaunchKind::Command
    } else {
        LaunchKind::Executable
    }
}

/// What to start for a code project.
#[derive(Debug, Clone)]
pub struct LaunchPlan {
    pub module_id: String,
    pub project_name: String,
    pub module_name: String,
    /// The IDE chosen for the launch.
    pub ide_id: String,
    /// The IDE's name as the installation knows it, or its id.
    pub ide_name: String,
    pub executable: String,
    pub kind: LaunchKind,
    /// The target path.
    pub path: String,
    pub args: Vec<String>,
}

/// Why a code project could not be launched.
#[derive(Debug, Clone)]
pub enum LaunchError {
    RecentlyStarted,
    ModuleNotFound,
    PathNotConfigured { project_name: String, module_name: String },
    PathUnusable { project_name: String, module_name: String, path: String, status: String },
    NoIde { project_name: String, module_name: String },
    NoInstallation { project_name: String, module_name: String },
    CommandNotFound { executable: String },
}

/// The message shown for a launch error.
pub open spec fn launch_error_text(e: LaunchError) -> Seq<char> {
    match e {
        LaunchError::RecentlyStarted => "该项目刚刚已经提交打开，请勿重复操作。"@,
        LaunchError::ModuleNotFound => "找不到要打开的项目"@,
        LaunchError::PathNotConfigured { project_name, module_name } => project_name@ + " / "@
            + module_name@ + " 未配置当前平台路径"@,
        LaunchError::PathUnusable { project_name, module_name, path, status } => "无法打开 "@
            + project_name@ + " / "@ + module_name@ + "：路径 "@ + path@ + " 当前状态为 "@ + status@
            + "，请编辑项目路径。"@,
        LaunchError::NoIde { project_name, module_name } => project_name@ + " / "@ + module_name@
            + " 未指定 IDE"@,
        LaunchError::NoInstallation { project_name, module_name } => project_name@ + " / "@
            + module_name@ + " 的 IDE 未检测到或未启用，请前往 IDE 管理重新配置。"@,
        LaunchError::CommandNotFound { executable } => "找不到 PATH 命令："@ + executable@,
    }
}

impl LaunchError {
    /// The message shown for this error.
    pub fn message(&self) -> (r: String)
        ensures
            r@ == launch_error_text(*self),
    {
        match self {
            LaunchError::RecentlyStarted => String::from_str("该项目刚刚已经提交打开，请勿重复操作。"),
            LaunchError::ModuleNotFound => String::from_str("找不到要打开的项目"),
            LaunchError::PathNotConfigured { project_name, module_name } => {
                let mut r = String::from_str(project_name.as_str());
                r.append(" / ");
                r.append(module_name.as_str());
                r.append(" 未配置当前平台路径");
                r
            },
            LaunchError::PathUnusable { project_name, module_name, path, status } => {
                let mut r = String::from_str("无法打开 ");
                r.append(project_name.as_str());
                r.append(" / ");
                r.append(module_name.as_str());
                r.append("：路径 ");
                r.append(path.as_str());
                r.append(" 当前状态为 ");
                r.append(status.as_str());
                r.append("，请编辑项目路径。");
                r
            },
            LaunchError::NoIde { project_name, module_name } => {
                let mut r = String::from_str(project_name.as_str());
                r.append(" / ");
                r.append(module_name.as_str());
                r.append(" 未指定 IDE");
                r
            },
            LaunchError::NoInstallation { project_name, module_name } => {
                let mut r = String::from_str(project_name.as_str());
                r.append(" / ");
                r.append(module_name.as_str());
                r.append(" 的 IDE 未检测到或未启用，请前往 IDE 管理重新配置。");
                r
            },
            LaunchError::CommandNotFound { executable } => concat2("找不到 PATH 命令：", executable.as_str()),
        }
    }
}

/// The IDE chosen for a code project: the one asked for, else the project's own.
pub open spec fn chosen_ide(override_ide_id: Option<String>, module: ProjectModule) -> Option<String> {
    match override_ide_id {
        Some(i) => Some(i),
        None => module.ide_id,
    }
}

/// The IDE name a launch reports: the installation's IDE name, or its IDE id.
pub open spec fn reported_ide_name(inst: IdeInstallation) -> Seq<char> {
    match inst.ide_name {
        Some(n) => n@,
        None => inst.ide_id@,
    }
}

/// `plan` starts `inst` for `module` of `project` on `target` with the IDE `ide`, the target
/// being a directory when `is_dir`.
pub open spec fn plan_matches(
    plan: LaunchPlan,
    project: Project,
    module: ProjectModule,
    ide: Seq<char>,
    inst: IdeInstallation,
    target: ModulePath,
    is_dir: bool,
) -> bool {
    &&& plan.module_id@ == module.id@
    &&& plan.project_name@ == project.name@
    &&& plan.module_name@ == module.name@
    &&& plan.ide_id@ == ide
    &&& plan.ide_name@ == reported_ide_name(inst)
    &&& plan.executable@ == inst.executable_path@
    &&& plan.kind == kind_of(inst.launch_kind@)
    &&& plan.path@ == target.path@
    &&& plan.args.len() == module.argument_template.len()
    &&& forall|a: int| 0 <= a < plan.args.len() ==> (#[trigger] plan.args@[a])@
            == substituted(module.argument_template@[a]@, target.path@, dir_for(target.path@, is_dir), module.name@)
}

/// What launching `module` of `project` gives once it is found, when its path has the status
/// `status` and is a directory when `is_dir`: no path, an unusable path, no IDE, no usable
/// installation, or the plan for the first usable installation of the chosen IDE.
pub open spec fn module_outcome(
    project: Project,
    module: ProjectModule,
    override_ide_id: Option<String>,
    installations: Seq<IdeInstallation>,
    platform: Seq<char>,
    status: Seq<char>,
    is_dir: bool,
    r: Result<LaunchPlan, LaunchError>,
) -> bool {
    match module.path {
        None => r matches Err(LaunchError::PathNotConfigured { project_name, module_name })
            && project_name@ == project.name@ && module_name@ == module.name@,
        Some(target) => if status != "valid"@ {
            r matches Err(LaunchError::PathUnusable { project_name, module_name, path, status: s })
                && project_name@ == project.name@ && module_name@ == module.name@
                && path@ == target.path@ && s@ == status
        } else {
            match chosen_ide(override_ide_id, module) {
                None => r matches Err(LaunchError::NoIde { project_name, module_name })
                    && project_name@ == project.name@ && module_name@ == module.name@,
                Some(ide) => {
                    &&& (forall|j: int| 0 <= j < installations.len() ==> !installation_fits(#[trigger] installations[j], ide@, platform))
                        ==> (r matches Err(LaunchError::NoInstallation { project_name, module_name })
                            && project_name@ == project.name@ && module_name@ == module.name@)
                    &&& forall|i: int| 0 <= i < installations.len() && installation_fits(installations[i], ide@, platform)
                        && (forall|j: int| 0 <= j < i ==> !installation_fits(#[trigger] installations[j], ide@, platform))
                        ==> (r matches Ok(plan) && plan_matches(plan, project, module, ide@, installations[i], target, is_dir))
                },
            }
        },
    }
}

/// What launching `module_id` at `now` gives, when the code project's path has the status
/// `status` and is a directory when `is_dir`.
pub open spec fn launch_outcome(
    now: i64,
    last_started: Option<i64>,
    projects: Seq<Project>,
    module_id: Seq<char>,
    override_ide_id: Option<String>,
    installations: Seq<IdeInstallation>,
    platform: Seq<char>,
    status: Seq<char>,
    is_dir: bool,
    r: Result<LaunchPlan, LaunchError>,
) -> bool {
    &&& (started_recently(now, last_started) <==> (r matches Err(LaunchError::RecentlyStarted)))
    &&& !started_recently(now, last_started) ==> ((forall|p: int, m: int| !module_at(projects, module_id, p, m))
        <==> (r matches Err(LaunchError::ModuleNotFound)))
    &&& !started_recently(now, last_started) ==> forall|p: int, m: int| #[trigger] is_first_module(projects, module_id, p, m)
        ==> module_outcome(projects[p], projects[p].modules@[m], override_ide_id, installations, platform, status, is_dir, r)
}

/// `status` is a status the disk can give the path of the code project `module_id`, if it has
/// one.
pub open spec fn status_fits(projects: Seq<Project>, module_id: Seq<char>, status: Seq<char>) -> bool {
    forall|p: int, m: int| #[trigger] is_first_module(projects, module_id, p, m) ==> match projects[p].modules@[m].path {
        Some(t) => is_status_of(status, t.path@, t.path_kind@),
        None => true,
    }
}

/// `is_dir` is the disk's answer whether the path of the code project `module_id` is a
/// directory, when that path is valid.
pub open spec fn dir_fits(projects: Seq<Project>, module_id: Seq<char>, status: Seq<char>, is_dir: bool) -> bool {
    forall|p: int, m: int| #[trigger] is_first_module(projects, module_id, p, m) ==> match projects[p].modules@[m].path {
        Some(t) => status == "valid"@ ==> is_dir_answer(t.path@, is_dir),
        None => true,
    }
}

fn clone_opt(o: &Option<String>) -> (r: Option<String>)
    ensures
        r == *o,
{
    match o {
        Some(s) => Some(s.clone()),
        None => None,
    }
}

proof fn lemma_first_module_unique(projects: Seq<Project>, id: Seq<char>, p: int, m: int)
    requires
        is_first_module(projects, id, p, m),
    ensures
        forall|p2: int, m2: int| #[trigger] is_first_module(projects, id, p2, m2) ==> p2 == p && m2 == m,
{
    assert forall|p2: int, m2: int| #[trigger] is_first_module(projects, id, p2, m2)
        implies p2 == p && m2 == m by {
        if p2 < p {
            assert(!module_at(projects, id, p2, m2));
        } else if p2 > p {
            assert(!module_at(projects, id, p, m));
        } else if m2 < m {
            assert(!module_at(projects, id, p, m2));
        } else if m2 > m {
            assert(!module_at(projects, id, p, m));
        }
    }
}

/// Decides how to launch the code project `module_id` at time `now`, given the status of its
/// path (`status`, as `validate_path` gives it) and whether the path is a directory: it
/// refuses a launch within two seconds of the last one, a code project that is not listed,
/// one without a path on this platform, one whose path status is not `valid`, one without an
/// IDE, and one whose IDE has no usable installation on `platform`; otherwise it starts the
/// first usable installation of the chosen IDE on the project's path with the project's
/// argument template.
pub fn plan_for_status(
    now: i64,
    last_started: Option<i64>,
    projects: &Vec<Project>,
    module_id: &str,
    override_ide_id: Option<String>,
    installations: &Vec<IdeInstallation>,
    platform: &str,
    status: &str,
    target_is_dir: bool,
) -> (r: Result<LaunchPlan, LaunchError>)
    ensures
        launch_outcome(now, last_started, projects@, module_id@, override_ide_id, installations@, platform@,
            status@, target_is_dir, r),
{
    if recently_started(now, last_started) {
        return Err(LaunchError::RecentlyStarted);
    }
    let (p, m) = match locate_module(projects, module_id) {
        Some(found) => found,
        None => {
            return Err(LaunchError::ModuleNotFound);
        },
    };
    proof {
        lemma_first_module_unique(projects@, module_id@, p as int, m as int);
    }
    let project = &projects[p];
    let module = &project.modules[m];
    let target = match &module.path {
        Some(t) => t,
        None => {
            return Err(LaunchError::PathNotConfigured {
                project_name: project.name.clone(),
                module_name: module.name.clone(),
            });
        },
    };
    if !same_text(status, "valid") {
        return Err(LaunchError::PathUnusable {
            project_name: project.name.clone(),
            module_name: module.name.clone(),
            path: target.path.clone(),
            status: String::from_str(status),
        });
    }
    let ide = match clone_opt(&override_ide_id) {
        Some(i) => i,
        None => match clone_opt(&module.ide_id) {
            Some(i) => i,
            None => {
                return Err(LaunchError::NoIde {
                    project_name: project.name.clone(),
                    module_name: module.name.clone(),
                });
            },
        },
    };
    let chosen = match choose_installation(installations, ide.as_str(), platform) {
        Some(i) => i,
        None => {
            return Err(LaunchError::NoInstallation {
                project_name: project.name.clone(),
                module_name: module.name.clone(),
            });
        },
    };
    proof {
        assert forall|i: int| 0 <= i < installations.len() && installation_fits(installations@[i], ide@, platform@)
            && (forall|j: int| 0 <= j < i ==> !installation_fits(#[trigger] installations@[j], ide@, platform@))
            implies i == chosen by {
            if i < chosen {
                assert(!installation_fits(installations@[i], ide@, platform@));
            } else if i > chosen {
                assert(!installation_fits(installations@[chosen as int], ide@, platform@));
            }
        }
    }
    let inst = &installations[chosen];
    let kind = if same_text(inst.launch_kind.as_str(), "macosApp") {
        LaunchKind::MacosApp
    } else if same_text(inst.launch_kind.as_str(), "command") {
        LaunchKind::Command
    } else {
        LaunchKind::Executable
    };
    let ide_name = match &inst.ide_name {
        Some(n) => n.clone(),
        None => inst.ide_id.clone(),
    };
    let args = args_for(&module.argument_template, target.path.as_str(), target_is_dir, module.name.as_str());
    Ok(LaunchPlan {
        module_id: module.id.clone(),
        project_name: project.name.clone(),
        module_name: module.name.clone(),
        ide_id: ide,
        ide_name,
        executable: inst.executable_path.clone(),
        kind,
        path: target.path.clone(),
        args,
    })
}

/// Decides how to launch the code project `module_id` at time `now` (see `plan_for_status`),
/// asking the disk for the status of the code project's path and whether it is a directory.
/// A blank path is refused as `unconfigured` without asking the disk.
pub fn plan_launch(
    now: i64,
    last_started: Option<i64>,
    projects: &Vec<Project>,
    module_id: &str,
    override_ide_id: Option<String>,
    installations: &Vec<IdeInstallation>,
    platform: &str,
) -> (r: Result<LaunchPlan, LaunchError>)
    ensures
        exists|status: Seq<char>, is_dir: bool|
            #![trigger launch_outcome(now, last_started, projects@, module_id@, override_ide_id, installations@, platform@, status, is_dir, r)]
            (!started_recently(now, last_started) ==> status_fits(projects@, module_id@, status)
                && dir_fits(projects@, module_id@, status, is_dir))
            && launch_outcome(now, last_started, projects@, module_id@, override_ide_id, installations@, platform@, status, is_dir, r),
        !started_recently(now, last_started) ==> forall|p: int, m: int| #[trigger] is_first_module(projects@, module_id@, p, m) ==> (
            projects@[p].modules@[m].path matches Some(t) && trim_text(t.path@).len() == 0
            ==> (r matches Err(LaunchError::PathUnusable { status, .. }) && status@ == "unconfigured"@)),
{
    let mut status = String::new();
    let mut is_dir = false;
    if !recently_started(now, last_started) {
        match locate_module(projects, module_id) {
            Some((p, m)) => {
                proof {
                    lemma_first_module_unique(projects@, module_id@, p as int, m as int);
                }
                match &projects[p].modules[m].path {
                    Some(t) => {
                        status = validate_path(t.path.as_str(), t.path_kind.as_str());
                        if same_text(status.as_str(), "valid") {
                            is_dir = disk_is_dir(t.path.as_str());
                        }
                        assert(is_status_of(status@, t.path@, t.path_kind@));
                        assert(dir_fits(projects@, module_id@, status@, is_dir));
                        assert(trim_text(t.path@).len() == 0 ==> status@ == "unconfigured"@);
                        assert(status_fits(projects@, module_id@, status@));
                    },
                    None => {
                        assert(status_fits(projects@, module_id@, status@));
                        assert(dir_fits(projects@, module_id@, status@, is_dir));
                    },
                }
            },
            None => {
                assert(status_fits(projects@, module_id@, status@));
                assert(dir_fits(projects@, module_id@, status@, is_dir));
            },
        }
    }
    let r = plan_for_status(now, last_started, projects, module_id, override_ide_id, installations, platform,
        status.as_str(), is_dir);
    proof {
        reveal_strlit("unconfigured");
        reveal_strlit("valid");
        assert(launch_outcome(now, last_started, projects@, module_id@, override_ide_id, installations@, platform@, status@, is_dir, r));
        assert(!started_recently(now, last_started) ==> status_fits(projects@, module_id@, status@));
        assert(!started_recently(now, last_started) ==> dir_fits(projects@, module_id@, status@, is_dir));
        assert forall|p: int, m: int| #[trigger] is_first_module(projects@, module_id@, p, m) && !started_recently(now, last_started)
            implies (projects@[p].modules@[m].path matches Some(t) && trim_text(t.path@).len() == 0
            ==> (r matches Err(LaunchError::PathUnusable { status, .. }) && status@ == "unconfigured"@)) by {
            if let Some(t) = projects@[p].modules@[m].path {
                if trim_text(t.path@).len() == 0 {
                    assert(is_status_of(status@, t.path@, t.path_kind@));
                    let (e, f, d) = choose|e: bool, f: bool, d: bool| status@ == status_text(classify_path(t.path@, t.path_kind@, e, f, d));
                    assert(status@ == "unconfigured"@);
                    assert("unconfigured"@.len() != "valid"@.len());
                    assert(status@ != "valid"@);
                }
            }
        }
    }
    r
}


proof fn lemma_first_fit(insts: Seq<IdeInstallation>, ide: Seq<char>, platform: Seq<char>, i: int)
    requires
        0 <= i < insts.len(),
        installation_fits(insts[i], ide, platform),
    ensures
        exists|j: int| 0 <= j < insts.len() && installation_fits(insts[j], ide, platform)
            && (forall|k: int| 0 <= k < j ==> !installation_fits(#[trigger] insts[k], ide, platform)),
    decreases i,
{
    if exists|k: int| 0 <= k < i && installation_fits(insts[k], ide, platform) {
        let k = choose|k: int| 0 <= k < i && installation_fits(insts[k], ide, platform);
        lemma_first_fit(insts, ide, platform, k);
    } else {
        assert(forall|k: int| 0 <= k < i ==> !installation_fits(#[trigger] insts[k], ide, platform));
    }
}

/// A planned launch substitutes `{directory}` with the target path itself when the disk says
/// the target is a directory, and with the target's parent otherwise; `{path}` is the target
/// and `{name}` the code project's name. It starts the code project's path, which the disk
/// found valid.
pub proof fn lemma_launch_directory_follows_disk(
    now: i64,
    last_started: Option<i64>,
    projects: Vec<Project>,
    module_id: &str,
    override_ide_id: Option<String>,
    installations: Vec<IdeInstallation>,
    platform: &str,
    r: Result<LaunchPlan, LaunchError>,
    p: int,
    m: int,
)
    requires
        call_ensures(plan_launch, (now, last_started, &projects, module_id, override_ide_id, &installations, platform), r),
        is_first_module(projects@, module_id@, p, m),
        r is Ok,
    ensures
        ({
            let module = projects@[p].modules@[m];
            let plan = r->Ok_0;
            &&& module.path is Some
            &&& plan.path@ == module.path->Some_0.path@
            &&& is_status_of("valid"@, plan.path@, module.path->Some_0.path_kind@)
            &&& exists|is_dir: bool| #![trigger is_dir_answer(plan.path@, is_dir)] is_dir_answer(plan.path@, is_dir)
                && plan.args.len() == module.argument_template.len()
                && forall|a: int| 0 <= a < plan.args.len() ==> (#[trigger] plan.args@[a])@ == substituted(
                    module.argument_template@[a]@,
                    plan.path@,
                    if is_dir { plan.path@ } else { parent_text(plan.path@) },
                    module.name@,
                )
        }),
{
    let (status, is_dir) = choose|status: Seq<char>, is_dir: bool|
        (!started_recently(now, last_started) ==> status_fits(projects@, module_id@, status)
            && dir_fits(projects@, module_id@, status, is_dir))
        && launch_outcome(now, last_started, projects@, module_id@, override_ide_id, installations@, platform@, status, is_dir, r);
    assert(!started_recently(now, last_started));
    let project = projects@[p];
    let module = project.modules@[m];
    assert(module_outcome(project, module, override_ide_id, installations@, platform@, status, is_dir, r));
    let t = module.path->Some_0;
    assert(status == "valid"@);
    let ide = chosen_ide(override_ide_id, module)->Some_0;
    if forall|j: int| 0 <= j < installations.len() ==> !installation_fits(#[trigger] installations@[j], ide@, platform@) {
        assert(false);
    }
    let i0 = choose|j: int| 0 <= j < installations.len() && installation_fits(installations@[j], ide@, platform@);
    lemma_first_fit(installations@, ide@, platform@, i0);
    let i = choose|j: int| 0 <= j < installations.len() && installation_fits(installations@[j], ide@, platform@)
        && (forall|k: int| 0 <= k < j ==> !installation_fits(#[trigger] installations@[k], ide@, platform@));
    let plan = r->Ok_0;
    assert(plan_matches(plan, project, module, ide@, installations@[i], t, is_dir));
    assert(is_status_of(status, t.path@, t.path_kind@));
    assert(is_dir_answer(plan.path@, is_dir));
}

/// A program to start, with its arguments.
#[derive(Debug, Clone)]
pub struct LaunchCommand {
    pub program: String,
    pub args: Vec<String>,
    /// Whether the program is started without a console window (on Windows).
    pub hidden_console: bool,
}

/// How the operating system is asked to start `plan`, given the program that a lookup of a
/// PATH command found (`resolved`) and whether this is Windows: a macOS application is opened
/// with `open -a`; a PATH command that was not found is refused; on Windows a `.cmd` or `.bat`
/// launcher runs through `cmd.exe /D /S /C` with a quoted command line; any other program is
/// started directly with the plan's arguments.
pub fn launch_command(plan: &LaunchPlan, resolved: Option<String>, windows: bool) -> (r: Result<LaunchCommand, LaunchError>)
    ensures
        plan.kind == LaunchKind::MacosApp ==> (r matches Ok(c) && c.program@ == "open"@
            && texts(c.args@) == seq!["-a"@, plan.executable@, plan.path@] && !c.hidden_console),
        plan.kind == LaunchKind::Executable ==> (r matches Ok(c) && c.program@ == plan.executable@
            && texts(c.args@) == texts(plan.args@) && c.hidden_console),
        plan.kind == LaunchKind::Command ==> match resolved {
            None => r matches Err(LaunchError::CommandNotFound { executable }) && executable@ == plan.executable@,
            Some(t) => r matches Ok(c) && c.hidden_console && if windows && is_batch_script(t@) {
                &&& c.program@ == "cmd.exe"@
                &&& texts(c.args@) == seq!["/D"@, "/S"@, "/C"@, joined_with_spaces(
                    seq![quoted_arg(t@)] + texts(plan.args@).map_values(|a: Seq<char>| quoted_arg(a)),
                )]
            } else {
                &&& c.program@ == t@
                &&& texts(c.args@) == texts(plan.args@)
            },
        },
{
    match plan.kind {
        LaunchKind::MacosApp => {
            let mut args: Vec<String> = Vec::new();
            args.push(String::from_str("-a"));
            args.push(plan.executable.clone());
            args.push(plan.path.clone());
            proof {
                reveal_strlit("-a");
                assert(texts(args@) =~= seq!["-a"@, plan.executable@, plan.path@]);
            }
            Ok(LaunchCommand { program: String::from_str("open"), args, hidden_console: false })
        },
        LaunchKind::Executable => {
            Ok(LaunchCommand { program: plan.executable.clone(), args: clone_texts(&plan.args), hidden_console: true })
        },
        LaunchKind::Command => match resolved {
            None => Err(LaunchError::CommandNotFound { executable: plan.executable.clone() }),
            Some(t) => {
                if windows && batch_script(t.as_str()) {
                    let line = windows_command_line(t.as_str(), &plan.args);
                    let mut args: Vec<String> = Vec::new();
                    args.push(String::from_str("/D"));
                    args.push(String::from_str("/S"));
                    args.push(String::from_str("/C"));
                    args.push(line);
                    assert(texts(args@) =~= seq!["/D"@, "/S"@, "/C"@, args@[3]@]);
                    Ok(LaunchCommand { program: String::from_str("cmd.exe"), args, hidden_console: true })
                } else {
                    Ok(LaunchCommand { program: t, args: clone_texts(&plan.args), hidden_console: true })
                }
            },
        },
    }
}

/// The result reported for a launch that the operating system accepted.
pub fn launch_started(plan: LaunchPlan) -> (r: LaunchResult)
    ensures
        r.module_id@ == plan.module_id@,
        r.project_name@ == plan.project_name@,
        r.module_name@ == plan.module_name@,
        r.ide_name@ == plan.ide_name@,
        r.path@ == plan.path@,
        r.started,
        r.message@ == "已提交给操作系统启动"@,
{
    LaunchResult {
        module_id: plan.module_id,
        project_name: plan.project_name,
        module_name: plan.module_name,
        ide_name: plan.ide_name,
        path: plan.path,
        started: true,
        message: String::from_str("已提交给操作系统启动"),
    }
}

/// The message for a launch that the operating system refused with `error`.
pub fn launch_failure_message(plan: &LaunchPlan, error: &str) -> (r: String)
    ensures
        r@ == "无法使用 "@ + plan.ide_name@ + " 打开 "@ + plan.path@ + "："@ + error@,
{
    let mut r = String::from_str("无法使用 ");
    r.append(plan.ide_name.as_str());
    r.append(" 打开 ");
    r.append(plan.path.as_str());
    r.append("：");
    r.append(error);
    r
}

/// A program to run to show a path in the system file manager.
#[derive(Debug, Clone)]
pub struct RevealPlan {
    pub program: String,
    pub args: Vec<String>,
    /// The start of the message reported when the program cannot be started.
    pub failure_prefix: String,
}

/// What revealing the code project `module_id` in the file manager of `os` gives, when the
/// disk says its path exists (`exists`) and is a file (`is_file`): not listed, no path on this
/// platform and a missing path are refused; Windows selects a file in Explorer (`/select,`) and
/// opens a directory; macOS reveals a file in Finder (`-R`) and opens a directory; other
/// systems run nothing.
pub open spec fn reveal_outcome(
    projects: Seq<Project>,
    module_id: Seq<char>,
    os: Seq<char>,
    exists: bool,
    is_file: bool,
    r: Result<Option<RevealPlan>, String>,
) -> bool {
    &&& (forall|p: int, m: int| !module_at(projects, module_id, p, m)) ==> (r matches Err(e) && e@ == "项目不存在"@)
    &&& forall|p: int, m: int| #[trigger] is_first_module(projects, module_id, p, m) ==> match projects[p].modules@[m].path {
        None => r matches Err(e) && e@ == "项目未配置当前平台路径"@,
        Some(target) => if !exists {
            r matches Err(e) && e@ == "路径不存在："@ + target.path@
        } else if os == "windows"@ {
            r matches Ok(Some(run)) && run.program@ == "explorer.exe"@
                && texts(run.args@) == seq![if is_file { "/select,"@ + target.path@ } else { target.path@ }]
                && run.failure_prefix@ == "无法打开资源管理器："@
        } else if os == "macos"@ {
            r matches Ok(Some(run)) && run.program@ == "open"@
                && texts(run.args@) == (if is_file { seq!["-R"@, target.path@] } else { seq![target.path@] })
                && run.failure_prefix@ == "无法在 Finder 中显示路径："@
        } else {
            r matches Ok(None)
        },
    }
}

/// `exists` and `is_file` are the disk's answers for the path of the code project
/// `module_id`: whether it exists, and, when it does and the system is Windows or macOS,
/// whether it is a file.
pub open spec fn reveal_answers(projects: Seq<Project>, module_id: Seq<char>, os: Seq<char>, exists: bool, is_file: bool) -> bool {
    forall|p: int, m: int| #[trigger] is_first_module(projects, module_id, p, m) ==> match projects[p].modules@[m].path {
        Some(t) => exists_answer(t.path@, exists)
            && (exists && (os == "windows"@ || os == "macos"@) ==> is_file_answer(t.path@, is_file)),
        None => true,
    }
}

/// How to show the path of the code project `module_id` in the file manager of `os` (named as
/// `std::env::consts::OS` names it), given whether its path exists and is a file (see
/// `reveal_outcome`).
pub fn reveal_for(projects: &Vec<Project>, module_id: &str, os: &str, exists: bool, is_file: bool) -> (r: Result<Option<RevealPlan>, String>)
    ensures
        reveal_outcome(projects@, module_id@, os@, exists, is_file, r),
{
    let (p, m) = match locate_module(projects, module_id) {
        Some(found) => found,
        None => {
            return Err(String::from_str("项目不存在"));
        },
    };
    proof {
        lemma_first_module_unique(projects@, module_id@, p as int, m as int);
    }
    let module = &projects[p].modules[m];
    let target = match &module.path {
        Some(t) => t,
        None => {
            return Err(String::from_str("项目未配置当前平台路径"));
        },
    };
    let path = target.path.as_str();
    if !exists {
        return Err(concat2("路径不存在：", path));
    }
    if same_text(os, "windows") {
        let mut args: Vec<String> = Vec::new();
        if is_file {
            args.push(concat2("/select,", path));
        } else {
            args.push(String::from_str(path));
        }
        assert(texts(args@) =~= seq![args@[0]@]);
        return Ok(Some(RevealPlan {
            program: String::from_str("explorer.exe"),
            args,
            failure_prefix: String::from_str("无法打开资源管理器："),
        }));
    }
    if same_text(os, "macos") {
        let mut args: Vec<String> = Vec::new();
        if is_file {
            args.push(String::from_str("-R"));
        }
        args.push(String::from_str(path));
        proof {
            if is_file {
                assert(texts(args@) =~= seq!["-R"@, target.path@]);
            } else {
                assert(texts(args@) =~= seq![target.path@]);
            }
        }
        return Ok(Some(RevealPlan {
            program: String::from_str("open"),
            args,
            failure_prefix: String::from_str("无法在 Finder 中显示路径："),
        }));
    }
    Ok(None)
}

/// How to show the path of the code project `module_id` in the file manager of `os` (see
/// `reveal_outcome`), asking the disk whether its path exists and is a file.
pub fn plan_reveal(projects: &Vec<Project>, module_id: &str, os: &str) -> (r: Result<Option<RevealPlan>, String>)
    ensures
        exists|exists: bool, is_file: bool| #![trigger reveal_outcome(projects@, module_id@, os@, exists, is_file, r)]
            reveal_answers(projects@, module_id@, os@, exists, is_file)
            && reveal_outcome(projects@, module_id@, os@, exists, is_file, r),
{
    let mut exists = false;
    let mut is_file = false;
    if let Some((p, m)) = locate_module(projects, module_id) {
        if let Some(t) = &projects[p].modules[m].path {
            exists = disk_exists(t.path.as_str());
            if exists && (same_text(os, "windows") || same_text(os, "macos")) {
                is_file = disk_is_file(t.path.as_str());
            }
            proof {
                lemma_first_module_unique(projects@, module_id@, p as int, m as int);
            }
            assert(reveal_answers(projects@, module_id@, os@, exists, is_file));
        } else {
            proof {
                lemma_first_module_unique(projects@, module_id@, p as int, m as int);
            }
            assert(reveal_answers(projects@, module_id@, os@, exists, is_file));
        }
    } else {
        assert(reveal_answers(projects@, module_id@, os@, exists, is_file));
    }
    let r = reveal_for(projects, module_id, os, exists, is_file);
    assert(reveal_outcome(projects@, module_id@, os@, exists, is_file, r));
    r
}

} // verus!
