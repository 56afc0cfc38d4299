//! The tray menu: pinned business projects, the recently opened code projects, the other
//! business projects, and what a click on a menu entry asks for.
use vstd::prelude::*;
use vstd::string::*;
use vstd::multiset::Multiset;

use crate::models::{Project, ProjectModule};
use crate::text::{chars_of, concat2, same_text, string_of};

verus! {

/// Menu id of the entry that shows the main window.
pub const TRAY_OPEN_MAIN: &'static str = "tray-open-main";
/// Menu id of the entry that quits the application.
pub const TRAY_QUIT: &'static str = "tray-quit";

/// A code project opened before, as the tray lists it.
#[derive(Debug, Clone)]
pub struct RecentEntry {
    pub opened_at: i64,
    pub module_id: String,
    pub module_name: String,
    pub project_name: String,
}

/// A recently opened code project as plain values.
pub struct RecentView {
    pub opened_at: i64,
    pub module_id: Seq<char>,
    pub module_name: Seq<char>,
    pub project_name: Seq<char>,
}

pub open spec fn recent_view(e: RecentEntry) -> RecentView {
    RecentView {
        opened_at: e.opened_at,
        module_id: e.module_id@,
        module_name: e.module_name@,
        project_name: e.project_name@,
    }
}

/// The opened code projects of `modules`, in order.
pub open spec fn opened_in(modules: Seq<ProjectModule>, project_name: Seq<char>) -> Seq<RecentView>
    decreases modules.len(),
{
    if modules.len() == 0 {
        seq![]
    } else {
        let prev = opened_in(modules.drop_last(), project_name);
        let m = modules.last();
        match m.last_opened_at {
            Some(t) => prev.push(RecentView { opened_at: t, module_id: m.id@, module_name: m.name@, project_name }),
            None => prev,
        }
    }
}

/// Every opened code project of every business project, in order.
pub open spec fn opened_modules(projects: Seq<Project>) -> Seq<RecentView>
    decreases projects.len(),
{
    if projects.len() == 0 {
        seq![]
    } else {
        opened_modules(projects.drop_last()) + opened_in(projects.last().modules@, projects.last().name@)
    }
}

/// `x` placed into the newest-first list `s` before the first entry that is not newer.
pub open spec fn insert_newest_first(x: RecentView, s: Seq<RecentView>) -> Seq<RecentView>
    decreases s.len(),
{
    if s.len() == 0 {
        seq![x]
    } else if s[0].opened_at <= x.opened_at {
        seq![x] + s
    } else {
        seq![s[0]] + insert_newest_first(x, s.drop_first())
    }
}

/// The entries ordered newest first; entries opened at the same time keep their order
/// (a stable sort by descending time).
pub open spec fn newest_first(s: Seq<RecentView>) -> Seq<RecentView>
    decreases s.len(),
{
    if s.len() == 0 {
        seq![]
    } else {
        insert_newest_first(s[0], newest_first(s.drop_first()))
    }
}

/// At most five entries.
pub open spec fn at_most_five(s: Seq<RecentView>) -> Seq<RecentView> {
    if s.len() <= 5 { s } else { s.take(5) }
}

/// The recently opened code projects the tray lists: the five most recent, newest first.
pub open spec fn recent_list(projects: Seq<Project>) -> Seq<RecentView> {
    at_most_five(newest_first(opened_modules(projects)))
}

fn opened_entries(projects: &Vec<Project>) -> (r: Vec<RecentEntry>)
    ensures
        r@.map_values(|e: RecentEntry| recent_view(e)) == opened_modules(projects@),
{
    let mut out: Vec<RecentEntry> = Vec::new();
    let mut p: usize = 0;
    assert(projects@.take(0) =~= Seq::<Project>::empty());
    assert(out@.map_values(|e: RecentEntry| recent_view(e)) =~= Seq::<RecentView>::empty());
    while p < projects.len()
        invariant
            p <= projects.len(),
            out@.map_values(|e: RecentEntry| recent_view(e)) == opened_modules(projects@.take(p as int)),
        decreases projects.len() - p,
    {
        let project = &projects[p];
        let ghost base = out@.map_values(|e: RecentEntry| recent_view(e));
        let mut m: usize = 0;
        assert(project.modules@.take(0) =~= Seq::<ProjectModule>::empty());
        assert(base + opened_in(project.modules@.take(0), project.name@) =~= base);
        while m < project.modules.len()
            invariant
                m <= project.modules.len(),
                out@.map_values(|e: RecentEntry| recent_view(e)) == base + opened_in(project.modules@.take(m as int), project.name@),
            decreases project.modules.len() - m,
        {
            let module = &project.modules[m];
            proof {
                assert(project.modules@.take(m + 1).drop_last() =~= project.modules@.take(m as int));
                assert(project.modules@.take(m + 1).last() == *module);
            }
            match module.last_opened_at {
                Some(t) => {
                    let ghost before = out@;
                    out.push(RecentEntry {
                        opened_at: t,
                        module_id: module.id.clone(),
                        module_name: module.name.clone(),
                        project_name: project.name.clone(),
                    });
                    assert(out@.map_values(|e: RecentEntry| recent_view(e)) =~= before.map_values(
                        |e: RecentEntry| recent_view(e),
                    ).push(recent_view(out@.last())));
                },
                None => {},
            }
            m = m + 1;
        }
        proof {
            assert(project.modules@.take(project.modules.len() as int) =~= project.modules@);
            assert(projects@.take(p + 1).drop_last() =~= projects@.take(p as int));
            assert(projects@.take(p + 1).last() == *project);
        }
        p = p + 1;
    }
    assert(projects@.take(projects.len() as int) =~= projects@);
    out
}

fn clone_entry(e: &RecentEntry) -> (r: RecentEntry)
    ensures
        recent_view(r) == recent_view(*e),
{
    RecentEntry {
        opened_at: e.opened_at,
        module_id: e.module_id.clone(),
        module_name: e.module_name.clone(),
        project_name: e.project_name.clone(),
    }
}

proof fn lemma_insert_at(x: RecentView, s: Seq<RecentView>, j: int)
    requires
        0 <= j <= s.len(),
        forall|k: int| 0 <= k < j ==> s[k].opened_at > x.opened_at,
        j < s.len() ==> s[j].opened_at <= x.opened_at,
    ensures
        insert_newest_first(x, s) == s.take(j) + seq![x] + s.skip(j),
    decreases j,
{
    if j == 0 {
        if s.len() == 0 {
            assert(s.take(0) + seq![x] + s.skip(0) =~= seq![x]);
        } else {
            assert(s.take(0) + seq![x] + s.skip(0) =~= seq![x] + s);
        }
    } else {
        let t = s.drop_first();
        assert forall|k: int| 0 <= k < j - 1 implies t[k].opened_at > x.opened_at by {
            assert(t[k] == s[k + 1]);
        }
        lemma_insert_at(x, t, j - 1);
        assert(seq![s[0]] + (t.take(j - 1) + seq![x] + t.skip(j - 1)) =~= s.take(j) + seq![x] + s.skip(j));
    }
}

/// The entries ordered newest first (see `newest_first`).
fn sort_newest_first(entries: &Vec<RecentEntry>) -> (r: Vec<RecentEntry>)
    ensures
        r@.map_values(|e: RecentEntry| recent_view(e)) == newest_first(entries@.map_values(|e: RecentEntry| recent_view(e))),
{
    let ghost src = entries@.map_values(|e: RecentEntry| recent_view(e));
    let mut sorted: Vec<RecentEntry> = Vec::new();
    let mut i: usize = entries.len();
    assert(src.skip(entries.len() as int) =~= Seq::<RecentView>::empty());
    assert(sorted@.map_values(|e: RecentEntry| recent_view(e)) =~= Seq::<RecentView>::empty());
    while i > 0
        invariant
            i <= entries.len(),
            src == entries@.map_values(|e: RecentEntry| recent_view(e)),
            sorted@.map_values(|e: RecentEntry| recent_view(e)) == newest_first(src.skip(i as int)),
        decreases i,
    {
        i = i - 1;
        let x = &entries[i];
        let ghost xs = sorted@.map_values(|e: RecentEntry| recent_view(e));
        let mut j: usize = 0;
        while j < sorted.len() && sorted[j].opened_at > x.opened_at
            invariant
                j <= sorted.len(),
                xs == sorted@.map_values(|e: RecentEntry| recent_view(e)),
                forall|k: int| 0 <= k < j ==> xs[k].opened_at > x.opened_at,
            decreases sorted.len() - j,
        {
            j = j + 1;
        }
        let mut next: Vec<RecentEntry> = Vec::new();
        let mut k: usize = 0;
        while k < j
            invariant
                k <= j <= sorted.len(),
                xs == sorted@.map_values(|e: RecentEntry| recent_view(e)),
                next@.map_values(|e: RecentEntry| recent_view(e)) == xs.take(k as int),
            decreases j - k,
        {
            let ghost before = next@;
            let item = clone_entry(&sorted[k]);
            assert(recent_view(item) == xs[k as int]);
            next.push(item);
            assert(next@.map_values(|e: RecentEntry| recent_view(e)) =~= before.map_values(|e: RecentEntry| recent_view(e)).push(xs[k as int]));
            k = k + 1;
            assert(next@.map_values(|e: RecentEntry| recent_view(e)) =~= xs.take(k as int));
        }
        let ghost before_x = next@;
        let item_x = clone_entry(x);
        assert(recent_view(item_x) == src[i as int]);
        next.push(item_x);
        assert(next@.map_values(|e: RecentEntry| recent_view(e)) =~= before_x.map_values(|e: RecentEntry| recent_view(e)).push(src[i as int]));
        let ghost mid = next@.map_values(|e: RecentEntry| recent_view(e));
        assert(mid =~= xs.take(j as int) + seq![src[i as int]]);
        while k < sorted.len()
            invariant
                j <= k <= sorted.len(),
                xs == sorted@.map_values(|e: RecentEntry| recent_view(e)),
                next@.map_values(|e: RecentEntry| recent_view(e)) == mid + xs.subrange(j as int, k as int),
            decreases sorted.len() - k,
        {
            let ghost before = next@;
            let item = clone_entry(&sorted[k]);
            assert(recent_view(item) == xs[k as int]);
            next.push(item);
            assert(next@.map_values(|e: RecentEntry| recent_view(e)) =~= before.map_values(|e: RecentEntry| recent_view(e)).push(xs[k as int]));
            k = k + 1;
            assert(next@.map_values(|e: RecentEntry| recent_view(e)) =~= mid + xs.subrange(j as int, k as int));
        }
        proof {
            assert(xs.subrange(j as int, sorted.len() as int) =~= xs.skip(j as int));
            if (j as int) < xs.len() {
                assert(xs[j as int] == recent_view(sorted@[j as int]));
            }
            lemma_insert_at(src[i as int], xs, j as int);
            assert(src.skip(i as int).drop_first() =~= src.skip(i + 1));
            assert(src.skip(i as int)[0] == src[i as int]);
        }
        sorted = next;
    }
    assert(src.skip(0) =~= src);
    sorted
}

/// The code projects the tray lists as recently opened: the five opened most recently, newest
/// first, across all business projects.
pub fn recent_modules(projects: &Vec<Project>) -> (r: Vec<RecentEntry>)
    ensures
        r@.map_values(|e: RecentEntry| recent_view(e)) == recent_list(projects@),
{
    let opened = opened_entries(projects);
    let mut sorted = sort_newest_first(&opened);
    sorted.truncate(5);
    proof {
        let s = newest_first(opened_modules(projects@));
        if s.len() > 5 {
            assert(sorted@.map_values(|e: RecentEntry| recent_view(e)) =~= s.take(5));
        }
    }
    sorted
}

/// Newest-first order holds: every entry is at least as recent as the ones after it.
pub open spec fn is_newest_first(s: Seq<RecentView>) -> bool {
    forall|i: int, j: int| 0 <= i < j < s.len() ==> s[i].opened_at >= s[j].opened_at
}

proof fn lemma_insert_keeps_order(x: RecentView, s: Seq<RecentView>)
    requires
        is_newest_first(s),
    ensures
        is_newest_first(insert_newest_first(x, s)),
        insert_newest_first(x, s).to_multiset() == s.to_multiset().insert(x),
    decreases s.len(),
{
    broadcast use vstd::seq_lib::group_to_multiset_ensures;
    if s.len() == 0 {
        assert(seq![x] =~= s.push(x));
    } else if s[0].opened_at <= x.opened_at {
        let r = seq![x] + s;
        assert forall|i: int, j: int| 0 <= i < j < r.len() implies r[i].opened_at >= r[j].opened_at by {
            if i > 0 {
                assert(r[i] == s[i - 1] && r[j] == s[j - 1]);
            } else {
                assert(r[j] == s[j - 1]);
                assert(s[0].opened_at >= s[j - 1].opened_at || j == 1);
            }
        }
        assert(r =~= seq![x].add(s));
        vstd::seq_lib::lemma_multiset_commutative(seq![x], s);
        assert(seq![x].to_multiset() =~= Multiset::<RecentView>::empty().insert(x));
    } else {
        let t = s.drop_first();
        assert forall|i: int, j: int| 0 <= i < j < t.len() implies t[i].opened_at >= t[j].opened_at by {
            assert(t[i] == s[i + 1] && t[j] == s[j + 1]);
        }
        lemma_insert_keeps_order(x, t);
        let u = insert_newest_first(x, t);
        let r = seq![s[0]] + u;
        assert forall|k: int| 0 <= k < u.len() implies u[k].opened_at <= s[0].opened_at by {
            assert(u.to_multiset().count(u[k]) > 0);
            assert(t.to_multiset().insert(x).count(u[k]) > 0);
            if u[k] != x {
                assert(t.to_multiset().count(u[k]) > 0);
                assert(t.contains(u[k]));
                let q = choose|q: int| 0 <= q < t.len() && t[q] == u[k];
                assert(s[q + 1] == t[q]);
            }
        }
        assert forall|i: int, j: int| 0 <= i < j < r.len() implies r[i].opened_at >= r[j].opened_at by {
            if i > 0 {
                assert(r[i] == u[i - 1] && r[j] == u[j - 1]);
            } else {
                assert(r[j] == u[j - 1]);
            }
        }
        vstd::seq_lib::lemma_multiset_commutative(seq![s[0]], u);
        vstd::seq_lib::lemma_multiset_commutative(seq![s[0]], t);
        assert(s =~= seq![s[0]] + t);
        assert(seq![s[0]].to_multiset() =~= Multiset::<RecentView>::empty().insert(s[0]));
        assert(r.to_multiset() =~= s.to_multiset().insert(x));
    }
}

/// The newest-first ordering is ordered and holds exactly the given entries.
pub proof fn lemma_newest_first_sorted(s: Seq<RecentView>)
    ensures
        is_newest_first(newest_first(s)),
        newest_first(s).to_multiset() == s.to_multiset(),
    decreases s.len(),
{
    broadcast use vstd::seq_lib::group_to_multiset_ensures;
    if s.len() > 0 {
        lemma_newest_first_sorted(s.drop_first());
        lemma_insert_keeps_order(s[0], newest_first(s.drop_first()));
        assert(s =~= seq![s[0]] + s.drop_first());
        vstd::seq_lib::lemma_multiset_commutative(seq![s[0]], s.drop_first());
        assert(seq![s[0]].to_multiset() =~= Multiset::<RecentView>::empty().insert(s[0]));
    } else {
        assert(newest_first(s) =~= s);
    }
}

/// The tray's recent list holds at most five entries, newest first, and each of them is an
/// opened code project of the listed business projects; no opened code project left out is
/// newer than one listed.
pub proof fn lemma_recent_list(projects: Seq<Project>)
    ensures
        recent_list(projects).len() <= 5,
        is_newest_first(recent_list(projects)),
        forall|i: int| 0 <= i < recent_list(projects).len() ==> opened_modules(projects).contains(#[trigger] recent_list(projects)[i]),
        recent_list(projects).len() == if opened_modules(projects).len() <= 5 { opened_modules(projects).len() } else { 5 },
{
    broadcast use vstd::seq_lib::group_to_multiset_ensures;
    let all = opened_modules(projects);
    let s = newest_first(all);
    lemma_newest_first_sorted(all);
    assert(s.to_multiset().len() == all.to_multiset().len());
    assert(s.len() == all.len());
    let r = recent_list(projects);
    assert forall|i: int| 0 <= i < r.len() implies all.contains(#[trigger] r[i]) by {
        assert(r[i] == s[i]);
        assert(s.contains(s[i]));
        assert(s.to_multiset().count(s[i]) > 0);
    }
    assert forall|i: int, j: int| 0 <= i < j < r.len() implies r[i].opened_at >= r[j].opened_at by {
        assert(r[i] == s[i] && r[j] == s[j]);
    }
}


/// An entry of a submenu: a code project.
#[derive(Debug, Clone)]
pub struct TrayItem {
    pub id: String,
    pub label: String,
}

/// An entry of the tray menu.
#[derive(Debug, Clone)]
pub enum TrayEntry {
    Item { id: String, label: String },
    Submenu { id: String, label: String, items: Vec<TrayItem> },
    Separator,
}

/// A tray menu entry as plain values.
pub enum TrayView {
    Item(Seq<char>, Seq<char>),
    Submenu(Seq<char>, Seq<char>, Seq<(Seq<char>, Seq<char>)>),
    Separator,
}

pub open spec fn item_view(i: TrayItem) -> (Seq<char>, Seq<char>) {
    (i.id@, i.label@)
}

pub open spec fn entry_view(e: TrayEntry) -> TrayView {
    match e {
        TrayEntry::Item { id, label } => TrayView::Item(id@, label@),
        TrayEntry::Submenu { id, label, items } => TrayView::Submenu(id@, label@, items@.map_values(|i: TrayItem| item_view(i))),
        TrayEntry::Separator => TrayView::Separator,
    }
}

/// The label of a code project in a submenu: its name, or a placeholder for an unnamed one.
pub open spec fn module_label(name: Seq<char>) -> Seq<char> {
    if name.len() == 0 { "未命名项目"@ } else { name }
}

/// The submenu entry of a code project.
pub open spec fn module_item(m: ProjectModule) -> (Seq<char>, Seq<char>) {
    ("tray-project-"@ + m.id@, module_label(m.name@))
}

/// The submenu of a business project; a pinned one is marked with a pin.
pub open spec fn project_submenu(p: Project, pinned: bool) -> TrayView {
    TrayView::Submenu(
        "tray-business-"@ + p.id@,
        if pinned { "📌 "@ + p.name@ } else { p.name@ },
        p.modules@.map_values(|m: ProjectModule| module_item(m)),
    )
}

/// The submenus of the business projects whose pin is `pinned`, in order.
pub open spec fn submenus(projects: Seq<Project>, pinned: bool) -> Seq<TrayView>
    decreases projects.len(),
{
    if projects.len() == 0 {
        seq![]
    } else {
        let prev = submenus(projects.drop_last(), pinned);
        if projects.last().is_pinned == pinned {
            prev.push(project_submenu(projects.last(), pinned))
        } else {
            prev
        }
    }
}

/// The menu entry of a recently opened code project.
pub open spec fn recent_item(r: RecentView) -> TrayView {
    TrayView::Item("tray-recent-"@ + r.module_id, r.module_name + " · "@ + r.project_name)
}

/// The tray menu: the main window entry, the pinned business projects, the recently opened code
/// projects after a separator, the other business projects after a separator, and the quit
/// entry after a separator.
pub open spec fn tray_menu(projects: Seq<Project>) -> Seq<TrayView> {
    let recent = recent_list(projects);
    let unpinned = submenus(projects, false);
    seq![TrayView::Item("tray-open-main"@, "打开主窗口"@)]
        + submenus(projects, true)
        + (if recent.len() > 0 { seq![TrayView::Separator] + recent.map_values(|r: RecentView| recent_item(r)) } else { seq![] })
        + (if unpinned.len() > 0 { seq![TrayView::Separator] + unpinned } else { seq![] })
        + seq![TrayView::Separator, TrayView::Item("tray-quit"@, "退出"@)]
}

fn submenu_of(p: &Project, pinned: bool) -> (r: TrayEntry)
    ensures
        entry_view(r) == project_submenu(*p, pinned),
{
    let mut items: Vec<TrayItem> = Vec::new();
    let mut m: usize = 0;
    while m < p.modules.len()
        invariant
            m <= p.modules.len(),
            items@.map_values(|i: TrayItem| item_view(i)) == p.modules@.take(m as int).map_values(|x: ProjectModule| module_item(x)),
        decreases p.modules.len() - m,
    {
        let module = &p.modules[m];
        let label = if module.name.unicode_len() == 0 {
            String::from_str("未命名项目")
        } else {
            module.name.clone()
        };
        let ghost before = items@;
        items.push(TrayItem { id: concat2("tray-project-", module.id.as_str()), label });
        proof {
            assert(items@.map_values(|i: TrayItem| item_view(i)) =~= before.map_values(|i: TrayItem| item_view(i)).push(module_item(*module)));
            assert(p.modules@.take(m + 1).map_values(|x: ProjectModule| module_item(x)) =~= p.modules@.take(m as int).map_values(
                |x: ProjectModule| module_item(x),
            ).push(module_item(*module)));
        }
        m = m + 1;
    }
    assert(p.modules@.take(p.modules.len() as int) =~= p.modules@);
    let label = if pinned {
        concat2("📌 ", p.name.as_str())
    } else {
        p.name.clone()
    };
    TrayEntry::Submenu { id: concat2("tray-business-", p.id.as_str()), label, items }
}

fn push_submenus(out: &mut Vec<TrayEntry>, projects: &Vec<Project>, pinned: bool)
    ensures
        final(out)@.map_values(|e: TrayEntry| entry_view(e)) == old(out)@.map_values(|e: TrayEntry| entry_view(e)) + submenus(projects@, pinned),
{
    let ghost start = out@.map_values(|e: TrayEntry| entry_view(e));
    let mut p: usize = 0;
    assert(projects@.take(0) =~= Seq::<Project>::empty());
    assert(start + submenus(projects@.take(0), pinned) =~= start);
    while p < projects.len()
        invariant
            p <= projects.len(),
            out@.map_values(|e: TrayEntry| entry_view(e)) == start + submenus(projects@.take(p as int), pinned),
        decreases projects.len() - p,
    {
        proof {
            assert(projects@.take(p + 1).drop_last() =~= projects@.take(p as int));
            assert(projects@.take(p + 1).last() == projects@[p as int]);
        }
        if projects[p].is_pinned == pinned {
            let ghost before = out@;
            let entry = submenu_of(&projects[p], pinned);
            out.push(entry);
            assert(out@.map_values(|e: TrayEntry| entry_view(e)) =~= before.map_values(|e: TrayEntry| entry_view(e)).push(
                project_submenu(projects@[p as int], pinned),
            ));
        }
        p = p + 1;
    }
    assert(projects@.take(projects.len() as int) =~= projects@);
}

/// The entries of the tray menu (see `tray_menu`).
pub fn tray_layout(projects: &Vec<Project>) -> (r: Vec<TrayEntry>)
    ensures
        r@.map_values(|e: TrayEntry| entry_view(e)) == tray_menu(projects@),
{
    let recent = recent_modules(projects);
    let mut out: Vec<TrayEntry> = Vec::new();
    out.push(TrayEntry::Item { id: String::from_str(TRAY_OPEN_MAIN), label: String::from_str("打开主窗口") });
    let ghost head = out@.map_values(|e: TrayEntry| entry_view(e));
    assert(head =~= seq![TrayView::Item("tray-open-main"@, "打开主窗口"@)]);
    push_submenus(&mut out, projects, true);
    let ghost with_pinned = out@.map_values(|e: TrayEntry| entry_view(e));
    let ghost rv = recent@.map_values(|e: RecentEntry| recent_view(e));
    if recent.len() > 0 {
        out.push(TrayEntry::Separator);
        let ghost base = out@.map_values(|e: TrayEntry| entry_view(e));
        assert(base =~= with_pinned + seq![TrayView::Separator]);
        let mut i: usize = 0;
        while i < recent.len()
            invariant
                i <= recent.len(),
                rv == recent@.map_values(|e: RecentEntry| recent_view(e)),
                out@.map_values(|e: TrayEntry| entry_view(e)) == base + rv.take(i as int).map_values(|r: RecentView| recent_item(r)),
            decreases recent.len() - i,
        {
            let e = &recent[i];
            let mut label = String::from_str(e.module_name.as_str());
            label.append(" · ");
            label.append(e.project_name.as_str());
            let ghost before = out@;
            out.push(TrayEntry::Item { id: concat2("tray-recent-", e.module_id.as_str()), label });
            proof {
                assert(rv[i as int] == recent_view(*e));
                assert(out@.map_values(|e: TrayEntry| entry_view(e)) =~= before.map_values(|e: TrayEntry| entry_view(e)).push(recent_item(rv[i as int])));
                assert(rv.take(i + 1).map_values(|r: RecentView| recent_item(r)) =~= rv.take(i as int).map_values(
                    |r: RecentView| recent_item(r),
                ).push(recent_item(rv[i as int])));
            }
            i = i + 1;
        }
        assert(rv.take(recent.len() as int) =~= rv);
    }
    let ghost with_recent = out@.map_values(|e: TrayEntry| entry_view(e));
    let mut any_unpinned = false;
    let mut q: usize = 0;
    while q < projects.len()
        invariant
            q <= projects.len(),
            any_unpinned == (exists|k: int| 0 <= k < q && !(#[trigger] projects@[k]).is_pinned),
        decreases projects.len() - q,
    {
        if !projects[q].is_pinned {
            any_unpinned = true;
        }
        q = q + 1;
    }
    proof {
        lemma_submenus_nonempty(projects@, false);
    }
    if any_unpinned {
        out.push(TrayEntry::Separator);
        push_submenus(&mut out, projects, false);
    }
    let ghost with_unpinned = out@.map_values(|e: TrayEntry| entry_view(e));
    out.push(TrayEntry::Separator);
    out.push(TrayEntry::Item { id: String::from_str(TRAY_QUIT), label: String::from_str("退出") });
    proof {
        let unpinned = submenus(projects@, false);
        if any_unpinned {
            assert(with_unpinned =~= with_recent + (seq![TrayView::Separator] + unpinned));
        } else {
            assert(with_unpinned =~= with_recent + Seq::<TrayView>::empty());
        }
        if recent.len() > 0 {
            assert(with_recent =~= with_pinned + (seq![TrayView::Separator] + rv.map_values(|r: RecentView| recent_item(r))));
        } else {
            assert(with_recent =~= with_pinned + Seq::<TrayView>::empty());
        }
        assert(out@.map_values(|e: TrayEntry| entry_view(e)) =~= with_unpinned + seq![TrayView::Separator, TrayView::Item("tray-quit"@, "退出"@)]);
    }
    out
}

proof fn lemma_submenus_nonempty(projects: Seq<Project>, pinned: bool)
    ensures
        submenus(projects, pinned).len() > 0 <==> exists|k: int| 0 <= k < projects.len() && (#[trigger] projects[k]).is_pinned == pinned,
    decreases projects.len(),
{
    if projects.len() > 0 {
        lemma_submenus_nonempty(projects.drop_last(), pinned);
        if exists|k: int| 0 <= k < projects.drop_last().len() && (#[trigger] projects.drop_last()[k]).is_pinned == pinned {
            let k = choose|k: int| 0 <= k < projects.drop_last().len() && (#[trigger] projects.drop_last()[k]).is_pinned == pinned;
            assert(projects[k] == projects.drop_last()[k]);
        }
        if exists|k: int| 0 <= k < projects.len() && (#[trigger] projects[k]).is_pinned == pinned {
            let k = choose|k: int| 0 <= k < projects.len() && (#[trigger] projects[k]).is_pinned == pinned;
            if k < projects.len() - 1 {
                assert(projects.drop_last()[k] == projects[k]);
            }
        }
    }
}

proof fn lemma_submenu_present(projects: Seq<Project>, pinned: bool, q: int)
    requires
        0 <= q < projects.len(),
        projects[q].is_pinned == pinned,
    ensures
        exists|j: int| 0 <= j < submenus(projects, pinned).len()
            && #[trigger] submenus(projects, pinned)[j] == project_submenu(projects[q], pinned),
    decreases projects.len(),
{
    let prev = submenus(projects.drop_last(), pinned);
    if q < projects.len() - 1 {
        assert(projects.drop_last()[q] == projects[q]);
        lemma_submenu_present(projects.drop_last(), pinned, q);
        let j = choose|j: int| 0 <= j < prev.len() && #[trigger] prev[j] == project_submenu(projects[q], pinned);
        if projects.last().is_pinned == pinned {
            assert(submenus(projects, pinned)[j] == prev[j]);
        } else {
            assert(submenus(projects, pinned)[j] == prev[j]);
        }
    } else {
        assert(submenus(projects, pinned)[prev.len() as int] == project_submenu(projects[q], pinned));
    }
}

/// Every business project has a submenu in the tray, with one entry per code project of it, in
/// order: entry `k` launches code project `k` (`tray-project-` and its id) and shows its name
/// (or `未命名项目` for an unnamed one).
pub proof fn lemma_submenu_lists_every_module(projects: Vec<Project>, r: Vec<TrayEntry>, q: int)
    requires
        call_ensures(tray_layout, (&projects,), r),
        0 <= q < projects.len(),
    ensures
        exists|i: int| 0 <= i < r.len() && (#[trigger] r@[i] matches TrayEntry::Submenu { id, items, .. } && {
            let modules = projects@[q].modules@;
            &&& id@ == "tray-business-"@ + projects@[q].id@
            &&& items.len() == modules.len()
            &&& forall|k: int| 0 <= k < modules.len() ==> {
                &&& (#[trigger] items@[k]).id@ == "tray-project-"@ + modules[k].id@
                &&& items@[k].label@ == (if modules[k].name@.len() == 0 { "未命名项目"@ } else { modules[k].name@ })
            }
        }),
{
    let ps = projects@;
    let views = r@.map_values(|e: TrayEntry| entry_view(e));
    assert(views == tray_menu(ps));
    let pinned = ps[q].is_pinned;
    lemma_submenu_present(ps, pinned, q);
    let j = choose|j: int| 0 <= j < submenus(ps, pinned).len() && #[trigger] submenus(ps, pinned)[j] == project_submenu(ps[q], pinned);
    let recent = recent_list(ps);
    let pinned_subs = submenus(ps, true);
    let unpinned = submenus(ps, false);
    let head = seq![TrayView::Item("tray-open-main"@, "打开主窗口"@)];
    let rec = if recent.len() > 0 { seq![TrayView::Separator] + recent.map_values(|x: RecentView| recent_item(x)) } else { seq![] };
    let unp = if unpinned.len() > 0 { seq![TrayView::Separator] + unpinned } else { seq![] };
    let tail = seq![TrayView::Separator, TrayView::Item("tray-quit"@, "退出"@)];
    assert(tray_menu(ps) == head + pinned_subs + rec + unp + tail);
    let i: int = if pinned { 1 + j } else { 1 + pinned_subs.len() + rec.len() + 1 + j };
    if pinned {
        assert((head + pinned_subs + rec + unp + tail)[i] == pinned_subs[j]);
    } else {
        assert(unp[1 + j] == unpinned[j]);
        assert((head + pinned_subs + rec + unp + tail)[i] == unp[1 + j]);
    }
    assert(views[i] == project_submenu(ps[q], pinned));
    assert(entry_view(r@[i]) == views[i]);
    let e = r@[i];
    match e {
        TrayEntry::Submenu { id, label, items } => {
            let modules = ps[q].modules@;
            assert(items@.map_values(|it: TrayItem| item_view(it)) == modules.map_values(|m: ProjectModule| module_item(m)));
            assert(items@.len() == modules.len());
            assert forall|k: int| 0 <= k < modules.len() implies {
                &&& (#[trigger] items@[k]).id@ == "tray-project-"@ + modules[k].id@
                &&& items@[k].label@ == (if modules[k].name@.len() == 0 { "未命名项目"@ } else { modules[k].name@ })
            } by {
                assert(items@.map_values(|it: TrayItem| item_view(it))[k] == item_view(items@[k]));
                assert(modules.map_values(|m: ProjectModule| module_item(m))[k] == module_item(modules[k]));
            }
        },
        TrayEntry::Item { .. } => {},
        TrayEntry::Separator => {},
    }
}

/// What a click on a tray entry asks for.
#[derive(Debug, Clone)]
pub enum TrayAction {
    ShowMain,
    Quit,
    /// Launch the code project with this id.
    Launch(String),
    Nothing,
}

/// `prefix` starts `s`.
pub open spec fn starts_with(s: Seq<char>, prefix: Seq<char>) -> bool {
    prefix.len() <= s.len() && s.take(prefix.len() as int) == prefix
}

/// The action of the tray entry with id `id`: the recent and project entries launch the code
/// project their id names.
pub open spec fn action_of(id: Seq<char>) -> Option<Option<Seq<char>>> {
    if id == "tray-open-main"@ || id == "tray-quit"@ {
        None
    } else if starts_with(id, "tray-recent-"@) {
        Some(Some(id.skip("tray-recent-"@.len() as int)))
    } else if starts_with(id, "tray-project-"@) {
        Some(Some(id.skip("tray-project-"@.len() as int)))
    } else {
        Some(None)
    }
}

/// `s` without `prefix`, when `prefix` starts it (`str::strip_prefix`).
pub(crate) fn strip_prefix(s: &str, prefix: &str) -> (r: Option<String>)
    ensures
        starts_with(s@, prefix@) <==> r is Some,
        r matches Some(t) ==> t@ == s@.skip(prefix@.len() as int),
{
    let v = chars_of(s);
    let p = chars_of(prefix);
    if p.len() > v.len() {
        return None;
    }
    let mut i: usize = 0;
    while i < p.len()
        invariant
            v@ == s@,
            p@ == prefix@,
            p.len() <= v.len(),
            i <= p.len(),
            forall|k: int| 0 <= k < i ==> v@[k] == p@[k],
        decreases p.len() - i,
    {
        if v[i] != p[i] {
            assert(v@.take(p.len() as int)[i as int] == v@[i as int]);
            assert(v@.take(p.len() as int) != p@);
            return None;
        }
        i = i + 1;
    }
    assert(v@.take(p.len() as int) =~= p@);
    let mut rest: Vec<char> = Vec::new();
    let mut k: usize = p.len();
    while k < v.len()
        invariant
            p.len() <= k <= v.len(),
            rest@ == v@.subrange(p.len() as int, k as int),
        decreases v.len() - k,
    {
        rest.push(v[k]);
        k = k + 1;
        assert(rest@ =~= v@.subrange(p.len() as int, k as int));
    }
    assert(rest@ =~= v@.skip(p.len() as int));
    Some(string_of(&rest))
}

/// What a click on the tray entry with id `id` asks for.
pub fn tray_action(id: &str) -> (r: TrayAction)
    ensures
        id@ == "tray-open-main"@ <==> r is ShowMain,
        id@ == "tray-quit"@ <==> r is Quit,
        match action_of(id@) {
            None => r is ShowMain || r is Quit,
            Some(None) => r is Nothing,
            Some(Some(m)) => r matches TrayAction::Launch(x) && x@ == m,
        },
{
    proof {
        reveal_strlit("tray-quit");
        reveal_strlit("tray-open-main");
        assert("tray-quit"@.len() != "tray-open-main"@.len());
    }
    if same_text(id, TRAY_OPEN_MAIN) {
        return TrayAction::ShowMain;
    }
    if same_text(id, TRAY_QUIT) {
        return TrayAction::Quit;
    }
    if let Some(m) = strip_prefix(id, "tray-recent-") {
        return TrayAction::Launch(m);
    }
    if let Some(m) = strip_prefix(id, "tray-project-") {
        return TrayAction::Launch(m);
    }
    TrayAction::Nothing
}

/// Every code project entry of the tray menu, whether under its business project or among the
/// recent ones, launches the code project it shows; the main window and quit entries do not.
pub proof fn lemma_tray_ids_round_trip(module_id: Seq<char>)
    ensures
        action_of("tray-project-"@ + module_id) == Some(Some(module_id)),
        action_of("tray-recent-"@ + module_id) == Some(Some(module_id)),
        action_of("tray-open-main"@) is None,
        action_of("tray-quit"@) is None,
{
    reveal_strlit("tray-project-");
    reveal_strlit("tray-recent-");
    reveal_strlit("tray-open-main");
    reveal_strlit("tray-quit");
    let a = "tray-project-"@ + module_id;
    let b = "tray-recent-"@ + module_id;
    assert(a[5] == 'p');
    assert(b[5] == 'r');
    assert("tray-open-main"@[5] == 'o');
    assert("tray-quit"@[5] == 'q');
    assert(a != "tray-open-main"@);
    assert(a != "tray-quit"@);
    assert(b != "tray-open-main"@);
    assert(b != "tray-quit"@);
    assert(!starts_with(a, "tray-recent-"@)) by {
        if starts_with(a, "tray-recent-"@) {
            assert(a.take(12)[5] == a[5]);
        }
    }
    assert(a.take(13) =~= "tray-project-"@);
    assert(a.skip(13) =~= module_id);
    assert(b.take(12) =~= "tray-recent-"@);
    assert(b.skip(12) =~= module_id);
}

} // verus!
