use vstd::prelude::*;

verus! {

/// How many projects the recent-projects list keeps.
pub const MAX_RECENT_PROJECTS: usize = 5;

/// One entry of the recent-projects list shown on the start screen.
#[derive(Debug)]
pub struct RecentProject {
    pub name: String,
    pub last_modified: String,
    pub path: String,
}

/// The application configuration persisted between runs.
#[derive(Debug)]
pub struct AppConfig {
    pub recent_projects: Vec<RecentProject>,
}

impl Default for AppConfig {
    fn default() -> (config: AppConfig)
        ensures
            config.recent_projects@.len() == 0,
    {
        AppConfig { recent_projects: Vec::new() }
    }
}

/// The entries of `entries` whose path differs from `path`, in their order.
pub open spec fn entries_without_path(entries: Seq<RecentProject>, path: Seq<char>) -> Seq<
    RecentProject,
>
    decreases entries.len(),
{
    if entries.len() == 0 {
        seq![]
    } else if entries[0].path@ == path {
        entries_without_path(entries.drop_first(), path)
    } else {
        seq![entries[0]] + entries_without_path(entries.drop_first(), path)
    }
}

/// The first `n` elements of `s`, or all of `s` when it is shorter.
pub open spec fn keep_first<A>(s: Seq<A>, n: nat) -> Seq<A> {
    if s.len() <= n {
        s
    } else {
        s.take(n as int)
    }
}

/// The recent-projects list after `entry` was opened: `entry` first, then the
/// earlier entries for other paths in their order, cut to the list's bound.
pub open spec fn recent_after_add(entries: Seq<RecentProject>, entry: RecentProject) -> Seq<
    RecentProject,
> {
    keep_first(
        seq![entry] + entries_without_path(entries, entry.path@),
        MAX_RECENT_PROJECTS as nat,
    )
}

/// No two entries share a path.
pub open spec fn paths_distinct(entries: Seq<RecentProject>) -> bool {
    forall|i: int, j: int|
        0 <= i < entries.len() && 0 <= j < entries.len() && i != j ==> entries[i].path@
            != entries[j].path@
}

/// Records that the project at `path` was opened: any older entry for the same
/// path is dropped, the new entry goes to the front, and the list is cut to
/// its first `MAX_RECENT_PROJECTS` entries.
pub fn add_recent_project(
    config: &mut AppConfig,
    name: String,
    last_modified: String,
    path: String,
)
    ensures
        final(config).recent_projects@ == recent_after_add(
            old(config).recent_projects@,
            (RecentProject { name: name, last_modified: last_modified, path: path }),
        ),
{
    let ghost before_call = config.recent_projects@;
    let mut rest: Vec<RecentProject> = Vec::new();
    std::mem::swap(&mut rest, &mut config.recent_projects);
    let mut kept: Vec<RecentProject> = Vec::new();
    while rest.len() > 0
        invariant
            kept@ + entries_without_path(rest@, path@) == entries_without_path(before_call, path@),
        decreases rest.len(),
    {
        let ghost before = rest@;
        let entry = rest.remove(0);
        assert(before.drop_first() =~= rest@);
        if entry.path == path {
        } else {
            let ghost kept_before = kept@;
            kept.push(entry);
            assert(kept@ + entries_without_path(rest@, path@) =~= kept_before + (seq![entry]
                + entries_without_path(rest@, path@)));
        }
    }
    assert(kept@ + entries_without_path(rest@, path@) =~= kept@);
    kept.insert(0, RecentProject { name, last_modified, path });
    kept.truncate(MAX_RECENT_PROJECTS);
    config.recent_projects = kept;
}


/// Every entry kept by `entries_without_path` comes from `entries` and has a
/// path other than `path`.
proof fn lemma_without_path_members(entries: Seq<RecentProject>, path: Seq<char>)
    ensures
        entries_without_path(entries, path).len() <= entries.len(),
        forall|k: int|
            0 <= k < entries_without_path(entries, path).len() ==> {
                &&& (#[trigger] entries_without_path(entries, path)[k]).path@ != path
                &&& entries.contains(entries_without_path(entries, path)[k])
            },
    decreases entries.len(),
{
    if entries.len() > 0 {
        let rest = entries.drop_first();
        lemma_without_path_members(rest, path);
        let w = entries_without_path(entries, path);
        let wr = entries_without_path(rest, path);
        assert forall|k: int| 0 <= k < w.len() implies {
            &&& (#[trigger] w[k]).path@ != path
            &&& entries.contains(w[k])
        } by {
            if entries[0].path@ == path {
                assert(w[k] == wr[k]);
                let j = choose|j: int| 0 <= j < rest.len() && rest[j] == wr[k];
                assert(entries[j + 1] == w[k]);
            } else if k == 0 {
                assert(w[0] == entries[0]);
            } else {
                assert(w[k] == wr[k - 1]);
                let j = choose|j: int| 0 <= j < rest.len() && rest[j] == wr[k - 1];
                assert(entries[j + 1] == w[k]);
            }
        }
    }
}

/// When no entry has path `path`, nothing is dropped.
proof fn lemma_without_absent_path(entries: Seq<RecentProject>, path: Seq<char>)
    requires
        forall|k: int| 0 <= k < entries.len() ==> (#[trigger] entries[k]).path@ != path,
    ensures
        entries_without_path(entries, path) == entries,
    decreases entries.len(),
{
    if entries.len() > 0 {
        let rest = entries.drop_first();
        assert forall|k: int| 0 <= k < rest.len() implies (#[trigger] rest[k]).path@ != path by {
            assert(rest[k] == entries[k + 1]);
        }
        lemma_without_absent_path(rest, path);
        assert(seq![entries[0]] + rest =~= entries);
    }
}

/// Dropping the entries for one path keeps the others' paths distinct.
proof fn lemma_without_path_distinct(entries: Seq<RecentProject>, path: Seq<char>)
    requires
        paths_distinct(entries),
    ensures
        paths_distinct(entries_without_path(entries, path)),
    decreases entries.len(),
{
    if entries.len() > 0 {
        let rest = entries.drop_first();
        assert(paths_distinct(rest)) by {
            assert forall|i: int, j: int|
                0 <= i < rest.len() && 0 <= j < rest.len() && i != j implies rest[i].path@
                != rest[j].path@ by {
                assert(rest[i] == entries[i + 1] && rest[j] == entries[j + 1]);
            }
        }
        lemma_without_path_distinct(rest, path);
        lemma_without_path_members(rest, path);
        if entries[0].path@ != path {
            let wr = entries_without_path(rest, path);
            let w = seq![entries[0]] + wr;
            assert forall|i: int, j: int|
                0 <= i < w.len() && 0 <= j < w.len() && i != j implies w[i].path@
                != w[j].path@ by {
                if i == 0 || j == 0 {
                    let k = if i == 0 { j - 1 } else { i - 1 };
                    assert(rest.contains(wr[k]));
                    let m = choose|m: int| 0 <= m < rest.len() && rest[m] == wr[k];
                    assert(entries[m + 1] == wr[k]);
                } else {
                    assert(w[i] == wr[i - 1] && w[j] == wr[j - 1]);
                }
            }
        }
    }
}

/// The recent-projects list never grows past `MAX_RECENT_PROJECTS` entries,
/// and the project just opened is its first entry.
pub proof fn lemma_recent_bounded_newest_first(entries: Seq<RecentProject>, entry: RecentProject)
    ensures
        1 <= recent_after_add(entries, entry).len() <= MAX_RECENT_PROJECTS,
        recent_after_add(entries, entry)[0] == entry,
{
}

/// After a project is opened, its path occurs exactly once in the list: at
/// the front.
pub proof fn lemma_recent_path_once(entries: Seq<RecentProject>, entry: RecentProject)
    ensures
        forall|i: int|
            0 <= i < recent_after_add(entries, entry).len() ==> ((
            #[trigger] recent_after_add(entries, entry)[i]).path@ == entry.path@ <==> i == 0),
{
    lemma_without_path_members(entries, entry.path@);
    let w = entries_without_path(entries, entry.path@);
    let r = recent_after_add(entries, entry);
    assert forall|i: int| 0 <= i < r.len() implies ((#[trigger] r[i]).path@ == entry.path@
        <==> i == 0) by {
        if i > 0 {
            assert(r[i] == w[i - 1]);
        }
    }
}

/// Every entry after the first was already in the list before, so opening a
/// project never invents other entries.
pub proof fn lemma_recent_entries_from_before(entries: Seq<RecentProject>, entry: RecentProject)
    ensures
        forall|i: int|
            1 <= i < recent_after_add(entries, entry).len() ==> entries.contains(
                #[trigger] recent_after_add(entries, entry)[i],
            ),
{
    lemma_without_path_members(entries, entry.path@);
    let w = entries_without_path(entries, entry.path@);
    let r = recent_after_add(entries, entry);
    assert forall|i: int| 1 <= i < r.len() implies entries.contains(#[trigger] r[i]) by {
        assert(r[i] == w[i - 1]);
    }
}

/// A list whose paths are distinct keeps them distinct when a project is
/// opened.
pub proof fn lemma_recent_keeps_paths_distinct(entries: Seq<RecentProject>, entry: RecentProject)
    requires
        paths_distinct(entries),
    ensures
        paths_distinct(recent_after_add(entries, entry)),
{
    lemma_without_path_distinct(entries, entry.path@);
    lemma_recent_path_once(entries, entry);
    let w = entries_without_path(entries, entry.path@);
    let r = recent_after_add(entries, entry);
    assert forall|i: int, j: int|
        0 <= i < r.len() && 0 <= j < r.len() && i != j implies r[i].path@ != r[j].path@ by {
        if i > 0 && j > 0 {
            assert(r[i] == w[i - 1] && r[j] == w[j - 1]);
        } else {
            assert(r[i].path@ == entry.path@ <==> i == 0);
            assert(r[j].path@ == entry.path@ <==> j == 0);
        }
    }
}

/// The entries of `entries` whose path is not `path`, in their order, as
/// `Seq::filter` selects them.
pub open spec fn other_paths(entries: Seq<RecentProject>, path: Seq<char>) -> Seq<RecentProject> {
    entries.filter(path_differs(path))
}

/// Whether an entry's path differs from `path`.
pub open spec fn path_differs(path: Seq<char>) -> spec_fn(RecentProject) -> bool {
    |x: RecentProject| x.path@ != path
}

/// Dropping the entries for one path is the order-preserving filter on the
/// other paths.
proof fn lemma_without_path_is_filter(entries: Seq<RecentProject>, path: Seq<char>)
    ensures
        entries_without_path(entries, path) == other_paths(entries, path),
    decreases entries.len(),
{
    let pred = path_differs(path);
    if entries.len() == 0 {
        assert(entries.filter(pred) =~= seq![]) by {
            reveal_with_fuel(Seq::filter, 1);
        }
    } else {
        let rest = entries.drop_first();
        lemma_without_path_is_filter(rest, path);
        let head = seq![entries[0]];
        assert(entries =~= head + rest);
        Seq::filter_distributes_over_add(head, rest, pred);
        assert(head.drop_last() =~= Seq::<RecentProject>::empty());
        assert(Seq::<RecentProject>::empty().filter(pred) =~= Seq::<RecentProject>::empty()) by {
            reveal_with_fuel(Seq::filter, 1);
        }
        assert(head.filter(pred) == if pred(entries[0]) {
            head
        } else {
            Seq::<RecentProject>::empty()
        }) by {
            reveal_with_fuel(Seq::filter, 2);
            assert(head.last() == entries[0]);
            assert(Seq::<RecentProject>::empty().push(entries[0]) =~= head);
        }
        if entries[0].path@ == path {
            assert(other_paths(entries, path) =~= other_paths(rest, path));
        } else {
            assert(other_paths(entries, path) =~= head + other_paths(rest, path));
        }
    }
}

/// Opening a project puts it first and keeps, after it, the earlier entries
/// for other paths in their earlier order, as many as fit: the list is the
/// new entry followed by a prefix of the other-path entries, and it is only
/// cut when it would pass `MAX_RECENT_PROJECTS`.
pub proof fn lemma_recent_keeps_order(entries: Seq<RecentProject>, entry: RecentProject)
    ensures
        ({
            let r = recent_after_add(entries, entry);
            let others = other_paths(entries, entry.path@);
            &&& r.len() == if others.len() + 1 <= MAX_RECENT_PROJECTS {
                others.len() + 1
            } else {
                MAX_RECENT_PROJECTS as nat
            }
            &&& r[0] == entry
            &&& forall|i: int| 1 <= i < r.len() ==> #[trigger] r[i] == others[i - 1]
        }),
{
    lemma_without_path_is_filter(entries, entry.path@);
    let r = recent_after_add(entries, entry);
    let others = other_paths(entries, entry.path@);
    let full = seq![entry] + others;
    assert(r == keep_first(full, MAX_RECENT_PROJECTS as nat));
    assert forall|i: int| 1 <= i < r.len() implies #[trigger] r[i] == others[i - 1] by {
        assert(r[i] == full[i]);
    }
}

/// Two entries for other paths that are both still listed after a project is
/// opened keep the order they had: the one opened more recently stays in
/// front.
pub proof fn lemma_recent_relative_order(
    entries: Seq<RecentProject>,
    entry: RecentProject,
    a: int,
    b: int,
)
    requires
        1 <= a < b < recent_after_add(entries, entry).len(),
    ensures
        exists|ia: int, ib: int|
            0 <= ia < ib < entries.len() && entries[ia] == recent_after_add(entries, entry)[a]
                && entries[ib] == recent_after_add(entries, entry)[b],
{
    lemma_recent_keeps_order(entries, entry);
    lemma_filter_positions(entries, entry.path@, a - 1, b - 1);
}

/// Two positions of the other-path entries come from positions of `entries`
/// in the same order.
proof fn lemma_filter_positions(entries: Seq<RecentProject>, path: Seq<char>, a: int, b: int)
    requires
        0 <= a < b < other_paths(entries, path).len(),
    ensures
        exists|ia: int, ib: int|
            0 <= ia < ib < entries.len() && entries[ia] == other_paths(entries, path)[a]
                && entries[ib] == other_paths(entries, path)[b],
    decreases entries.len(),
{
    lemma_without_path_is_filter(entries, path);
    let rest = entries.drop_first();
    lemma_without_path_is_filter(rest, path);
    lemma_without_path_members(rest, path);
    let w = other_paths(entries, path);
    let wr = other_paths(rest, path);
    if entries.len() > 0 {
        if entries[0].path@ == path {
            assert(w == wr);
            lemma_filter_positions(rest, path, a, b);
            let (ia, ib) = choose|ia: int, ib: int|
                0 <= ia < ib < rest.len() && rest[ia] == wr[a] && rest[ib] == wr[b];
            assert(entries[ia + 1] == w[a] && entries[ib + 1] == w[b]);
        } else {
            assert(w == seq![entries[0]] + wr);
            if a == 0 {
                assert(w[b] == wr[b - 1]);
                assert(rest.contains(wr[b - 1]));
                let m = choose|m: int| 0 <= m < rest.len() && rest[m] == wr[b - 1];
                assert(entries[0] == w[0] && entries[m + 1] == w[b]);
            } else {
                lemma_filter_positions(rest, path, a - 1, b - 1);
                let (ia, ib) = choose|ia: int, ib: int|
                    0 <= ia < ib < rest.len() && rest[ia] == wr[a - 1] && rest[ib] == wr[b - 1];
                assert(entries[ia + 1] == w[a] && entries[ib + 1] == w[b]);
            }
        }
    }
}

/// Opening the same project twice in a row leaves the list as opening it once.
pub proof fn lemma_recent_add_idempotent(entries: Seq<RecentProject>, entry: RecentProject)
    ensures
        recent_after_add(recent_after_add(entries, entry), entry) == recent_after_add(
            entries,
            entry,
        ),
{
    let p = entry.path@;
    let w = entries_without_path(entries, p);
    let r1 = recent_after_add(entries, entry);
    lemma_without_path_members(entries, p);
    let tail = r1.drop_first();
    assert forall|k: int| 0 <= k < tail.len() implies (#[trigger] tail[k]).path@ != p by {
        assert(tail[k] == w[k]);
    }
    lemma_without_absent_path(tail, p);
    assert(r1 =~= seq![entry] + tail);
    assert(entries_without_path(r1, p) == entries_without_path(tail, p));
    assert(seq![entry] + entries_without_path(r1, p) =~= r1);
}

} // verus!
