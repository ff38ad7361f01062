//! Where the user is and where the user has been: the current directory, the
//! breadcrumb from the root down to it, the list of recent folders and the
//! back and forward stacks.

use vstd::prelude::*;
use vstd::string::StringExecFns;
use crate::paths::{file_name_of, parent_of, path_file_name, path_parent};
use crate::text::{distinct, lemma_without, list_contains, remove_all, string_views, without};

verus! {

/// The directory being shown, if a folder has been chosen.
#[derive(Debug)]
pub struct CurrentDirectory {
    pub path: Option<String>,
}

impl Default for CurrentDirectory {
    fn default() -> (current: CurrentDirectory)
        ensures
            current.path is None,
    {
        CurrentDirectory { path: None }
    }
}

/// One step of a breadcrumb.
#[derive(Debug)]
pub struct PathSegment {
    /// Display name.
    pub name: String,
    /// Full path of the directory that the step leads to.
    pub path: String,
}

/// What a `PathSegment` holds, as plain values.
pub struct PathSegmentView {
    pub name: Seq<char>,
    pub path: Seq<char>,
}

impl View for PathSegment {
    type V = PathSegmentView;

    open spec fn view(&self) -> PathSegmentView {
        PathSegmentView { name: self.name@, path: self.path@ }
    }
}

impl Clone for PathSegment {
    fn clone(&self) -> (copy: PathSegment)
        ensures
            copy@ == self@,
    {
        PathSegment { name: self.name.clone(), path: self.path.clone() }
    }
}

/// A directory on the way from a path up to the root, with its final
/// component if it has one.
#[derive(Debug)]
pub struct Ancestor {
    pub path: String,
    pub file_name: Option<String>,
}

/// What an `Ancestor` holds, as plain values.
pub struct AncestorView {
    pub path: Seq<char>,
    pub file_name: Option<Seq<char>>,
}

impl View for Ancestor {
    type V = AncestorView;

    open spec fn view(&self) -> AncestorView {
        AncestorView {
            path: self.path@,
            file_name: match self.file_name {
                Some(n) => Some(n@),
                None => None,
            },
        }
    }
}

/// The label of a directory that has no final component: the root.
pub open spec fn root_label() -> Seq<char> {
    seq!['/']
}

/// The display name of a directory: its final component, or the root label
/// where it has none.
pub open spec fn display_name(file_name: Option<Seq<char>>) -> Seq<char> {
    match file_name {
        Some(n) => n,
        None => root_label(),
    }
}

/// The breadcrumb step that leads to an ancestor.
pub open spec fn segment_of(ancestor: AncestorView) -> PathSegmentView {
    PathSegmentView { name: display_name(ancestor.file_name), path: ancestor.path }
}

/// The steps for a chain of ancestors that starts at the directory itself and
/// ends at the root: the same directories, the root first.
pub open spec fn segments_of(chain: Seq<AncestorView>) -> Seq<PathSegmentView> {
    Seq::new(chain.len(), |i: int| segment_of(chain[chain.len() - 1 - i]))
}

/// The path and the directories above it, the path first: each is followed
/// by its parent as long as it has one that is not empty. (A parent is
/// always shorter than its child.)
pub open spec fn ancestors(path: Seq<char>) -> Seq<Seq<char>>
    decreases path.len(),
{
    match path_parent(path) {
        Some(parent) => if 0 < parent.len() < path.len() {
            seq![path] + ancestors(parent)
        } else {
            seq![path]
        },
        None => seq![path],
    }
}

/// The chain of ancestors of a path, each with its final component.
pub open spec fn ancestor_chain(path: Seq<char>) -> Seq<AncestorView> {
    ancestors(path).map_values(|p: Seq<char>| AncestorView { path: p, file_name: path_file_name(p) })
}

/// What a list of ancestors holds, one by one.
pub open spec fn ancestor_views(chain: Seq<Ancestor>) -> Seq<AncestorView> {
    chain.map_values(|a: Ancestor| a@)
}

/// What a list of breadcrumb steps holds, one by one.
pub open spec fn segment_views(segments: Seq<PathSegment>) -> Seq<PathSegmentView> {
    segments.map_values(|s: PathSegment| s@)
}

/// Display name for a final component that may be missing.
pub fn name_or_root(file_name: &Option<String>) -> (name: String)
    ensures
        name@ == display_name(
            match *file_name {
                Some(n) => Some(n@),
                None => None,
            },
        ),
{
    match file_name {
        Some(n) => n.clone(),
        None => {
            proof {
                reveal_strlit("/");
                assert("/"@ =~= root_label());
            }
            String::from_str("/")
        },
    }
}

/// The steps from the root down to the current directory.
#[derive(Debug)]
pub struct Breadcrumb {
    /// The steps, the root first.
    pub segments: Vec<PathSegment>,
}

impl View for Breadcrumb {
    type V = Seq<PathSegmentView>;

    open spec fn view(&self) -> Seq<PathSegmentView> {
        segment_views(self.segments@)
    }
}

impl Default for Breadcrumb {
    fn default() -> (crumb: Breadcrumb)
        ensures
            crumb@ == Seq::<PathSegmentView>::empty(),
    {
        let crumb = Breadcrumb { segments: Vec::new() };
        assert(crumb@ =~= Seq::<PathSegmentView>::empty());
        crumb
    }
}

/// The chain of ancestors of `path`, the path first and the root last.
pub fn ancestors_of(path: &String) -> (chain: Vec<Ancestor>)
    ensures
        ancestor_views(chain@) == ancestor_chain(path@),
        chain.len() >= 1,
{
    let mut chain: Vec<Ancestor> = Vec::new();
    let mut current = path.clone();
    let ghost mut done: Seq<Seq<char>> = Seq::empty();
    loop
        invariant_except_break
            done + ancestors(current@) == ancestors(path@),
            ancestor_views(chain@) == done.map_values(
                |p: Seq<char>| AncestorView { path: p, file_name: path_file_name(p) },
            ),
        ensures
            ancestor_views(chain@) == ancestor_chain(path@),
            chain.len() >= 1,
        decreases current@.len(),
    {
        let file_name = file_name_of(&current);
        let parent = parent_of(&current);
        let ghost here = current@;
        let ghost before = ancestor_views(chain@);
        chain.push(Ancestor { path: current, file_name });
        proof {
            assert(ancestor_views(chain@) =~= before.push(
                AncestorView { path: here, file_name: path_file_name(here) },
            ));
            assert(ancestor_views(chain@) =~= done.push(here).map_values(
                |p: Seq<char>| AncestorView { path: p, file_name: path_file_name(p) },
            ));
        }
        match parent {
            Some(p) => {
                if p.as_str().is_empty() {
                    proof {
                        assert(done.push(here) =~= done + ancestors(here));
                    }
                    break ;
                }
                proof {
                    assert(done.push(here) + ancestors(p@) =~= done + ancestors(here));
                    done = done.push(here);
                }
                current = p;
            },
            None => {
                proof {
                    assert(done.push(here) =~= done + ancestors(here));
                }
                break ;
            },
        }
    }
    chain
}

impl Breadcrumb {
    /// The breadcrumb for a chain of ancestors that starts at the directory
    /// itself and ends at the root: one step for each, the root first, each
    /// named by its final component and the one without by the root label.
    pub fn from_ancestors(chain: &Vec<Ancestor>) -> (crumb: Breadcrumb)
        ensures
            crumb@ == segments_of(ancestor_views(chain@)),
    {
        let mut segments: Vec<PathSegment> = Vec::new();
        let n = chain.len();
        let mut i: usize = 0;
        while i < n
            invariant
                n == chain.len(),
                i <= n,
                segments.len() == i,
                forall|j: int|
                    0 <= j < i ==> segments@[j]@ == segment_of(
                        #[trigger] ancestor_views(chain@)[n - 1 - j],
                    ),
            decreases n - i,
        {
            let ancestor = &chain[n - 1 - i];
            let name = name_or_root(&ancestor.file_name);
            segments.push(PathSegment { name, path: ancestor.path.clone() });
            i = i + 1;
        }
        let crumb = Breadcrumb { segments };
        assert(crumb@ =~= segments_of(ancestor_views(chain@)));
        crumb
    }

    /// The breadcrumb of `path`: the directories from the root down to
    /// `path`, found by walking up from parent to parent.
    pub fn from_path(path: &String) -> (crumb: Breadcrumb)
        ensures
            crumb@ == segments_of(ancestor_chain(path@)),
            crumb@.len() >= 1,
            crumb@.last().path == path@,
    {
        let chain = ancestors_of(path);
        let crumb = Breadcrumb::from_ancestors(&chain);
        proof {
            lemma_ancestors_start(path@);
        }
        crumb
    }
}

/// The chain of ancestors starts with the path itself.
pub proof fn lemma_ancestors_start(path: Seq<char>)
    ensures
        ancestors(path).len() >= 1,
        ancestors(path)[0] == path,
{
}

/// The navigation history as a mathematical value.
pub struct HistoryModel {
    /// Recent folders, the newest first.
    pub entries: Seq<Seq<char>>,
    /// The most that `entries` keeps.
    pub max_entries: nat,
    /// Paths to go back to, the nearest last.
    pub back: Seq<Seq<char>>,
    /// Paths to go forward to, the nearest last.
    pub forward: Seq<Seq<char>>,
}

impl HistoryModel {
    /// No folder is listed twice, and no more folders are listed than the
    /// history keeps.
    pub open spec fn wf(self) -> bool {
        &&& distinct(self.entries)
        &&& self.entries.len() <= self.max_entries
    }

    /// The recent folders once `path` has been visited: `path` in front, the
    /// others behind it in their order, cut to the most that is kept.
    pub open spec fn recent_after(self, path: Seq<char>) -> Seq<Seq<char>> {
        let list = seq![path] + without(self.entries, path);
        if list.len() > self.max_entries {
            list.take(self.max_entries as int)
        } else {
            list
        }
    }

    /// The history after `path` is pushed.
    pub open spec fn after_push(self, path: Seq<char>) -> HistoryModel {
        HistoryModel {
            entries: self.recent_after(path),
            back: self.back.push(path),
            forward: Seq::empty(),
            ..self
        }
    }

    /// The path that a step in one direction arrives at: the nearest on the
    /// stack of that direction, if any.
    pub open spec fn nearest(stack: Seq<Seq<char>>) -> Option<Seq<char>> {
        if stack.len() > 0 {
            Some(stack.last())
        } else {
            None
        }
    }

    /// The history after a step back from `current`.
    pub open spec fn after_back(self, current: Seq<char>) -> HistoryModel {
        if self.back.len() > 0 {
            HistoryModel { back: self.back.drop_last(), forward: self.forward.push(current), ..self }
        } else {
            self
        }
    }

    /// The history after a step forward from `current`.
    pub open spec fn after_forward(self, current: Seq<char>) -> HistoryModel {
        if self.forward.len() > 0 {
            HistoryModel { forward: self.forward.drop_last(), back: self.back.push(current), ..self }
        } else {
            self
        }
    }
}

/// Recent folders and the back and forward stacks.
#[derive(Debug)]
pub struct NavigationHistory {
    /// Recent folders, the newest first.
    pub entries: Vec<String>,
    /// The most that `entries` keeps.
    pub max_entries: usize,
    /// Paths to go back to.
    pub back: Vec<String>,
    /// Paths to go forward to.
    pub forward: Vec<String>,
}

impl View for NavigationHistory {
    type V = HistoryModel;

    open spec fn view(&self) -> HistoryModel {
        HistoryModel {
            entries: string_views(self.entries@),
            max_entries: self.max_entries as nat,
            back: string_views(self.back@),
            forward: string_views(self.forward@),
        }
    }
}

/// Number of recent folders kept by default.
pub const DEFAULT_HISTORY_ENTRIES: usize = 10;

impl Default for NavigationHistory {
    fn default() -> (history: NavigationHistory)
        ensures
            history@ == (HistoryModel {
                entries: Seq::empty(),
                max_entries: DEFAULT_HISTORY_ENTRIES as nat,
                back: Seq::empty(),
                forward: Seq::empty(),
            }),
            history@.wf(),
    {
        NavigationHistory::with_max_entries(DEFAULT_HISTORY_ENTRIES)
    }
}

impl NavigationHistory {
    /// An empty history that keeps at most `max_entries` recent folders.
    pub fn with_max_entries(max_entries: usize) -> (history: NavigationHistory)
        ensures
            history@ == (HistoryModel {
                entries: Seq::empty(),
                max_entries: max_entries as nat,
                back: Seq::empty(),
                forward: Seq::empty(),
            }),
            history@.wf(),
    {
        let history = NavigationHistory {
            entries: Vec::new(),
            max_entries,
            back: Vec::new(),
            forward: Vec::new(),
        };
        assert(history@.entries =~= Seq::empty());
        assert(history@.back =~= Seq::empty());
        assert(history@.forward =~= Seq::empty());
        history
    }

    /// Records a visit of `path`: it becomes the first of the recent
    /// folders, where it is listed once, and the nearest path to go back to;
    /// nothing is left to go forward to.
    pub fn push(&mut self, path: String)
        ensures
            final(self)@ == old(self)@.after_push(path@),
            distinct(old(self)@.entries) ==> final(self)@.wf(),
    {
        let ghost before = self@;
        remove_all(&mut self.entries, &path);
        self.entries.insert(0, path.clone());
        proof {
            assert(string_views(self.entries@) =~= seq![path@] + without(before.entries, path@));
        }
        let ghost list = string_views(self.entries@);
        self.entries.truncate(self.max_entries);
        proof {
            if list.len() > self.max_entries {
                assert(string_views(self.entries@) =~= list.take(self.max_entries as int));
            }
            assert(string_views(self.entries@) == before.recent_after(path@));
        }
        self.back.push(path);
        self.forward.clear();
        proof {
            assert(string_views(self.back@) =~= before.back.push(path@));
            assert(string_views(self.forward@) =~= Seq::<Seq<char>>::empty());
            if distinct(before.entries) {
                lemma_recent_after(before, path@);
            }
        }
    }

    /// Steps back: the nearest path on the back stack is handed out and
    /// `current` becomes the nearest to go forward to. With nothing to go
    /// back to, nothing changes.
    pub fn go_back(&mut self, current: String) -> (previous: Option<String>)
        ensures
            final(self)@ == old(self)@.after_back(current@),
            match previous {
                Some(p) => HistoryModel::nearest(old(self)@.back) == Some(p@),
                None => HistoryModel::nearest(old(self)@.back) is None,
            },
    {
        let ghost before = self@;
        match self.back.pop() {
            Some(previous) => {
                self.forward.push(current);
                proof {
                    assert(string_views(self.back@) =~= before.back.drop_last());
                    assert(string_views(self.forward@) =~= before.forward.push(current@));
                }
                Some(previous)
            },
            None => None,
        }
    }

    /// Steps forward: the nearest path on the forward stack is handed out and
    /// `current` becomes the nearest to go back to. With nothing to go
    /// forward to, nothing changes.
    pub fn go_forward(&mut self, current: String) -> (next: Option<String>)
        ensures
            final(self)@ == old(self)@.after_forward(current@),
            match next {
                Some(p) => HistoryModel::nearest(old(self)@.forward) == Some(p@),
                None => HistoryModel::nearest(old(self)@.forward) is None,
            },
    {
        let ghost before = self@;
        match self.forward.pop() {
            Some(next) => {
                self.back.push(current);
                proof {
                    assert(string_views(self.forward@) =~= before.forward.drop_last());
                    assert(string_views(self.back@) =~= before.back.push(current@));
                }
                Some(next)
            },
            None => None,
        }
    }
}

/// The recent folders after a visit: the visited path first and listed once,
/// the others as before, no more than the history keeps, and never a folder
/// twice if none was listed twice before.
pub proof fn lemma_recent_after(history: HistoryModel, path: Seq<char>)
    requires
        distinct(history.entries),
    ensures
        distinct(history.recent_after(path)),
        history.recent_after(path).len() <= history.max_entries,
        history.max_entries > 0 ==> history.recent_after(path).len() > 0
            && history.recent_after(path)[0] == path,
{
    lemma_without(history.entries, path);
    let rest = without(history.entries, path);
    let list = seq![path] + rest;
    assert(list.no_duplicates()) by {
        assert forall|i: int, j: int|
            0 <= i < list.len() && 0 <= j < list.len() && i != j implies list[i] != list[j] by {
            if i > 0 && j > 0 {
                assert(list[i] == rest[i - 1] && list[j] == rest[j - 1]);
            } else if i == 0 {
                assert(list[j] == rest[j - 1]);
                assert(rest.contains(rest[j - 1]));
            } else {
                assert(list[i] == rest[i - 1]);
                assert(rest.contains(rest[i - 1]));
            }
        }
    }
    let cut = history.recent_after(path);
    assert forall|i: int, j: int|
        0 <= i < cut.len() && 0 <= j < cut.len() && i != j implies cut[i] != cut[j] by {
        assert(cut[i] == list[i] && cut[j] == list[j]);
    }
}

/// Whatever the history held, the recent folders never list a folder twice
/// once they did not: a push keeps the history well formed.
pub proof fn law_push_keeps_entries_distinct(history: HistoryModel, path: Seq<char>)
    requires
        distinct(history.entries),
    ensures
        history.after_push(path).wf(),
        history.after_back(path).entries == history.entries,
        history.after_forward(path).entries == history.entries,
{
    lemma_recent_after(history, path);
}

/// A step back from `current` arrives at the path pushed last, which is the
/// one pushed before it only where the two are the same; a step forward after
/// it arrives at `current` again.
pub proof fn law_back_then_forward(
    history: HistoryModel,
    first: Seq<char>,
    second: Seq<char>,
    current: Seq<char>,
    later: Seq<char>,
)
    ensures
        HistoryModel::nearest(history.after_push(first).after_push(second).back) == Some(second),
        first == second ==> HistoryModel::nearest(
            history.after_push(first).after_push(second).back,
        ) == Some(first),
        HistoryModel::nearest(
            history.after_push(first).after_push(second).after_back(current).forward,
        ) == Some(current),
        HistoryModel::nearest(
            history.after_push(first).after_push(second).after_back(current).back,
        ) == Some(first),
        history.after_push(first).after_push(second).after_back(current).after_forward(later).back
            == history.back.push(first).push(later),
{
    let pushed = history.after_push(first).after_push(second);
    assert(pushed.back.drop_last() =~= history.back.push(first));
}

/// A push empties the forward stack, whatever steps back and forward came
/// before it: the next step forward arrives nowhere and changes nothing.
pub proof fn law_push_clears_forward(history: HistoryModel, path: Seq<char>, current: Seq<char>)
    ensures
        history.after_push(path).forward == Seq::<Seq<char>>::empty(),
        HistoryModel::nearest(history.after_push(path).forward) is None,
        history.after_push(path).after_forward(current) == history.after_push(path),
{
}

/// The stored folder at `index` still exists; a folder without a flag does
/// not count as existing.
pub open spec fn exists_at(exists: Seq<bool>, index: int) -> bool {
    0 <= index < exists.len() && exists[index]
}

/// The recent folders with the first `count` stored folders merged in: each
/// stored folder that still exists and is not listed yet goes to the end, in
/// the order of the store.
pub open spec fn merged(
    entries: Seq<Seq<char>>,
    persisted: Seq<Seq<char>>,
    exists: Seq<bool>,
    count: nat,
) -> Seq<Seq<char>>
    decreases count,
{
    if count == 0 || count > persisted.len() {
        entries
    } else {
        let before = merged(entries, persisted, exists, (count - 1) as nat);
        let path = persisted[count - 1];
        if exists_at(exists, count - 1) && !before.contains(path) {
            before.push(path)
        } else {
            before
        }
    }
}

/// A list cut to at most `max` items.
pub open spec fn cut(list: Seq<Seq<char>>, max: nat) -> Seq<Seq<char>> {
    if list.len() > max {
        list.take(max as int)
    } else {
        list
    }
}

/// Merging adds no folder that is listed already.
pub proof fn lemma_merged_distinct(
    entries: Seq<Seq<char>>,
    persisted: Seq<Seq<char>>,
    exists: Seq<bool>,
    count: nat,
)
    requires
        distinct(entries),
        count <= persisted.len(),
    ensures
        distinct(merged(entries, persisted, exists, count)),
        entries.len() <= merged(entries, persisted, exists, count).len(),
        merged(entries, persisted, exists, count).take(entries.len() as int) == entries,
    decreases count,
{
    if count == 0 {
        assert(entries.take(entries.len() as int) =~= entries);
    } else {
        lemma_merged_distinct(entries, persisted, exists, (count - 1) as nat);
        let before = merged(entries, persisted, exists, (count - 1) as nat);
        let after = merged(entries, persisted, exists, count);
        let path = persisted[count - 1];
        if exists_at(exists, count - 1) && !before.contains(path) {
            assert forall|i: int, j: int|
                0 <= i < after.len() && 0 <= j < after.len() && i != j implies after[i]
                != after[j] by {
                if i < before.len() {
                    assert(before.contains(before[i]));
                }
                if j < before.len() {
                    assert(before.contains(before[j]));
                }
            }
            assert(after.take(entries.len() as int) =~= before.take(entries.len() as int));
        }
    }
}

impl NavigationHistory {
    /// Merges the recent folders of the durable store into the history, as
    /// is done once at startup: each stored folder that still exists and is
    /// not listed yet goes behind those that are listed, and the list is cut
    /// to the most that is kept. `exists` tells, by position, which of the
    /// stored folders still exist.
    pub fn merge_persisted(&mut self, persisted: &Vec<String>, exists: &Vec<bool>)
        ensures
            final(self)@ == (HistoryModel {
                entries: cut(
                    merged(
                        old(self)@.entries,
                        string_views(persisted@),
                        exists@,
                        persisted@.len(),
                    ),
                    old(self)@.max_entries,
                ),
                ..old(self)@
            }),
            distinct(old(self)@.entries) ==> final(self)@.wf(),
    {
        let ghost before = self@;
        let ghost stored = string_views(persisted@);
        let mut i: usize = 0;
        while i < persisted.len()
            invariant
                i <= persisted.len(),
                stored == string_views(persisted@),
                self@ == (HistoryModel {
                    entries: merged(before.entries, stored, exists@, i as nat),
                    ..before
                }),
            decreases persisted.len() - i,
        {
            let ghost list = string_views(self.entries@);
            let present = i < exists.len() && exists[i];
            if present && !list_contains(&self.entries, &persisted[i]) {
                self.entries.push(persisted[i].clone());
                assert(string_views(self.entries@) =~= list.push(stored[i as int]));
            }
            i = i + 1;
        }
        let ghost all = string_views(self.entries@);
        self.entries.truncate(self.max_entries);
        proof {
            if all.len() > self.max_entries {
                assert(string_views(self.entries@) =~= all.take(self.max_entries as int));
            }
            assert(string_views(self.entries@) == cut(all, before.max_entries));
            if distinct(before.entries) {
                lemma_merged_distinct(before.entries, stored, exists@, persisted@.len());
                let kept = cut(all, before.max_entries);
                assert forall|a: int, b: int|
                    0 <= a < kept.len() && 0 <= b < kept.len() && a != b implies kept[a]
                    != kept[b] by {
                    assert(kept[a] == all[a] && kept[b] == all[b]);
                }
            }
        }
    }
}

} // verus!
