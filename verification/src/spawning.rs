//! What the scene shows for a directory: the star for the directory itself,
//! one body for each child up to a limit, the paths whose size is still to
//! be calculated, and the number of children that did not fit.

use vstd::prelude::*;
use crate::cache::{listing_view, FileEntry, FileEntryView};
use crate::navigation::{display_name, name_or_root, CurrentDirectory};
use crate::paths::{file_name_of, path_file_name};
use crate::size_calculation::{PendingBody, PendingBodyView};
use crate::text::string_views;

verus! {

/// What was looked up for a directory child before the scene is planned.
#[derive(Debug, Clone, Copy, PartialEq, Eq, Structural)]
pub struct DirectoryLookup {
    /// The size that the durable store holds for the directory, if it holds
    /// one that is still honored.
    pub cached_size: Option<u64>,
    /// Number of visible children of the directory.
    pub child_count: usize,
}

/// A body of the scene, as planned.
#[derive(Debug)]
pub struct BodyPlan {
    /// Position among the bodies shown.
    pub index: usize,
    pub name: String,
    pub path: String,
    /// Size shown for the body.
    pub size_bytes: u64,
    pub modified: u64,
    pub is_directory: bool,
    /// The size is still to be calculated.
    pub pending: bool,
    /// Number of visible children, for a directory.
    pub grandchildren: usize,
}

/// What a `BodyPlan` holds, as plain values.
pub struct BodyPlanView {
    pub index: usize,
    pub name: Seq<char>,
    pub path: Seq<char>,
    pub size_bytes: u64,
    pub modified: u64,
    pub is_directory: bool,
    pub pending: bool,
    pub grandchildren: usize,
}

impl View for BodyPlan {
    type V = BodyPlanView;

    open spec fn view(&self) -> BodyPlanView {
        BodyPlanView {
            index: self.index,
            name: self.name@,
            path: self.path@,
            size_bytes: self.size_bytes,
            modified: self.modified,
            is_directory: self.is_directory,
            pending: self.pending,
            grandchildren: self.grandchildren,
        }
    }
}

/// What a list of planned bodies holds, one by one.
pub open spec fn plan_views(bodies: Seq<BodyPlan>) -> Seq<BodyPlanView> {
    bodies.map_values(|b: BodyPlan| b@)
}

/// The lookup for the child at `index`; a child without one counts as not
/// stored and without children.
pub open spec fn lookup_at(lookups: Seq<DirectoryLookup>, index: int) -> DirectoryLookup {
    if 0 <= index < lookups.len() {
        lookups[index]
    } else {
        DirectoryLookup { cached_size: None, child_count: 0 }
    }
}

/// The body for a child. A directory shows its stored size where there is
/// one and is pending where there is none; a file shows its own size.
pub open spec fn body_for(
    entry: FileEntryView,
    lookup: DirectoryLookup,
    index: usize,
) -> BodyPlanView {
    if entry.is_directory {
        BodyPlanView {
            index,
            name: entry.name,
            path: entry.path,
            size_bytes: match lookup.cached_size {
                Some(size) => size,
                None => entry.size_bytes,
            },
            modified: entry.modified,
            is_directory: true,
            pending: lookup.cached_size is None,
            grandchildren: lookup.child_count,
        }
    } else {
        BodyPlanView {
            index,
            name: entry.name,
            path: entry.path,
            size_bytes: entry.size_bytes,
            modified: entry.modified,
            is_directory: false,
            pending: false,
            grandchildren: 0,
        }
    }
}

/// Number of children shown: all of them up to the limit.
pub open spec fn shown_count(children: nat, max_display_items: nat) -> nat {
    if children <= max_display_items {
        children
    } else {
        max_display_items
    }
}

/// The bodies for a listing: one for each of the first children, in order.
pub open spec fn planned_bodies(
    entries: Seq<FileEntryView>,
    max_display_items: nat,
    lookups: Seq<DirectoryLookup>,
) -> Seq<BodyPlanView> {
    Seq::new(
        shown_count(entries.len(), max_display_items),
        |i: int| body_for(entries[i], lookup_at(lookups, i), i as usize),
    )
}

/// The bodies whose size is still to be calculated.
pub open spec fn is_pending() -> spec_fn(BodyPlanView) -> bool {
    |b: BodyPlanView| b.pending
}

/// The paths to measure: those of the pending bodies, in order.
pub open spec fn pending_paths(bodies: Seq<BodyPlanView>) -> Seq<Seq<char>> {
    bodies.filter(is_pending()).map_values(|b: BodyPlanView| b.path)
}

/// What the scene shows for a directory.
#[derive(Debug)]
pub struct ScenePlan {
    /// Name of the star, which stands for the directory itself.
    pub star_name: String,
    /// Path of the directory.
    pub star_path: String,
    /// The bodies, one for each child that is shown.
    pub bodies: Vec<BodyPlan>,
    /// Paths of the directories whose size is to be calculated.
    pub pending_calculations: Vec<String>,
    /// Number of children that are not shown.
    pub overflow_count: usize,
}

/// A `ScenePlan` as a mathematical value.
pub struct ScenePlanView {
    pub star_name: Seq<char>,
    pub star_path: Seq<char>,
    pub bodies: Seq<BodyPlanView>,
    pub pending_calculations: Seq<Seq<char>>,
    pub overflow_count: nat,
}

impl View for ScenePlan {
    type V = ScenePlanView;

    open spec fn view(&self) -> ScenePlanView {
        ScenePlanView {
            star_name: self.star_name@,
            star_path: self.star_path@,
            bodies: plan_views(self.bodies@),
            pending_calculations: string_views(self.pending_calculations@),
            overflow_count: self.overflow_count as nat,
        }
    }
}

/// The scene for the directory `path` with the listing `entries`.
pub open spec fn scene_of(
    path: Seq<char>,
    entries: Seq<FileEntryView>,
    max_display_items: nat,
    lookups: Seq<DirectoryLookup>,
) -> ScenePlanView {
    let bodies = planned_bodies(entries, max_display_items, lookups);
    ScenePlanView {
        star_name: display_name(path_file_name(path)),
        star_path: path,
        bodies,
        pending_calculations: pending_paths(bodies),
        overflow_count: (entries.len() - bodies.len()) as nat,
    }
}

/// The body for the child `entry` at position `index`.
pub fn plan_body(entry: &FileEntry, lookup: DirectoryLookup, index: usize) -> (body: BodyPlan)
    ensures
        body@ == body_for(entry@, lookup, index),
{
    if entry.is_directory {
        let (size_bytes, pending) = match lookup.cached_size {
            Some(size) => (size, false),
            None => (entry.size_bytes, true),
        };
        BodyPlan {
            index,
            name: entry.name.clone(),
            path: entry.path.clone(),
            size_bytes,
            modified: entry.modified,
            is_directory: true,
            pending,
            grandchildren: lookup.child_count,
        }
    } else {
        BodyPlan {
            index,
            name: entry.name.clone(),
            path: entry.path.clone(),
            size_bytes: entry.size_bytes,
            modified: entry.modified,
            is_directory: false,
            pending: false,
            grandchildren: 0,
        }
    }
}

/// The scene for the current directory: nothing while no folder is chosen;
/// else the star, a body for each of the first `max_display_items` children,
/// the paths of the directories among them for which no size is stored, and
/// the number of children beyond the limit. `lookups` holds, by position,
/// what was looked up for each child that is shown.
pub fn spawn_celestials(
    current_dir: &CurrentDirectory,
    entries: &Vec<FileEntry>,
    max_display_items: usize,
    lookups: &Vec<DirectoryLookup>,
) -> (plan: Option<ScenePlan>)
    ensures
        match plan {
            Some(scene) => current_dir.path matches Some(path) && scene@ == scene_of(
                path@,
                listing_view(entries@),
                max_display_items as nat,
                lookups@,
            ),
            None => current_dir.path is None,
        },
{
    let path = match &current_dir.path {
        Some(path) => path,
        None => {
            return None;
        },
    };
    let star_name = name_or_root(&file_name_of(path));
    let shown = if entries.len() <= max_display_items {
        entries.len()
    } else {
        max_display_items
    };
    let ghost all = listing_view(entries@);
    let ghost wanted = planned_bodies(all, max_display_items as nat, lookups@);
    let ghost to_path = |b: BodyPlanView| b.path;
    let mut bodies: Vec<BodyPlan> = Vec::new();
    let mut pending_calculations: Vec<String> = Vec::new();
    let mut i: usize = 0;
    proof {
        reveal(Seq::filter);
        assert(wanted.take(0) =~= Seq::<BodyPlanView>::empty());
        assert(string_views(pending_calculations@) =~= pending_paths(wanted.take(0)));
    }
    while i < shown
        invariant
            i <= shown == wanted.len(),
            shown <= entries.len(),
            all == listing_view(entries@),
            wanted == planned_bodies(all, max_display_items as nat, lookups@),
            to_path == |b: BodyPlanView| b.path,
            plan_views(bodies@) == wanted.take(i as int),
            string_views(pending_calculations@) == pending_paths(wanted.take(i as int)),
        decreases shown - i,
    {
        let lookup = if i < lookups.len() {
            lookups[i]
        } else {
            DirectoryLookup { cached_size: None, child_count: 0 }
        };
        let body = plan_body(&entries[i], lookup, i);
        let ghost seen = wanted.take(i as int).filter(is_pending());
        let ghost paths = string_views(pending_calculations@);
        proof {
            reveal(Seq::filter);
            assert(wanted.take(i + 1).drop_last() =~= wanted.take(i as int));
            assert(wanted.take(i + 1).last() == body@);
        }
        if body.pending {
            pending_calculations.push(body.path.clone());
            proof {
                assert(string_views(pending_calculations@) =~= paths.push(body@.path));
                assert(seen.push(body@).map_values(to_path) =~= seen.map_values(to_path).push(
                    body@.path,
                ));
            }
        }
        let ghost planned = plan_views(bodies@);
        let ghost view = body@;
        bodies.push(body);
        proof {
            assert(plan_views(bodies@) =~= planned.push(view));
            assert(plan_views(bodies@) =~= wanted.take(i + 1));
        }
        i = i + 1;
    }
    assert(wanted.take(shown as int) =~= wanted);
    Some(
        ScenePlan {
            star_name,
            star_path: path.clone(),
            bodies,
            pending_calculations,
            overflow_count: entries.len() - shown,
        },
    )
}

/// The scene to show after a request to show the current directory anew:
/// nothing without a request, else what `spawn_celestials` gives.
pub fn handle_respawn_celestials(
    requested: bool,
    current_dir: &CurrentDirectory,
    entries: &Vec<FileEntry>,
    max_display_items: usize,
    lookups: &Vec<DirectoryLookup>,
) -> (plan: Option<ScenePlan>)
    ensures
        match plan {
            Some(scene) => requested && (current_dir.path matches Some(path) && scene@ == scene_of(
                path@,
                listing_view(entries@),
                max_display_items as nat,
                lookups@,
            )),
            None => !requested || current_dir.path is None,
        },
{
    if !requested {
        return None;
    }
    spawn_celestials(current_dir, entries, max_display_items, lookups)
}

/// The body that waits for results, for a planned body that the scene shows
/// as `entity`.
pub open spec fn tracked_body(body: BodyPlanView, entity: u64) -> PendingBodyView {
    PendingBodyView {
        entity,
        path: body.path,
        size_bytes: body.size_bytes,
        is_directory: body.is_directory,
        pending: body.pending,
    }
}

impl ScenePlan {
    /// The bodies of the scene as size results find them, where `entities`
    /// holds, by position, the identifier that the scene gave each planned
    /// body. Bodies without an identifier are left out.
    pub fn body_table(&self, entities: &Vec<u64>) -> (table: Vec<PendingBody>)
        ensures
            table.len() == shown_count(self.bodies.len() as nat, entities.len() as nat),
            forall|i: int|
                0 <= i < table.len() ==> (#[trigger] table@[i])@ == tracked_body(
                    self.bodies@[i]@,
                    entities@[i],
                ),
    {
        let mut table: Vec<PendingBody> = Vec::new();
        let mut i: usize = 0;
        while i < self.bodies.len() && i < entities.len()
            invariant
                i <= self.bodies.len(),
                i <= entities.len(),
                table.len() == i,
                forall|j: int|
                    0 <= j < i ==> (#[trigger] table@[j])@ == tracked_body(
                        self.bodies@[j]@,
                        entities@[j],
                    ),
            decreases self.bodies.len() - i,
        {
            let body = &self.bodies[i];
            table.push(
                PendingBody {
                    entity: entities[i],
                    path: body.path.clone(),
                    size_bytes: body.size_bytes,
                    is_directory: body.is_directory,
                    pending: body.pending,
                },
            );
            i = i + 1;
        }
        table
    }
}

} // verus!
