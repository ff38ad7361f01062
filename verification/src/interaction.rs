//! The state machine of the application: what each event does to the
//! lifecycle state, the viewing mode, the current directory, the history and
//! the selection, and what it asks the scene to do.
//!
//! Of one click `handle_drilldown` is asked first and `handle_selection`
//! second: the first reads the record of the previous click, the second
//! renews it.

use vstd::prelude::*;
use crate::navigation::{
    ancestor_chain, segments_of, Breadcrumb, CurrentDirectory, HistoryModel, NavigationHistory,
    PathSegmentView,
};
use crate::persistent_cache::PersistentCache;
use crate::states::{AppState, ViewingMode};

verus! {

/// What the main area shows.
#[derive(Debug, Clone, Copy, PartialEq, Eq, Structural)]
pub enum MainView {
    /// The scene.
    Universe,
    /// The settings page.
    Settings,
}

impl Default for MainView {
    fn default() -> (view: MainView)
        ensures
            view == MainView::Universe,
    {
        MainView::Universe
    }
}

/// Hover, selection and what the main area shows.
#[derive(Debug)]
pub struct UiState {
    pub hovered_entity: Option<u64>,
    pub selected_entity: Option<u64>,
    pub main_view: MainView,
}

impl Default for UiState {
    fn default() -> (state: UiState)
        ensures
            state.hovered_entity is None,
            state.selected_entity is None,
            state.main_view == MainView::Universe,
    {
        UiState { hovered_entity: None, selected_entity: None, main_view: MainView::Universe }
    }
}

/// A folder that was chosen and is not shown yet.
#[derive(Debug)]
pub struct PendingFolderSelection {
    pub path: Option<String>,
}

impl Default for PendingFolderSelection {
    fn default() -> (pending: PendingFolderSelection)
        ensures
            pending.path is None,
    {
        PendingFolderSelection { path: None }
    }
}

/// The previous click: when it came, in milliseconds, and what it hit.
#[derive(Debug)]
pub struct ClickState {
    pub last_click_time: Option<u64>,
    pub last_click_entity: Option<u64>,
}

impl Default for ClickState {
    fn default() -> (clicks: ClickState)
        ensures
            clicks.last_click_time is None,
            clicks.last_click_entity is None,
    {
        ClickState { last_click_time: None, last_click_entity: None }
    }
}

/// Two clicks less than this many milliseconds apart are a double click.
pub const DOUBLE_CLICK_THRESHOLD_MS: u64 = 300;

/// A directory body was activated: the scene moves into it.
#[derive(Debug)]
pub struct DrillDownEvent {
    pub entity: u64,
    pub path: String,
}

/// The selection changed.
#[derive(Debug, Clone, Copy)]
pub struct SelectionChangedEvent {
    pub entity: Option<u64>,
}

/// What a probe of the scene under the cursor found.
#[derive(Debug, Clone, Copy)]
pub enum HoverProbe {
    /// The scene could not be probed: there is no window or no camera.
    Unavailable,
    /// The cursor is over no body, or outside the scene.
    Miss,
    /// The closest body under the cursor.
    Hit(u64),
}

/// What the keys pressed ask for.
#[derive(Debug, Clone, Copy)]
pub struct KeyboardOutcome {
    /// The selection was cleared.
    pub selection_cleared: bool,
    /// A reset of the view is requested.
    pub view_reset_requested: bool,
}

/// Everything that the state machine reads and changes.
#[derive(Debug)]
pub struct Session {
    pub app_state: AppState,
    pub viewing_mode: ViewingMode,
    pub current_dir: CurrentDirectory,
    pub breadcrumb: Breadcrumb,
    pub history: NavigationHistory,
    pub ui_state: UiState,
    pub pending_folder: PendingFolderSelection,
    pub click_state: ClickState,
}

/// A `Session` as a mathematical value.
pub struct SessionView {
    pub app_state: AppState,
    pub viewing_mode: ViewingMode,
    pub current_dir: Option<Seq<char>>,
    pub breadcrumb: Seq<PathSegmentView>,
    pub history: HistoryModel,
    pub hovered_entity: Option<u64>,
    pub selected_entity: Option<u64>,
    pub main_view: MainView,
    pub pending_folder: Option<Seq<char>>,
    pub last_click_time: Option<u64>,
    pub last_click_entity: Option<u64>,
}

/// What a string that may be missing holds.
pub open spec fn text_of(s: Option<String>) -> Option<Seq<char>> {
    match s {
        Some(t) => Some(t@),
        None => None,
    }
}

impl View for Session {
    type V = SessionView;

    open spec fn view(&self) -> SessionView {
        SessionView {
            app_state: self.app_state,
            viewing_mode: self.viewing_mode,
            current_dir: text_of(self.current_dir.path),
            breadcrumb: self.breadcrumb@,
            history: self.history@,
            hovered_entity: self.ui_state.hovered_entity,
            selected_entity: self.ui_state.selected_entity,
            main_view: self.ui_state.main_view,
            pending_folder: text_of(self.pending_folder.path),
            last_click_time: self.click_state.last_click_time,
            last_click_entity: self.click_state.last_click_entity,
        }
    }
}

/// The breadcrumb of a path.
pub open spec fn breadcrumb_of(path: Seq<char>) -> Seq<PathSegmentView> {
    segments_of(ancestor_chain(path))
}

/// Milliseconds between a click at `then` and one at `now`; zero where the
/// clock went backwards.
pub open spec fn click_gap(then: u64, now: u64) -> nat {
    if now >= then {
        (now - then) as nat
    } else {
        0
    }
}

impl SessionView {
    /// The session of a program that has just started.
    pub open spec fn initial(max_entries: nat) -> SessionView {
        SessionView {
            app_state: AppState::Empty,
            viewing_mode: ViewingMode::Idle,
            current_dir: None,
            breadcrumb: Seq::empty(),
            history: HistoryModel {
                entries: Seq::empty(),
                max_entries,
                back: Seq::empty(),
                forward: Seq::empty(),
            },
            hovered_entity: None,
            selected_entity: None,
            main_view: MainView::Universe,
            pending_folder: None,
            last_click_time: None,
            last_click_entity: None,
        }
    }

    /// The session once `path` is the current directory: the directory that
    /// was current, if any, is pushed to the history, and the breadcrumb is
    /// built anew.
    pub open spec fn entered(self, path: Seq<char>) -> SessionView {
        SessionView {
            history: match self.current_dir {
                Some(current) => self.history.after_push(current),
                None => self.history,
            },
            current_dir: Some(path),
            breadcrumb: breadcrumb_of(path),
            ..self
        }
    }

    /// A chosen folder waits and the program shows none yet.
    pub open spec fn takes_folder(self) -> bool {
        self.app_state == AppState::Empty && self.pending_folder is Some
    }

    /// The session after the chosen folder, if one waits while none is
    /// shown, has become the current directory.
    pub open spec fn after_folder_selection(self) -> SessionView {
        if self.takes_folder() {
            SessionView {
                app_state: AppState::Viewing,
                viewing_mode: ViewingMode::Idle,
                current_dir: self.pending_folder,
                breadcrumb: breadcrumb_of(self.pending_folder->0),
                history: self.history.after_push(self.pending_folder->0),
                main_view: MainView::Universe,
                pending_folder: None,
                ..self
            }
        } else {
            self
        }
    }

    /// The click at `now` is the second of a double click on the body under
    /// the cursor.
    pub open spec fn is_double_click(self, now: u64) -> bool {
        match (self.last_click_time, self.last_click_entity) {
            (Some(then), Some(entity)) => click_gap(then, now) < DOUBLE_CLICK_THRESHOLD_MS
                && self.hovered_entity == Some(entity),
            _ => false,
        }
    }

    /// Input on the scene counts: a folder is shown and the main area shows
    /// the scene.
    pub open spec fn scene_input(self) -> bool {
        self.app_state == AppState::Viewing && self.main_view == MainView::Universe
    }

    /// A press at `now` drills into `target`: the scene takes input and is
    /// idle, the press completes a double click, and the body that was
    /// clicked is the directory body `target`.
    pub open spec fn drills_into(self, pressed: bool, now: u64, target: Option<u64>) -> bool {
        &&& self.scene_input()
        &&& self.viewing_mode == ViewingMode::Idle
        &&& pressed
        &&& self.is_double_click(now)
        &&& target is Some
        &&& self.last_click_entity == target
    }

    /// The session after a drilldown into `path`.
    pub open spec fn after_drilldown(self, path: Seq<char>) -> SessionView {
        SessionView { viewing_mode: ViewingMode::Animating, ..self.entered(path) }
    }

    /// The session after a press at `now`, as far as the selection goes.
    pub open spec fn after_selection(self, pressed: bool, now: u64) -> SessionView {
        if !self.scene_input() || !pressed {
            self
        } else if self.is_double_click(now) {
            SessionView { last_click_time: None, last_click_entity: None, ..self }
        } else {
            SessionView {
                selected_entity: self.hovered_entity,
                last_click_time: Some(now),
                last_click_entity: self.hovered_entity,
                ..self
            }
        }
    }

    /// The press at `now` changes the selection.
    pub open spec fn selection_changes(self, pressed: bool, now: u64) -> bool {
        self.scene_input() && pressed && !self.is_double_click(now) && self.selected_entity
            != self.hovered_entity
    }

    /// The session after a navigation to `path` by a breadcrumb step or a
    /// recent folder: the scene is cut over without a camera move.
    pub open spec fn after_navigation(self, path: Seq<char>) -> SessionView {
        SessionView {
            main_view: MainView::Universe,
            viewing_mode: ViewingMode::Idle,
            ..self.entered(path)
        }
    }

    /// The session after a series of navigations, made in order.
    pub open spec fn after_navigations(self, paths: Seq<Seq<char>>) -> SessionView
        decreases paths.len(),
    {
        if paths.len() == 0 {
            self
        } else {
            self.after_navigations(paths.drop_last()).after_navigation(paths.last())
        }
    }

    /// The session after the escape key.
    pub open spec fn after_escape(self) -> SessionView {
        if self.main_view == MainView::Settings {
            SessionView { main_view: MainView::Universe, ..self }
        } else if self.app_state == AppState::Viewing && self.selected_entity is Some {
            SessionView { selected_entity: None, ..self }
        } else {
            self
        }
    }

    /// A request to reset the view is honored: a folder is shown, the scene
    /// is idle, and there is a camera to move.
    pub open spec fn resets_view(self, requests: nat, cameras: nat) -> bool {
        self.app_state == AppState::Viewing && self.viewing_mode == ViewingMode::Idle && requests
            > 0 && cameras > 0
    }

    /// A camera move that has finished is taken note of: a folder is shown
    /// and the scene is animating.
    pub open spec fn completes_animation(self, finished: bool) -> bool {
        self.app_state == AppState::Viewing && self.viewing_mode == ViewingMode::Animating
            && finished
    }

    /// The session after a probe of the scene under the cursor.
    pub open spec fn after_hover(self, probe: HoverProbe) -> SessionView {
        if self.main_view != MainView::Universe {
            SessionView { hovered_entity: None, ..self }
        } else {
            match probe {
                HoverProbe::Unavailable => self,
                HoverProbe::Miss => SessionView { hovered_entity: None, ..self },
                HoverProbe::Hit(entity) => SessionView { hovered_entity: Some(entity), ..self },
            }
        }
    }
}

impl Session {
    /// The session of a program that has just started: no folder, nothing
    /// selected, an empty history that keeps `max_entries` recent folders.
    pub fn new(max_entries: usize) -> (session: Session)
        ensures
            session@ == SessionView::initial(max_entries as nat),
    {
        Session {
            app_state: AppState::Empty,
            viewing_mode: ViewingMode::Idle,
            current_dir: CurrentDirectory { path: None },
            breadcrumb: Breadcrumb::default(),
            history: NavigationHistory::with_max_entries(max_entries),
            ui_state: UiState::default(),
            pending_folder: PendingFolderSelection { path: None },
            click_state: ClickState::default(),
        }
    }

    /// Makes `path` the current directory: the directory that was current is
    /// pushed to the history, which is handed to the durable store where
    /// there is one, and the breadcrumb is built anew.
    pub fn enter_directory(&mut self, path: String, persistent: Option<&PersistentCache>)
        ensures
            final(self)@ == old(self)@.entered(path@),
    {
        match &self.current_dir.path {
            Some(current) => {
                let visited = current.clone();
                self.history.push(visited);
                match persistent {
                    Some(cache) => {
                        cache.write_history(&self.history.entries);
                    },
                    None => {},
                }
            },
            None => {},
        }
        self.breadcrumb = Breadcrumb::from_path(&path);
        self.current_dir.path = Some(path);
    }
}

/// Takes in the end of the folder dialog, where the program shows no folder
/// yet: a chosen folder waits to be shown. Tells whether the dialog is over.
pub fn poll_file_dialog(session: &mut Session, finished: Option<Option<String>>) -> (over: bool)
    ensures
        over == (old(session)@.app_state == AppState::Empty && finished is Some),
        final(session)@ == (if old(session)@.app_state == AppState::Empty {
            match finished {
                Some(Some(path)) => SessionView { pending_folder: Some(path@), ..old(session)@ },
                _ => old(session)@,
            }
        } else {
            old(session)@
        }),
{
    if session.app_state != AppState::Empty {
        return false;
    }
    match finished {
        Some(chosen) => {
            match chosen {
                Some(path) => {
                    session.pending_folder.path = Some(path);
                },
                None => {},
            }
            true
        },
        None => false,
    }
}

/// Shows the folder that was chosen, where one waits and the program shows
/// none yet: it becomes the current directory and the newest of the recent
/// folders, and the program goes to viewing, idle, with the scene in the main
/// area. The path is handed out for those who listen.
pub fn check_folder_selection(session: &mut Session, persistent: Option<&PersistentCache>) -> (chosen:
    Option<String>)
    ensures
        final(session)@ == old(session)@.after_folder_selection(),
        text_of(chosen) == (if old(session)@.takes_folder() {
            old(session)@.pending_folder
        } else {
            None
        }),
{
    if session.app_state != AppState::Empty {
        return None;
    }
    let path = match &session.pending_folder.path {
        Some(path) => path.clone(),
        None => {
            return None;
        },
    };
    session.pending_folder.path = None;
    session.breadcrumb = Breadcrumb::from_path(&path);
    session.current_dir.path = Some(path.clone());
    session.history.push(path.clone());
    match persistent {
        Some(cache) => {
            cache.write_history(&session.history.entries);
        },
        None => {},
    }
    session.app_state = AppState::Viewing;
    session.viewing_mode = ViewingMode::Idle;
    session.ui_state.main_view = MainView::Universe;
    Some(path)
}

/// Tells whether a click at `now` is the second of a double click on the
/// body under the cursor.
pub fn is_double_click(session: &Session, now: u64) -> (double: bool)
    ensures
        double == session@.is_double_click(now),
{
    match (session.click_state.last_click_time, session.click_state.last_click_entity) {
        (Some(then), Some(entity)) => {
            let close = now.saturating_sub(then) < DOUBLE_CLICK_THRESHOLD_MS;
            let same = match session.ui_state.hovered_entity {
                Some(hovered) => hovered == entity,
                None => false,
            };
            close && same
        },
        _ => false,
    }
}

/// Drills into a directory body on a double click: while the scene takes
/// input and is idle, a press at `now` that completes a double click on the
/// body `target` makes the path of that body the current directory and
/// starts the camera move. The event is handed out for the scene, which
/// tears its bodies down and moves the camera. `target` is the body of the
/// previous click, where that is a directory body.
pub fn handle_drilldown(
    session: &mut Session,
    pressed: bool,
    now: u64,
    target: Option<DrillDownEvent>,
    persistent: Option<&PersistentCache>,
) -> (event: Option<DrillDownEvent>)
    ensures
        match event {
            Some(e) => {
                &&& target matches Some(t)
                &&& old(session)@.drills_into(pressed, now, Some(t.entity))
                &&& e.entity == t.entity
                &&& e.path@ == t.path@
                &&& final(session)@ == old(session)@.after_drilldown(t.path@)
            },
            None => {
                &&& final(session)@ == old(session)@
                &&& match target {
                    Some(t) => !old(session)@.drills_into(pressed, now, Some(t.entity)),
                    None => true,
                }
            },
        },
{
    if session.app_state != AppState::Viewing || session.ui_state.main_view != MainView::Universe {
        return None;
    }
    if session.viewing_mode != ViewingMode::Idle || !pressed {
        return None;
    }
    if !is_double_click(session, now) {
        return None;
    }
    let t = match target {
        Some(t) => t,
        None => {
            return None;
        },
    };
    let clicked = match session.click_state.last_click_entity {
        Some(entity) => entity == t.entity,
        None => false,
    };
    if !clicked {
        return None;
    }
    session.enter_directory(t.path.clone(), persistent);
    session.viewing_mode = ViewingMode::Animating;
    Some(t)
}

/// Selects on a press: while the scene takes input, a press at `now` that is
/// no double click selects what is under the cursor and is recorded as the
/// previous click; one that is a double click clears the record and leaves
/// the selection. A change of the selection is handed out.
pub fn handle_selection(session: &mut Session, pressed: bool, now: u64) -> (event: Option<
    SelectionChangedEvent,
>)
    ensures
        final(session)@ == old(session)@.after_selection(pressed, now),
        match event {
            Some(e) => old(session)@.selection_changes(pressed, now) && e.entity == old(
                session,
            )@.hovered_entity,
            None => !old(session)@.selection_changes(pressed, now),
        },
{
    if session.app_state != AppState::Viewing || session.ui_state.main_view != MainView::Universe {
        return None;
    }
    if !pressed {
        return None;
    }
    if is_double_click(session, now) {
        session.click_state.last_click_time = None;
        session.click_state.last_click_entity = None;
        return None;
    }
    let hovered = session.ui_state.hovered_entity;
    let changed = match (session.ui_state.selected_entity, hovered) {
        (Some(a), Some(b)) => a != b,
        (None, None) => false,
        _ => true,
    };
    session.ui_state.selected_entity = hovered;
    session.click_state.last_click_time = Some(now);
    session.click_state.last_click_entity = hovered;
    if changed {
        Some(SelectionChangedEvent { entity: hovered })
    } else {
        None
    }
}

/// Acts on the keys: escape closes the settings page, or else clears the
/// selection while a folder is shown; space asks for a reset of the view
/// while a folder is shown and the main area shows the scene.
pub fn handle_keyboard(session: &mut Session, escape: bool, space: bool) -> (outcome:
    KeyboardOutcome)
    ensures
        final(session)@ == (if escape {
            old(session)@.after_escape()
        } else {
            old(session)@
        }),
        outcome.selection_cleared == (escape && old(session)@.main_view != MainView::Settings
            && old(session)@.app_state == AppState::Viewing && old(session)@.selected_entity
            is Some),
        outcome.view_reset_requested == (space && final(session)@.scene_input()),
{
    let mut selection_cleared = false;
    if escape {
        if session.ui_state.main_view == MainView::Settings {
            session.ui_state.main_view = MainView::Universe;
        } else if session.app_state == AppState::Viewing
            && session.ui_state.selected_entity.is_some() {
            session.ui_state.selected_entity = None;
            selection_cleared = true;
        }
    }
    let view_reset_requested = space && session.app_state == AppState::Viewing
        && session.ui_state.main_view == MainView::Universe;
    KeyboardOutcome { selection_cleared, view_reset_requested }
}

/// Navigates to each of `paths` in turn, while a folder is shown: the main
/// area shows the scene, the directory that was current is pushed to the
/// history, and the scene is idle. Tells how many navigations were made;
/// after any, the scene is to be torn down and shown anew.
pub fn handle_navigate_to(
    session: &mut Session,
    paths: Vec<String>,
    persistent: Option<&PersistentCache>,
) -> (made: usize)
    ensures
        final(session)@ == (if old(session)@.app_state == AppState::Viewing {
            old(session)@.after_navigations(crate::text::string_views(paths@))
        } else {
            old(session)@
        }),
        made == (if old(session)@.app_state == AppState::Viewing {
            paths@.len()
        } else {
            0
        }),
{
    if session.app_state != AppState::Viewing {
        return 0;
    }
    let ghost all = crate::text::string_views(paths@);
    let mut i: usize = 0;
    assert(all.take(0) =~= Seq::<Seq<char>>::empty());
    while i < paths.len()
        invariant
            i <= paths.len(),
            all == crate::text::string_views(paths@),
            session@ == old(session)@.after_navigations(all.take(i as int)),
        decreases paths.len() - i,
    {
        proof {
            assert(all.take(i + 1).drop_last() =~= all.take(i as int));
            assert(all.take(i + 1).last() == paths@[i as int]@);
        }
        session.ui_state.main_view = MainView::Universe;
        session.enter_directory(paths[i].clone(), persistent);
        session.viewing_mode = ViewingMode::Idle;
        i = i + 1;
    }
    assert(all.take(paths.len() as int) =~= all);
    paths.len()
}

/// Honors a request to reset the view, while a folder is shown and the scene
/// is idle: with a request and a camera to move, the scene goes to animating.
/// Tells whether the camera is to return to its default.
pub fn handle_view_reset(session: &mut Session, requests: usize, cameras: usize) -> (honored: bool)
    ensures
        honored == old(session)@.resets_view(requests as nat, cameras as nat),
        final(session)@ == (if honored {
            SessionView { viewing_mode: ViewingMode::Animating, ..old(session)@ }
        } else {
            old(session)@
        }),
{
    if session.app_state == AppState::Viewing && session.viewing_mode == ViewingMode::Idle
        && requests > 0 && cameras > 0 {
        session.viewing_mode = ViewingMode::Animating;
        true
    } else {
        false
    }
}

/// Takes note of the camera move, while the scene is animating: once it has
/// finished the scene is idle again. Tells whether the scene is to be shown
/// anew.
pub fn animate_camera(session: &mut Session, finished: bool) -> (respawn: bool)
    ensures
        respawn == old(session)@.completes_animation(finished),
        final(session)@ == (if respawn {
            SessionView { viewing_mode: ViewingMode::Idle, ..old(session)@ }
        } else {
            old(session)@
        }),
{
    if session.app_state == AppState::Viewing && session.viewing_mode == ViewingMode::Animating
        && finished {
        session.viewing_mode = ViewingMode::Idle;
        true
    } else {
        false
    }
}

/// Records what is under the cursor. While the main area shows something
/// other than the scene, nothing is.
pub fn update_hover(session: &mut Session, probe: HoverProbe)
    ensures
        final(session)@ == old(session)@.after_hover(probe),
{
    if session.ui_state.main_view != MainView::Universe {
        session.ui_state.hovered_entity = None;
        return ;
    }
    match probe {
        HoverProbe::Unavailable => {},
        HoverProbe::Miss => {
            session.ui_state.hovered_entity = None;
        },
        HoverProbe::Hit(entity) => {
            session.ui_state.hovered_entity = Some(entity);
        },
    }
}

/// Forgets hover and selection when the program leaves viewing.
pub fn cleanup_viewing(session: &mut Session)
    ensures
        final(session)@ == (SessionView {
            hovered_entity: None,
            selected_entity: None,
            ..old(session)@
        }),
{
    session.ui_state.hovered_entity = None;
    session.ui_state.selected_entity = None;
}

/// Switches the main area between the scene and the settings page.
pub fn toggle_settings(session: &mut Session)
    ensures
        final(session)@ == (SessionView {
            main_view: if old(session)@.main_view == MainView::Settings {
                MainView::Universe
            } else {
                MainView::Settings
            },
            ..old(session)@
        }),
{
    if session.ui_state.main_view == MainView::Settings {
        session.ui_state.main_view = MainView::Universe;
    } else {
        session.ui_state.main_view = MainView::Settings;
    }
}

/// Acts on the activation of a recent folder: the main area shows the scene;
/// where no folder is shown yet the folder waits to be shown, and where one
/// is shown the path is handed out as the target of a navigation.
pub fn history_entry_clicked(session: &mut Session, path: String) -> (target: Option<String>)
    ensures
        final(session)@ == (if old(session)@.app_state == AppState::Empty {
            SessionView {
                pending_folder: Some(path@),
                main_view: MainView::Universe,
                ..old(session)@
            }
        } else {
            SessionView { main_view: MainView::Universe, ..old(session)@ }
        }),
        text_of(target) == (if old(session)@.app_state == AppState::Viewing {
            Some(path@)
        } else {
            None
        }),
{
    session.ui_state.main_view = MainView::Universe;
    if session.app_state == AppState::Empty {
        session.pending_folder.path = Some(path);
        None
    } else if session.app_state == AppState::Viewing {
        Some(path)
    } else {
        None
    }
}

/// The target of the activation of the breadcrumb step at `index`: the path
/// of the step, unless the step is the last one, which is where the user is,
/// or the main area does not show the scene.
pub fn breadcrumb_clicked(session: &Session, index: usize) -> (target: Option<String>)
    ensures
        text_of(target) == (if session@.main_view == MainView::Universe && index + 1
            < session@.breadcrumb.len() {
            Some(session@.breadcrumb[index as int].path)
        } else {
            None
        }),
{
    if session.ui_state.main_view != MainView::Universe {
        return None;
    }
    let n = session.breadcrumb.segments.len();
    if n > 0 && index < n - 1 {
        Some(session.breadcrumb.segments[index].path.clone())
    } else {
        None
    }
}

/// The lifecycle as the events drive it: a chosen folder, taken while none
/// is shown, lands in viewing, idle; a drilldown, taken while viewing and
/// idle, lands in viewing, animating; and the end of a camera move, taken
/// while animating, lands in idle again.
pub proof fn law_lifecycle(
    session: SessionView,
    pressed: bool,
    now: u64,
    target: u64,
    path: Seq<char>,
)
    ensures
        session.takes_folder() ==> session.after_folder_selection().app_state == AppState::Viewing
            && session.after_folder_selection().viewing_mode == ViewingMode::Idle,
        session.drills_into(pressed, now, Some(target)) ==> session.app_state == AppState::Viewing
            && session.viewing_mode == ViewingMode::Idle && session.after_drilldown(
            path,
        ).app_state == AppState::Viewing && session.after_drilldown(path).viewing_mode
            == ViewingMode::Animating,
        session.completes_animation(true) <==> session.app_state == AppState::Viewing
            && session.viewing_mode == ViewingMode::Animating,
        session.after_navigation(path).viewing_mode == ViewingMode::Idle,
        session.after_navigation(path).app_state == session.app_state,
        session.resets_view(1, 1) <==> session.app_state == AppState::Viewing
            && session.viewing_mode == ViewingMode::Idle,
{
}

} // verus!
