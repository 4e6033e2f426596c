//! The state of the interactive dependency picker and how each key press
//! changes it. Drawing, reading keys and talking to PyPI are left to the
//! caller, which performs the actions the picker asks for.
use std::collections::BTreeSet;
use vstd::prelude::*;
use crate::model::{section_label, AppMode, DependencySection, Project, SectionModel, is_selectable, selectable_indexes};
use crate::model::{DependencyEntry, UpdateSummary};
use crate::pypi::{Fetched, PypiClient, recorded, latest_known, hydrated, supported_names};
use crate::text::{chars_of, decimal, push_decimal, push_str, string_from_chars};
use vstd::std_specs::iter::IteratorSpec;

verus! {

/// The heading of a section's block of entries.
pub open spec fn section_title_of(section: SectionModel) -> Seq<char> {
    match section {
        SectionModel::Project => "dependencies"@,
        _ => section_label(section),
    }
}

/// `dependencies`, `extra:<name>` or `group:<name>`.
pub fn section_title(section: &DependencySection) -> (r: String)
    ensures
        r@ == section_title_of(section@),
{
    match section {
        DependencySection::Project => String::from_str("dependencies"),
        _ => section.label(),
    }
}

/// Where a cursor at `current` goes after moving `delta` steps in a list of
/// `len` items: it stops at both ends, and is `0` in an empty list.
pub open spec fn moved_index(current: int, len: int, delta: int) -> int {
    if len == 0 {
        0
    } else if delta < 0 {
        if current + delta < 0 { 0 } else { current + delta }
    } else if current + delta < len - 1 {
        current + delta
    } else {
        len - 1
    }
}

pub fn move_index(current: usize, len: usize, delta: isize) -> (r: usize)
    requires
        delta >= 0 ==> current + delta <= usize::MAX,
    ensures
        r == moved_index(current as int, len as int, delta as int),
{
    if len == 0 {
        return 0;
    }
    if delta < 0 {
        let step: usize = if delta == isize::MIN {
            (isize::MAX as usize) + 1
        } else {
            (-delta) as usize
        };
        if current < step { 0 } else { current - step }
    } else {
        let target = current + delta as usize;
        if target < len - 1 { target } else { len - 1 }
    }
}

/// A move lands `delta` rows away when that row exists, and otherwise on the
/// first or last row: one step up from any row but the first lands on the row
/// above, one step down from any row but the last on the row below, and an
/// empty list keeps the cursor at 0.
pub proof fn lemma_move_steps(current: int, len: int, delta: int)
    requires
        0 <= current < len,
    ensures
        0 <= current + delta < len ==> moved_index(current, len, delta) == current + delta,
        current + delta < 0 ==> moved_index(current, len, delta) == 0,
        current + delta >= len ==> moved_index(current, len, delta) == len - 1,
        moved_index(current, 0, delta) == 0,
{
}

/// A cursor inside a non-empty list stays inside it.
pub proof fn lemma_move_stays_inside(current: int, len: int, delta: int)
    requires
        0 <= current < len,
    ensures
        0 <= moved_index(current, len, delta) < len,
{
}

/// A key the picker reacts to.
pub enum KeyCode {
    Char(char),
    Esc,
    Up,
    Down,
    Enter,
    Left,
    Other,
}

/// A key event: the key, whether Control was held, and whether it is a
/// press (repeats and releases are ignored).
pub struct KeyEvent {
    pub code: KeyCode,
    pub control: bool,
    pub press: bool,
}

/// What the caller has to do after a key press.
pub enum AppAction {
    /// Nothing: draw again and wait for the next key.
    Continue,
    /// Leave without updating.
    Quit,
    /// Refresh the current project: call [`App::begin_refresh`], fetch the
    /// packages it names, then call [`App::finish_refresh`].
    Refresh,
    /// Update the current project's selected entries (see
    /// [`App::current_project`] and [`App::selected_for_current`]), then call
    /// [`App::finish_update`] and leave.
    Update,
}

/// The picker: the projects, which one and which entry the cursor is on, the
/// selected entries of each project, the status line, and the PyPI cache.
pub struct App {
    mode: AppMode,
    projects: Vec<Project>,
    selected_project: usize,
    selected_dependency: usize,
    selected: Vec<BTreeSet<usize>>,
    status_line: Option<String>,
    pypi: PypiClient,
}

impl App {
    /// The picker's shape: a selection per project, and cursors that a move
    /// can never push past the largest index.
    pub closed spec fn wf(&self) -> bool {
        &&& self.selected.len() == self.projects.len()
        &&& self.selected_project < usize::MAX
        &&& self.selected_dependency < usize::MAX
    }

    pub closed spec fn mode_of(&self) -> AppMode {
        self.mode
    }

    pub closed spec fn projects_of(&self) -> Seq<Project> {
        self.projects@
    }

    pub closed spec fn project_cursor(&self) -> int {
        self.selected_project as int
    }

    pub closed spec fn dependency_cursor(&self) -> int {
        self.selected_dependency as int
    }

    /// The selected entry indexes of each project.
    pub closed spec fn selections(&self) -> Seq<Set<usize>> {
        self.selected@.map_values(|s: BTreeSet<usize>| s@)
    }

    pub closed spec fn status_of(&self) -> Option<Seq<char>> {
        match self.status_line {
            Some(s) => Some(s@),
            None => None,
        }
    }

    pub closed spec fn cache_of(&self) -> Map<Seq<char>, Option<Seq<char>>> {
        self.pypi@
    }

    /// A picker over `projects`, whose entries `pypi` has hydrated: the
    /// dependency list when there is one project, the project list
    /// otherwise; nothing selected.
    pub fn new(projects: Vec<Project>, pypi: PypiClient) -> (r: App)
        ensures
            r.wf(),
            r.mode_of() == if projects.len() == 1 { AppMode::Dependencies } else { AppMode::Project },
            r.projects_of() == projects@,
            r.project_cursor() == 0,
            r.dependency_cursor() == 0,
            r.selections().len() == projects.len(),
            forall|p: int| 0 <= p < projects.len() ==> r.selections()[p] == Set::<usize>::empty(),
            r.status_of() is None,
            r.cache_of() == pypi@,
    {
        let count = projects.len();
        let mode = if count == 1 { AppMode::Dependencies } else { AppMode::Project };
        let mut selected: Vec<BTreeSet<usize>> = Vec::new();
        let mut i: usize = 0;
        while i < count
            invariant
                i <= count,
                selected.len() == i,
                forall|p: int| 0 <= p < i ==> (#[trigger] selected@[p])@ == Set::<usize>::empty(),
            decreases count - i,
        {
            selected.push(BTreeSet::new());
            i = i + 1;
        }
        App {
            mode,
            projects,
            selected_project: 0,
            selected_dependency: 0,
            selected,
            status_line: None,
            pypi,
        }
    }

    pub fn mode(&self) -> (r: AppMode)
        ensures
            r == self.mode_of(),
    {
        self.mode
    }

    pub fn projects(&self) -> (r: &Vec<Project>)
        ensures
            r@ == self.projects_of(),
    {
        &self.projects
    }

    pub fn selected_project(&self) -> (r: usize)
        ensures
            r == self.project_cursor(),
    {
        self.selected_project
    }

    pub fn selected_dependency(&self) -> (r: usize)
        ensures
            r == self.dependency_cursor(),
    {
        self.selected_dependency
    }

    pub fn status_line(&self) -> (r: Option<&String>)
        ensures
            match r {
                Some(s) => self.status_of() == Some(s@),
                None => self.status_of() is None,
            },
    {
        match &self.status_line {
            Some(s) => Some(s),
            None => None,
        }
    }

    /// The PyPI cache the picker hydrates from.
    pub fn pypi(&self) -> (r: &PypiClient)
        ensures
            r@ == self.cache_of(),
    {
        &self.pypi
    }

    /// The project under the cursor, if any.
    pub fn current_project(&self) -> (r: Option<&Project>)
        ensures
            match r {
                Some(p) => 0 <= self.project_cursor() < self.projects_of().len() && *p
                    == self.projects_of()[self.project_cursor()],
                None => self.project_cursor() >= self.projects_of().len(),
            },
    {
        if self.selected_project < self.projects.len() {
            Some(&self.projects[self.selected_project])
        } else {
            None
        }
    }

    /// The selection of the project under the cursor, if any.
    pub fn selected_for_current(&self) -> (r: Option<&BTreeSet<usize>>)
        requires
            self.wf(),
        ensures
            match r {
                Some(s) => 0 <= self.project_cursor() < self.projects_of().len() && s@
                    == self.selections()[self.project_cursor()],
                None => self.project_cursor() >= self.projects_of().len(),
            },
    {
        if self.selected_project < self.selected.len() {
            Some(&self.selected[self.selected_project])
        } else {
            None
        }
    }
}

/// What the picker shows and holds, apart from the PyPI cache.
pub struct AppModel {
    pub mode: AppMode,
    pub projects: Seq<Project>,
    pub project_cursor: int,
    pub dependency_cursor: int,
    pub selections: Seq<Set<usize>>,
    pub status: Option<Seq<char>>,
}

/// The message for an entry that cannot be selected: its reason when it is
/// unsupported.
pub open spec fn not_selectable_message(status: crate::model::DependencyStatus) -> Seq<char> {
    match status {
        crate::model::DependencyStatus::Unsupported(reason) => reason@,
        _ => "Only outdated supported dependencies can be selected"@,
    }
}

/// The number of entries of the project under the cursor; `0` without one.
pub open spec fn current_len(m: AppModel) -> int {
    if 0 <= m.project_cursor < m.projects.len() {
        m.projects[m.project_cursor].dependencies.len() as int
    } else {
        0
    }
}

/// Up or down `delta` steps in the list the mode shows, stopping at both ends.
pub open spec fn moved(m: AppModel, delta: int) -> AppModel {
    match m.mode {
        AppMode::Project => AppModel {
            project_cursor: moved_index(m.project_cursor, m.projects.len() as int, delta),
            ..m
        },
        AppMode::Dependencies => AppModel {
            dependency_cursor: moved_index(m.dependency_cursor, current_len(m), delta),
            ..m
        },
        AppMode::Confirm => m,
    }
}

/// Enter: open the project, or go on to confirming. (In the confirm screen
/// Enter asks for the update, which leaves the state as it is.)
pub open spec fn entered(m: AppModel) -> AppModel {
    match m.mode {
        AppMode::Project => AppModel { mode: AppMode::Dependencies, dependency_cursor: 0, ..m },
        AppMode::Dependencies => AppModel { mode: AppMode::Confirm, ..m },
        AppMode::Confirm => m,
    }
}

/// Left: back one screen.
pub open spec fn backed(m: AppModel) -> AppModel {
    match m.mode {
        AppMode::Project => m,
        AppMode::Dependencies => AppModel { mode: AppMode::Project, ..m },
        AppMode::Confirm => AppModel { mode: AppMode::Dependencies, ..m },
    }
}

/// The selection of the current project replaced by `f` of it.
pub open spec fn with_selection(m: AppModel, selection: Set<usize>) -> AppModel {
    AppModel { selections: m.selections.update(m.project_cursor, selection), ..m }
}

/// Space: select or unselect the entry under the cursor, if it has an update;
/// otherwise say why not.
pub open spec fn toggled(m: AppModel) -> AppModel {
    let p = m.project_cursor;
    let d = m.dependency_cursor;
    if !(0 <= p < m.projects.len()) || !(0 <= d < m.projects[p].dependencies.len()) {
        m
    } else {
        let entry = m.projects[p].dependencies@[d];
        if !is_selectable(entry) {
            AppModel { status: Some(not_selectable_message(entry.status)), ..m }
        } else {
            let selection = m.selections[p];
            with_selection(m, if selection.contains(d as usize) { selection.remove(d as usize) } else { selection.insert(d as usize) })
        }
    }
}

/// `a`: select exactly the entries that have an update.
pub open spec fn all_selected(m: AppModel) -> AppModel {
    if 0 <= m.project_cursor < m.projects.len() {
        with_selection(m, selectable_indexes(m.projects[m.project_cursor].dependencies@))
    } else {
        m
    }
}

/// `n`: select nothing.
pub open spec fn cleared(m: AppModel) -> AppModel {
    if 0 <= m.project_cursor < m.selections.len() {
        with_selection(m, Set::empty())
    } else {
        m
    }
}

/// `u`: select exactly the entries that have an update, or nothing when that
/// is already the selection.
pub open spec fn outdated_toggled(m: AppModel) -> AppModel {
    if 0 <= m.project_cursor < m.projects.len() {
        let all = selectable_indexes(m.projects[m.project_cursor].dependencies@);
        if m.selections[m.project_cursor] == all {
            with_selection(m, Set::empty())
        } else {
            with_selection(m, all)
        }
    } else {
        m
    }
}

/// What a key does: the next state and the action asked of the caller.
pub open spec fn key_step(m: AppModel, key: KeyEvent) -> (AppModel, AppAction) {
    if !key.press {
        (m, AppAction::Continue)
    } else {
        match key.code {
            KeyCode::Char(c) => {
                if c == 'c' && key.control {
                    (m, AppAction::Quit)
                } else if c == 'q' {
                    (m, AppAction::Quit)
                } else if c == 'k' {
                    (moved(m, -1), AppAction::Continue)
                } else if c == 'j' {
                    (moved(m, 1), AppAction::Continue)
                } else if c == ' ' && m.mode == AppMode::Dependencies {
                    (toggled(m), AppAction::Continue)
                } else if c == 'a' && m.mode == AppMode::Dependencies {
                    (all_selected(m), AppAction::Continue)
                } else if c == 'n' && m.mode == AppMode::Dependencies {
                    (cleared(m), AppAction::Continue)
                } else if c == 'u' && m.mode == AppMode::Dependencies {
                    (outdated_toggled(m), AppAction::Continue)
                } else if c == 'r' {
                    (m, AppAction::Refresh)
                } else if c == 'y' && m.mode == AppMode::Confirm {
                    (m, AppAction::Update)
                } else if c == 'n' && m.mode == AppMode::Confirm {
                    (AppModel { mode: AppMode::Dependencies, ..m }, AppAction::Continue)
                } else {
                    (m, AppAction::Continue)
                }
            },
            KeyCode::Esc => (m, AppAction::Quit),
            KeyCode::Up => (moved(m, -1), AppAction::Continue),
            KeyCode::Down => (moved(m, 1), AppAction::Continue),
            KeyCode::Enter => (entered(m), if m.mode == AppMode::Confirm { AppAction::Update } else { AppAction::Continue }),
            KeyCode::Left => (backed(m), AppAction::Continue),
            KeyCode::Other => (m, AppAction::Continue),
        }
    }
}

/// The indexes of the entries that have an update.
fn selectable_set(deps: &Vec<DependencyEntry>) -> (r: BTreeSet<usize>)
    ensures
        r@ == selectable_indexes(deps@),
{
    let mut r: BTreeSet<usize> = BTreeSet::new();
    let n = deps.len();
    let mut i: usize = 0;
    while i < n
        invariant
            n == deps.len(),
            i <= n,
            r@ == Set::new(|j: usize| j < i && is_selectable(deps@[j as int])),
        decreases n - i,
    {
        if deps[i].selectable() {
            r.insert(i);
        }
        i = i + 1;
        assert(r@ =~= Set::new(|j: usize| j < i && is_selectable(deps@[j as int])));
    }
    assert(r@ =~= selectable_indexes(deps@));
    r
}

/// Whether every element of `a` is in `b`.
fn is_subset(a: &BTreeSet<usize>, b: &BTreeSet<usize>) -> (r: bool)
    ensures
        r == a@.subset_of(b@),
{
    let ghost mut seen: Set<usize> = Set::empty();
    for x in it: a.iter()
        invariant
            it.seq().unref().to_set() == a@,
            seen == it.seq().unref().take(it.index()).to_set(),
            seen.subset_of(b@),
            it.index() == it.seq().len() ==> seen == a@,
    {
        let v = *x;
        proof {
            let s = it.seq().unref();
            assert(s.take(it.index() + 1) =~= s.take(it.index()).push(v));
            s.take(it.index()).lemma_push_to_set_commute(v);
            if it.index() + 1 == s.len() {
                assert(s.take(it.index() + 1) =~= s);
            }
            seen = seen.insert(v);
        }
        if !b.contains(&v) {
            proof {
                assert(it.seq().unref().to_set().contains(v)) by {
                    assert(it.seq().unref()[it.index()] == v);
                }
            }
            return false;
        }
    }
    true
}

/// Whether two sets hold the same indexes.
fn same_set(a: &BTreeSet<usize>, b: &BTreeSet<usize>) -> (r: bool)
    ensures
        r == (a@ == b@),
{
    let r = is_subset(a, b) && is_subset(b, a);
    if r {
        assert(a@ =~= b@);
    }
    r
}

impl App {
    /// A well-formed picker holds one selection per project, so the laws
    /// stated over [`AppModel`] (such as [`lemma_toggle_twice`]) apply to it.
    pub proof fn lemma_wf_shape(&self)
        requires
            self.wf(),
        ensures
            self.selections().len() == self.projects_of().len(),
            self.model().selections.len() == self.model().projects.len(),
            self.project_cursor() < usize::MAX,
            self.dependency_cursor() < usize::MAX,
    {
    }

    /// The state apart from the cache.
    pub closed spec fn model(&self) -> AppModel {
        AppModel {
            mode: self.mode,
            projects: self.projects@,
            project_cursor: self.selected_project as int,
            dependency_cursor: self.selected_dependency as int,
            selections: self.selections(),
            status: self.status_of(),
        }
    }

    /// Moves the cursor of the list the screen shows by `delta` steps,
    /// stopping at both ends.
    pub fn move_cursor(&mut self, delta: isize)
        requires
            old(self).wf(),
            delta >= 0 && old(self).mode_of() == AppMode::Project ==> old(self).project_cursor() + delta <= usize::MAX,
            delta >= 0 && old(self).mode_of() == AppMode::Dependencies ==> old(self).dependency_cursor() + delta
                <= usize::MAX,
        ensures
            final(self).wf(),
            final(self).model() == moved(old(self).model(), delta as int),
            final(self).cache_of() == old(self).cache_of(),
    {
        match self.mode {
            AppMode::Project => {
                self.selected_project = move_index(self.selected_project, self.projects.len(), delta);
            },
            AppMode::Dependencies => {
                let count = match self.current_project() {
                    Some(project) => project.dependencies.len(),
                    None => 0,
                };
                self.selected_dependency = move_index(self.selected_dependency, count, delta);
            },
            AppMode::Confirm => {},
        }
    }

    /// Enter: opens the project under the cursor with the cursor on its first
    /// entry, or goes on to confirming. On the confirmation screen nothing
    /// changes: the caller performs the update (see [`AppAction::Update`]).
    pub fn handle_enter(&mut self)
        requires
            old(self).wf(),
        ensures
            final(self).wf(),
            final(self).model() == entered(old(self).model()),
            final(self).cache_of() == old(self).cache_of(),
    {
        match self.mode {
            AppMode::Project => {
                self.mode = AppMode::Dependencies;
                self.selected_dependency = 0;
            },
            AppMode::Dependencies => {
                self.mode = AppMode::Confirm;
            },
            AppMode::Confirm => {},
        }
    }

    /// Left: back one screen; the project list stays where it is.
    pub fn handle_back(&mut self)
        requires
            old(self).wf(),
        ensures
            final(self).wf(),
            final(self).model() == backed(old(self).model()),
            final(self).cache_of() == old(self).cache_of(),
    {
        self.mode = match self.mode {
            AppMode::Project => AppMode::Project,
            AppMode::Dependencies => AppMode::Project,
            AppMode::Confirm => AppMode::Dependencies,
        };
    }

    /// Space: selects or unselects the entry under the cursor when it has an
    /// update; otherwise the status line says why it cannot be selected.
    pub fn toggle_current(&mut self)
        requires
            old(self).wf(),
        ensures
            final(self).wf(),
            final(self).model() == toggled(old(self).model()),
            final(self).cache_of() == old(self).cache_of(),
    {
        let project_index = self.selected_project;
        if project_index >= self.projects.len() {
            return;
        }
        let index = self.selected_dependency;
        if index >= self.projects[project_index].dependencies.len() {
            return;
        }
        let dependency = &self.projects[project_index].dependencies[index];
        if !dependency.selectable() {
            self.status_line = match dependency.status.detail() {
                Some(detail) => Some(String::from_str(detail)),
                None => Some(String::from_str("Only outdated supported dependencies can be selected")),
            };
            return;
        }
        let ghost before = self.selections();
        let ghost old_set = self.selected@[project_index as int]@;
        if !self.selected[project_index].insert(index) {
            self.selected[project_index].remove(&index);
            assert(self.selected@[project_index as int]@ =~= old_set.remove(index));
        } else {
            assert(self.selected@[project_index as int]@ =~= old_set.insert(index));
        }
        assert(self.selections() =~= before.update(project_index as int, self.selected@[project_index as int]@));
    }

    /// `a`: selects exactly the entries of the current project that have an
    /// update.
    pub fn select_all_outdated(&mut self)
        requires
            old(self).wf(),
        ensures
            final(self).wf(),
            final(self).model() == all_selected(old(self).model()),
            final(self).cache_of() == old(self).cache_of(),
    {
        let project_index = self.selected_project;
        if project_index >= self.projects.len() {
            return;
        }
        let outdated = selectable_set(&self.projects[project_index].dependencies);
        let ghost before = self.selections();
        self.selected[project_index] = outdated;
        assert(self.selections() =~= before.update(project_index as int, outdated@));
    }

    /// `n`: selects nothing in the current project.
    pub fn clear_selection(&mut self)
        requires
            old(self).wf(),
        ensures
            final(self).wf(),
            final(self).model() == cleared(old(self).model()),
            final(self).cache_of() == old(self).cache_of(),
    {
        let project_index = self.selected_project;
        if project_index >= self.selected.len() {
            return;
        }
        let ghost before = self.selections();
        self.selected[project_index].clear();
        assert(self.selections() =~= before.update(project_index as int, Set::empty()));
    }

    /// `u`: selects exactly the entries that have an update, or nothing when
    /// that already is the selection.
    pub fn toggle_only_outdated(&mut self)
        requires
            old(self).wf(),
        ensures
            final(self).wf(),
            final(self).model() == outdated_toggled(old(self).model()),
            final(self).cache_of() == old(self).cache_of(),
    {
        let project_index = self.selected_project;
        if project_index >= self.projects.len() {
            return;
        }
        let all_outdated = selectable_set(&self.projects[project_index].dependencies);
        let ghost before = self.selections();
        if same_set(&self.selected[project_index], &all_outdated) {
            self.selected[project_index].clear();
            assert(self.selections() =~= before.update(project_index as int, Set::empty()));
        } else {
            self.selected[project_index] = all_outdated;
            assert(self.selections() =~= before.update(project_index as int, all_outdated@));
        }
    }

    /// Reacts to a key: moves a cursor, changes screen or selection, or asks
    /// the caller to refresh, update or quit.
    pub fn handle_key(&mut self, key: KeyEvent) -> (r: AppAction)
        requires
            old(self).wf(),
        ensures
            final(self).wf(),
            (final(self).model(), r) == key_step(old(self).model(), key),
            final(self).cache_of() == old(self).cache_of(),
    {
        if !key.press {
            return AppAction::Continue;
        }
        match key.code {
            KeyCode::Char(c) => {
                if c == 'c' && key.control {
                    AppAction::Quit
                } else if c == 'q' {
                    AppAction::Quit
                } else if c == 'k' {
                    self.move_cursor(-1);
                    AppAction::Continue
                } else if c == 'j' {
                    self.move_cursor(1);
                    AppAction::Continue
                } else if c == ' ' && self.mode == AppMode::Dependencies {
                    self.toggle_current();
                    AppAction::Continue
                } else if c == 'a' && self.mode == AppMode::Dependencies {
                    self.select_all_outdated();
                    AppAction::Continue
                } else if c == 'n' && self.mode == AppMode::Dependencies {
                    self.clear_selection();
                    AppAction::Continue
                } else if c == 'u' && self.mode == AppMode::Dependencies {
                    self.toggle_only_outdated();
                    AppAction::Continue
                } else if c == 'r' {
                    AppAction::Refresh
                } else if c == 'y' && self.mode == AppMode::Confirm {
                    AppAction::Update
                } else if c == 'n' && self.mode == AppMode::Confirm {
                    self.mode = AppMode::Dependencies;
                    AppAction::Continue
                } else {
                    AppAction::Continue
                }
            },
            KeyCode::Esc => AppAction::Quit,
            KeyCode::Up => {
                self.move_cursor(-1);
                AppAction::Continue
            },
            KeyCode::Down => {
                self.move_cursor(1);
                AppAction::Continue
            },
            KeyCode::Enter => {
                let confirming = self.mode == AppMode::Confirm;
                self.handle_enter();
                if confirming {
                    AppAction::Update
                } else {
                    AppAction::Continue
                }
            },
            KeyCode::Left => {
                self.handle_back();
                AppAction::Continue
            },
            KeyCode::Other => AppAction::Continue,
        }
    }
}

/// The names of all entries.
pub open spec fn entry_names(deps: Seq<DependencyEntry>) -> Set<Seq<char>> {
    Set::new(|name: Seq<char>| exists|i: int| 0 <= i < deps.len() && #[trigger] deps[i].name@ == name)
}

fn names_of(deps: &Vec<DependencyEntry>) -> (r: Vec<String>)
    ensures
        r.deep_view().to_set() == entry_names(deps@),
{
    let mut names: Vec<String> = Vec::new();
    let n = deps.len();
    let mut i: usize = 0;
    while i < n
        invariant
            n == deps.len(),
            i <= n,
            names.deep_view() == deps@.take(i as int).map_values(|d: DependencyEntry| d.name@),
        decreases n - i,
    {
        let ghost before = names.deep_view();
        names.push(deps[i].name.clone());
        assert(names.deep_view() =~= before.push(deps@[i as int].name@));
        assert(deps@.take(i + 1) =~= deps@.take(i as int).push(deps@[i as int]));
        i = i + 1;
    }
    assert(deps@.take(n as int) =~= deps@);
    assert forall|name: Seq<char>| names.deep_view().to_set().contains(name) == entry_names(deps@).contains(name) by {
        if entry_names(deps@).contains(name) {
            let i = choose|i: int| 0 <= i < deps.len() && #[trigger] deps@[i].name@ == name;
            assert(names.deep_view()[i] == name);
        }
    }
    assert(names.deep_view().to_set() =~= entry_names(deps@));
    names
}

/// The status line after a refresh.
pub open spec fn refreshed_message(name: Seq<char>) -> Seq<char> {
    "Refreshed "@ + name
}

/// The status line after an update.
pub open spec fn updated_message(count: nat, project_name: Seq<char>) -> Seq<char> {
    "Updated "@ + decimal(count) + " dependencies in "@ + project_name
}

impl App {
    /// Starts refreshing the project under the cursor: forgets the cached
    /// versions of all its packages and returns the packages to fetch (none
    /// without a project).
    pub fn begin_refresh(&mut self) -> (r: Vec<String>)
        requires
            old(self).wf(),
        ensures
            final(self).wf(),
            final(self).model() == old(self).model(),
            r.deep_view().no_duplicates(),
            match old(self).model().projects.len() > old(self).model().project_cursor {
                true => {
                    let deps = old(self).model().projects[old(self).model().project_cursor].dependencies@;
                    &&& final(self).cache_of() == old(self).cache_of().remove_keys(entry_names(deps))
                    &&& forall|name: Seq<char>| r.deep_view().contains(name) <==> supported_names(deps).contains(name)
                },
                false => final(self).cache_of() == old(self).cache_of() && r.len() == 0,
            },
    {
        let project_index = self.selected_project;
        if project_index >= self.projects.len() {
            return Vec::new();
        }
        let names = names_of(&self.projects[project_index].dependencies);
        self.pypi.clear_project(names);
        let pending = self.pypi.pending_packages(&self.projects[project_index].dependencies);
        proof {
            let deps = self.projects@[project_index as int].dependencies@;
            assert forall|name: Seq<char>| supported_names(deps).contains(name) implies !self.pypi@.contains_key(name) by {
                let i = choose|i: int| 0 <= i < deps.len() && deps[i].kind is Supported && #[trigger] deps[i].name@ == name;
                assert(entry_names(deps).contains(name));
            }
        }
        pending
    }

    /// Finishes refreshing the project under the cursor with what was
    /// fetched: its entries are hydrated, the successful fetches remembered,
    /// and the status line says so.
    pub fn finish_refresh(&mut self, fetched: &Fetched)
        requires
            old(self).wf(),
        ensures
            final(self).wf(),
            ({
                let m = old(self).model();
                let n = final(self).model();
                let p = m.project_cursor;
                if 0 <= p < m.projects.len() {
                    &&& n == (AppModel { projects: n.projects, status: Some(refreshed_message(m.projects[p].name@)), ..m })
                    &&& n.projects.len() == m.projects.len()
                    &&& forall|q: int| 0 <= q < m.projects.len() && q != p ==> n.projects[q] == m.projects[q]
                    &&& n.projects[p].name == m.projects[p].name
                    &&& n.projects[p].file_path == m.projects[p].file_path
                    &&& n.projects[p].dependencies.len() == m.projects[p].dependencies.len()
                    &&& forall|i: int|
                        0 <= i < m.projects[p].dependencies.len() ==> hydrated(
                            #[trigger] m.projects[p].dependencies@[i],
                            n.projects[p].dependencies@[i],
                            latest_known(old(self).cache_of(), fetched@, m.projects[p].dependencies@[i].name@),
                        )
                    &&& final(self).cache_of() == recorded(old(self).cache_of(), fetched@)
                } else {
                    n == m && final(self).cache_of() == old(self).cache_of()
                }
            }),
    {
        let project_index = self.selected_project;
        if project_index >= self.projects.len() {
            return;
        }
        let ghost old_projects = self.projects@;
        self.pypi.hydrate_project(&mut self.projects[project_index].dependencies, fetched);
        let message = String::from_str("Refreshed ").concat(self.projects[project_index].name.as_str());
        self.status_line = Some(message);
        assert(self.projects@.len() == old_projects.len());
    }

    /// Records in the status line that an update was written.
    pub fn finish_update(&mut self, summary: &UpdateSummary)
        requires
            old(self).wf(),
        ensures
            final(self).wf(),
            final(self).model() == (AppModel {
                status: Some(updated_message(summary.updated.len() as nat, summary.project_name@)),
                ..old(self).model()
            }),
            final(self).cache_of() == old(self).cache_of(),
    {
        let mut out = chars_of("Updated ");
        push_decimal(&mut out, summary.updated.len() as u64);
        push_str(&mut out, " dependencies in ");
        push_str(&mut out, summary.project_name.as_str());
        self.status_line = Some(string_from_chars(&out));
    }
}

/// Space twice on an entry that has an update gives back the selection it
/// started from.
pub proof fn lemma_toggle_twice(m: AppModel)
    requires
        0 <= m.project_cursor < m.projects.len(),
        m.selections.len() == m.projects.len(),
        0 <= m.dependency_cursor < m.projects[m.project_cursor].dependencies.len(),
        is_selectable(m.projects[m.project_cursor].dependencies@[m.dependency_cursor]),
    ensures
        toggled(toggled(m)) == m,
{
    let d = m.dependency_cursor as usize;
    let sel = m.selections[m.project_cursor];
    let once = toggled(m);
    let twice = toggled(once);
    if sel.contains(d) {
        assert(sel.remove(d).insert(d) =~= sel);
    } else {
        assert(sel.insert(d).remove(d) =~= sel);
    }
    assert(twice.selections =~= m.selections);
}

/// Space keeps a selection within the entries that have an update, and
/// changes nothing but the current project's selection (or, on an entry
/// without an update, the status line).
pub proof fn lemma_toggle_stays_selectable(m: AppModel)
    requires
        0 <= m.project_cursor < m.projects.len(),
        m.selections.len() == m.projects.len(),
        m.selections[m.project_cursor].subset_of(selectable_indexes(m.projects[m.project_cursor].dependencies@)),
    ensures
        toggled(m).selections[m.project_cursor].subset_of(
            selectable_indexes(m.projects[m.project_cursor].dependencies@),
        ),
        toggled(m).selections.len() == m.selections.len(),
        forall|q: int| 0 <= q < m.selections.len() && q != m.project_cursor ==> toggled(m).selections[q] == m.selections[q],
        toggled(m).mode == m.mode,
        toggled(m).projects == m.projects,
        toggled(m).project_cursor == m.project_cursor,
        toggled(m).dependency_cursor == m.dependency_cursor,
        toggled(m).status != m.status ==> toggled(m).selections == m.selections,
{
}

/// `u` leaves either nothing selected or exactly the entries that have an
/// update; twice from any selection other than those, it selects nothing.
pub proof fn lemma_outdated_toggle(m: AppModel)
    requires
        0 <= m.project_cursor < m.projects.len(),
        m.selections.len() == m.projects.len(),
    ensures
        ({
            let all = selectable_indexes(m.projects[m.project_cursor].dependencies@);
            let once = outdated_toggled(m).selections[m.project_cursor];
            &&& once == all || once == Set::<usize>::empty()
            &&& m.selections[m.project_cursor] != all ==> once == all
                && outdated_toggled(outdated_toggled(m)).selections[m.project_cursor] == Set::<usize>::empty()
        }),
{
}

/// `a` selects exactly the entries that have an update.
pub proof fn lemma_select_all_exact(m: AppModel)
    requires
        0 <= m.project_cursor < m.projects.len(),
        m.selections.len() == m.projects.len(),
    ensures
        forall|i: usize|
            all_selected(m).selections[m.project_cursor].contains(i) <==> (i < m.projects[m.project_cursor].dependencies.len()
                && is_selectable(m.projects[m.project_cursor].dependencies@[i as int])),
{
}

} // verus!
