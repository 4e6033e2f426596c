//! The data model: projects, their dependency entries, and what is known about
//! each entry's newest release.
use std::collections::BTreeSet;
use vstd::prelude::*;
use crate::pep::{RequirementInfo, VersionInfo};
use vstd::std_specs::iter::IteratorSpec;

verus! {

/// The screen the dependency picker shows.
#[derive(Clone, Copy, Debug, PartialEq, Eq, Structural)]
pub enum AppMode {
    Project,
    Dependencies,
    Confirm,
}

/// The table of `pyproject.toml` that a dependency array stands in.
#[derive(Clone, Debug, PartialEq, Eq)]
pub enum DependencySection {
    /// `[project].dependencies`
    Project,
    /// `[project.optional-dependencies].<name>`
    Optional(String),
    /// `[dependency-groups].<name>`
    Group(String),
}

/// The model of a [`DependencySection`]: `None` for the project table, the
/// extra or group name otherwise.
pub enum SectionModel {
    Project,
    Optional(Seq<char>),
    Group(Seq<char>),
}

impl View for DependencySection {
    type V = SectionModel;

    open spec fn view(&self) -> SectionModel {
        match self {
            DependencySection::Project => SectionModel::Project,
            DependencySection::Optional(name) => SectionModel::Optional(name@),
            DependencySection::Group(name) => SectionModel::Group(name@),
        }
    }
}

/// The label of a section: `project`, `extra:<name>` or `group:<name>`.
pub open spec fn section_label(section: SectionModel) -> Seq<char> {
    match section {
        SectionModel::Project => "project"@,
        SectionModel::Optional(name) => "extra:"@ + name,
        SectionModel::Group(name) => "group:"@ + name,
    }
}

impl DependencySection {
    /// `project`, `extra:<name>` or `group:<name>`.
    pub fn label(&self) -> (r: String)
        ensures
            r@ == section_label(self@),
    {
        match self {
            DependencySection::Project => String::from_str("project"),
            DependencySection::Optional(name) => String::from_str("extra:").concat(name.as_str()),
            DependencySection::Group(name) => String::from_str("group:").concat(name.as_str()),
        }
    }

    /// A copy of this section.
    pub fn duplicate(&self) -> (r: DependencySection)
        ensures
            r@ == self@,
    {
        match self {
            DependencySection::Project => DependencySection::Project,
            DependencySection::Optional(name) => DependencySection::Optional(name.clone()),
            DependencySection::Group(name) => DependencySection::Group(name.clone()),
        }
    }

    /// Whether two sections name the same table.
    pub fn same_as(&self, other: &DependencySection) -> (r: bool)
        ensures
            r == (self@ == other@),
    {
        match (self, other) {
            (DependencySection::Project, DependencySection::Project) => true,
            (DependencySection::Optional(a), DependencySection::Optional(b)) => a.eq(b),
            (DependencySection::Group(a), DependencySection::Group(b)) => a.eq(b),
            _ => false,
        }
    }
}

/// How a supported requirement pins its version, and so how it is rewritten.
#[derive(Clone, Copy, Debug, PartialEq, Eq, Structural)]
pub enum SpecStrategy {
    /// `==`
    Exact,
    /// `~=`
    Compatible,
    /// `>=`
    Minimum,
}

/// The operator text of a strategy.
pub open spec fn strategy_operator(strategy: SpecStrategy) -> Seq<char> {
    match strategy {
        SpecStrategy::Exact => "=="@,
        SpecStrategy::Compatible => "~="@,
        SpecStrategy::Minimum => ">="@,
    }
}

impl SpecStrategy {
    /// `==`, `~=` or `>=`.
    pub fn operator(&self) -> (r: &'static str)
        ensures
            r@ == strategy_operator(*self),
    {
        match self {
            SpecStrategy::Exact => "==",
            SpecStrategy::Compatible => "~=",
            SpecStrategy::Minimum => ">=",
        }
    }
}

/// Where an entry stands: a requirement the library can rewrite, or one it
/// leaves alone, with the reason.
#[derive(Clone, Debug)]
pub enum DependencyKind {
    Supported { requirement: RequirementInfo, current_version: VersionInfo, strategy: SpecStrategy },
    Unsupported { requirement: Option<RequirementInfo>, reason: String },
}

/// How far the newest release is ahead of the pinned one.
#[derive(Clone, Copy, Debug, PartialEq, Eq, Structural)]
pub enum ChangeKind {
    Major,
    Minor,
    Patch,
    Unchanged,
}

/// The label of a change kind.
pub open spec fn change_label(kind: ChangeKind) -> Seq<char> {
    match kind {
        ChangeKind::Major => "MAJOR"@,
        ChangeKind::Minor => "MINOR"@,
        ChangeKind::Patch => "PATCH"@,
        ChangeKind::Unchanged => "NONE"@,
    }
}

impl ChangeKind {
    /// `MAJOR`, `MINOR`, `PATCH` or `NONE`.
    pub fn label(&self) -> (r: &'static str)
        ensures
            r@ == change_label(*self),
    {
        match self {
            ChangeKind::Major => "MAJOR",
            ChangeKind::Minor => "MINOR",
            ChangeKind::Patch => "PATCH",
            ChangeKind::Unchanged => "NONE",
        }
    }
}

/// What is known of an entry against PyPI.
#[derive(Clone, Debug)]
pub enum DependencyStatus {
    UpdateAvailable(ChangeKind),
    UpToDate,
    NotFound,
    Unsupported(String),
}

/// The label of a status.
pub open spec fn status_label(status: DependencyStatus) -> Seq<char> {
    match status {
        DependencyStatus::UpdateAvailable(kind) => change_label(kind),
        DependencyStatus::UpToDate => "UP TO DATE"@,
        DependencyStatus::NotFound => "NOT FOUND"@,
        DependencyStatus::Unsupported(_) => "UNSUPPORTED"@,
    }
}

impl DependencyStatus {
    /// The change kind's label, `UP TO DATE`, `NOT FOUND` or `UNSUPPORTED`.
    pub fn label(&self) -> (r: &str)
        ensures
            r@ == status_label(*self),
    {
        match self {
            DependencyStatus::UpdateAvailable(kind) => kind.label(),
            DependencyStatus::UpToDate => "UP TO DATE",
            DependencyStatus::NotFound => "NOT FOUND",
            DependencyStatus::Unsupported(_) => "UNSUPPORTED",
        }
    }

    /// The reason of an unsupported entry; `None` for every other status.
    pub fn detail(&self) -> (r: Option<&str>)
        ensures
            match self {
                DependencyStatus::Unsupported(reason) => r matches Some(d) && d@ == reason@,
                _ => r is None,
            },
    {
        match self {
            DependencyStatus::Unsupported(reason) => Some(reason.as_str()),
            _ => None,
        }
    }
}

/// One string of a dependency array, with what the library made of it.
#[derive(Clone, Debug)]
pub struct DependencyEntry {
    /// The normalized package name, or the raw string when it did not parse.
    pub name: String,
    /// The name with its extras, as `name[extra1,extra2]`.
    pub display_name: String,
    /// The pinned version's text; `—` when there is none the library reads.
    pub current_version_text: String,
    pub section: DependencySection,
    /// The position of the string in its array.
    pub item_index: usize,
    pub kind: DependencyKind,
    pub latest_version: Option<VersionInfo>,
    pub latest_version_text: Option<String>,
    pub status: DependencyStatus,
}

/// Whether an entry may be selected for update: exactly when an update is
/// available.
pub open spec fn is_selectable(entry: DependencyEntry) -> bool {
    entry.status is UpdateAvailable
}

impl DependencyEntry {
    pub fn current_version_text(&self) -> (r: &str)
        ensures
            r@ == self.current_version_text@,
    {
        self.current_version_text.as_str()
    }

    /// Whether an update is available for this entry.
    pub fn selectable(&self) -> (r: bool)
        ensures
            r == is_selectable(*self),
    {
        match self.status {
            DependencyStatus::UpdateAvailable(_) => true,
            _ => false,
        }
    }
}

/// One `pyproject.toml` and its dependency entries, in document order.
#[derive(Clone, Debug)]
pub struct Project {
    pub name: String,
    pub file_path: String,
    pub dependencies: Vec<DependencyEntry>,
}

/// The indexes below `len` whose entry is selectable.
pub open spec fn selectable_indexes(deps: Seq<DependencyEntry>) -> Set<usize> {
    Set::new(|i: usize| i < deps.len() && is_selectable(deps[i as int]))
}

pub(crate) proof fn lemma_selected_counted(deps: Seq<DependencyEntry>, filter: Set<usize>)
    ensures
        filter.intersect(selectable_indexes(deps)) == counted_below(deps, filter, deps.len() as int),
        Set::<usize>::full().intersect(selectable_indexes(deps)) == selectable_indexes(deps),
{
    assert(filter.intersect(selectable_indexes(deps)) =~= counted_below(deps, filter, deps.len() as int));
    assert(Set::<usize>::full().intersect(selectable_indexes(deps)) =~= selectable_indexes(deps));
}

/// The view of a `BTreeSet` is finite: its iterator lists every element.
fn selection_finite(selected: &BTreeSet<usize>)
    ensures
        selected@.finite(),
{
    let it = selected.iter();
    proof {
        let s = it.remaining().unref();
        vstd::seq_lib::seq_to_set_is_finite(s);
    }
}

impl Project {
    /// How many of the selected indexes name a selectable entry: never more
    /// than the selection nor the updates available, and the selection's
    /// size when it holds only entries with an update.
    pub fn selected_count(&self, selected: &BTreeSet<usize>) -> (r: usize)
        ensures
            r == selected@.intersect(selectable_indexes(self.dependencies@)).len(),
            r <= selected@.len(),
            r <= selectable_indexes(self.dependencies@).len(),
            selected@.subset_of(selectable_indexes(self.dependencies@)) ==> r == selected@.len(),
    {
        selection_finite(selected);
        proof {
            lemma_selected_counted(self.dependencies@, selected@);
            lemma_selected_count_bounds(self.dependencies@, selected@);
        }
        count_selectable(&self.dependencies, Some(selected))
    }

    /// How many entries have an update available.
    pub fn updates_available(&self) -> (r: usize)
        ensures
            r == selectable_indexes(self.dependencies@).len(),
    {
        proof { lemma_selected_counted(self.dependencies@, Set::full()); }
        count_selectable(&self.dependencies, None)
    }
}

/// The indexes `j < n` of selectable entries that `filter` holds.
pub open spec fn counted_below(deps: Seq<DependencyEntry>, filter: Set<usize>, n: int) -> Set<usize> {
    Set::new(|j: usize| j < n && j < deps.len() && filter.contains(j) && is_selectable(deps[j as int]))
}

pub(crate) proof fn lemma_counted_below_step(deps: Seq<DependencyEntry>, filter: Set<usize>, n: usize)
    requires
        counted_below(deps, filter, n as int).finite(),
    ensures
        counted_below(deps, filter, n + 1).finite(),
        (n < deps.len() && filter.contains(n) && is_selectable(deps[n as int])) ==> counted_below(deps, filter, n + 1)
            == counted_below(deps, filter, n as int).insert(n),
        !(n < deps.len() && filter.contains(n) && is_selectable(deps[n as int])) ==> counted_below(deps, filter, n + 1)
            == counted_below(deps, filter, n as int),
        !counted_below(deps, filter, n as int).contains(n),
{
    let a = counted_below(deps, filter, n as int);
    let b = counted_below(deps, filter, n + 1);
    if n < deps.len() && filter.contains(n) && is_selectable(deps[n as int]) {
        assert(b =~= a.insert(n));
    } else {
        assert(b =~= a);
    }
}

/// Counts the selectable entries whose index `filter` holds; `None` counts them all.
fn count_selectable(deps: &Vec<DependencyEntry>, filter: Option<&BTreeSet<usize>>) -> (r: usize)
    ensures
        r == counted_below(deps@, match filter { Some(f) => f@, None => Set::full() }, deps.len() as int).len(),
{
    let ghost fset: Set<usize> = match filter { Some(f) => f@, None => Set::full() };
    let n = deps.len();
    let mut count: usize = 0;
    let mut i: usize = 0;
    assert(counted_below(deps@, fset, 0) =~= Set::empty());
    while i < n
        invariant
            n == deps.len(),
            i <= n,
            fset == match filter { Some(f) => f@, None => Set::full() },
            counted_below(deps@, fset, i as int).finite(),
            count == counted_below(deps@, fset, i as int).len(),
            count <= i,
        decreases n - i,
    {
        proof { lemma_counted_below_step(deps@, fset, i); }
        let held = match filter {
            Some(f) => f.contains(&i),
            None => true,
        };
        if held && deps[i].selectable() {
            count = count + 1;
        }
        i = i + 1;
    }
    count
}

proof fn lemma_counted_below_finite(deps: Seq<DependencyEntry>, filter: Set<usize>, n: nat)
    requires
        n <= usize::MAX,
    ensures
        counted_below(deps, filter, n as int).finite(),
    decreases n,
{
    if n == 0 {
        assert(counted_below(deps, filter, 0) =~= Set::empty());
    } else {
        lemma_counted_below_finite(deps, filter, (n - 1) as nat);
        lemma_counted_below_step(deps, filter, (n - 1) as usize);
    }
}

/// A project never counts more selected entries than entries with an update,
/// whatever the selection holds.
pub proof fn lemma_selected_count_at_most_updates(deps: Seq<DependencyEntry>, selected: Set<usize>)
    requires
        deps.len() <= usize::MAX,
    ensures
        selected.intersect(selectable_indexes(deps)).len() <= selectable_indexes(deps).len(),
{
    lemma_counted_below_finite(deps, Set::full(), deps.len());
    lemma_selected_counted(deps, Set::full());
    lemma_selected_counted(deps, selected);
    vstd::set_lib::lemma_len_subset(selected.intersect(selectable_indexes(deps)), selectable_indexes(deps));
}

/// The selected count never exceeds the selection nor the updates
/// available; it is the selection's size when only entries with an update
/// are selected; and selecting every index counts every update.
pub proof fn lemma_selected_count_bounds(deps: Seq<DependencyEntry>, selected: Set<usize>)
    requires
        deps.len() <= usize::MAX,
        selected.finite(),
    ensures
        selected.intersect(selectable_indexes(deps)).len() <= selected.len(),
        selected.intersect(selectable_indexes(deps)).len() <= selectable_indexes(deps).len(),
        selected.subset_of(selectable_indexes(deps)) ==> selected.intersect(selectable_indexes(deps)).len()
            == selected.len(),
        Set::new(|i: usize| i < deps.len()).intersect(selectable_indexes(deps)) == selectable_indexes(deps),
{
    lemma_selected_count_at_most_updates(deps, selected);
    vstd::set_lib::lemma_len_intersect(selected, selectable_indexes(deps));
    if selected.subset_of(selectable_indexes(deps)) {
        assert(selected.intersect(selectable_indexes(deps)) =~= selected);
    }
    assert(Set::new(|i: usize| i < deps.len()).intersect(selectable_indexes(deps)) =~= selectable_indexes(deps));
}

/// What an update wrote: the project, its file, and `(name, from, to)` for each
/// rewritten requirement.
#[derive(Clone, Debug)]
pub struct UpdateSummary {
    pub project_name: String,
    pub file_path: String,
    pub updated: Vec<(String, String, String)>,
}

} // verus!
