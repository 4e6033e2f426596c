//! What the library knows of PyPI: a cache of newest versions, the decisions
//! around fetching them, and how a fetched version changes an entry's status.
use vstd::prelude::*;
use crate::model::{is_selectable, ChangeKind, DependencyEntry, DependencyKind, DependencyStatus, Project};
use crate::pep::{parse_version, pep440_newer, pep440_version, version_newer, VersionInfo};
use crate::text::{chars_of, decimal, push_decimal, push_str, string_from_chars};

verus! {

/// The major and minor release segments, `0` when absent.
pub open spec fn segment(release: Seq<u64>, i: int) -> u64 {
    if i < release.len() {
        release[i]
    } else {
        0
    }
}

/// How far `latest` is ahead of `current`: a larger major segment, else a
/// larger minor segment, else any newer version, else none.
pub open spec fn change_kind_of(current: (Seq<char>, Seq<u64>), latest: (Seq<char>, Seq<u64>)) -> ChangeKind {
    if segment(latest.1, 0) > segment(current.1, 0) {
        ChangeKind::Major
    } else if segment(latest.1, 1) > segment(current.1, 1) {
        ChangeKind::Minor
    } else if pep440_newer(latest.0, current.0) {
        ChangeKind::Patch
    } else {
        ChangeKind::Unchanged
    }
}

/// The change label follows the release segments: a larger major segment is
/// MAJOR; the same major segment with a larger minor segment is MINOR; a
/// newer version with neither segment larger is PATCH; and a version that is
/// not newer with neither segment larger is NONE. A MAJOR, MINOR or PATCH label
/// never goes with a smaller major segment.
pub proof fn lemma_change_kind_levels(current: (Seq<char>, Seq<u64>), latest: (Seq<char>, Seq<u64>))
    ensures
        segment(latest.1, 0) > segment(current.1, 0) ==> change_kind_of(current, latest) == ChangeKind::Major,
        segment(latest.1, 0) == segment(current.1, 0) && segment(latest.1, 1) > segment(current.1, 1)
            ==> change_kind_of(current, latest) == ChangeKind::Minor,
        segment(latest.1, 0) <= segment(current.1, 0) && segment(latest.1, 1) <= segment(current.1, 1) ==> change_kind_of(
            current,
            latest,
        ) == if pep440_newer(latest.0, current.0) {
            ChangeKind::Patch
        } else {
            ChangeKind::Unchanged
        },
        change_kind_of(current, latest) == ChangeKind::Major <==> segment(latest.1, 0) > segment(current.1, 0),
{
}

fn release_segment(release: &Vec<u64>, i: usize) -> (r: u64)
    ensures
        r == segment(release@, i as int),
{
    if i < release.len() {
        release[i]
    } else {
        0
    }
}

/// Classifies the step from `current` to `latest`.
pub fn change_kind(current: &VersionInfo, latest: &VersionInfo) -> (r: ChangeKind)
    ensures
        r == change_kind_of(current@, latest@),
{
    if release_segment(&latest.release, 0) > release_segment(&current.release, 0) {
        return ChangeKind::Major;
    }
    if release_segment(&latest.release, 1) > release_segment(&current.release, 1) {
        return ChangeKind::Minor;
    }
    if version_newer(latest.text.as_str(), current.text.as_str()) {
        ChangeKind::Patch
    } else {
        ChangeKind::Unchanged
    }
}

/// The outcome of asking PyPI for a package's newest version: the version
/// text (`None` when PyPI has none), or the error text.
pub type LatestLookup = Result<Option<Seq<char>>, Seq<char>>;

/// The model of an exec lookup outcome.
pub open spec fn lookup_model(r: Result<Option<String>, String>) -> LatestLookup {
    match r {
        Ok(Some(v)) => Ok(Some(v@)),
        Ok(None) => Ok(None),
        Err(e) => Err(e@),
    }
}

/// The error for a newest version that is not PEP 440.
pub open spec fn invalid_latest_message(text: Seq<char>) -> Seq<char> {
    "PyPI latest version is not valid PEP 440: "@ + text
}

/// `new` is `old` after learning `latest` (`None` when nothing is known of the
/// package): only the newest-version fields and the status change.
pub open spec fn hydrated(old: DependencyEntry, new: DependencyEntry, latest: Option<LatestLookup>) -> bool {
    &&& new.name == old.name
    &&& new.display_name == old.display_name
    &&& new.current_version_text == old.current_version_text
    &&& new.section == old.section
    &&& new.item_index == old.item_index
    &&& new.kind == old.kind
    &&& match old.kind {
        DependencyKind::Unsupported { reason, .. } => {
            &&& new.latest_version == old.latest_version
            &&& new.latest_version_text == old.latest_version_text
            &&& new.status matches DependencyStatus::Unsupported(r) && r@ == reason@
        },
        DependencyKind::Supported { current_version, .. } => match latest {
            Some(Err(message)) => {
                &&& new.latest_version == old.latest_version
                &&& new.latest_version_text == old.latest_version_text
                &&& new.status matches DependencyStatus::Unsupported(r) && r@ == message
            },
            Some(Ok(Some(text))) => {
                &&& new.latest_version_text matches Some(t) && t@ == text
                &&& match pep440_version(text) {
                    None => {
                        &&& new.latest_version is None
                        &&& new.status matches DependencyStatus::Unsupported(r) && r@ == invalid_latest_message(text)
                    },
                    Some(version) => {
                        &&& new.latest_version matches Some(v) && v@ == version
                        &&& if pep440_newer(version.0, current_version@.0) {
                            new.status == DependencyStatus::UpdateAvailable(change_kind_of(current_version@, version))
                        } else {
                            new.status is UpToDate
                        }
                    },
                }
            },
            _ => {
                &&& new.latest_version is None
                &&& new.latest_version_text is None
                &&& new.status is NotFound
            },
        },
    }
}

/// Updates an entry with what is known of its package's newest version.
pub fn hydrate_dependency(dependency: &mut DependencyEntry, latest: Option<Result<Option<String>, String>>)
    ensures
        hydrated(
            *old(dependency),
            *final(dependency),
            match latest {
                Some(r) => Some(lookup_model(r)),
                None => None,
            },
        ),
{
    let current_version = match &dependency.kind {
        DependencyKind::Supported { current_version, .. } => current_version.duplicate(),
        DependencyKind::Unsupported { reason, .. } => {
            dependency.status = DependencyStatus::Unsupported(reason.clone());
            return;
        },
    };
    let latest_text = match latest {
        Some(Ok(value)) => value,
        Some(Err(err)) => {
            dependency.status = DependencyStatus::Unsupported(err);
            return;
        },
        None => None,
    };
    let latest_text = match latest_text {
        Some(text) => text,
        None => {
            dependency.latest_version_text = None;
            dependency.latest_version = None;
            dependency.status = DependencyStatus::NotFound;
            return;
        },
    };
    let latest_version = match parse_version(latest_text.as_str()) {
        Some(version) => version,
        None => {
            let message = String::from_str("PyPI latest version is not valid PEP 440: ").concat(latest_text.as_str());
            dependency.latest_version_text = Some(latest_text);
            dependency.latest_version = None;
            dependency.status = DependencyStatus::Unsupported(message);
            return;
        },
    };
    let status = if version_newer(latest_version.text.as_str(), current_version.text.as_str()) {
        DependencyStatus::UpdateAvailable(change_kind(&current_version, &latest_version))
    } else {
        DependencyStatus::UpToDate
    };
    dependency.latest_version_text = Some(latest_text);
    dependency.latest_version = Some(latest_version);
    dependency.status = status;
}

/// An update is only ever offered as a real change: a status that offers an
/// update never says the versions are the same.
pub proof fn lemma_update_available_is_a_change(old: DependencyEntry, new: DependencyEntry, latest: Option<LatestLookup>)
    requires
        hydrated(old, new, latest),
        new.status is UpdateAvailable,
    ensures
        new.status->UpdateAvailable_0 != ChangeKind::Unchanged,
{
}

/// An entry the library cannot rewrite never becomes selectable, whatever
/// PyPI says of its package.
pub proof fn lemma_unsupported_stays_unselectable(old: DependencyEntry, new: DependencyEntry, latest: Option<LatestLookup>)
    requires
        hydrated(old, new, latest),
        old.kind is Unsupported,
    ensures
        !is_selectable(new),
{
}

/// The model of an optional text.
pub open spec fn text_model(t: Option<String>) -> Option<Seq<char>> {
    match t {
        Some(s) => Some(s@),
        None => None,
    }
}

/// What the cache pairs say of `key`: the last pair for it wins.
pub open spec fn pairs_lookup(pairs: Seq<(String, Option<String>)>, key: Seq<char>) -> Option<Option<Seq<char>>>
    decreases pairs.len(),
{
    if pairs.len() == 0 {
        None
    } else if pairs.last().0@ == key {
        Some(text_model(pairs.last().1))
    } else {
        pairs_lookup(pairs.drop_last(), key)
    }
}

/// The PyPI JSON API the library asks by default.
pub open spec fn default_base_url() -> Seq<char> {
    "https://pypi.org/pypi"@
}

/// The newest version of each package that PyPI was asked for, kept until the
/// project is refreshed.
pub struct PypiClient {
    base_url: String,
    cache: Vec<(String, Option<String>)>,
}

impl View for PypiClient {
    type V = Map<Seq<char>, Option<Seq<char>>>;

    /// The cached newest versions, by package name.
    closed spec fn view(&self) -> Map<Seq<char>, Option<Seq<char>>> {
        Map::new(
            |k: Seq<char>| pairs_lookup(self.cache@, k) is Some,
            |k: Seq<char>| pairs_lookup(self.cache@, k)->Some_0,
        )
    }
}

impl PypiClient {
    /// A client of the public PyPI, with nothing cached.
    pub fn new() -> (r: PypiClient)
        ensures
            r.base_url_model() == default_base_url(),
            r@ == Map::<Seq<char>, Option<Seq<char>>>::empty(),
    {
        PypiClient::with_base_url(String::from_str("https://pypi.org/pypi"))
    }

    /// A client of the PyPI JSON API at `base_url`, with nothing cached.
    pub fn with_base_url(base_url: String) -> (r: PypiClient)
        ensures
            r.base_url_model() == base_url@,
            r@ == Map::<Seq<char>, Option<Seq<char>>>::empty(),
    {
        let r = PypiClient { base_url, cache: Vec::new() };
        assert(r@ =~= Map::<Seq<char>, Option<Seq<char>>>::empty());
        r
    }

    /// The address requests go to.
    pub closed spec fn base_url_model(&self) -> Seq<char> {
        self.base_url@
    }

    /// The address requests go to.
    pub fn base_url(&self) -> (r: &str)
        ensures
            r@ == self.base_url_model(),
    {
        self.base_url.as_str()
    }

    /// What is cached for `name`, if anything.
    pub fn cached(&self, name: &str) -> (r: Option<Option<String>>)
        ensures
            match r {
                Some(v) => self@.contains_key(name@) && self@[name@] == text_model(v),
                None => !self@.contains_key(name@),
            },
    {
        let n = self.cache.len();
        let mut i = n;
        assert(self.cache@.take(n as int) =~= self.cache@);
        while i > 0
            invariant
                n == self.cache.len(),
                i <= n,
                pairs_lookup(self.cache@, name@) == pairs_lookup(self.cache@.take(i as int), name@),
            decreases i,
        {
            let ghost prefix = self.cache@.take(i as int);
            assert(prefix.drop_last() =~= self.cache@.take(i - 1));
            if crate::text::same_text(self.cache[i - 1].0.as_str(), name) {
                return Some(self.cache[i - 1].1.clone());
            }
            i = i - 1;
        }
        None
    }

    /// Forgets what is cached for `name`.
    fn forget(&mut self, name: &str)
        ensures
            final(self).base_url_model() == old(self).base_url_model(),
            final(self)@ == old(self)@.remove(name@),
    {
        let ghost old_cache = self.cache@;
        let n = self.cache.len();
        let mut kept: Vec<(String, Option<String>)> = Vec::new();
        let mut i: usize = 0;
        while i < n
            invariant
                n == old_cache.len(),
                self.cache@ == old_cache,
                i <= n,
                forall|k: Seq<char>|
                    #![trigger pairs_lookup(kept@, k)]
                    pairs_lookup(kept@, k) == if k == name@ {
                        None
                    } else {
                        pairs_lookup(old_cache.take(i as int), k)
                    },
            decreases n - i,
        {
            let ghost before = kept@;
            assert(old_cache.take(i + 1).drop_last() =~= old_cache.take(i as int));
            if !crate::text::same_text(self.cache[i].0.as_str(), name) {
                let key = self.cache[i].0.clone();
                let value = match &self.cache[i].1 {
                    Some(t) => Some(t.clone()),
                    None => None,
                };
                kept.push((key, value));
                assert(kept@.drop_last() =~= before);
                assert forall|k: Seq<char>|
                    #![trigger pairs_lookup(kept@, k)]
                    pairs_lookup(kept@, k) == if k == name@ {
                        None
                    } else {
                        pairs_lookup(old_cache.take(i + 1), k)
                    } by {
                    assert(pairs_lookup(before, k) == if k == name@ {
                        None
                    } else {
                        pairs_lookup(old_cache.take(i as int), k)
                    });
                }
            } else {
                assert forall|k: Seq<char>|
                    #![trigger pairs_lookup(kept@, k)]
                    pairs_lookup(kept@, k) == if k == name@ {
                        None
                    } else {
                        pairs_lookup(old_cache.take(i + 1), k)
                    } by {
                    assert(pairs_lookup(before, k) == if k == name@ {
                        None
                    } else {
                        pairs_lookup(old_cache.take(i as int), k)
                    });
                }
            }
            i = i + 1;
        }
        assert(old_cache.take(n as int) =~= old_cache);
        self.cache = kept;
        assert(self@ =~= old(self)@.remove(name@));
    }

    /// Remembers `version` as the newest version of `name`.
    fn remember(&mut self, name: String, version: Option<String>)
        ensures
            final(self).base_url_model() == old(self).base_url_model(),
            final(self)@ == old(self)@.insert(name@, text_model(version)),
    {
        self.forget(name.as_str());
        let ghost before = self.cache@;
        let ghost mid = self@;
        self.cache.push((name, version));
        assert(self.cache@.drop_last() =~= before);
        assert forall|k: Seq<char>| #![trigger pairs_lookup(self.cache@, k)]
            pairs_lookup(self.cache@, k) == if k == name@ {
                Some(text_model(version))
            } else {
                pairs_lookup(before, k)
            } by {}
        let ghost target = old(self)@.insert(name@, text_model(version));
        assert forall|k: Seq<char>| #[trigger] self@.contains_key(k) == target.contains_key(k) && (self@.contains_key(k)
            ==> self@[k] == target[k]) by {
            assert(pairs_lookup(self.cache@, k) == if k == name@ {
                Some(text_model(version))
            } else {
                pairs_lookup(before, k)
            });
            assert(self@.contains_key(k) == (pairs_lookup(self.cache@, k) is Some));
            assert(mid == old(self)@.remove(name@));
            if k != name@ {
                assert(mid.contains_key(k) == (pairs_lookup(before, k) is Some));
                assert(mid.contains_key(k) == old(self)@.contains_key(k));
                if mid.contains_key(k) {
                    assert(mid[k] == pairs_lookup(before, k)->Some_0);
                    assert(self@[k] == pairs_lookup(self.cache@, k)->Some_0);
                    assert(mid[k] == old(self)@[k]);
                }
            } else {
                assert(self@[k] == pairs_lookup(self.cache@, k)->Some_0);
            }
        }
        assert(self@ =~= target);
    }

    /// Forgets what is cached for each of `package_names`.
    pub fn clear_project(&mut self, package_names: Vec<String>)
        ensures
            final(self).base_url_model() == old(self).base_url_model(),
            final(self)@ == old(self)@.remove_keys(package_names.deep_view().to_set()),
    {
        let n = package_names.len();
        let mut i: usize = 0;
        while i < n
            invariant
                n == package_names.len(),
                i <= n,
                self.base_url_model() == old(self).base_url_model(),
                self@ == old(self)@.remove_keys(package_names.deep_view().take(i as int).to_set()),
            decreases n - i,
        {
            let ghost before = self@;
            self.forget(package_names[i].as_str());
            proof {
                let names = package_names.deep_view();
                assert(names.take(i + 1) =~= names.take(i as int).push(names[i as int]));
                names.take(i as int).lemma_push_to_set_commute(names[i as int]);
                assert(self@ =~= old(self)@.remove_keys(names.take(i + 1).to_set()));
            }
            i = i + 1;
        }
        assert(package_names.deep_view().take(n as int) =~= package_names.deep_view());
    }
}

/// The names of the supported entries.
pub open spec fn supported_names(deps: Seq<DependencyEntry>) -> Set<Seq<char>> {
    Set::new(|name: Seq<char>| exists|i: int| 0 <= i < deps.len() && deps[i].kind is Supported && #[trigger] deps[i].name@ == name)
}

/// The names of the supported entries of all projects.
pub open spec fn all_supported_names(projects: Seq<Project>) -> Set<Seq<char>> {
    Set::new(|name: Seq<char>| exists|p: int| 0 <= p < projects.len() && #[trigger] supported_names(projects[p].dependencies@).contains(name))
}

/// What was fetched for a package, if it was: the last result for it wins.
pub open spec fn fetched_lookup(fetched: Seq<(String, Result<Option<String>, String>)>, name: Seq<char>) -> Option<LatestLookup>
    decreases fetched.len(),
{
    if fetched.len() == 0 {
        None
    } else if fetched.last().0@ == name {
        Some(lookup_model(fetched.last().1))
    } else {
        fetched_lookup(fetched.drop_last(), name)
    }
}

/// What is known of a package's newest version: what was just fetched, else
/// what is cached.
pub open spec fn latest_known(
    cache: Map<Seq<char>, Option<Seq<char>>>,
    fetched: Seq<(String, Result<Option<String>, String>)>,
    name: Seq<char>,
) -> Option<LatestLookup> {
    match fetched_lookup(fetched, name) {
        Some(r) => Some(r),
        None => if cache.contains_key(name) {
            Some(Ok(cache[name]))
        } else {
            None
        },
    }
}

/// The cache after the successful fetches are remembered, in order.
pub open spec fn recorded(
    cache: Map<Seq<char>, Option<Seq<char>>>,
    fetched: Seq<(String, Result<Option<String>, String>)>,
) -> Map<Seq<char>, Option<Seq<char>>>
    decreases fetched.len(),
{
    if fetched.len() == 0 {
        cache
    } else {
        let before = recorded(cache, fetched.drop_last());
        match fetched.last().1 {
            Ok(v) => before.insert(fetched.last().0@, text_model(v)),
            Err(_) => before,
        }
    }
}

/// Remembering fetches keeps what was cached, and caches every package whose
/// fetch succeeded.
pub proof fn lemma_recorded_caches_successes(
    cache: Map<Seq<char>, Option<Seq<char>>>,
    fetched: Seq<(String, Result<Option<String>, String>)>,
    name: Seq<char>,
)
    ensures
        cache.contains_key(name) ==> recorded(cache, fetched).contains_key(name),
        (exists|i: int| 0 <= i < fetched.len() && #[trigger] fetched[i].0@ == name && fetched[i].1 is Ok)
            ==> recorded(cache, fetched).contains_key(name),
    decreases fetched.len(),
{
    if fetched.len() > 0 {
        lemma_recorded_caches_successes(cache, fetched.drop_last(), name);
        if exists|i: int| 0 <= i < fetched.len() && #[trigger] fetched[i].0@ == name && fetched[i].1 is Ok {
            let i = choose|i: int| 0 <= i < fetched.len() && #[trigger] fetched[i].0@ == name && fetched[i].1 is Ok;
            if i < fetched.len() - 1 {
                assert(fetched.drop_last()[i] == fetched[i]);
            }
        }
    }
}

/// Once every package that was pending for a list of entries has been
/// fetched successfully and remembered, nothing is pending for it any more:
/// a package is asked for once, and the cache answers after that.
pub proof fn lemma_nothing_pending_after_fetch(
    cache: Map<Seq<char>, Option<Seq<char>>>,
    fetched: Seq<(String, Result<Option<String>, String>)>,
    deps: Seq<DependencyEntry>,
)
    requires
        forall|name: Seq<char>|
            supported_names(deps).contains(name) && !cache.contains_key(name) ==> exists|i: int|
                0 <= i < fetched.len() && #[trigger] fetched[i].0@ == name && fetched[i].1 is Ok,
    ensures
        forall|name: Seq<char>| supported_names(deps).contains(name) ==> #[trigger] recorded(cache, fetched).contains_key(name),
{
    assert forall|name: Seq<char>| supported_names(deps).contains(name) implies #[trigger] recorded(cache, fetched).contains_key(name) by {
        lemma_recorded_caches_successes(cache, fetched, name);
    }
}

/// Hydrating a set of projects asks PyPI once for each distinct supported
/// package name that is not cached, and for nothing else: the pending list
/// holds exactly those names, each once, so its length is their number.
pub proof fn lemma_one_lookup_per_uncached_name(
    cache: Map<Seq<char>, Option<Seq<char>>>,
    projects: Seq<Project>,
    pending: Seq<Seq<char>>,
)
    requires
        pending.no_duplicates(),
        forall|name: Seq<char>|
            pending.contains(name) <==> (all_supported_names(projects).contains(name) && !cache.contains_key(name)),
    ensures
        pending.to_set() == all_supported_names(projects).difference(cache.dom()),
        pending.len() == all_supported_names(projects).difference(cache.dom()).len(),
{
    assert(pending.to_set() =~= all_supported_names(projects).difference(cache.dom()));
    pending.unique_seq_to_set();
}

fn copy_lookup(r: &Result<Option<String>, String>) -> (c: Result<Option<String>, String>)
    ensures
        lookup_model(c) == lookup_model(*r),
{
    match r {
        Ok(Some(v)) => Ok(Some(v.clone())),
        Ok(None) => Ok(None),
        Err(e) => Err(e.clone()),
    }
}

impl PypiClient {
    /// The packages of the supported entries that are not cached, each once:
    /// what has to be fetched before hydrating `dependencies`.
    pub fn pending_packages(&self, dependencies: &Vec<DependencyEntry>) -> (r: Vec<String>)
        ensures
            r.deep_view().no_duplicates(),
            forall|name: Seq<char>|
                r.deep_view().contains(name) <==> (supported_names(dependencies@).contains(name)
                    && !self@.contains_key(name)),
    {
        let mut pending: Vec<String> = Vec::new();
        self.collect_pending(dependencies, &mut pending);
        assert forall|name: Seq<char>|
            pending.deep_view().contains(name) <==> (supported_names(dependencies@).contains(name)
                && !self@.contains_key(name)) by {
            if supported_names(dependencies@).contains(name) && !self@.contains_key(name) {
                let i = choose|i: int| 0 <= i < dependencies.len() && dependencies@[i].kind is Supported && #[trigger] dependencies@[i].name@ == name;
            }
        }
        pending
    }

    /// The packages of the supported entries of all projects that are not
    /// cached, each once.
    pub fn pending_for_projects(&self, projects: &Vec<Project>) -> (r: Vec<String>)
        ensures
            r.deep_view().no_duplicates(),
            forall|name: Seq<char>|
                r.deep_view().contains(name) <==> (all_supported_names(projects@).contains(name)
                    && !self@.contains_key(name)),
    {
        let mut pending: Vec<String> = Vec::new();
        let n = projects.len();
        let mut p: usize = 0;
        while p < n
            invariant
                n == projects.len(),
                p <= n,
                pending.deep_view().no_duplicates(),
                forall|name: Seq<char>|
                    pending.deep_view().contains(name) <==> ((exists|q: int| 0 <= q < p && #[trigger] supported_names(projects@[q].dependencies@).contains(name))
                        && !self@.contains_key(name)),
            decreases n - p,
        {
            let ghost before = pending.deep_view();
            self.collect_pending(&projects[p].dependencies, &mut pending);
            assert forall|name: Seq<char>|
                pending.deep_view().contains(name) <==> ((exists|q: int| 0 <= q < p + 1 && #[trigger] supported_names(projects@[q].dependencies@).contains(name))
                    && !self@.contains_key(name)) by {
                if supported_names(projects@[p as int].dependencies@).contains(name) && !self@.contains_key(name) {
                    let deps = projects@[p as int].dependencies@;
                    let i = choose|i: int| 0 <= i < deps.len() && deps[i].kind is Supported && #[trigger] deps[i].name@ == name;
                }
                if exists|q: int| 0 <= q < p + 1 && #[trigger] supported_names(projects@[q].dependencies@).contains(name) {
                    let q = choose|q: int| 0 <= q < p + 1 && #[trigger] supported_names(projects@[q].dependencies@).contains(name);
                    if q == p {
                        let deps = projects@[p as int].dependencies@;
                        let i = choose|i: int| 0 <= i < deps.len() && deps[i].kind is Supported && #[trigger] deps[i].name@ == name;
                    }
                }
            }
            p = p + 1;
        }
        pending
    }

    /// Appends to `pending` the names of the supported entries that are
    /// neither cached nor already in it.
    fn collect_pending(&self, dependencies: &Vec<DependencyEntry>, pending: &mut Vec<String>)
        requires
            old(pending).deep_view().no_duplicates(),
        ensures
            final(pending).deep_view().no_duplicates(),
            forall|name: Seq<char>|
                final(pending).deep_view().contains(name) <==> (old(pending).deep_view().contains(name) || (
                exists|i: int|
                    0 <= i < dependencies.len() && dependencies@[i].kind is Supported && #[trigger] dependencies@[i].name@
                        == name && !self@.contains_key(name))),
    {
        let n = dependencies.len();
        let mut i: usize = 0;
        while i < n
            invariant
                n == dependencies.len(),
                i <= n,
                pending.deep_view().no_duplicates(),
                forall|name: Seq<char>|
                    pending.deep_view().contains(name) <==> (old(pending).deep_view().contains(name) || (
                    exists|j: int|
                        0 <= j < i && dependencies@[j].kind is Supported && #[trigger] dependencies@[j].name@ == name
                            && !self@.contains_key(name))),
            decreases n - i,
        {
            let dependency = &dependencies[i];
            let supported = match dependency.kind {
                DependencyKind::Supported { .. } => true,
                DependencyKind::Unsupported { .. } => false,
            };
            let ghost before = pending.deep_view();
            if supported && self.cached(dependency.name.as_str()).is_none() && !contains_name(pending, dependency.name.as_str()) {
                pending.push(dependency.name.clone());
                assert(pending.deep_view() =~= before.push(dependency.name@));
            }
            assert forall|name: Seq<char>|
                pending.deep_view().contains(name) <==> (old(pending).deep_view().contains(name) || (
                exists|j: int|
                    0 <= j < i + 1 && dependencies@[j].kind is Supported && #[trigger] dependencies@[j].name@ == name
                        && !self@.contains_key(name))) by {
                if pending.deep_view().contains(name) && !before.contains(name) {
                    assert(pending.deep_view() == before.push(dependency.name@));
                    assert(name == dependency.name@);
                }
                if exists|j: int|
                    0 <= j < i + 1 && dependencies@[j].kind is Supported && #[trigger] dependencies@[j].name@ == name
                        && !self@.contains_key(name) {
                    let j = choose|j: int|
                        0 <= j < i + 1 && dependencies@[j].kind is Supported && #[trigger] dependencies@[j].name@ == name
                            && !self@.contains_key(name);
                    if j < i {
                        assert(before.contains(name));
                    } else if !before.contains(name) {
                        assert(pending.deep_view() == before.push(dependency.name@));
                        assert(pending.deep_view()[before.len() as int] == name);
                    }
                }
                if before.contains(name) {
                    let k = choose|k: int| 0 <= k < before.len() && before[k] == name;
                    assert(pending.deep_view()[k] == name);
                }
            }
            i = i + 1;
        }
    }
}

fn contains_name(list: &Vec<String>, name: &str) -> (r: bool)
    ensures
        r == list.deep_view().contains(name@),
{
    let n = list.len();
    let mut i: usize = 0;
    while i < n
        invariant
            n == list.len(),
            i <= n,
            forall|j: int| 0 <= j < i ==> list.deep_view()[j] != name@,
        decreases n - i,
    {
        if crate::text::same_text(list[i].as_str(), name) {
            assert(list.deep_view()[i as int] == name@);
            return true;
        }
        i = i + 1;
    }
    false
}

/// A fetch result for each package: `Ok(Some(version))`, `Ok(None)` when
/// PyPI has no such package, or the error text.
pub type Fetched = Vec<(String, Result<Option<String>, String>)>;

impl PypiClient {
    /// What is known of `name`'s newest version, from `fetched` or the cache.
    fn latest_for(&self, fetched: &Fetched, name: &str) -> (r: Option<Result<Option<String>, String>>)
        ensures
            match r {
                Some(v) => latest_known(self@, fetched@, name@) == Some(lookup_model(v)),
                None => latest_known(self@, fetched@, name@) is None,
            },
    {
        let mut i = fetched.len();
        assert(fetched@.take(i as int) =~= fetched@);
        while i > 0
            invariant
                i <= fetched.len(),
                fetched_lookup(fetched@, name@) == fetched_lookup(fetched@.take(i as int), name@),
            decreases i,
        {
            assert(fetched@.take(i as int).drop_last() =~= fetched@.take(i - 1));
            if crate::text::same_text(fetched[i - 1].0.as_str(), name) {
                return Some(copy_lookup(&fetched[i - 1].1));
            }
            i = i - 1;
        }
        match self.cached(name) {
            Some(v) => Some(Ok(v)),
            None => None,
        }
    }

    /// Hydrates each entry from `fetched` and the cache, leaving the cache as
    /// it is.
    fn hydrate_entries(&self, dependencies: &mut Vec<DependencyEntry>, fetched: &Fetched)
        ensures
            final(dependencies).len() == old(dependencies).len(),
            forall|i: int|
                0 <= i < old(dependencies).len() ==> hydrated(
                    #[trigger] old(dependencies)@[i],
                    final(dependencies)@[i],
                    latest_known(self@, fetched@, old(dependencies)@[i].name@),
                ),
    {
        let n = dependencies.len();
        let mut i: usize = 0;
        while i < n
            invariant
                n == dependencies.len(),
                n == old(dependencies).len(),
                i <= n,
                forall|j: int|
                    0 <= j < i ==> hydrated(
                        #[trigger] old(dependencies)@[j],
                        dependencies@[j],
                        latest_known(self@, fetched@, old(dependencies)@[j].name@),
                    ),
                forall|j: int| i <= j < n ==> #[trigger] dependencies@[j] == old(dependencies)@[j],
            decreases n - i,
        {
            let latest = self.latest_for(fetched, dependencies[i].name.as_str());
            hydrate_dependency(&mut dependencies[i], latest);
            i = i + 1;
        }
    }

    /// Remembers each successful fetch.
    fn record(&mut self, fetched: &Fetched)
        ensures
            final(self).base_url_model() == old(self).base_url_model(),
            final(self)@ == recorded(old(self)@, fetched@),
    {
        let n = fetched.len();
        let mut i: usize = 0;
        while i < n
            invariant
                n == fetched.len(),
                i <= n,
                self.base_url_model() == old(self).base_url_model(),
                self@ == recorded(old(self)@, fetched@.take(i as int)),
            decreases n - i,
        {
            assert(fetched@.take(i + 1).drop_last() =~= fetched@.take(i as int));
            match &fetched[i].1 {
                Ok(version) => {
                    let copy = match version {
                        Some(v) => Some(v.clone()),
                        None => None,
                    };
                    self.remember(fetched[i].0.clone(), copy);
                },
                Err(_) => {},
            }
            i = i + 1;
        }
        assert(fetched@.take(n as int) =~= fetched@);
    }

    /// Hydrates the entries of one project from the packages just fetched
    /// and the cache, then remembers the successful fetches.
    pub fn hydrate_project(&mut self, dependencies: &mut Vec<DependencyEntry>, fetched: &Fetched)
        ensures
            final(self).base_url_model() == old(self).base_url_model(),
            final(self)@ == recorded(old(self)@, fetched@),
            final(dependencies).len() == old(dependencies).len(),
            forall|i: int|
                0 <= i < old(dependencies).len() ==> hydrated(
                    #[trigger] old(dependencies)@[i],
                    final(dependencies)@[i],
                    latest_known(old(self)@, fetched@, old(dependencies)@[i].name@),
                ),
    {
        self.hydrate_entries(dependencies, fetched);
        self.record(fetched);
    }

    /// Hydrates the entries of all projects from the packages just fetched
    /// and the cache, then remembers the successful fetches.
    pub fn hydrate_projects(&mut self, projects: &mut Vec<Project>, fetched: &Fetched)
        ensures
            final(self).base_url_model() == old(self).base_url_model(),
            final(self)@ == recorded(old(self)@, fetched@),
            final(projects).len() == old(projects).len(),
            forall|p: int|
                0 <= p < old(projects).len() ==> {
                    let before = #[trigger] old(projects)@[p];
                    let after = final(projects)@[p];
                    &&& after.name == before.name
                    &&& after.file_path == before.file_path
                    &&& after.dependencies.len() == before.dependencies.len()
                    &&& forall|i: int|
                        0 <= i < before.dependencies.len() ==> hydrated(
                            #[trigger] before.dependencies@[i],
                            after.dependencies@[i],
                            latest_known(old(self)@, fetched@, before.dependencies@[i].name@),
                        )
                },
    {
        let n = projects.len();
        let mut p: usize = 0;
        while p < n
            invariant
                n == projects.len(),
                n == old(projects).len(),
                p <= n,
                self@ == old(self)@,
                self.base_url_model() == old(self).base_url_model(),
                forall|q: int|
                    0 <= q < p ==> {
                        let before = #[trigger] old(projects)@[q];
                        let after = projects@[q];
                        &&& after.name == before.name
                        &&& after.file_path == before.file_path
                        &&& after.dependencies.len() == before.dependencies.len()
                        &&& forall|i: int|
                            0 <= i < before.dependencies.len() ==> hydrated(
                                #[trigger] before.dependencies@[i],
                                after.dependencies@[i],
                                latest_known(old(self)@, fetched@, before.dependencies@[i].name@),
                            )
                    },
                forall|q: int| p <= q < n ==> #[trigger] projects@[q] == old(projects)@[q],
            decreases n - p,
        {
            self.hydrate_entries(&mut projects[p].dependencies, fetched);
            p = p + 1;
        }
        self.record(fetched);
    }
}

/// How many times a package is asked for before giving up.
pub const REQUEST_RETRY_ATTEMPTS: usize = 3;

/// The JSON API address of a package: `<base>/<package>/json`.
pub open spec fn package_url(base_url: Seq<char>, package_name: Seq<char>) -> Seq<char> {
    base_url + seq!['/'] + package_name + "/json"@
}

pub fn fetch_url(base_url: &str, package_name: &str) -> (r: String)
    ensures
        r@ == package_url(base_url@, package_name@),
{
    let mut out = chars_of(base_url);
    out.push('/');
    push_str(&mut out, package_name);
    push_str(&mut out, "/json");
    string_from_chars(&out)
}

/// What one request to PyPI gave.
pub enum FetchResponse {
    /// A JSON body; its `info.version`, when present.
    Payload(Option<String>),
    /// A body that is not the expected JSON.
    MalformedPayload,
    /// An HTTP error status.
    Status(u16),
    /// No response: the connection or the transfer failed.
    Transport,
}

/// What to do after a request.
pub enum FetchStep {
    /// Stop with this result.
    Done(Result<Option<String>, String>),
    /// Wait this many milliseconds, then ask again.
    Retry(u64),
    /// No attempt is left: wait this many milliseconds, then stop with no
    /// version.
    Exhausted(u64),
}

/// The wait before the next attempt: 300 ms, doubled each time.
pub open spec fn backoff_millis(attempt: nat) -> nat
    decreases attempt,
{
    if attempt == 0 {
        300
    } else {
        2 * backoff_millis((attempt - 1) as nat)
    }
}

/// Whether an HTTP status is worth asking again for: 429 or a server error.
pub open spec fn is_retryable_status(code: u16) -> bool {
    code == 429 || code >= 500
}

/// The step after attempt number `attempt` (from 0) for `package_name` got
/// `response`.
pub open spec fn fetch_step_of(package_name: Seq<char>, attempt: nat, response: FetchResponse) -> FetchStepModel {
    match response {
        FetchResponse::Payload(version) => FetchStepModel::Done(Ok(text_model(version))),
        FetchResponse::MalformedPayload => FetchStepModel::Done(
            Err("failed to parse PyPI payload for "@ + package_name),
        ),
        FetchResponse::Status(code) => {
            if code == 404 {
                FetchStepModel::Done(Ok(None))
            } else if is_retryable_status(code) {
                if attempt + 1 < REQUEST_RETRY_ATTEMPTS {
                    FetchStepModel::Retry(backoff_millis(attempt))
                } else {
                    FetchStepModel::Exhausted(backoff_millis(attempt))
                }
            } else {
                FetchStepModel::Done(Err("PyPI request failed for "@ + package_name + ": HTTP "@ + decimal(code as nat)))
            }
        },
        FetchResponse::Transport => {
            if attempt + 1 < REQUEST_RETRY_ATTEMPTS {
                FetchStepModel::Retry(backoff_millis(attempt))
            } else {
                FetchStepModel::Done(Err("failed to fetch "@ + package_name))
            }
        },
    }
}

/// The model of a [`FetchStep`].
pub enum FetchStepModel {
    Done(Result<Option<Seq<char>>, Seq<char>>),
    Retry(nat),
    Exhausted(nat),
}

impl View for FetchStep {
    type V = FetchStepModel;

    open spec fn view(&self) -> FetchStepModel {
        match self {
            FetchStep::Done(r) => FetchStepModel::Done(lookup_model(*r)),
            FetchStep::Retry(ms) => FetchStepModel::Retry(*ms as nat),
            FetchStep::Exhausted(ms) => FetchStepModel::Exhausted(*ms as nat),
        }
    }
}

/// Decides what follows a request: stop with a result, ask again after a
/// wait, or, when no attempt is left, stop with no version after a wait.
pub fn next_fetch_step(package_name: &str, attempt: usize, response: FetchResponse) -> (r: FetchStep)
    requires
        attempt < REQUEST_RETRY_ATTEMPTS,
    ensures
        r@ == fetch_step_of(package_name@, attempt as nat, response),
{
    let backoff: u64 = if attempt == 0 {
        300
    } else if attempt == 1 {
        600
    } else {
        1200
    };
    assert(backoff == backoff_millis(attempt as nat)) by {
        reveal_with_fuel(backoff_millis, 3);
    }
    match response {
        FetchResponse::Payload(version) => FetchStep::Done(Ok(version)),
        FetchResponse::MalformedPayload => FetchStep::Done(
            Err(String::from_str("failed to parse PyPI payload for ").concat(package_name)),
        ),
        FetchResponse::Status(code) => {
            if code == 404 {
                FetchStep::Done(Ok(None))
            } else if code == 429 || code >= 500 {
                if attempt + 1 < REQUEST_RETRY_ATTEMPTS {
                    FetchStep::Retry(backoff)
                } else {
                    FetchStep::Exhausted(backoff)
                }
            } else {
                let mut out = chars_of("PyPI request failed for ");
                push_str(&mut out, package_name);
                push_str(&mut out, ": HTTP ");
                push_decimal(&mut out, code as u64);
                FetchStep::Done(Err(string_from_chars(&out)))
            }
        },
        FetchResponse::Transport => {
            if attempt + 1 < REQUEST_RETRY_ATTEMPTS {
                FetchStep::Retry(backoff)
            } else {
                FetchStep::Done(Err(String::from_str("failed to fetch ").concat(package_name)))
            }
        },
    }
}

/// The result of fetching `package_name` when the requests from attempt
/// `attempt` on get `responses` in turn: `None` while the responses run out
/// before the fetch ends.
pub open spec fn fetch_outcome(package_name: Seq<char>, responses: Seq<FetchResponse>, attempt: nat) -> Option<LatestLookup>
    decreases responses.len(),
{
    if responses.len() == 0 {
        None
    } else {
        match fetch_step_of(package_name, attempt, responses[0]) {
            FetchStepModel::Done(r) => Some(r),
            FetchStepModel::Exhausted(_) => Some(Ok(None)),
            FetchStepModel::Retry(_) => fetch_outcome(package_name, responses.drop_first(), attempt + 1),
        }
    }
}

/// Whether a response is a throttled or server-error answer.
pub open spec fn is_retryable_response(response: FetchResponse) -> bool {
    response matches FetchResponse::Status(code) && is_retryable_status(code)
}

/// A fetch makes at most three requests: it has ended by the third response,
/// whatever the responses are. Three throttled or server-error answers end
/// it with no version; three failed connections end it with an error.
pub proof fn lemma_fetch_ends_within_attempts(package_name: Seq<char>, responses: Seq<FetchResponse>)
    requires
        responses.len() >= REQUEST_RETRY_ATTEMPTS,
    ensures
        fetch_outcome(package_name, responses, 0) is Some,
        fetch_outcome(package_name, responses, 0) == fetch_outcome(package_name, responses.take(3), 0),
        (forall|i: int| 0 <= i < 3 ==> #[trigger] is_retryable_response(responses[i])) ==> fetch_outcome(
            package_name,
            responses,
            0,
        ) == Some(Ok::<Option<Seq<char>>, Seq<char>>(None)),
        (forall|i: int| 0 <= i < 3 ==> #[trigger] responses[i] is Transport) ==> fetch_outcome(
            package_name,
            responses,
            0,
        ) == Some(Err::<Option<Seq<char>>, Seq<char>>("failed to fetch "@ + package_name)),
{
    let t = responses.take(3);
    assert(t.drop_first().drop_first().drop_first().len() == 0);
    assert(responses.drop_first()[0] == responses[1]);
    assert(responses.drop_first().drop_first()[0] == responses[2]);
    assert(t[0] == responses[0] && t.drop_first()[0] == responses[1] && t.drop_first().drop_first()[0] == responses[2]);
    reveal_with_fuel(fetch_outcome, 4);
    if forall|i: int| 0 <= i < 3 ==> #[trigger] is_retryable_response(responses[i]) {
        assert(is_retryable_response(responses[0]));
        assert(is_retryable_response(responses[1]));
        assert(is_retryable_response(responses[2]));
    }
    if forall|i: int| 0 <= i < 3 ==> #[trigger] responses[i] is Transport {
        assert(responses[0] is Transport);
        assert(responses[1] is Transport);
        assert(responses[2] is Transport);
    }
}

/// How the fetches are shared out: at most 3 workers for up to 5 packages,
/// else at most 2, never more than the machine's parallelism or the
/// packages; and the chunk of packages each takes.
pub open spec fn worker_count_of(package_count: nat, parallelism: nat) -> nat {
    let cap: nat = if package_count <= 5 { 3 } else { 2 };
    let a = if parallelism < package_count { parallelism } else { package_count };
    if a < cap { a } else { cap }
}

/// The plan for fetching `package_count` packages: `(workers, chunk size)`.
pub fn worker_plan(package_count: usize, parallelism: usize) -> (r: (usize, usize))
    requires
        package_count > 0,
        parallelism > 0,
    ensures
        r.0 == worker_count_of(package_count as nat, parallelism as nat),
        r.1 == (package_count + r.0 - 1) / (r.0 as int),
{
    let cap: usize = if package_count <= 5 { 3 } else { 2 };
    let mut workers = if parallelism < package_count { parallelism } else { package_count };
    if workers > cap {
        workers = cap;
    }
    let quotient = package_count / workers;
    let remainder = package_count % workers;
    assert(remainder != 0 ==> quotient < package_count) by (nonlinear_arith)
        requires
            workers >= 1,
            quotient == package_count / workers,
            remainder == package_count % workers,
    {}
    let chunk = quotient + if remainder != 0 { 1 } else { 0 };
    assert(chunk == (package_count + workers - 1) / (workers as int)) by (nonlinear_arith)
        requires
            workers > 0,
            quotient == package_count / workers,
            remainder == package_count % workers,
            chunk == quotient + if remainder != 0 { 1int } else { 0int },
    {}
    (workers, chunk)
}

/// The plan shares out every package: between one and three workers, never
/// more than the packages or the machine's parallelism; chunks of at least
/// one package; `workers` chunks hold all packages, and chunks one package
/// smaller would not.
pub proof fn lemma_worker_plan_covers(package_count: nat, parallelism: nat)
    requires
        package_count > 0,
        parallelism > 0,
    ensures
        ({
            let workers = worker_count_of(package_count, parallelism);
            let chunk = (package_count + workers - 1) / (workers as int);
            &&& 1 <= workers <= 3
            &&& workers <= package_count
            &&& workers <= parallelism
            &&& chunk >= 1
            &&& workers * chunk >= package_count
            &&& (chunk - 1) * workers < package_count
        }),
{
    let workers = worker_count_of(package_count, parallelism);
    let chunk = (package_count + workers - 1) / (workers as int);
    assert(chunk >= 1 && workers * chunk >= package_count && (chunk - 1) * workers < package_count) by (nonlinear_arith)
        requires
            workers >= 1,
            package_count >= workers,
            chunk == (package_count + workers - 1) / (workers as int),
    {}
}

} // verus!
