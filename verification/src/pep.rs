//! Requirements (PEP 508) and versions (PEP 440) as the library reads them.
//!
//! Parsing and ordering are done by `pep508_rs` and `pep440_rs`; their results
//! are carried here as plain values.
use pep508_rs::{Requirement, VersionOrUrl};
use self::RequirementTarget::{Specifiers, Unpinned, Url};
use vstd::prelude::*;
use crate::text::includes;

verus! {

/// A PEP 440 version: its normalized text and its release segments.
#[derive(Clone, Debug)]
pub struct VersionInfo {
    pub text: String,
    pub release: Vec<u64>,
}

impl View for VersionInfo {
    type V = (Seq<char>, Seq<u64>);

    open spec fn view(&self) -> (Seq<char>, Seq<u64>) {
        (self.text@, self.release@)
    }
}

impl DeepView for VersionInfo {
    type V = (Seq<char>, Seq<u64>);

    open spec fn deep_view(&self) -> (Seq<char>, Seq<u64>) {
        self@
    }
}

impl VersionInfo {
    /// A copy of this version.
    pub fn duplicate(&self) -> (r: VersionInfo)
        ensures
            r@ == self@,
    {
        VersionInfo { text: self.text.clone(), release: self.release.clone() }
    }
}

/// One clause of a version specifier, such as `>=0.27.0`.
#[derive(Clone, Debug)]
pub struct VersionClause {
    /// The comparison operator as PEP 440 writes it (`==`, `~=`, `>=`, ...);
    /// `==` and `!=` are also the text of their wildcard forms.
    pub operator: String,
    /// Whether the operator is a wildcard form (`==1.2.*`, `!=1.2.*`).
    pub star: bool,
    pub version: VersionInfo,
}

/// The model of a [`VersionClause`].
pub struct ClauseModel {
    pub operator: Seq<char>,
    pub star: bool,
    pub version: (Seq<char>, Seq<u64>),
}

impl View for VersionClause {
    type V = ClauseModel;

    open spec fn view(&self) -> ClauseModel {
        ClauseModel { operator: self.operator@, star: self.star, version: self.version@ }
    }
}

impl DeepView for VersionClause {
    type V = ClauseModel;

    open spec fn deep_view(&self) -> ClauseModel {
        self@
    }
}

/// What a requirement pins: nothing, a direct URL, or a set of version clauses.
#[derive(Clone, Debug)]
pub enum RequirementTarget {
    Unpinned,
    Url,
    Specifiers(Vec<VersionClause>),
}

/// The model of a [`RequirementTarget`].
pub enum TargetModel {
    Unpinned,
    Url,
    Specifiers(Seq<ClauseModel>),
}

impl View for RequirementTarget {
    type V = TargetModel;

    open spec fn view(&self) -> TargetModel {
        match self {
            RequirementTarget::Unpinned => TargetModel::Unpinned,
            RequirementTarget::Url => TargetModel::Url,
            RequirementTarget::Specifiers(clauses) => TargetModel::Specifiers(clauses.deep_view()),
        }
    }
}

/// A parsed PEP 508 requirement: normalized package name, extras, the
/// normalized marker expression (if any) and what it pins.
#[derive(Clone, Debug)]
pub struct RequirementInfo {
    pub name: String,
    pub extras: Vec<String>,
    pub marker: Option<String>,
    pub target: RequirementTarget,
}

/// The model of a [`RequirementInfo`].
pub struct RequirementModel {
    pub name: Seq<char>,
    pub extras: Seq<Seq<char>>,
    pub marker: Option<Seq<char>>,
    pub target: TargetModel,
}

impl View for RequirementInfo {
    type V = RequirementModel;

    open spec fn view(&self) -> RequirementModel {
        RequirementModel {
            name: self.name@,
            extras: self.extras.deep_view(),
            marker: match self.marker {
                Some(m) => Some(m@),
                None => None,
            },
            target: self.target@,
        }
    }
}

/// What `pep440_rs` makes of a version string: its normalized text and release
/// segments, or `None` when it is not a valid PEP 440 version.
pub uninterp spec fn pep440_version(text: Seq<char>) -> Option<(Seq<char>, Seq<u64>)>;

/// Whether `pep440_rs` parses both strings and orders the first strictly after
/// the second.
pub uninterp spec fn pep440_newer(left: Seq<char>, right: Seq<char>) -> bool;

/// The model of a parse outcome.
pub open spec fn requirement_outcome(r: Result<RequirementInfo, String>) -> Result<RequirementModel, Seq<char>> {
    match r {
        Ok(info) => Ok(info@),
        Err(e) => Err(e@),
    }
}

/// Whether a requirement string holds a `${` that may start an environment
/// variable reference, which the parser expands in URL text.
pub open spec fn refers_to_env(raw: Seq<char>) -> bool {
    includes(raw, "${"@)
}

/// Whether a requirement string refers to `${PROJECT_ROOT}`, which the parser
/// may expand to the working directory.
pub open spec fn refers_to_project_root(raw: Seq<char>) -> bool {
    includes(raw, "${PROJECT_ROOT}"@)
}

/// A reference to `${PROJECT_ROOT}` is a reference to an environment variable.
pub proof fn lemma_project_root_refers_to_env(raw: Seq<char>)
    ensures
        refers_to_project_root(raw) ==> refers_to_env(raw),
{
    if refers_to_project_root(raw) {
        reveal_strlit("${PROJECT_ROOT}");
        reveal_strlit("${");
        let i = choose|i: int| 0 <= i && i + 15 <= raw.len() && #[trigger] raw.subrange(i, i + 15) == "${PROJECT_ROOT}"@;
        assert(raw.subrange(i, i + 2) =~= "${"@) by {
            assert(raw.subrange(i, i + 15)[0] == '$');
            assert(raw.subrange(i, i + 15)[1] == '{');
        }
    }
}

/// What `pep508_rs` makes of a requirement string that refers to no
/// environment variable: the requirement, or the text of its parse error.
pub uninterp spec fn pep508_outcome(raw: Seq<char>) -> Result<RequirementModel, Seq<char>>;

/// Parses a PEP 508 requirement.
///
/// Trusted: calls `FromStr for pep508_rs::Requirement<VerbatimUrl>` and copies
/// the result into plain values (`Display` of the name, extras, marker
/// contents, operators and versions; `Operator::is_star`; `Version::release`).
/// The parser expands `${NAME}` environment variables in URL text, so only for
/// a string without `${` is the outcome a function of the string, named
/// `pep508_outcome`; of other strings nothing is stated. For
/// `${PROJECT_ROOT}` with that variable unset the parser reads the working
/// directory and panics when it cannot, so such strings are not admitted.
#[verifier::external_body]
pub(crate) fn parse_requirement(raw: &str) -> (r: Result<RequirementInfo, String>)
    requires
        !refers_to_project_root(raw@),
    ensures
        !refers_to_env(raw@) ==> requirement_outcome(r) == pep508_outcome(raw@),
{
    let req = raw.parse::<Requirement>().map_err(|e| e.to_string())?;
    Ok(RequirementInfo {
        name: req.name.to_string(),
        extras: req.extras.iter().map(ToString::to_string).collect(),
        marker: req.marker.contents().map(|m| m.to_string()),
        target: match &req.version_or_url {
            None => Unpinned,
            Some(VersionOrUrl::Url(_)) => Url,
            Some(VersionOrUrl::VersionSpecifier(specs)) => Specifiers(specs.iter().map(|s| VersionClause {
                operator: s.operator().to_string(), star: s.operator().is_star(),
                version: VersionInfo { text: s.version().to_string(), release: s.version().release().to_vec() } }).collect()),
        },
    })
}

/// Parses a PEP 440 version.
///
/// Trusted: calls `FromStr for pep440_rs::Version`, then `Display` and
/// `Version::release` on the result.
#[verifier::external_body]
pub(crate) fn parse_version(text: &str) -> (r: Option<VersionInfo>)
    ensures
        r.deep_view() == pep440_version(text@),
{
    let version = text.parse::<pep440_rs::Version>().ok()?;
    Some(VersionInfo { text: version.to_string(), release: version.release().to_vec() })
}

/// Whether `left` is a newer version than `right`.
///
/// Trusted: parses both with `FromStr for pep440_rs::Version` and compares them
/// with its `PartialOrd`; a string that does not parse makes the answer `false`.
#[verifier::external_body]
pub(crate) fn version_newer(left: &str, right: &str) -> (r: bool)
    ensures
        r == pep440_newer(left@, right@),
{
    match (left.parse::<pep440_rs::Version>(), right.parse::<pep440_rs::Version>()) {
        (Ok(l), Ok(r)) => l > r,
        _ => false,
    }
}

} // verus!
