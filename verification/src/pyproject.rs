//! Reading the dependency arrays of a `pyproject.toml` and rewriting selected
//! requirements in it.
use vstd::prelude::*;
use crate::manifest::{item_at, toml_entry, toml_lookup, EntryModel, TomlEntry};
use crate::model::{
    DependencyEntry, DependencyKind, DependencySection, DependencyStatus, Project, SectionModel, SpecStrategy,
};
use crate::pep::{lemma_project_root_refers_to_env, parse_requirement, pep508_outcome, refers_to_env, refers_to_project_root, requirement_outcome, RequirementInfo, RequirementModel, RequirementTarget, TargetModel};
use std::collections::BTreeSet;
use vstd::std_specs::iter::IteratorSpec;
use crate::manifest::{toml_replace_item, toml_replaced};
use crate::model::{counted_below, is_selectable, lemma_counted_below_step, lemma_selected_counted, selectable_indexes, strategy_operator, UpdateSummary};
use crate::text::{includes_text, chars_of, comma_joined, decimal, has_char, push_comma_joined, push_decimal, push_str, same_text, string_from_chars};

verus! {

/// `_` and `.` become `-`, ASCII capitals become small letters.
pub open spec fn normalize_char(c: char) -> char {
    if c == '_' || c == '.' {
        '-'
    } else if 'A' <= c && c <= 'Z' {
        ((c as u32) + 32) as char
    } else {
        c
    }
}

/// A package name in the form used to compare names.
pub open spec fn normalized_name(name: Seq<char>) -> Seq<char> {
    name.map_values(|c: char| normalize_char(c))
}

/// Lower-cases ASCII letters and turns `_` and `.` into `-`.
pub fn normalize_package_name(name: &str) -> (r: String)
    ensures
        r@ == normalized_name(name@),
{
    let cs = chars_of(name);
    let n = cs.len();
    let mut out: Vec<char> = Vec::new();
    let mut i: usize = 0;
    while i < n
        invariant
            n == cs@.len(),
            cs@ == name@,
            i <= n,
            out@ == normalized_name(name@.take(i as int)),
        decreases n - i,
    {
        let c = cs[i];
        let d = if c == '_' || c == '.' {
            '-'
        } else if c >= 'A' && c <= 'Z' {
            ((c as u8) + 32) as char
        } else {
            c
        };
        assert(d == normalize_char(c));
        out.push(d);
        i = i + 1;
        assert(out@ =~= normalized_name(name@.take(i as int)));
    }
    assert(name@.take(n as int) =~= name@);
    string_from_chars(&out)
}

/// Normalizing a normalized name changes nothing.
pub proof fn lemma_normalize_idempotent(name: Seq<char>)
    ensures
        normalized_name(normalized_name(name)) == normalized_name(name),
{
    assert(normalized_name(normalized_name(name)) =~= normalized_name(name));
}

/// The directory names whose subtrees are not searched for projects.
pub open spec fn is_skipped_dir(name: Seq<char>) -> bool {
    ||| name == ".git"@
    ||| name == ".venv"@
    ||| name == "venv"@
    ||| name == "node_modules"@
    ||| name == ".tox"@
    ||| name == "target"@
}

/// Exactly six directory names are skipped: `.git`, `.venv`, `venv`,
/// `node_modules`, `.tox` and `target`; a path none of whose components is
/// one of them is searched.
pub proof fn lemma_skipped_dirs_exactly(name: Seq<char>, components: Seq<Seq<char>>)
    ensures
        is_skipped_dir(name) <==> (name == ".git"@ || name == ".venv"@ || name == "venv"@ || name == "node_modules"@
            || name == ".tox"@ || name == "target"@),
        (forall|i: int| 0 <= i < components.len() ==> {
            let c = #[trigger] components[i];
            c != ".git"@ && c != ".venv"@ && c != "venv"@ && c != "node_modules"@ && c != ".tox"@ && c != "target"@
        }) ==> !(exists|i: int| 0 <= i < components.len() && is_skipped_dir(#[trigger] components[i])),
{
}

fn skipped_dir(name: &str) -> (r: bool)
    ensures
        r == is_skipped_dir(name@),
{
    same_text(name, ".git") || same_text(name, ".venv") || same_text(name, "venv")
        || same_text(name, "node_modules") || same_text(name, ".tox") || same_text(name, "target")
}

/// Whether a path, given by its components, lies in a skipped directory.
pub fn should_skip(components: &Vec<String>) -> (r: bool)
    ensures
        r == exists|i: int| 0 <= i < components.len() && is_skipped_dir(#[trigger] components@[i]@),
{
    let n = components.len();
    let mut i: usize = 0;
    while i < n
        invariant
            n == components.len(),
            i <= n,
            forall|j: int| 0 <= j < i ==> !is_skipped_dir(#[trigger] components@[j]@),
        decreases n - i,
    {
        if skipped_dir(components[i].as_str()) {
            return true;
        }
        i = i + 1;
    }
    false
}

/// The quote an array element is written with: `'` when its text starts with
/// one, `"` otherwise.
pub open spec fn quote_of(repr: Seq<char>) -> char {
    if repr.len() > 0 && repr[0] == '\'' {
        '\''
    } else {
        '"'
    }
}

pub fn detect_quote_style(repr: &str) -> (r: char)
    ensures
        r == quote_of(repr@),
{
    let cs = chars_of(repr);
    if cs.len() > 0 && cs[0] == '\'' {
        '\''
    } else {
        '"'
    }
}

/// A character inside a TOML basic string: `\` and `"` are escaped.
pub open spec fn escape_char(c: char) -> Seq<char> {
    if c == '\\' {
        seq!['\\', '\\']
    } else if c == '"' {
        seq!['\\', '"']
    } else {
        seq![c]
    }
}

/// The body of a TOML basic string holding `s`.
pub open spec fn escape_basic(s: Seq<char>) -> Seq<char>
    decreases s.len(),
{
    if s.len() == 0 {
        seq![]
    } else {
        escape_basic(s.drop_last()) + escape_char(s.last())
    }
}

/// The TOML string literal written for `value`: a literal string in single
/// quotes when `quote` is `'` and `value` holds no `'`, else a basic string.
pub open spec fn toml_string_literal(value: Seq<char>, quote: char) -> Seq<char> {
    if quote == '\'' && !value.contains('\'') {
        seq!['\''] + value + seq!['\'']
    } else {
        seq!['"'] + escape_basic(value) + seq!['"']
    }
}

pub fn format_toml_string(value: &str, quote: char) -> (r: String)
    ensures
        r@ == toml_string_literal(value@, quote),
{
    let mut out: Vec<char> = Vec::new();
    if quote == '\'' && !has_char(value, '\'') {
        out.push('\'');
        push_str(&mut out, value);
        out.push('\'');
        assert(out@ =~= toml_string_literal(value@, quote));
    } else {
        out.push('"');
        let cs = chars_of(value);
        let n = cs.len();
        let mut i: usize = 0;
        while i < n
            invariant
                n == cs@.len(),
                cs@ == value@,
                i <= n,
                out@ == seq!['"'] + escape_basic(value@.take(i as int)),
            decreases n - i,
        {
            let c = cs[i];
            if c == '\\' {
                out.push('\\');
                out.push('\\');
            } else if c == '"' {
                out.push('\\');
                out.push('"');
            } else {
                out.push(c);
            }
            assert(value@.take(i + 1).drop_last() =~= value@.take(i as int));
            i = i + 1;
            assert(out@ =~= seq!['"'] + escape_basic(value@.take(i as int)));
        }
        out.push('"');
        assert(value@.take(n as int) =~= value@);
        assert(out@ =~= toml_string_literal(value@, quote));
    }
    string_from_chars(&out)
}

/// Reads the body of a TOML basic string in which only `\\` and `\"` occur as
/// escapes.
pub open spec fn unescape_basic(s: Seq<char>) -> Seq<char>
    decreases s.len(),
{
    if s.len() == 0 {
        seq![]
    } else if s[0] == '\\' && s.len() >= 2 {
        seq![s[1]] + unescape_basic(s.skip(2))
    } else {
        seq![s[0]] + unescape_basic(s.skip(1))
    }
}

/// The string a literal written by [`format_toml_string`] stands for.
pub open spec fn toml_literal_value(lit: Seq<char>) -> Option<Seq<char>> {
    if lit.len() >= 2 && lit[0] == '\'' && lit.last() == '\'' && !lit.subrange(1, lit.len() - 1).contains('\'') {
        Some(lit.subrange(1, lit.len() - 1))
    } else if lit.len() >= 2 && lit[0] == '"' && lit.last() == '"' {
        Some(unescape_basic(lit.subrange(1, lit.len() - 1)))
    } else {
        None
    }
}

proof fn lemma_escape_concat(a: Seq<char>, b: Seq<char>)
    ensures
        escape_basic(a + b) == escape_basic(a) + escape_basic(b),
    decreases b.len(),
{
    if b.len() == 0 {
        assert(a + b =~= a);
        assert(escape_basic(a) + escape_basic(b) =~= escape_basic(a));
    } else {
        lemma_escape_concat(a, b.drop_last());
        assert((a + b).drop_last() =~= a + b.drop_last());
        assert(escape_basic(a + b) =~= escape_basic(a) + escape_basic(b));
    }
}

proof fn lemma_unescape_escape(s: Seq<char>)
    ensures
        unescape_basic(escape_basic(s)) == s,
    decreases s.len(),
{
    if s.len() > 0 {
        let c = s[0];
        let rest = s.skip(1);
        assert(s =~= seq![c] + rest);
        lemma_escape_concat(seq![c], rest);
        assert(seq![c].drop_last() =~= Seq::<char>::empty());
        assert(escape_basic(seq![c]) =~= escape_char(c)) by {
            reveal_with_fuel(escape_basic, 2);
        }
        lemma_unescape_escape(rest);
        let e = escape_basic(s);
        if c == '\\' || c == '"' {
            assert(e.skip(2) =~= escape_basic(rest));
        } else {
            assert(e.skip(1) =~= escape_basic(rest));
        }
        assert(unescape_basic(e) =~= s);
    }
}

/// A literal written by [`format_toml_string`] reads back as the value it was
/// written for, whatever the quote asked for.
pub proof fn lemma_literal_reads_back(value: Seq<char>, quote: char)
    ensures
        toml_literal_value(toml_string_literal(value, quote)) == Some(value),
{
    let lit = toml_string_literal(value, quote);
    if quote == '\'' && !value.contains('\'') {
        assert(lit.subrange(1, lit.len() - 1) =~= value);
    } else {
        assert(lit.subrange(1, lit.len() - 1) =~= escape_basic(value));
        lemma_unescape_escape(value);
        assert(lit[0] == '"');
    }
}

/// How a requirement stands once classified: supported with a strategy and
/// the pinned version, or unsupported for a reason.
pub enum KindModel {
    Supported { strategy: SpecStrategy, version: (Seq<char>, Seq<u64>) },
    Unsupported(Seq<char>),
}

/// The strategy of a single clause's operator, if the library can rewrite it.
pub open spec fn strategy_for(operator: Seq<char>, star: bool) -> Option<SpecStrategy> {
    if star {
        None
    } else if operator == "=="@ {
        Some(SpecStrategy::Exact)
    } else if operator == "~="@ {
        Some(SpecStrategy::Compatible)
    } else if operator == ">="@ {
        Some(SpecStrategy::Minimum)
    } else {
        None
    }
}

/// Only a single `==`, `~=` or `>=` clause is supported.
pub open spec fn classified(req: RequirementModel) -> KindModel {
    match req.target {
        TargetModel::Unpinned => KindModel::Unsupported("unpinned requirement"@),
        TargetModel::Url => KindModel::Unsupported("direct URL requirement"@),
        TargetModel::Specifiers(clauses) => {
            if clauses.len() != 1 {
                KindModel::Unsupported("multi-clause version specifier"@)
            } else {
                match strategy_for(clauses[0].operator, clauses[0].star) {
                    Some(strategy) => KindModel::Supported { strategy, version: clauses[0].version },
                    None => KindModel::Unsupported("unsupported operator "@ + clauses[0].operator),
                }
            }
        },
    }
}

/// The model of an optional requirement.
pub open spec fn requirement_model(r: Option<RequirementInfo>) -> Option<RequirementModel> {
    match r {
        Some(info) => Some(info@),
        None => None,
    }
}

/// `kind` holds the requirement `req` and stands as `model` says.
pub open spec fn kind_is(kind: DependencyKind, req: Option<RequirementModel>, model: KindModel) -> bool {
    match (kind, model) {
        (
            DependencyKind::Supported { requirement, current_version, strategy },
            KindModel::Supported { strategy: s, version },
        ) => req == Some(requirement@) && current_version@ == version && strategy == s,
        (DependencyKind::Unsupported { requirement, reason }, KindModel::Unsupported(r)) => {
            requirement_model(requirement) == req && reason@ == r
        },
        _ => false,
    }
}

fn operator_strategy(operator: &str, star: bool) -> (r: Option<SpecStrategy>)
    ensures
        r == strategy_for(operator@, star),
{
    if star {
        None
    } else if same_text(operator, "==") {
        Some(SpecStrategy::Exact)
    } else if same_text(operator, "~=") {
        Some(SpecStrategy::Compatible)
    } else if same_text(operator, ">=") {
        Some(SpecStrategy::Minimum)
    } else {
        None
    }
}

/// Decides whether a requirement can be rewritten, and how.
pub fn classify_requirement(requirement: RequirementInfo) -> (r: DependencyKind)
    ensures
        kind_is(r, Some(requirement@), classified(requirement@)),
{
    let outcome: Result<(SpecStrategy, crate::pep::VersionInfo), String> = match &requirement.target {
        RequirementTarget::Unpinned => Err(String::from_str("unpinned requirement")),
        RequirementTarget::Url => Err(String::from_str("direct URL requirement")),
        RequirementTarget::Specifiers(clauses) => {
            if clauses.len() != 1 {
                Err(String::from_str("multi-clause version specifier"))
            } else {
                let clause = &clauses[0];
                match operator_strategy(clause.operator.as_str(), clause.star) {
                    Some(strategy) => Ok((strategy, clause.version.duplicate())),
                    None => Err(String::from_str("unsupported operator ").concat(clause.operator.as_str())),
                }
            }
        },
    };
    match outcome {
        Ok((strategy, current_version)) => DependencyKind::Supported { requirement, current_version, strategy },
        Err(reason) => DependencyKind::Unsupported { requirement: Some(requirement), reason },
    }
}

/// The text shown for an entry without a version the library reads.
pub open spec fn no_version_text() -> Seq<char> {
    "\u{2014}"@
}

/// The name of a requirement with its extras: `name` or `name[a,b]`.
pub open spec fn display_name_of(name: Seq<char>, extras: Seq<Seq<char>>) -> Seq<char> {
    if extras.len() == 0 {
        name
    } else {
        name + seq!['['] + comma_joined(extras) + seq![']']
    }
}

/// `entry` is what the array string `raw`, at `index` of `section`, reads as
/// when the requirement parser gave `parsed` for it and the normalized names
/// in `overrides` are managed by `tool.uv.sources`.
pub open spec fn entry_from_parsed(
    entry: DependencyEntry,
    parsed: Result<RequirementModel, Seq<char>>,
    raw: Seq<char>,
    section: SectionModel,
    index: int,
    overrides: Seq<Seq<char>>,
) -> bool {
    &&& entry.section@ == section
    &&& entry.item_index == index
    &&& entry.latest_version is None
    &&& entry.latest_version_text is None
    &&& match parsed {
        Err(message) => {
            let reason = "PEP 508 parse failed: "@ + message;
            &&& entry.name@ == raw
            &&& entry.display_name@ == raw
            &&& entry.current_version_text@ == no_version_text()
            &&& kind_is(entry.kind, None, KindModel::Unsupported(reason))
            &&& entry.status matches DependencyStatus::Unsupported(r) && r@ == reason
        },
        Ok(req) => {
            let model = if overrides.contains(normalized_name(req.name)) {
                KindModel::Unsupported("managed by tool.uv.sources"@)
            } else {
                classified(req)
            };
            &&& entry.name@ == req.name
            &&& entry.display_name@ == display_name_of(req.name, req.extras)
            &&& kind_is(entry.kind, Some(req), model)
            &&& match model {
                KindModel::Supported { version, .. } => {
                    &&& entry.current_version_text@ == version.0
                    &&& entry.status is UpToDate
                },
                KindModel::Unsupported(reason) => {
                    &&& entry.current_version_text@ == no_version_text()
                    &&& entry.status matches DependencyStatus::Unsupported(r) && r@ == reason
                },
            }
        },
    }
}

/// What holds of the entry read from `raw` whatever the requirement parser
/// gives: its place, no newest version yet, a status that follows its kind,
/// names taken from the requirement (or the raw text when it did not parse),
/// and a supported entry is never one that `tool.uv.sources` manages.
pub open spec fn entry_basics(
    entry: DependencyEntry,
    raw: Seq<char>,
    section: SectionModel,
    index: int,
    overrides: Seq<Seq<char>>,
) -> bool {
    &&& entry.section@ == section
    &&& entry.item_index == index
    &&& entry.latest_version is None
    &&& entry.latest_version_text is None
    &&& match entry.kind {
        DependencyKind::Supported { requirement, current_version, strategy } => {
            &&& entry.status is UpToDate
            &&& entry.current_version_text@ == current_version@.0
            &&& entry.name@ == requirement@.name
            &&& entry.display_name@ == display_name_of(requirement@.name, requirement@.extras)
            &&& !overrides.contains(normalized_name(requirement@.name))
            &&& classified(requirement@) == (KindModel::Supported { strategy, version: current_version@ })
        },
        DependencyKind::Unsupported { requirement, reason } => {
            &&& entry.status matches DependencyStatus::Unsupported(r) && r@ == reason@
            &&& entry.current_version_text@ == no_version_text()
            &&& match requirement {
                Some(req) => entry.name@ == req@.name && entry.display_name@ == display_name_of(
                    req@.name,
                    req@.extras,
                ),
                None => entry.name@ == raw && entry.display_name@ == raw,
            }
        },
    }
}

/// Why an entry whose text refers to `${PROJECT_ROOT}` is not read.
pub open spec fn project_root_reason() -> Seq<char> {
    "refers to ${PROJECT_ROOT}"@
}

/// The entry for a string that refers to `${PROJECT_ROOT}`: it is not handed
/// to the requirement parser, and stands unsupported under its raw text.
pub open spec fn unread_entry(entry: DependencyEntry, raw: Seq<char>, section: SectionModel, index: int) -> bool {
    &&& entry.section@ == section
    &&& entry.item_index == index
    &&& entry.latest_version is None
    &&& entry.latest_version_text is None
    &&& entry.name@ == raw
    &&& entry.display_name@ == raw
    &&& entry.current_version_text@ == no_version_text()
    &&& kind_is(entry.kind, None, KindModel::Unsupported(project_root_reason()))
    &&& entry.status matches DependencyStatus::Unsupported(r) && r@ == project_root_reason()
}

/// `entry` is what the array string `raw` reads as: exactly what the parser
/// makes of it when it refers to no environment variable; for some outcome
/// of the parser when it does (the parser expands such references, so its
/// outcome is not a function of `raw` alone); and unsupported, unparsed, when
/// it refers to `${PROJECT_ROOT}`.
pub open spec fn entry_from(
    entry: DependencyEntry,
    raw: Seq<char>,
    section: SectionModel,
    index: int,
    overrides: Seq<Seq<char>>,
) -> bool {
    &&& entry_basics(entry, raw, section, index, overrides)
    &&& if refers_to_project_root(raw) {
        unread_entry(entry, raw, section, index)
    } else if !refers_to_env(raw) {
        entry_from_parsed(entry, pep508_outcome(raw), raw, section, index, overrides)
    } else {
        exists|parsed: Result<RequirementModel, Seq<char>>| #[trigger]
            entry_from_parsed(entry, parsed, raw, section, index, overrides)
    }
}

/// Only a single `==`, `~=` or `>=` clause is supported: unpinned
/// requirements, direct URLs, ranges of several clauses and every other
/// operator are not.
pub proof fn lemma_supported_is_single_clause(req: RequirementModel)
    requires
        classified(req) is Supported,
    ensures
        req.target matches TargetModel::Specifiers(clauses) && clauses.len() == 1 && (clauses[0].operator == "=="@
            || clauses[0].operator == "~="@ || clauses[0].operator == ">="@) && !clauses[0].star,
{
}

/// The operator each strategy writes reads back as that same strategy, and
/// the three strategies write three different operators.
pub proof fn lemma_operator_round_trip(strategy: SpecStrategy, other: SpecStrategy)
    ensures
        strategy_for(strategy_operator(strategy), false) == Some(strategy),
        strategy != other ==> strategy_operator(strategy) != strategy_operator(other),
{
    reveal_strlit("==");
    reveal_strlit("~=");
    reveal_strlit(">=");
    assert("=="@[0] != "~="@[0]);
    assert("=="@[0] != ">="@[0]);
    assert("~="@[0] != ">="@[0]);
}

/// An update keeps each entry's own pin: the requirement it writes at the
/// entry's place is the entry's name with its extras, the operator of the
/// entry's own strategy (which reads back as that strategy), the newest
/// version, and the entry's marker after ` ; `; and the row it reports holds
/// the newest version.
pub proof fn lemma_update_keeps_pin(dependency: DependencyEntry, content: Seq<char>)
    requires
        apply_one(dependency, content) is Ok,
    ensures
        dependency.kind matches DependencyKind::Supported { requirement, strategy, .. } && dependency.latest_version matches Some(
            latest,
        ) && ({
            let base = display_name_of(dependency.name@, requirement@.extras) + strategy_operator(strategy)
                + latest.text@;
            let written = match requirement@.marker {
                Some(m) => base + " ; "@ + m,
                None => base,
            };
            &&& replaced_content(content, dependency.section@, dependency.item_index as int, written) == Ok::<
                Seq<char>,
                Seq<char>,
            >(apply_one(dependency, content)->Ok_0.0)
            &&& apply_one(dependency, content)->Ok_0.1.2 == latest.text@
            &&& strategy_for(strategy_operator(strategy), false) == Some(strategy)
        }),
{
    match dependency.kind {
        DependencyKind::Supported { strategy, .. } => {
            lemma_operator_round_trip(strategy, strategy);
        },
        _ => {},
    }
}

/// An entry whose package `[tool.uv.sources]` manages is unsupported, and so
/// is never offered for update, whatever its specifier.
pub proof fn lemma_source_managed_unsupported(
    entry: DependencyEntry,
    parsed: Result<RequirementModel, Seq<char>>,
    raw: Seq<char>,
    section: SectionModel,
    index: int,
    overrides: Seq<Seq<char>>,
)
    requires
        entry_from_parsed(entry, parsed, raw, section, index, overrides),
        parsed matches Ok(req) && overrides.contains(normalized_name(req.name)),
    ensures
        entry.kind is Unsupported,
        entry.status matches DependencyStatus::Unsupported(reason) && reason@ == "managed by tool.uv.sources"@,
{
}

fn contains_text(list: &Vec<String>, s: &str) -> (r: bool)
    ensures
        r == list.deep_view().contains(s@),
{
    let n = list.len();
    let mut i: usize = 0;
    while i < n
        invariant
            n == list.len(),
            i <= n,
            forall|j: int| 0 <= j < i ==> list.deep_view()[j] != s@,
        decreases n - i,
    {
        if same_text(list[i].as_str(), s) {
            assert(list.deep_view()[i as int] == s@);
            return true;
        }
        i = i + 1;
    }
    false
}

fn display_name(name: &String, extras: &Vec<String>) -> (r: String)
    ensures
        r@ == display_name_of(name@, extras.deep_view()),
{
    if extras.len() == 0 {
        name.clone()
    } else {
        let mut out = chars_of(name.as_str());
        out.push('[');
        push_comma_joined(&mut out, extras);
        out.push(']');
        assert(out@ =~= display_name_of(name@, extras.deep_view()));
        string_from_chars(&out)
    }
}

/// Reads one string of a dependency array from what the requirement parser
/// gave for it.
pub fn entry_from_parse(
    parsed: Result<RequirementInfo, String>,
    raw: String,
    section: DependencySection,
    item_index: usize,
    source_overrides: &Vec<String>,
) -> (r: DependencyEntry)
    ensures
        entry_from_parsed(
            r,
            requirement_outcome(parsed),
            raw@,
            section@,
            item_index as int,
            source_overrides.deep_view(),
        ),
{
    match parsed {
        Ok(requirement) => {
            let name = requirement.name.clone();
            let display_name = display_name(&requirement.name, &requirement.extras);
            let name_key = normalize_package_name(name.as_str());
            let kind = if contains_text(source_overrides, name_key.as_str()) {
                DependencyKind::Unsupported {
                    requirement: Some(requirement),
                    reason: String::from_str("managed by tool.uv.sources"),
                }
            } else {
                classify_requirement(requirement)
            };
            let (status, current_version_text) = match &kind {
                DependencyKind::Unsupported { reason, .. } => (
                    DependencyStatus::Unsupported(reason.clone()),
                    String::from_str("\u{2014}"),
                ),
                DependencyKind::Supported { current_version, .. } => (
                    DependencyStatus::UpToDate,
                    current_version.text.clone(),
                ),
            };
            DependencyEntry {
                name,
                display_name,
                current_version_text,
                section,
                item_index,
                kind,
                latest_version: None,
                latest_version_text: None,
                status,
            }
        },
        Err(err) => {
            let reason = String::from_str("PEP 508 parse failed: ").concat(err.as_str());
            DependencyEntry {
                name: raw.clone(),
                display_name: raw.clone(),
                current_version_text: String::from_str("\u{2014}"),
                section,
                item_index,
                kind: DependencyKind::Unsupported { requirement: None, reason: reason.clone() },
                latest_version: None,
                latest_version_text: None,
                status: DependencyStatus::Unsupported(reason),
            }
        },
    }
}

/// Reads one string of a dependency array. A string that refers to
/// `${PROJECT_ROOT}` is not parsed (the parser could panic on it) and is
/// marked unsupported.
pub fn parse_dependency_entry(
    raw: String,
    section: DependencySection,
    item_index: usize,
    source_overrides: &Vec<String>,
) -> (r: DependencyEntry)
    ensures
        entry_basics(r, raw@, section@, item_index as int, source_overrides.deep_view()),
        !refers_to_env(raw@) ==> entry_from_parsed(
            r,
            pep508_outcome(raw@),
            raw@,
            section@,
            item_index as int,
            source_overrides.deep_view(),
        ),
        refers_to_project_root(raw@) ==> unread_entry(r, raw@, section@, item_index as int),
        entry_from(r, raw@, section@, item_index as int, source_overrides.deep_view()),
{
    if includes_text(raw.as_str(), "${PROJECT_ROOT}") {
        let reason = String::from_str("refers to ${PROJECT_ROOT}");
        proof {
            reveal_strlit("refers to ${PROJECT_ROOT}");
            lemma_project_root_refers_to_env(raw@);
        }
        return DependencyEntry {
            name: raw.clone(),
            display_name: raw,
            current_version_text: String::from_str("\u{2014}"),
            section,
            item_index,
            kind: DependencyKind::Unsupported { requirement: None, reason: reason.clone() },
            latest_version: None,
            latest_version_text: None,
            status: DependencyStatus::Unsupported(reason),
        };
    }
    let parsed = parse_requirement(raw.as_str());
    let ghost outcome = requirement_outcome(parsed);
    let r = entry_from_parse(parsed, raw, section, item_index, source_overrides);
    assert(entry_from_parsed(r, outcome, raw@, section@, item_index as int, source_overrides.deep_view()));
    r
}

/// The string elements of an array, with their positions.
pub open spec fn array_strings(items: Seq<(Option<Seq<char>>, Seq<char>)>) -> Seq<(Seq<char>, int)>
    decreases items.len(),
{
    if items.len() == 0 {
        seq![]
    } else {
        let before = array_strings(items.drop_last());
        match items.last().0 {
            Some(text) => before.push((text, items.len() - 1)),
            None => before,
        }
    }
}

/// The string elements, with their positions, of what a lookup found: none
/// unless it is an array.
pub open spec fn entry_strings(entry: Option<EntryModel>) -> Seq<(Seq<char>, int)> {
    match entry {
        Some(EntryModel::Array(items)) => array_strings(items),
        _ => seq![],
    }
}

/// The entries `out[from..]` are read from `strings`, all in `section`.
pub open spec fn entries_from(
    out: Seq<DependencyEntry>,
    from: int,
    strings: Seq<(Seq<char>, int)>,
    section: SectionModel,
    overrides: Seq<Seq<char>>,
) -> bool {
    &&& out.len() == from + strings.len()
    &&& forall|k: int|
        0 <= k < strings.len() ==> entry_from(
            #[trigger] out[from + k],
            strings[k].0,
            section,
            strings[k].1,
            overrides,
        )
}

/// Appends an entry for each string element of the array found at a key path.
pub fn collect_array_dependencies(
    item: &TomlEntry,
    section: &DependencySection,
    source_overrides: &Vec<String>,
    out: &mut Vec<DependencyEntry>,
)
    ensures
        final(out)@.subrange(0, old(out)@.len() as int) == old(out)@,
        entries_from(
            final(out)@,
            old(out)@.len() as int,
            entry_strings(Some(item@)),
            section@,
            source_overrides.deep_view(),
        ),
{
    let ghost start = out@.len() as int;
    let items = match item {
        TomlEntry::Array(items) => items,
        _ => {
            assert(out@.subrange(0, start) =~= out@);
            return;
        },
    };
    let n = items.len();
    let mut i: usize = 0;
    while i < n
        invariant
            n == items.len(),
            item@ == EntryModel::Array(items.deep_view()),
            i <= n,
            start == old(out)@.len(),
            out@.subrange(0, start) == old(out)@,
            entries_from(
                out@,
                start,
                array_strings(items.deep_view().take(i as int)),
                section@,
                source_overrides.deep_view(),
            ),
        decreases n - i,
    {
        let ghost prev = out@;
        let ghost before = array_strings(items.deep_view().take(i as int));
        assert(items.deep_view().take(i + 1).drop_last() =~= items.deep_view().take(i as int));
        match &items[i].text {
            Some(raw) => {
                let entry = parse_dependency_entry(raw.clone(), section.duplicate(), i, source_overrides);
                out.push(entry);
                assert(out@.subrange(0, start) =~= prev.subrange(0, start));
                let ghost after = array_strings(items.deep_view().take(i + 1));
                assert(after =~= before.push((raw@, i as int)));
                assert forall|k: int| 0 <= k < after.len() implies entry_from(
                    #[trigger] out@[start + k],
                    after[k].0,
                    section@,
                    after[k].1,
                    source_overrides.deep_view(),
                ) by {
                    if k < before.len() {
                        assert(out@[start + k] == prev[start + k]);
                    }
                }
            },
            None => {},
        }
        i = i + 1;
    }
    assert(items.deep_view().take(n as int) =~= items.deep_view());
}

/// The keys of what a lookup found: none unless it is a table.
pub open spec fn table_keys(entry: Option<EntryModel>) -> Seq<Seq<char>> {
    match entry {
        Some(EntryModel::TableKeys(keys)) => keys,
        _ => seq![],
    }
}

/// `[tool.uv.sources]`
pub open spec fn sources_path() -> Seq<Seq<char>> {
    seq!["tool"@, "uv"@, "sources"@]
}

/// `[project].dependencies`
pub open spec fn project_dependencies_path() -> Seq<Seq<char>> {
    seq!["project"@, "dependencies"@]
}

/// `[project.optional-dependencies]`
pub open spec fn optional_path() -> Seq<Seq<char>> {
    seq!["project"@, "optional-dependencies"@]
}

/// `[dependency-groups]`
pub open spec fn groups_path() -> Seq<Seq<char>> {
    seq!["dependency-groups"@]
}

/// `[project].name`
pub open spec fn project_name_path() -> Seq<Seq<char>> {
    seq!["project"@, "name"@]
}

/// The normalized names of the packages that `[tool.uv.sources]` manages.
pub open spec fn source_override_keys(content: Seq<char>) -> Seq<Seq<char>> {
    table_keys(toml_entry(content, sources_path())).map_values(|k: Seq<char>| normalized_name(k))
}

fn path_of(keys: &Vec<&str>) -> (r: Vec<String>)
    ensures
        r.deep_view() == keys@.map_values(|k: &str| k@),
{
    let n = keys.len();
    let mut r: Vec<String> = Vec::new();
    let mut i: usize = 0;
    while i < n
        invariant
            n == keys.len(),
            i <= n,
            r.deep_view() == keys@.take(i as int).map_values(|k: &str| k@),
        decreases n - i,
    {
        let ghost before = r.deep_view();
        r.push(String::from_str(keys[i]));
        assert(r.deep_view() =~= before.push(keys@[i as int]@));
        assert(keys@.take(i + 1) =~= keys@.take(i as int).push(keys@[i as int]));
        i = i + 1;
        assert(r.deep_view() =~= keys@.take(i as int).map_values(|k: &str| k@));
    }
    assert(keys@.take(n as int) =~= keys@);
    r
}

fn lookup_or_missing(content: &str, path: &Vec<String>) -> (r: TomlEntry)
    ensures
        entry_strings(Some(r@)) == entry_strings(toml_entry(content@, path.deep_view())),
        table_keys(Some(r@)) == table_keys(toml_entry(content@, path.deep_view())),
        r matches TomlEntry::Text(t) ==> toml_entry(content@, path.deep_view()) == Some(EntryModel::Text(t@)),
        !(r is Text) ==> !(toml_entry(content@, path.deep_view()) matches Some(EntryModel::Text(_))),
{
    match toml_lookup(content, path) {
        Some(entry) => entry,
        None => TomlEntry::Missing,
    }
}

/// The normalized names of the packages that `[tool.uv.sources]` manages.
pub fn collect_source_overrides(content: &str) -> (r: Vec<String>)
    ensures
        r.deep_view() == source_override_keys(content@),
{
    let path = path_of(&vec!["tool", "uv", "sources"]);
    proof { reveal_strlit("tool"); reveal_strlit("uv"); reveal_strlit("sources"); }
    assert(path.deep_view() =~= sources_path());
    let keys = match lookup_or_missing(content, &path) {
        TomlEntry::TableKeys(keys) => keys,
        _ => Vec::new(),
    };
    let ghost ks = table_keys(toml_entry(content@, sources_path()));
    assert(keys.deep_view() =~= ks);
    let n = keys.len();
    let mut overrides: Vec<String> = Vec::new();
    let mut i: usize = 0;
    while i < n
        invariant
            n == keys.len(),
            keys.deep_view() == ks,
            i <= n,
            overrides.deep_view() == ks.take(i as int).map_values(|k: Seq<char>| normalized_name(k)),
        decreases n - i,
    {
        let ghost before = overrides.deep_view();
        overrides.push(normalize_package_name(keys[i].as_str()));
        assert(overrides.deep_view() =~= before.push(normalized_name(ks[i as int])));
        assert(ks.take(i + 1) =~= ks.take(i as int).push(ks[i as int]));
        i = i + 1;
        assert(overrides.deep_view() =~= ks.take(i as int).map_values(|k: Seq<char>| normalized_name(k)));
    }
    assert(ks.take(n as int) =~= ks);
    overrides
}

/// Each string with the section it was found in.
pub open spec fn tagged(strings: Seq<(Seq<char>, int)>, section: SectionModel) -> Seq<(Seq<char>, SectionModel, int)> {
    strings.map_values(|p: (Seq<char>, int)| (p.0, section, p.1))
}

/// The section an array under a table key belongs to.
pub open spec fn keyed_section(group: bool, key: Seq<char>) -> SectionModel {
    if group {
        SectionModel::Group(key)
    } else {
        SectionModel::Optional(key)
    }
}

/// The strings of the arrays under `keys` of the table at `table`, key by key.
pub open spec fn keyed_strings(
    content: Seq<char>,
    table: Seq<Seq<char>>,
    keys: Seq<Seq<char>>,
    group: bool,
) -> Seq<(Seq<char>, SectionModel, int)>
    decreases keys.len(),
{
    if keys.len() == 0 {
        seq![]
    } else {
        keyed_strings(content, table, keys.drop_last(), group) + tagged(
            entry_strings(toml_entry(content, table.push(keys.last()))),
            keyed_section(group, keys.last()),
        )
    }
}

/// All dependency strings of a document, in the order the library lists them:
/// `[project].dependencies`, then each optional-dependency array, then each
/// dependency group.
pub open spec fn manifest_strings(content: Seq<char>) -> Seq<(Seq<char>, SectionModel, int)> {
    tagged(entry_strings(toml_entry(content, project_dependencies_path())), SectionModel::Project)
        + keyed_strings(content, optional_path(), table_keys(toml_entry(content, optional_path())), false)
        + keyed_strings(content, groups_path(), table_keys(toml_entry(content, groups_path())), true)
}

/// `out` holds one entry read from each of `strings`, in order.
pub open spec fn all_entries_from(
    out: Seq<DependencyEntry>,
    strings: Seq<(Seq<char>, SectionModel, int)>,
    overrides: Seq<Seq<char>>,
) -> bool {
    &&& out.len() == strings.len()
    &&& forall|i: int|
        0 <= i < strings.len() ==> entry_from(#[trigger] out[i], strings[i].0, strings[i].1, strings[i].2, overrides)
}

/// The project name: `[project].name` when it is a string, else the file path.
pub open spec fn project_name_of(content: Seq<char>, file_path: Seq<char>) -> Seq<char> {
    match toml_entry(content, project_name_path()) {
        Some(EntryModel::Text(name)) => name,
        _ => file_path,
    }
}

/// `project` is what the document `content` at `file_path` reads as.
pub open spec fn project_from(project: Project, file_path: Seq<char>, content: Seq<char>) -> bool {
    &&& project.file_path@ == file_path
    &&& project.name@ == project_name_of(content, file_path)
    &&& all_entries_from(project.dependencies@, manifest_strings(content), source_override_keys(content))
}

proof fn lemma_extend_entries(
    prev: Seq<DependencyEntry>,
    out: Seq<DependencyEntry>,
    acc: Seq<(Seq<char>, SectionModel, int)>,
    strings: Seq<(Seq<char>, int)>,
    section: SectionModel,
    overrides: Seq<Seq<char>>,
)
    requires
        all_entries_from(prev, acc, overrides),
        out.subrange(0, prev.len() as int) == prev,
        entries_from(out, prev.len() as int, strings, section, overrides),
    ensures
        all_entries_from(out, acc + tagged(strings, section), overrides),
{
    let all = acc + tagged(strings, section);
    assert forall|i: int| 0 <= i < all.len() implies entry_from(
        #[trigger] out[i],
        all[i].0,
        all[i].1,
        all[i].2,
        overrides,
    ) by {
        if i < acc.len() {
            assert(out[i] == out.subrange(0, prev.len() as int)[i]);
        } else {
            let k = i - acc.len();
            assert(out[prev.len() + k] == out[i]);
        }
    }
}

/// Appends the entries of the arrays under each key of the table at `table`.
fn collect_keyed(
    content: &str,
    table: &Vec<String>,
    group: bool,
    source_overrides: &Vec<String>,
    out: &mut Vec<DependencyEntry>,
    Ghost(acc): Ghost<Seq<(Seq<char>, SectionModel, int)>>,
)
    requires
        all_entries_from(old(out)@, acc, source_overrides.deep_view()),
    ensures
        all_entries_from(
            final(out)@,
            acc + keyed_strings(
                content@,
                table.deep_view(),
                table_keys(toml_entry(content@, table.deep_view())),
                group,
            ),
            source_overrides.deep_view(),
        ),
{
    let keys = match lookup_or_missing(content, table) {
        TomlEntry::TableKeys(keys) => keys,
        _ => Vec::new(),
    };
    let ghost ks = table_keys(toml_entry(content@, table.deep_view()));
    assert(keys.deep_view() =~= ks);
    let n = keys.len();
    let mut i: usize = 0;
    assert(acc + keyed_strings(content@, table.deep_view(), ks.take(0), group) =~= acc);
    while i < n
        invariant
            n == keys.len(),
            keys.deep_view() == ks,
            i <= n,
            all_entries_from(
                out@,
                acc + keyed_strings(content@, table.deep_view(), ks.take(i as int), group),
                source_overrides.deep_view(),
            ),
        decreases n - i,
    {
        let ghost prev = out@;
        let ghost done = acc + keyed_strings(content@, table.deep_view(), ks.take(i as int), group);
        let key = keys[i].clone();
        let mut path = table.clone();
        let ghost table_dv = table.deep_view();
        path.push(key.clone());
        assert(path.deep_view() =~= table_dv.push(ks[i as int]));
        let section = if group {
            DependencySection::Group(key)
        } else {
            DependencySection::Optional(key)
        };
        let entry = lookup_or_missing(content, &path);
        collect_array_dependencies(&entry, &section, source_overrides, out);
        proof {
            lemma_extend_entries(
                prev,
                out@,
                done,
                entry_strings(toml_entry(content@, path.deep_view())),
                section@,
                source_overrides.deep_view(),
            );
            assert(ks.take(i + 1).drop_last() =~= ks.take(i as int));
            assert(done + tagged(entry_strings(toml_entry(content@, path.deep_view())), section@) =~= acc
                + keyed_strings(content@, table.deep_view(), ks.take(i + 1), group));
        }
        i = i + 1;
    }
    assert(ks.take(n as int) =~= ks);
}

/// Reads a `pyproject.toml`: the project name, and an entry for each string
/// of its dependency arrays. Fails when `content` is not a TOML document.
pub fn parse_project(file_path: String, content: &str) -> (r: Result<Project, String>)
    ensures
        r is Err <==> toml_entry(content@, seq![]) is None,
        r matches Err(message) ==> message@ == "failed to parse "@ + file_path@,
        r matches Ok(project) ==> project_from(project, file_path@, content@),
{
    let root: Vec<String> = Vec::new();
    assert(root.deep_view() =~= Seq::<Seq<char>>::empty());
    if toml_lookup(content, &root).is_none() {
        return Err(String::from_str("failed to parse ").concat(file_path.as_str()));
    }
    proof {
        reveal_strlit("project");
        reveal_strlit("name");
        reveal_strlit("dependencies");
        reveal_strlit("optional-dependencies");
        reveal_strlit("dependency-groups");
    }
    let source_overrides = collect_source_overrides(content);
    let name_path = path_of(&vec!["project", "name"]);
    assert(name_path.deep_view() =~= project_name_path());
    let name = match lookup_or_missing(content, &name_path) {
        TomlEntry::Text(name) => name,
        _ => file_path.clone(),
    };
    let mut dependencies: Vec<DependencyEntry> = Vec::new();
    let ghost overrides = source_override_keys(content@);
    assert(all_entries_from(dependencies@, seq![], overrides));
    let deps_path = path_of(&vec!["project", "dependencies"]);
    assert(deps_path.deep_view() =~= project_dependencies_path());
    let entry = lookup_or_missing(content, &deps_path);
    collect_array_dependencies(&entry, &DependencySection::Project, &source_overrides, &mut dependencies);
    let ghost first = tagged(entry_strings(toml_entry(content@, project_dependencies_path())), SectionModel::Project);
    proof {
        lemma_extend_entries(
            seq![],
            dependencies@,
            seq![],
            entry_strings(toml_entry(content@, project_dependencies_path())),
            SectionModel::Project,
            overrides,
        );
        assert(Seq::<(Seq<char>, SectionModel, int)>::empty() + first =~= first);
    }
    let optional = path_of(&vec!["project", "optional-dependencies"]);
    assert(optional.deep_view() =~= optional_path());
    collect_keyed(content, &optional, false, &source_overrides, &mut dependencies, Ghost(first));
    let ghost second = first + keyed_strings(content@, optional_path(), table_keys(toml_entry(content@, optional_path())), false);
    let groups = path_of(&vec!["dependency-groups"]);
    assert(groups.deep_view() =~= groups_path());
    collect_keyed(content, &groups, true, &source_overrides, &mut dependencies, Ghost(second));
    Ok(Project { name, file_path, dependencies })
}

/// The requirement string written when updating: the name with its extras,
/// the strategy's operator, the new version, and the marker after ` ; `.
pub open spec fn requirement_text(
    name: Seq<char>,
    extras: Seq<Seq<char>>,
    strategy: SpecStrategy,
    version: Seq<char>,
    marker: Option<Seq<char>>,
) -> Seq<char> {
    let base = display_name_of(name, extras) + strategy_operator(strategy) + version;
    match marker {
        Some(m) => base + " ; "@ + m,
        None => base,
    }
}

/// Writes the requirement string for a supported entry, pinned to
/// `latest_version` with `strategy`.
pub fn build_requirement_string(dependency: &DependencyEntry, latest_version: &str, strategy: &SpecStrategy) -> (r: String)
    requires
        dependency.kind is Supported,
    ensures
        ({
            let requirement = dependency.kind->Supported_requirement@;
            r@ == requirement_text(dependency.name@, requirement.extras, *strategy, latest_version@, requirement.marker)
        }),
{
    let requirement = match &dependency.kind {
        DependencyKind::Supported { requirement, .. } => requirement,
        DependencyKind::Unsupported { .. } => {
            proof { assert(false); }
            return String::new();
        },
    };
    let mut out = chars_of(display_name(&dependency.name, &requirement.extras).as_str());
    push_str(&mut out, strategy.operator());
    push_str(&mut out, latest_version);
    match &requirement.marker {
        Some(marker) => {
            push_str(&mut out, " ; ");
            push_str(&mut out, marker.as_str());
        },
        None => {},
    }
    string_from_chars(&out)
}

/// The key path of the array that holds a section's entries.
pub open spec fn section_path(section: SectionModel) -> Seq<Seq<char>> {
    match section {
        SectionModel::Project => project_dependencies_path(),
        SectionModel::Optional(name) => optional_path().push(name),
        SectionModel::Group(name) => groups_path().push(name),
    }
}

/// The error for a section whose array is gone.
pub open spec fn not_an_array_message(section: SectionModel) -> Seq<char> {
    match section {
        SectionModel::Project => "project.dependencies is not an array"@,
        SectionModel::Optional(name) => "project.optional-dependencies."@ + name + " is not an array"@,
        SectionModel::Group(name) => "dependency-groups."@ + name + " is not an array"@,
    }
}

/// The document after element `index` of a section's array is rewritten to
/// hold `requirement`, written with the quote the old element used where that
/// is safe; or the error that stops it.
pub open spec fn replaced_content(
    content: Seq<char>,
    section: SectionModel,
    index: int,
    requirement: Seq<char>,
) -> Result<Seq<char>, Seq<char>> {
    match toml_entry(content, section_path(section)) {
        Some(EntryModel::Array(items)) => {
            if index >= items.len() {
                Err("missing array item "@ + decimal(index as nat))
            } else {
                let literal = toml_string_literal(requirement, quote_of(items[index].1));
                match toml_replaced(content, section_path(section), index as nat, literal) {
                    Some(updated) => Ok(updated),
                    None => Err("failed to build TOML string "@ + literal),
                }
            }
        },
        _ => Err(not_an_array_message(section)),
    }
}

fn section_key_path(section: &DependencySection) -> (r: Vec<String>)
    ensures
        r.deep_view() == section_path(section@),
{
    proof {
        reveal_strlit("project");
        reveal_strlit("dependencies");
        reveal_strlit("optional-dependencies");
        reveal_strlit("dependency-groups");
    }
    match section {
        DependencySection::Project => {
            let r = path_of(&vec!["project", "dependencies"]);
            assert(r.deep_view() =~= section_path(section@));
            r
        },
        DependencySection::Optional(name) => {
            let mut r = path_of(&vec!["project", "optional-dependencies"]);
            let ghost before = r.deep_view();
            r.push(name.clone());
            assert(r.deep_view() =~= before.push(name@));
            assert(r.deep_view() =~= section_path(section@));
            r
        },
        DependencySection::Group(name) => {
            let mut r = path_of(&vec!["dependency-groups"]);
            let ghost before = r.deep_view();
            r.push(name.clone());
            assert(r.deep_view() =~= before.push(name@));
            assert(r.deep_view() =~= section_path(section@));
            r
        },
    }
}

fn not_an_array(section: &DependencySection) -> (r: String)
    ensures
        r@ == not_an_array_message(section@),
{
    match section {
        DependencySection::Project => String::from_str("project.dependencies is not an array"),
        DependencySection::Optional(name) => String::from_str("project.optional-dependencies.").concat(
            name.as_str(),
        ).concat(" is not an array"),
        DependencySection::Group(name) => String::from_str("dependency-groups.").concat(name.as_str()).concat(
            " is not an array",
        ),
    }
}

/// `prefix` followed by the decimal text of `n`.
fn with_number(prefix: &str, n: usize) -> (r: String)
    ensures
        r@ == prefix@ + decimal(n as nat),
{
    let mut out = chars_of(prefix);
    push_decimal(&mut out, n as u64);
    string_from_chars(&out)
}

/// `updated` differs from `content` at most in element `index` of the array
/// at `path`: every other key path, and every other element, reads back as
/// before.
pub open spec fn rewrite_frame(content: Seq<char>, updated: Seq<char>, path: Seq<Seq<char>>, index: int) -> bool {
    &&& forall|p: Seq<Seq<char>>| p != path ==> #[trigger] toml_entry(updated, p) == toml_entry(content, p)
    &&& forall|p: Seq<Seq<char>>, k: int| !(p == path && k == index) ==> #[trigger] item_at(updated, p, k) == item_at(content, p, k)
}

/// Rewrites the entry's element of its section's array to hold
/// `new_requirement`, keeping the element's surroundings. Reading the new text
/// back finds `new_requirement` at the entry's position of that array, and
/// everything else as it was.
pub fn replace_requirement_value(content: &str, dependency: &DependencyEntry, new_requirement: &str) -> (r: Result<
    String,
    String,
>)
    ensures
        match r {
            Ok(updated) => replaced_content(content@, dependency.section@, dependency.item_index as int, new_requirement@)
                == Ok::<Seq<char>, Seq<char>>(updated@),
            Err(message) => replaced_content(content@, dependency.section@, dependency.item_index as int, new_requirement@)
                == Err::<Seq<char>, Seq<char>>(message@),
        },
        r matches Ok(updated) ==> toml_entry(updated@, section_path(dependency.section@)) matches Some(
            EntryModel::Array(items),
        ) && (dependency.item_index as int) < items.len() && items[dependency.item_index as int].0 == Some(
            new_requirement@,
        ),
        r matches Ok(updated) ==> rewrite_frame(content@, updated@, section_path(dependency.section@), dependency.item_index as int),
{
    let path = section_key_path(&dependency.section);
    let items = match toml_lookup(content, &path) {
        Some(TomlEntry::Array(items)) => items,
        _ => return Err(not_an_array(&dependency.section)),
    };
    let index = dependency.item_index;
    if index >= items.len() {
        return Err(with_number("missing array item ", index));
    }
    let quote = detect_quote_style(items[index].repr.as_str());
    let literal = format_toml_string(new_requirement, quote);
    match toml_replace_item(content, &path, index, literal.as_str()) {
        Some(updated) => Ok(updated),
        None => Err(String::from_str("failed to build TOML string ").concat(literal.as_str())),
    }
}

/// One rewritten requirement: `(display name, old version text, new version)`.
pub type UpdatedRow = (Seq<char>, Seq<char>, Seq<char>);

/// What rewriting one selected entry gives: the new document and its row, or
/// the error that stops the update.
pub open spec fn apply_one(dependency: DependencyEntry, content: Seq<char>) -> Result<(Seq<char>, UpdatedRow), Seq<char>> {
    match dependency.latest_version {
        None => Err("missing latest version for "@ + dependency.display_name@),
        Some(latest) => match dependency.kind {
            DependencyKind::Unsupported { reason, .. } => Err(
                "cannot update unsupported dependency "@ + dependency.display_name@ + ": "@ + reason@,
            ),
            DependencyKind::Supported { requirement, strategy, .. } => {
                let text = requirement_text(
                    dependency.name@,
                    requirement@.extras,
                    strategy,
                    latest.text@,
                    requirement@.marker,
                );
                match replaced_content(content, dependency.section@, dependency.item_index as int, text) {
                    Ok(updated) => Ok(
                        (updated, (dependency.display_name@, dependency.current_version_text@, latest.text@)),
                    ),
                    Err(e) => Err(e),
                }
            },
        },
    }
}

/// Rewriting, in index order, the selected selectable entries below `n`.
pub open spec fn updates_through(
    deps: Seq<DependencyEntry>,
    selected: Set<usize>,
    original: Seq<char>,
    n: int,
) -> Result<(Seq<char>, Seq<UpdatedRow>), Seq<char>>
    decreases n,
{
    if n <= 0 {
        Ok((original, seq![]))
    } else {
        match updates_through(deps, selected, original, n - 1) {
            Err(e) => Err(e),
            Ok((content, rows)) => {
                let i = n - 1;
                if i < deps.len() && selected.contains(i as usize) && is_selectable(deps[i]) {
                    match apply_one(deps[i], content) {
                        Ok((updated, row)) => Ok((updated, rows.push(row))),
                        Err(e) => Err(e),
                    }
                } else {
                    Ok((content, rows))
                }
            },
        }
    }
}

/// Whether a selected index names no entry.
pub open spec fn invalid_index(selected: Set<usize>, len: int, j: usize) -> bool {
    selected.contains(j) && j >= len
}

/// The outcome of updating `project`'s file, whose text is `original`, for the
/// `selected` entries: the new text and a row per rewritten requirement, or
/// the error, as the first failing step gives it.
pub open spec fn update_outcome(project: Project, selected: Set<usize>, original: Seq<char>) -> Result<
    (Seq<char>, Seq<UpdatedRow>),
    Seq<char>,
> {
    let deps = project.dependencies@;
    if toml_entry(original, seq![]) is None {
        Err("failed to parse "@ + project.file_path@)
    } else {
        match updates_through(deps, selected, original, deps.len() as int) {
            Err(e) => Err(e),
            Ok((content, rows)) => {
                if exists|j: usize| invalid_index(selected, deps.len() as int, j) {
                    let j = choose|j: usize|
                        invalid_index(selected, deps.len() as int, j) && forall|k: usize|
                            invalid_index(selected, deps.len() as int, k) ==> j <= k;
                    Err("invalid dependency index "@ + decimal(j as nat))
                } else if rows.len() == 0 {
                    Err("no updateable dependencies selected"@)
                } else {
                    Ok((content, rows))
                }
            },
        }
    }
}

/// The row of a rewritten entry: its display name, its old version text and
/// its new version.
pub open spec fn row_of(entry: DependencyEntry) -> UpdatedRow {
    (entry.display_name@, entry.current_version_text@, entry.latest_version->Some_0.text@)
}

/// The rows, in index order, of the selected entries below `n` that have an
/// update.
pub open spec fn selected_rows(deps: Seq<DependencyEntry>, selected: Set<usize>, n: int) -> Seq<UpdatedRow>
    decreases n,
{
    if n <= 0 {
        seq![]
    } else {
        let rest = selected_rows(deps, selected, n - 1);
        let i = n - 1;
        if i < deps.len() && selected.contains(i as usize) && is_selectable(deps[i]) {
            rest.push(row_of(deps[i]))
        } else {
            rest
        }
    }
}

proof fn lemma_updates_rows(deps: Seq<DependencyEntry>, selected: Set<usize>, original: Seq<char>, n: int)
    ensures
        updates_through(deps, selected, original, n) is Ok ==> updates_through(deps, selected, original, n)->Ok_0.1
            == selected_rows(deps, selected, n),
    decreases n,
{
    if n > 0 {
        lemma_updates_rows(deps, selected, original, n - 1);
    }
}

proof fn lemma_selected_rows_len(deps: Seq<DependencyEntry>, selected: Set<usize>, n: nat)
    requires
        n <= usize::MAX,
    ensures
        counted_below(deps, selected, n as int).finite(),
        selected_rows(deps, selected, n as int).len() == counted_below(deps, selected, n as int).len(),
    decreases n,
{
    if n == 0 {
        assert(counted_below(deps, selected, 0) =~= Set::empty());
    } else {
        lemma_selected_rows_len(deps, selected, (n - 1) as nat);
        lemma_counted_below_step(deps, selected, (n - 1) as usize);
    }
}

/// A successful update rewrites exactly the selected entries that have an
/// update: one row each, in index order, with the entry's name, old version
/// text and new version; as many rows as the confirmation screen counts, and
/// at least one.
pub proof fn lemma_update_rows(project: Project, selected: Set<usize>, original: Seq<char>)
    requires
        update_outcome(project, selected, original) is Ok,
    ensures
        ({
            let deps = project.dependencies@;
            let rows = update_outcome(project, selected, original)->Ok_0.1;
            &&& rows == selected_rows(deps, selected, deps.len() as int)
            &&& rows.len() == selected.intersect(selectable_indexes(deps)).len()
            &&& rows.len() > 0
        }),
{
    let deps = project.dependencies@;
    lemma_updates_rows(deps, selected, original, deps.len() as int);
    lemma_selected_rows_len(deps, selected, project.dependencies.len() as nat);
    lemma_selected_counted(deps, selected);
}

/// The new text of a project file and what was rewritten in it.
#[derive(Clone, Debug)]
pub struct PreparedUpdate {
    pub content: String,
    pub updated: Vec<(String, String, String)>,
}

/// The smallest selected index that names no entry, if any.
fn first_invalid_index(selected: &BTreeSet<usize>, len: usize) -> (r: Option<usize>)
    ensures
        match r {
            Some(j) => invalid_index(selected@, len as int, j) && forall|k: usize|
                invalid_index(selected@, len as int, k) ==> j <= k,
            None => forall|k: usize| !invalid_index(selected@, len as int, k),
        },
{
    let mut best: Option<usize> = None;
    let ghost mut seen: Set<usize> = Set::empty();
    for x in it: selected.iter()
        invariant
            it.seq().unref().to_set() == selected@,
            seen == it.seq().unref().take(it.index()).to_set(),
            it.index() == it.seq().len() ==> seen == selected@,
            match best {
                Some(j) => invalid_index(selected@, len as int, j) && forall|q: usize|
                    seen.contains(q) && q >= len ==> j <= q,
                None => forall|q: usize| seen.contains(q) ==> q < len,
            },
    {
        let v = *x;
        proof {
            let s = it.seq().unref();
            assert(0 <= it.index() < s.len());
            assert(v == s[it.index()]);
            assert(s.take(it.index() + 1) =~= s.take(it.index()).push(v));
            s.take(it.index()).lemma_push_to_set_commute(v);
            if it.index() + 1 == s.len() {
                assert(s.take(it.index() + 1) =~= s);
            }
            assert(s.to_set().contains(v));
            seen = seen.insert(v);
        }
        if v >= len {
            match best {
                Some(j) => {
                    if v < j {
                        best = Some(v);
                    }
                },
                None => {
                    best = Some(v);
                },
            }
        }
    }
    assert(seen == selected@);
    best
}

proof fn lemma_updates_error_sticks(
    deps: Seq<DependencyEntry>,
    selected: Set<usize>,
    original: Seq<char>,
    k: int,
    m: int,
)
    requires
        0 <= k <= m,
        updates_through(deps, selected, original, k) is Err,
    ensures
        updates_through(deps, selected, original, m) == updates_through(deps, selected, original, k),
    decreases m - k,
{
    if m > k {
        lemma_updates_error_sticks(deps, selected, original, k, m - 1);
    }
}

/// Rewrites one selected entry in `content`.
fn apply_entry(dependency: &DependencyEntry, content: &str) -> (r: Result<(String, (String, String, String)), String>)
    ensures
        match r {
            Ok((updated, row)) => apply_one(*dependency, content@) == Ok::<(Seq<char>, UpdatedRow), Seq<char>>(
                (updated@, row.deep_view()),
            ),
            Err(e) => apply_one(*dependency, content@) == Err::<(Seq<char>, UpdatedRow), Seq<char>>(e@),
        },
        r matches Ok((updated, _)) ==> rewrite_frame(
            content@,
            updated@,
            section_path(dependency.section@),
            dependency.item_index as int,
        ),
{
    let latest = match &dependency.latest_version {
        Some(latest) => latest,
        None => {
            return Err(String::from_str("missing latest version for ").concat(dependency.display_name.as_str()));
        },
    };
    let strategy = match &dependency.kind {
        DependencyKind::Supported { strategy, .. } => *strategy,
        DependencyKind::Unsupported { reason, .. } => {
            return Err(
                String::from_str("cannot update unsupported dependency ").concat(
                    dependency.display_name.as_str(),
                ).concat(": ").concat(reason.as_str()),
            );
        },
    };
    let current = dependency.current_version_text.clone();
    let new_requirement = build_requirement_string(dependency, latest.text.as_str(), &strategy);
    match replace_requirement_value(content, dependency, new_requirement.as_str()) {
        Ok(updated) => Ok((updated, (dependency.display_name.clone(), current, latest.text.clone()))),
        Err(e) => Err(e),
    }
}

/// Whether entry `j` is rewritten by an update: it is selected and has an
/// update.
pub open spec fn rewritten(deps: Seq<DependencyEntry>, selected: Set<usize>, j: int) -> bool {
    0 <= j < deps.len() && selected.contains(j as usize) && is_selectable(deps[j])
}

/// No entry below `n` that an update rewrites stands at element `k` of the
/// array at `p`.
pub open spec fn element_untouched(
    deps: Seq<DependencyEntry>,
    selected: Set<usize>,
    n: int,
    p: Seq<Seq<char>>,
    k: int,
) -> bool {
    forall|j: int|
        0 <= j < n && #[trigger] rewritten(deps, selected, j) ==> !(section_path(deps[j].section@) == p
            && deps[j].item_index == k)
}

/// No entry below `n` that an update rewrites stands in the array at `p`.
pub open spec fn path_untouched(deps: Seq<DependencyEntry>, selected: Set<usize>, n: int, p: Seq<Seq<char>>) -> bool {
    forall|j: int| 0 <= j < n && #[trigger] rewritten(deps, selected, j) ==> section_path(deps[j].section@) != p
}

/// Computes the new text of a project file, whose current text is
/// `original`, with every selected entry that has an update rewritten to its
/// newest version; or the error that stops the update. Everything else is
/// left untouched: every array element where no rewritten entry stands, and
/// every key path other than the rewritten arrays, reads back as before.
pub fn prepare_update(project: &Project, selected: &BTreeSet<usize>, original: &str) -> (r: Result<PreparedUpdate, String>)
    ensures
        match r {
            Ok(prepared) => update_outcome(*project, selected@, original@) == Ok::<
                (Seq<char>, Seq<UpdatedRow>),
                Seq<char>,
            >((prepared.content@, prepared.updated.deep_view())),
            Err(e) => update_outcome(*project, selected@, original@) == Err::<
                (Seq<char>, Seq<UpdatedRow>),
                Seq<char>,
            >(e@),
        },
        r matches Ok(prepared) ==> forall|p: Seq<Seq<char>>, k: int|
            element_untouched(project.dependencies@, selected@, project.dependencies.len() as int, p, k)
                ==> #[trigger] item_at(prepared.content@, p, k) == item_at(original@, p, k),
        r matches Ok(prepared) ==> forall|p: Seq<Seq<char>>|
            path_untouched(project.dependencies@, selected@, project.dependencies.len() as int, p)
                ==> #[trigger] toml_entry(prepared.content@, p) == toml_entry(original@, p),
{
    let root: Vec<String> = Vec::new();
    assert(root.deep_view() =~= Seq::<Seq<char>>::empty());
    if toml_lookup(original, &root).is_none() {
        return Err(String::from_str("failed to parse ").concat(project.file_path.as_str()));
    }
    let ghost deps = project.dependencies@;
    let n = project.dependencies.len();
    let mut content = String::from_str(original);
    let mut rows: Vec<(String, String, String)> = Vec::new();
    let mut i: usize = 0;
    assert(rows.deep_view() =~= Seq::<UpdatedRow>::empty());
    while i < n
        invariant
            n == deps.len(),
            deps == project.dependencies@,
            i <= n,
            toml_entry(original@, seq![]) is Some,
            updates_through(deps, selected@, original@, i as int) == Ok::<
                (Seq<char>, Seq<UpdatedRow>),
                Seq<char>,
            >((content@, rows.deep_view())),
            forall|p: Seq<Seq<char>>, k: int|
                element_untouched(deps, selected@, i as int, p, k) ==> #[trigger] item_at(content@, p, k)
                    == item_at(original@, p, k),
            forall|p: Seq<Seq<char>>|
                path_untouched(deps, selected@, i as int, p) ==> #[trigger] toml_entry(content@, p) == toml_entry(
                    original@,
                    p,
                ),
        decreases n - i,
    {
        let dependency = &project.dependencies[i];
        let ghost before_content = content@;
        if selected.contains(&i) && dependency.selectable() {
            match apply_entry(dependency, content.as_str()) {
                Ok((updated, row)) => {
                    proof {
                        assert(rewritten(deps, selected@, i as int));
                        assert forall|p: Seq<Seq<char>>, k: int|
                            element_untouched(deps, selected@, i + 1, p, k) implies #[trigger] item_at(updated@, p, k)
                                == item_at(original@, p, k) by {
                            assert(element_untouched(deps, selected@, i as int, p, k));
                        }
                        assert forall|p: Seq<Seq<char>>|
                            path_untouched(deps, selected@, i + 1, p) implies #[trigger] toml_entry(updated@, p)
                                == toml_entry(original@, p) by {
                            assert(path_untouched(deps, selected@, i as int, p));
                        }
                    }
                    let ghost before = rows.deep_view();
                    content = updated;
                    rows.push(row);
                    assert(rows.deep_view() =~= before.push(row.deep_view()));
                },
                Err(e) => {
                    proof {
                        assert(updates_through(deps, selected@, original@, i + 1) == Err::<
                            (Seq<char>, Seq<UpdatedRow>),
                            Seq<char>,
                        >(e@));
                        lemma_updates_error_sticks(deps, selected@, original@, i + 1, n as int);
                    }
                    return Err(e);
                },
            }
        }
        i = i + 1;
    }
    match first_invalid_index(selected, n) {
        Some(j) => {
            proof {
                let c = choose|c: usize|
                    invalid_index(selected@, n as int, c) && forall|k: usize|
                        invalid_index(selected@, n as int, k) ==> c <= k;
                assert(c <= j && j <= c);
            }
            return Err(with_number("invalid dependency index ", j));
        },
        None => {},
    }
    if rows.len() == 0 {
        return Err(String::from_str("no updateable dependencies selected"));
    }
    Ok(PreparedUpdate { content, updated: rows })
}

/// How an update ends once `uv lock` has run.
#[derive(Clone, Debug)]
pub enum UpdateOutcome {
    /// The lock succeeded: the new file stays.
    Committed(UpdateSummary),
    /// The lock failed: the original text is to be written back, and the
    /// lock's error reported.
    RolledBack { restore: String, error: String },
}

/// Decides how an update ends: committed when the lock succeeded, rolled back
/// to `original` when it failed.
pub fn settle_update(project: &Project, prepared: PreparedUpdate, lock: Result<(), String>, original: String) -> (r: UpdateOutcome)
    ensures
        match lock {
            Ok(()) => r matches UpdateOutcome::Committed(summary) && summary.project_name@ == project.name@
                && summary.file_path@ == project.file_path@ && summary.updated.deep_view()
                == prepared.updated.deep_view(),
            Err(e) => r matches UpdateOutcome::RolledBack { restore, error } && restore@ == original@ && error@ == e@,
        },
{
    match lock {
        Ok(()) => UpdateOutcome::Committed(
            UpdateSummary {
                project_name: project.name.clone(),
                file_path: project.file_path.clone(),
                updated: prepared.updated,
            },
        ),
        Err(error) => UpdateOutcome::RolledBack { restore: original, error },
    }
}

} // verus!
