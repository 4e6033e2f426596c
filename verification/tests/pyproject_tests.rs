use std::collections::BTreeSet;

use uvlift::model::{ChangeKind, DependencyEntry, DependencyKind, DependencySection, DependencyStatus, Project, SpecStrategy};
use uvlift::pep::{RequirementInfo, RequirementTarget, VersionClause, VersionInfo};
use uvlift::pyproject::{
    build_requirement_string, collect_source_overrides, entry_from_parse, detect_quote_style, format_toml_string,
    normalize_package_name, parse_dependency_entry, parse_project, prepare_update, replace_requirement_value,
    settle_update, should_skip, UpdateOutcome,
};

fn parse_project_from_str(content: &str) -> Project {
    parse_project("pyproject.toml".to_string(), content).unwrap()
}

fn dependency_index(project: &Project, section: &DependencySection, name: &str) -> usize {
    project
        .dependencies
        .iter()
        .position(|dependency| dependency.section == *section && dependency.display_name == name)
        .unwrap()
}

fn version(text: &str, release: &[u64]) -> VersionInfo {
    VersionInfo { text: text.to_string(), release: release.to_vec() }
}

fn make_update_available(project: &mut Project, index: usize, latest: &str, release: &[u64]) {
    let dependency = &mut project.dependencies[index];
    dependency.latest_version = Some(version(latest, release));
    dependency.latest_version_text = Some(latest.to_string());
    dependency.status = DependencyStatus::UpdateAvailable(ChangeKind::Minor);
}

fn entry(raw: &str) -> DependencyEntry {
    parse_dependency_entry(raw.to_string(), DependencySection::Project, 0, &Vec::new())
}

fn components(path: &str) -> Vec<String> {
    path.split('/').map(|part| part.to_string()).collect()
}

#[test]
fn preserves_section_and_item_when_updating() {
    let content = r#"
[project]
dependencies = ["httpx>=0.27.0"]

[project.optional-dependencies]
cli = ["httpx>=0.27.0"]
"#;
    let project = parse_project_from_str(content);
    let dependency = project
        .dependencies
        .iter()
        .find(|dependency| dependency.section == DependencySection::Project)
        .unwrap();

    let rendered = replace_requirement_value(content, dependency, "httpx>=0.28.1").unwrap();

    assert!(rendered.contains("dependencies = [\"httpx>=0.28.1\"]"));
    assert!(rendered.contains("cli = [\"httpx>=0.27.0\"]"));
}

#[test]
fn preserves_extras_markers_and_single_quotes_on_update() {
    let content = r#"
[project]
dependencies = ['httpx[http2]>=0.27.0 ; python_version < "3.12"']
"#;
    let project = parse_project_from_str(content);
    let dependency = project.dependencies.first().unwrap();

    let updated = build_requirement_string(dependency, "0.28.1", &SpecStrategy::Minimum);
    let rendered = replace_requirement_value(content, dependency, &updated).unwrap();

    assert!(rendered.contains("\"httpx[http2]>=0.28.1 ; python_full_version < '3.12'\""));
}

#[test]
fn preserves_single_quotes_when_safe() {
    let content = r#"
[project]
dependencies = ['httpx>=0.27.0']
"#;
    let project = parse_project_from_str(content);
    let dependency = project.dependencies.first().unwrap();

    let rendered = replace_requirement_value(content, dependency, "httpx>=0.28.1").unwrap();

    assert!(rendered.contains("'httpx>=0.28.1'"));
}

#[test]
fn updates_optional_dependency_only() {
    let content = r#"
[project]
name = "demo"
dependencies = ["httpx>=0.27.0"]

[project.optional-dependencies]
cli = ["rich>=13.0.0"]
"#;
    let project = parse_project_from_str(content);
    let dependency =
        &project.dependencies[dependency_index(&project, &DependencySection::Optional("cli".to_string()), "rich")];

    let rendered = replace_requirement_value(content, dependency, "rich>=14.0.0").unwrap();

    assert!(rendered.contains("dependencies = [\"httpx>=0.27.0\"]"));
    assert!(rendered.contains("cli = [\"rich>=14.0.0\"]"));
}

#[test]
fn updates_dependency_group_only() {
    let content = r#"
[project]
name = "demo"
dependencies = ["httpx>=0.27.0"]

[dependency-groups]
dev = ["pytest>=8.0.0"]
"#;
    let project = parse_project_from_str(content);
    let dependency =
        &project.dependencies[dependency_index(&project, &DependencySection::Group("dev".to_string()), "pytest")];

    let rendered = replace_requirement_value(content, dependency, "pytest>=8.3.0").unwrap();

    assert!(rendered.contains("dependencies = [\"httpx>=0.27.0\"]"));
    assert!(rendered.contains("dev = [\"pytest>=8.3.0\"]"));
}

#[test]
fn marks_multi_clause_specifiers_unsupported() {
    let dependency = parse_dependency_entry("httpx>=0.27,<1".to_string(), DependencySection::Project, 0, &Vec::new());

    assert!(matches!(dependency.status, DependencyStatus::Unsupported(_)));
}

#[test]
fn marks_unpinned_and_direct_url_requirements_unsupported() {
    for raw in [
        "httpx",
        "httpx @ https://example.com/httpx.whl",
        "gitpkg @ git+https://github.com/example/project",
    ] {
        let dependency = parse_dependency_entry(raw.to_string(), DependencySection::Project, 0, &Vec::new());

        assert!(matches!(dependency.status, DependencyStatus::Unsupported(_)));
    }
}

#[test]
fn marks_unsupported_operators() {
    for raw in ["httpx!=0.27.0", "httpx<0.27.0", "httpx<=0.27.0", "httpx>0.27.0", "httpx===0.27.0"] {
        let dependency = parse_dependency_entry(raw.to_string(), DependencySection::Project, 0, &Vec::new());

        assert!(matches!(dependency.status, DependencyStatus::Unsupported(_)));
    }
}

#[test]
fn marks_source_override_unsupported() {
    let overrides = vec!["httpx".to_string()];

    let dependency = parse_dependency_entry("httpx>=0.27".to_string(), DependencySection::Project, 0, &overrides);

    assert!(matches!(dependency.status, DependencyStatus::Unsupported(_)));
}

#[test]
fn normalizes_source_override_names() {
    let content = r#"
[project]
dependencies = ["foo-bar-baz>=1.0.0"]

[tool.uv.sources]
"foo_bar.baz" = { path = "./vendor/foo" }
"#;
    let project = parse_project_from_str(content);

    assert!(matches!(project.dependencies.first().unwrap().status, DependencyStatus::Unsupported(_)));
}

#[test]
fn supports_exact_compatible_and_minimum() {
    for raw in ["httpx==0.27.0", "httpx~=0.27.0", "httpx>=0.27.0"] {
        let dependency = parse_dependency_entry(raw.to_string(), DependencySection::Project, 0, &Vec::new());
        assert!(matches!(dependency.kind, DependencyKind::Supported { .. }));
    }
}

#[test]
fn load_projects_scans_multiple_sections_and_skips_vendor_dirs() {
    let files = [
        (
            "apps/api/pyproject.toml",
            r#"
[project]
name = "api"
dependencies = ["httpx>=0.27.0"]

[project.optional-dependencies]
cli = ["rich>=13.0.0"]

[dependency-groups]
dev = ["pytest>=8.0.0"]
"#,
        ),
        (
            "libs/tool/pyproject.toml",
            r#"
[project]
name = "tool"
dependencies = ["typer>=0.12.0"]
"#,
        ),
        (
            "node_modules/ignored/pyproject.toml",
            r#"
[project]
name = "ignored"
dependencies = ["bad>=1.0.0"]
"#,
        ),
        (
            ".venv/ignored/pyproject.toml",
            r#"
[project]
name = "ignored-two"
dependencies = ["bad>=1.0.0"]
"#,
        ),
    ];

    let projects: Vec<Project> = files
        .iter()
        .filter(|(path, _)| !should_skip(&components(path)))
        .map(|(path, content)| parse_project(path.to_string(), content).unwrap())
        .collect();

    assert_eq!(projects.len(), 2);
    let api = projects.iter().find(|project| project.name == "api").unwrap();
    assert_eq!(api.dependencies.len(), 3);
    assert!(api.dependencies.iter().any(|dependency| dependency.section == DependencySection::Project));
    assert!(api
        .dependencies
        .iter()
        .any(|dependency| dependency.section == DependencySection::Optional("cli".to_string())));
    assert!(api.dependencies.iter().any(|dependency| dependency.section == DependencySection::Group("dev".to_string())));
}

#[test]
fn update_project_runs_lock_and_writes_selected_items() {
    let original = r#"
[project]
name = "demo"
dependencies = ["httpx>=0.27.0"]

[project.optional-dependencies]
cli = ["rich>=13.0.0"]
"#;
    let mut project = parse_project("demo/pyproject.toml".to_string(), original).unwrap();
    let project_index = dependency_index(&project, &DependencySection::Project, "httpx");
    let optional_index = dependency_index(&project, &DependencySection::Optional("cli".to_string()), "rich");
    make_update_available(&mut project, project_index, "0.28.1", &[0, 28, 1]);
    make_update_available(&mut project, optional_index, "14.0.0", &[14, 0, 0]);

    let mut selected = BTreeSet::new();
    selected.insert(project_index);
    selected.insert(optional_index);

    let prepared = prepare_update(&project, &selected, original).unwrap();
    let rendered = prepared.content.clone();
    let summary = match settle_update(&project, prepared, Ok(()), original.to_string()) {
        UpdateOutcome::Committed(summary) => summary,
        UpdateOutcome::RolledBack { .. } => panic!("the lock succeeded"),
    };

    assert!(rendered.contains("dependencies = [\"httpx>=0.28.1\"]"));
    assert!(rendered.contains("cli = [\"rich>=14.0.0\"]"));
    assert_eq!(summary.updated.len(), 2);
    assert_eq!(summary.project_name, "demo");
    assert_eq!(summary.file_path, "demo/pyproject.toml");
    assert_eq!(
        summary.updated[0],
        ("httpx".to_string(), "0.27.0".to_string(), "0.28.1".to_string())
    );
}

#[test]
fn update_project_rolls_back_when_lock_fails() {
    let original = r#"
[project]
name = "demo"
dependencies = ["httpx>=0.27.0"]
"#;
    let mut project = parse_project("pyproject.toml".to_string(), original).unwrap();
    let dependency_index = dependency_index(&project, &DependencySection::Project, "httpx");
    make_update_available(&mut project, dependency_index, "0.28.1", &[0, 28, 1]);

    let mut selected = BTreeSet::new();
    selected.insert(dependency_index);

    let prepared = prepare_update(&project, &selected, original).unwrap();
    assert_ne!(prepared.content, original);
    match settle_update(&project, prepared, Err("lock failed on purpose".to_string()), original.to_string()) {
        UpdateOutcome::RolledBack { restore, error } => {
            assert!(error.contains("lock failed on purpose"));
            assert_eq!(restore, original);
        },
        UpdateOutcome::Committed(_) => panic!("the lock failed"),
    }
}

#[test]
fn marks_invalid_requirement_syntax_unsupported() {
    let dependency =
        parse_dependency_entry("!not-a-valid-requirement".to_string(), DependencySection::Project, 0, &Vec::new());

    assert!(matches!(dependency.status, DependencyStatus::Unsupported(_)));
}

#[test]
fn normalizes_case_underscores_and_dots() {
    assert_eq!(normalize_package_name("Foo_Bar.Baz"), "foo-bar-baz");
    assert_eq!(normalize_package_name("already-normal"), "already-normal");
    let once = normalize_package_name("My_Package.Name");
    assert_eq!(normalize_package_name(&once), once);
}

#[test]
fn skips_each_vendor_directory() {
    for dir in [".git", ".venv", "venv", "node_modules", ".tox", "target"] {
        assert!(should_skip(&components(&format!("repo/{dir}/pkg/pyproject.toml"))));
    }
    assert!(!should_skip(&components("repo/apps/api/pyproject.toml")));
    assert!(!should_skip(&components("repo/venvs/pyproject.toml")));
    assert!(!should_skip(&Vec::new()));
}

#[test]
fn quote_style_follows_the_first_character() {
    assert_eq!(detect_quote_style("'httpx>=1'"), '\'');
    assert_eq!(detect_quote_style("\"httpx>=1\""), '"');
    assert_eq!(detect_quote_style(""), '"');
}

#[test]
fn formats_toml_strings() {
    assert_eq!(format_toml_string("httpx>=1", '\''), "'httpx>=1'");
    assert_eq!(format_toml_string("it's", '\''), "\"it's\"");
    assert_eq!(format_toml_string("a\"b\\c", '"'), "\"a\\\"b\\\\c\"");
    assert_eq!(format_toml_string("plain", '"'), "\"plain\"");
}

#[test]
fn reads_entry_fields() {
    let dependency = parse_dependency_entry(
        "Rich[extra,jupyter]==13.7.0".to_string(),
        DependencySection::Group("dev".to_string()),
        4,
        &Vec::new(),
    );
    assert_eq!(dependency.name, "rich");
    assert_eq!(dependency.display_name, "rich[extra,jupyter]");
    assert_eq!(dependency.current_version_text, "13.7.0");
    assert_eq!(dependency.item_index, 4);
    assert_eq!(dependency.section, DependencySection::Group("dev".to_string()));
    assert!(matches!(dependency.status, DependencyStatus::UpToDate));
    assert!(matches!(dependency.kind, DependencyKind::Supported { strategy: SpecStrategy::Exact, .. }));
}

#[test]
fn unsupported_reasons_name_the_problem() {
    let reason = |raw: &str| match entry(raw).status {
        DependencyStatus::Unsupported(reason) => reason,
        other => panic!("{raw}: {other:?}"),
    };
    assert_eq!(reason("httpx"), "unpinned requirement");
    assert_eq!(reason("httpx @ https://example.com/httpx.whl"), "direct URL requirement");
    assert_eq!(reason("httpx>=0.27,<1"), "multi-clause version specifier");
    assert_eq!(reason("httpx<0.27"), "unsupported operator <");
    assert!(reason("!bad").starts_with("PEP 508 parse failed: "));
    let overridden = parse_dependency_entry("httpx>=1".to_string(), DependencySection::Project, 0, &vec!["httpx".to_string()]);
    assert!(matches!(overridden.status, DependencyStatus::Unsupported(ref r) if r == "managed by tool.uv.sources"));
    assert_eq!(entry("httpx").current_version_text, "\u{2014}");
}

#[test]
fn collects_normalized_source_overrides() {
    let content = r#"
[tool.uv.sources]
"Foo_Bar" = { path = "./foo" }
baz = { git = "https://example.com/baz" }
"#;
    let overrides = collect_source_overrides(content);
    assert_eq!(overrides, vec!["foo-bar".to_string(), "baz".to_string()]);
    assert!(collect_source_overrides("[project]\nname = \"x\"\n").is_empty());
}

#[test]
fn project_name_falls_back_to_the_path() {
    let project = parse_project("some/dir/pyproject.toml".to_string(), "[project]\ndependencies = []\n").unwrap();
    assert_eq!(project.name, "some/dir/pyproject.toml");
    assert!(project.dependencies.is_empty());
}

#[test]
fn unparsable_file_is_an_error() {
    let error = parse_project("bad/pyproject.toml".to_string(), "[project\nname = ").unwrap_err();
    assert_eq!(error, "failed to parse bad/pyproject.toml");
}

#[test]
fn non_string_items_are_skipped_but_keep_positions() {
    let content = "[project]\ndependencies = [1, \"httpx>=1.0\"]\n";
    let project = parse_project_from_str(content);
    assert_eq!(project.dependencies.len(), 1);
    assert_eq!(project.dependencies[0].item_index, 1);
}

#[test]
fn builds_requirement_with_each_strategy() {
    let dependency = entry("httpx>=0.27.0");
    assert_eq!(build_requirement_string(&dependency, "0.28.1", &SpecStrategy::Exact), "httpx==0.28.1");
    assert_eq!(build_requirement_string(&dependency, "0.28.1", &SpecStrategy::Compatible), "httpx~=0.28.1");
    assert_eq!(build_requirement_string(&dependency, "0.28.1", &SpecStrategy::Minimum), "httpx>=0.28.1");
}

#[test]
fn replace_reports_missing_array() {
    let content = "[project]\ndependencies = \"httpx\"\n";
    let dependency = entry("httpx>=1");
    assert_eq!(
        replace_requirement_value(content, &dependency, "httpx>=2").unwrap_err(),
        "project.dependencies is not an array"
    );
    let mut far = entry("httpx>=1");
    far.item_index = 3;
    assert_eq!(
        replace_requirement_value("[project]\ndependencies = [\"httpx>=1\"]\n", &far, "httpx>=2").unwrap_err(),
        "missing array item 3"
    );
    let grouped = parse_dependency_entry("httpx>=1".to_string(), DependencySection::Group("dev".to_string()), 0, &Vec::new());
    assert_eq!(
        replace_requirement_value("[project]\n", &grouped, "httpx>=2").unwrap_err(),
        "dependency-groups.dev is not an array"
    );
}

#[test]
fn update_errors() {
    let original = "[project]\nname = \"demo\"\ndependencies = [\"httpx>=0.27.0\"]\n";
    let mut project = parse_project("p.toml".to_string(), original).unwrap();

    let mut nothing_outdated = BTreeSet::new();
    nothing_outdated.insert(0);
    assert_eq!(
        prepare_update(&project, &nothing_outdated, original).unwrap_err(),
        "no updateable dependencies selected"
    );
    assert_eq!(
        prepare_update(&project, &BTreeSet::new(), original).unwrap_err(),
        "no updateable dependencies selected"
    );

    make_update_available(&mut project, 0, "0.28.1", &[0, 28, 1]);
    let mut out_of_range = BTreeSet::new();
    out_of_range.insert(0);
    out_of_range.insert(7);
    out_of_range.insert(5);
    assert_eq!(prepare_update(&project, &out_of_range, original).unwrap_err(), "invalid dependency index 5");

    assert_eq!(
        prepare_update(&project, &nothing_outdated, "[project").unwrap_err(),
        "failed to parse p.toml"
    );

    project.dependencies[0].latest_version = None;
    assert_eq!(
        prepare_update(&project, &nothing_outdated, original).unwrap_err(),
        "missing latest version for httpx"
    );
}

#[test]
fn unselected_and_up_to_date_entries_are_left_alone() {
    let original = "[project]\nname = \"demo\"\ndependencies = [\"httpx>=0.27.0\", \"rich>=13.0.0\", \"typer>=0.12\"]\n";
    let mut project = parse_project("p.toml".to_string(), original).unwrap();
    make_update_available(&mut project, 0, "0.28.1", &[0, 28, 1]);
    make_update_available(&mut project, 1, "14.0.0", &[14, 0, 0]);
    let mut selected = BTreeSet::new();
    selected.insert(1);
    selected.insert(2);
    let prepared = prepare_update(&project, &selected, original).unwrap();
    assert_eq!(
        prepared.content,
        "[project]\nname = \"demo\"\ndependencies = [\"httpx>=0.27.0\", \"rich>=14.0.0\", \"typer>=0.12\"]\n"
    );
    assert_eq!(prepared.updated, vec![("rich".to_string(), "13.0.0".to_string(), "14.0.0".to_string())]);
    assert_eq!(prepared.updated.len(), project.selected_count(&selected));
}

#[test]
fn rewritten_requirement_reads_back() {
    let content = "[project]\nname = \"demo\"\ndependencies = [\n    'httpx>=0.27.0',\n    \"rich>=13.0.0\",\n]\n";
    let project = parse_project_from_str(content);
    let dependency = &project.dependencies[0];
    let rendered = replace_requirement_value(content, dependency, "httpx[http2]>=0.28.1 ; python_version < \"3.12\"").unwrap();
    let reread = parse_project_from_str(&rendered);
    assert_eq!(reread.dependencies.len(), 2);
    assert_eq!(reread.dependencies[0].display_name, "httpx[http2]");
    assert_eq!(reread.dependencies[0].current_version_text, "0.28.1");
    assert_eq!(reread.dependencies[1].display_name, "rich");
    assert!(rendered.contains("\"rich>=13.0.0\""));
}

#[test]
fn entries_from_a_given_parse_result() {
    let requirement = RequirementInfo {
        name: "httpx".to_string(),
        extras: vec!["http2".to_string()],
        marker: None,
        target: RequirementTarget::Specifiers(vec![VersionClause {
            operator: "~=".to_string(),
            star: false,
            version: version("0.27", &[0, 27]),
        }]),
    };
    let entry = entry_from_parse(Ok(requirement.clone()), "raw".to_string(), DependencySection::Project, 2, &Vec::new());
    assert_eq!(entry.display_name, "httpx[http2]");
    assert_eq!(entry.current_version_text, "0.27");
    assert_eq!(entry.item_index, 2);
    assert!(matches!(entry.kind, DependencyKind::Supported { strategy: SpecStrategy::Compatible, .. }));

    let managed = entry_from_parse(Ok(requirement), "raw".to_string(), DependencySection::Project, 0, &vec!["httpx".to_string()]);
    assert!(matches!(managed.status, DependencyStatus::Unsupported(ref r) if r == "managed by tool.uv.sources"));

    let failed = entry_from_parse(Err("bad".to_string()), "!x".to_string(), DependencySection::Project, 0, &Vec::new());
    assert_eq!(failed.name, "!x");
    assert!(matches!(failed.status, DependencyStatus::Unsupported(ref r) if r == "PEP 508 parse failed: bad"));
}

#[test]
fn update_leaves_other_arrays_alone() {
    let original = "[project]\nname = \"demo\"\ndependencies = [\"httpx>=0.27.0\"]\n\n[dependency-groups]\ndev = ['pytest>=8.0.0', \"ruff>=0.5\"]\n";
    let mut project = parse_project("p.toml".to_string(), original).unwrap();
    make_update_available(&mut project, 1, "9.0.0", &[9, 0, 0]);
    let mut selected = BTreeSet::new();
    selected.insert(1);
    let prepared = prepare_update(&project, &selected, original).unwrap();
    let reread = parse_project("p.toml".to_string(), &prepared.content).unwrap();
    assert_eq!(reread.dependencies[0].display_name, "httpx");
    assert_eq!(reread.dependencies[0].current_version_text, "0.27.0");
    assert_eq!(reread.dependencies[1].current_version_text, "9.0.0");
    assert_eq!(reread.dependencies[2].display_name, "ruff");
    assert!(prepared.content.contains("dependencies = [\"httpx>=0.27.0\"]"));
    assert!(prepared.content.contains("\"ruff>=0.5\"]"));
}

#[test]
fn project_root_references_are_not_parsed() {
    let dependency = entry("foo @ file:///${PROJECT_ROOT}/vendor/foo");
    assert_eq!(dependency.name, "foo @ file:///${PROJECT_ROOT}/vendor/foo");
    assert_eq!(dependency.display_name, dependency.name);
    assert!(matches!(&dependency.status, DependencyStatus::Unsupported(r) if r == "refers to ${PROJECT_ROOT}"));
    let other = entry("foo @ https://example.com/${OTHER_VAR}/foo.whl");
    assert!(matches!(&other.status, DependencyStatus::Unsupported(r) if r == "direct URL requirement"));
    assert_eq!(other.name, "foo");
}
