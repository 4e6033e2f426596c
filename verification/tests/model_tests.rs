use std::collections::BTreeSet;

use uvlift::model::{ChangeKind, DependencySection, DependencyStatus, Project, SpecStrategy};
use uvlift::pyproject::parse_dependency_entry;
use uvlift::order::sorted_order;
use uvlift::text::includes_text;

#[test]
fn strategy_operators_are_pep440_symbols() {
    assert_eq!(SpecStrategy::Exact.operator(), "==");
    assert_eq!(SpecStrategy::Compatible.operator(), "~=");
    assert_eq!(SpecStrategy::Minimum.operator(), ">=");
}

#[test]
fn labels() {
    assert_eq!(ChangeKind::Major.label(), "MAJOR");
    assert_eq!(ChangeKind::Minor.label(), "MINOR");
    assert_eq!(ChangeKind::Patch.label(), "PATCH");
    assert_eq!(ChangeKind::Unchanged.label(), "NONE");
    assert_eq!(DependencyStatus::UpdateAvailable(ChangeKind::Patch).label(), "PATCH");
    assert_eq!(DependencyStatus::UpToDate.label(), "UP TO DATE");
    assert_eq!(DependencyStatus::NotFound.label(), "NOT FOUND");
    assert_eq!(DependencyStatus::Unsupported("why".to_string()).label(), "UNSUPPORTED");
    assert_eq!(DependencySection::Project.label(), "project");
    assert_eq!(DependencySection::Optional("cli".to_string()).label(), "extra:cli");
    assert_eq!(DependencySection::Group("dev".to_string()).label(), "group:dev");
}

#[test]
fn only_unsupported_has_a_detail() {
    assert_eq!(DependencyStatus::Unsupported("why".to_string()).detail(), Some("why"));
    assert_eq!(DependencyStatus::UpToDate.detail(), None);
    assert_eq!(DependencyStatus::NotFound.detail(), None);
    assert_eq!(DependencyStatus::UpdateAvailable(ChangeKind::Major).detail(), None);
}

#[test]
fn sections_compare_by_table() {
    let cli = DependencySection::Optional("cli".to_string());
    assert!(cli.same_as(&cli.duplicate()));
    assert!(!cli.same_as(&DependencySection::Group("cli".to_string())));
    assert!(DependencySection::Project.same_as(&DependencySection::Project));
}

fn project() -> Project {
    let mut dependencies = Vec::new();
    for (index, raw) in ["httpx>=0.27.0", "rich>=13.0.0", "typer>=0.12.0"].iter().enumerate() {
        dependencies.push(parse_dependency_entry(raw.to_string(), DependencySection::Project, index, &Vec::new()));
    }
    dependencies[0].status = DependencyStatus::UpdateAvailable(ChangeKind::Minor);
    dependencies[2].status = DependencyStatus::UpdateAvailable(ChangeKind::Major);
    Project { name: "demo".to_string(), file_path: "demo/pyproject.toml".to_string(), dependencies }
}

#[test]
fn counts_selected_updates() {
    let project = project();
    assert_eq!(project.updates_available(), 2);
    assert!(project.dependencies[0].selectable());
    assert!(!project.dependencies[1].selectable());
    assert_eq!(project.dependencies[0].current_version_text(), "0.27.0");

    let mut selected = BTreeSet::new();
    assert_eq!(project.selected_count(&selected), 0);
    selected.insert(0);
    selected.insert(1);
    selected.insert(9);
    assert_eq!(project.selected_count(&selected), 1);
    selected.insert(2);
    assert_eq!(project.selected_count(&selected), 2);
    assert!(project.selected_count(&selected) <= project.updates_available());
}

#[test]
fn finds_text_inside_text() {
    assert!(includes_text("a ${PROJECT_ROOT} b", "${PROJECT_ROOT}"));
    assert!(includes_text("abc", ""));
    assert!(!includes_text("ab", "abc"));
    assert!(!includes_text("${PROJECT_ROO}", "${PROJECT_ROOT}"));
}

fn parts(path: &str) -> Vec<String> {
    path.split('/').map(|part| part.to_string()).collect()
}

#[test]
fn projects_are_listed_in_path_order() {
    let keys = vec![parts("b/pyproject.toml"), parts("a-b/pyproject.toml"), parts("a/b/pyproject.toml"), parts("a/pyproject.toml"), parts("b/pyproject.toml")];
    assert_eq!(sorted_order(&keys), vec![2, 3, 1, 0, 4]);
    assert!(sorted_order(&Vec::new()).is_empty());
}
