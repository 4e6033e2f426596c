use std::collections::BTreeSet;

use uvlift::model::{AppMode, ChangeKind, DependencySection, DependencyStatus, Project, UpdateSummary};
use uvlift::pypi::{Fetched, PypiClient};
use uvlift::pyproject::parse_dependency_entry;
use uvlift::screen::{
    begins_section, chosen_for_confirm, column_widths, confirm_line, confirm_title, dependency_cells,
    project_heading, project_summary, selected_caption, table_header, ColumnWidths,
};
use uvlift::tui::{move_index, section_title, App, AppAction, KeyCode, KeyEvent};

fn press(code: KeyCode) -> KeyEvent {
    KeyEvent { code, control: false, press: true }
}

fn key(c: char) -> KeyEvent {
    press(KeyCode::Char(c))
}

fn project(name: &str, raws: &[(&str, DependencySection)]) -> Project {
    let mut dependencies = Vec::new();
    for (index, (raw, section)) in raws.iter().enumerate() {
        dependencies.push(parse_dependency_entry(raw.to_string(), section.clone(), index, &Vec::new()));
    }
    Project { name: name.to_string(), file_path: format!("{name}/pyproject.toml"), dependencies }
}

fn demo() -> Project {
    let mut p = project(
        "demo",
        &[
            ("httpx>=0.27.0", DependencySection::Project),
            ("rich>=13.0.0", DependencySection::Project),
            ("pytest>=8.0.0", DependencySection::Group("dev".to_string())),
            ("httpx", DependencySection::Group("dev".to_string())),
        ],
    );
    p.dependencies[0].status = DependencyStatus::UpdateAvailable(ChangeKind::Minor);
    p.dependencies[0].latest_version_text = Some("0.28.1".to_string());
    p.dependencies[2].status = DependencyStatus::UpdateAvailable(ChangeKind::Major);
    p.dependencies[2].latest_version_text = Some("9.0.0".to_string());
    p
}

fn selection(app: &App) -> Vec<usize> {
    app.selected_for_current().unwrap().iter().copied().collect()
}

#[test]
fn moves_stop_at_both_ends() {
    assert_eq!(move_index(0, 3, -1), 0);
    assert_eq!(move_index(1, 3, -1), 0);
    assert_eq!(move_index(1, 3, 1), 2);
    assert_eq!(move_index(2, 3, 1), 2);
    assert_eq!(move_index(5, 0, 1), 0);
    assert_eq!(move_index(0, 1, 1), 0);
}

#[test]
fn section_titles() {
    assert_eq!(section_title(&DependencySection::Project), "dependencies");
    assert_eq!(section_title(&DependencySection::Optional("cli".to_string())), "extra:cli");
    assert_eq!(section_title(&DependencySection::Group("dev".to_string())), "group:dev");
}

#[test]
fn starts_in_the_dependency_list_with_one_project() {
    let app = App::new(vec![demo()], PypiClient::new());
    assert_eq!(app.mode(), AppMode::Dependencies);
    let app = App::new(vec![demo(), demo()], PypiClient::new());
    assert_eq!(app.mode(), AppMode::Project);
    assert_eq!(app.selected_project(), 0);
    assert!(app.status_line().is_none());
}

#[test]
fn toggling_twice_restores_the_selection() {
    let mut app = App::new(vec![demo()], PypiClient::new());
    assert!(matches!(app.handle_key(key(' ')), AppAction::Continue));
    assert_eq!(selection(&app), vec![0]);
    app.handle_key(key(' '));
    assert!(selection(&app).is_empty());
}

#[test]
fn entries_without_update_cannot_be_selected() {
    let mut app = App::new(vec![demo()], PypiClient::new());
    app.handle_key(press(KeyCode::Down));
    app.handle_key(key(' '));
    assert!(selection(&app).is_empty());
    assert_eq!(app.status_line().unwrap(), "Only outdated supported dependencies can be selected");
    app.handle_key(key('j'));
    app.handle_key(key('j'));
    assert_eq!(app.selected_dependency(), 3);
    app.handle_key(key(' '));
    assert_eq!(app.status_line().unwrap(), "unpinned requirement");
    app.handle_key(key('j'));
    assert_eq!(app.selected_dependency(), 3);
}

#[test]
fn select_all_clear_and_toggle_outdated() {
    let mut app = App::new(vec![demo()], PypiClient::new());
    app.handle_key(key('a'));
    assert_eq!(selection(&app), vec![0, 2]);
    app.handle_key(key('n'));
    assert!(selection(&app).is_empty());
    app.handle_key(key('u'));
    assert_eq!(selection(&app), vec![0, 2]);
    app.handle_key(key('u'));
    assert!(selection(&app).is_empty());
    app.handle_key(key(' '));
    app.handle_key(key('u'));
    assert_eq!(selection(&app), vec![0, 2]);
}

#[test]
fn screens_and_actions() {
    let mut app = App::new(vec![demo(), demo()], PypiClient::new());
    assert!(matches!(app.handle_key(key('a')), AppAction::Continue));
    assert!(selection(&app).is_empty());
    app.handle_key(press(KeyCode::Down));
    assert_eq!(app.selected_project(), 1);
    app.handle_key(press(KeyCode::Enter));
    assert_eq!(app.mode(), AppMode::Dependencies);
    app.handle_key(press(KeyCode::Enter));
    assert_eq!(app.mode(), AppMode::Confirm);
    assert!(matches!(app.handle_key(key('n')), AppAction::Continue));
    assert_eq!(app.mode(), AppMode::Dependencies);
    app.handle_key(press(KeyCode::Enter));
    assert!(matches!(app.handle_key(key('y')), AppAction::Update));
    assert!(matches!(app.handle_key(press(KeyCode::Enter)), AppAction::Update));
    app.handle_key(press(KeyCode::Left));
    assert_eq!(app.mode(), AppMode::Dependencies);
    app.handle_key(press(KeyCode::Left));
    assert_eq!(app.mode(), AppMode::Project);
    assert!(matches!(app.handle_key(key('r')), AppAction::Refresh));
    assert!(matches!(app.handle_key(key('q')), AppAction::Quit));
    assert!(matches!(app.handle_key(press(KeyCode::Esc)), AppAction::Quit));
    assert!(matches!(
        app.handle_key(KeyEvent { code: KeyCode::Char('c'), control: true, press: true }),
        AppAction::Quit
    ));
    assert!(matches!(
        app.handle_key(KeyEvent { code: KeyCode::Char('q'), control: false, press: false }),
        AppAction::Continue
    ));
}

#[test]
fn refresh_and_update_messages() {
    let mut app = App::new(vec![demo()], PypiClient::new());
    let mut pending = app.begin_refresh();
    pending.sort();
    assert_eq!(pending, vec!["httpx".to_string(), "pytest".to_string(), "rich".to_string()]);
    let fetched: Fetched = vec![
        ("httpx".to_string(), Ok(Some("0.28.1".to_string()))),
        ("rich".to_string(), Ok(Some("13.0.0".to_string()))),
        ("pytest".to_string(), Ok(None)),
    ];
    app.finish_refresh(&fetched);
    assert_eq!(app.status_line().unwrap(), "Refreshed demo");
    let deps = &app.current_project().unwrap().dependencies;
    assert!(matches!(deps[0].status, DependencyStatus::UpdateAvailable(ChangeKind::Minor)));
    assert!(matches!(deps[1].status, DependencyStatus::UpToDate));
    assert!(matches!(deps[2].status, DependencyStatus::NotFound));
    assert!(app.begin_refresh().len() == 3);

    let summary = UpdateSummary {
        project_name: "demo".to_string(),
        file_path: "demo/pyproject.toml".to_string(),
        updated: vec![("httpx".to_string(), "0.27.0".to_string(), "0.28.1".to_string())],
    };
    app.finish_update(&summary);
    assert_eq!(app.status_line().unwrap(), "Updated 1 dependencies in demo");
}

#[test]
fn project_list_text() {
    let p = demo();
    assert_eq!(project_heading(&p, true), "\u{276f} demo");
    assert_eq!(project_heading(&p, false), "  demo");
    assert_eq!(project_summary(&p), "  (4 deps, 2 updates)");
    let quiet = project("quiet", &[("rich>=13.0.0", DependencySection::Project)]);
    assert_eq!(project_summary(&quiet), "  (1 deps, up to date)");
}

#[test]
fn dependency_table_text() {
    let p = demo();
    let widths = column_widths(&p.dependencies);
    assert_eq!((widths.name, widths.current, widths.target, widths.latest), (7, 7, 6, 6));
    assert_eq!(table_header(&widths), "  dependencies Current Target Latest");

    let mut selected = BTreeSet::new();
    selected.insert(0);
    selected.insert(1);
    assert_eq!(selected_caption(&p, &selected), "  1 selected");

    let cells = dependency_cells(&p.dependencies[0], true, true, &widths);
    assert_eq!(cells.cursor, "\u{276f} ");
    assert_eq!(cells.name, "\u{25fc} httpx  ");
    assert_eq!(cells.current, " 0.27.0 ");
    assert_eq!(cells.target, " 0.28.1");
    assert_eq!(cells.latest, " 0.28.1");
    assert_eq!(cells.status, "  MINOR");

    let cells = dependency_cells(&p.dependencies[3], false, false, &widths);
    assert_eq!(cells.cursor, "  ");
    assert_eq!(cells.name, "\u{25fb} httpx  ");
    assert_eq!(cells.current, " \u{2014}      ");
    assert_eq!(cells.target, " \u{2014}     ");
    assert_eq!(cells.status, "  UNSUPPORTED");

    assert!(begins_section(&p.dependencies, 0));
    assert!(!begins_section(&p.dependencies, 1));
    assert!(begins_section(&p.dependencies, 2));
    assert!(!begins_section(&p.dependencies, 3));
}

#[test]
fn column_widths_grow_and_clamp() {
    let long = "a".repeat(40);
    let mut p = project(&"x", &[(&format!("{long}==1.0.0.0.0.0.0"), DependencySection::Project)]);
    p.dependencies[0].latest_version_text = Some("2025.10.31.1".to_string());
    let widths = column_widths(&p.dependencies);
    assert_eq!(widths.name, 30);
    assert_eq!(widths.current, 13);
    assert_eq!(widths.latest, 12);
    assert_eq!(widths.target, 12);
    let empty = column_widths(&Vec::new());
    assert_eq!((empty.name, empty.current, empty.target, empty.latest), (7, 7, 6, 6));
    let w = ColumnWidths { name: 1, current: 2, target: 3, latest: 4 };
    assert_eq!(table_header(&w), "  dependencies Current Target Latest");
}

#[test]
fn confirm_screen_text() {
    let p = demo();
    let mut selected = BTreeSet::new();
    selected.insert(3);
    selected.insert(2);
    selected.insert(0);
    selected.insert(42);
    let chosen = chosen_for_confirm(&p, &selected);
    assert_eq!(chosen, vec![0, 2]);
    assert_eq!(confirm_title(&p, chosen.len()), "Apply 2 updates in demo?");
    assert_eq!(confirm_line(&p.dependencies[0]), "httpx  0.27.0 -> 0.28.1  project");
    assert_eq!(confirm_line(&p.dependencies[2]), "pytest  8.0.0 -> 9.0.0  group:dev");
    assert_eq!(confirm_line(&p.dependencies[1]), "rich  13.0.0 -> unknown  project");
}

#[test]
fn prompts() {
    assert_eq!(uvlift::screen::prompt(AppMode::Project), ("Select a project", "  Enter open, j/k move, r refresh, q quit"));
    assert_eq!(uvlift::screen::prompt(AppMode::Confirm), ("Confirm updates", "  y apply, n back, q quit"));
    assert_eq!(uvlift::screen::prompt(AppMode::Dependencies).0, "Select dependencies to update");
}

#[test]
fn handlers_called_directly() {
    let mut app = App::new(vec![demo(), demo()], PypiClient::new());
    app.handle_back();
    assert_eq!(app.mode(), AppMode::Project);
    app.move_cursor(5);
    assert_eq!(app.selected_project(), 1);
    app.handle_enter();
    assert_eq!(app.mode(), AppMode::Dependencies);
    assert_eq!(app.selected_dependency(), 0);
    app.toggle_current();
    assert_eq!(selection(&app), vec![0]);
    app.toggle_current();
    assert!(selection(&app).is_empty());
    app.select_all_outdated();
    assert_eq!(selection(&app), vec![0, 2]);
    app.clear_selection();
    assert!(selection(&app).is_empty());
    app.toggle_only_outdated();
    assert_eq!(selection(&app), vec![0, 2]);
    app.handle_enter();
    assert_eq!(app.mode(), AppMode::Confirm);
    app.handle_enter();
    assert_eq!(app.mode(), AppMode::Confirm);
    app.handle_back();
    assert_eq!(app.mode(), AppMode::Dependencies);
}
