use uvlift::model::{ChangeKind, DependencyEntry, DependencyKind, DependencySection, DependencyStatus, Project, SpecStrategy};
use uvlift::pep::VersionInfo;
use uvlift::pypi::{
    change_kind, fetch_url, hydrate_dependency, next_fetch_step, worker_plan, Fetched, FetchResponse, FetchStep,
    PypiClient, REQUEST_RETRY_ATTEMPTS,
};
use uvlift::pyproject::parse_dependency_entry;

fn dependency(name: &str, version: &str) -> DependencyEntry {
    let mut entry =
        parse_dependency_entry(format!("{name}>={version}"), DependencySection::Project, 0, &Vec::new());
    assert!(matches!(entry.kind, DependencyKind::Supported { strategy: SpecStrategy::Minimum, .. }));
    entry.status = DependencyStatus::Unsupported("not hydrated".to_string());
    entry
}

fn found(name: &str, version: &str) -> (String, Result<Option<String>, String>) {
    (name.to_string(), Ok(Some(version.to_string())))
}

fn version(text: &str, release: &[u64]) -> VersionInfo {
    VersionInfo { text: text.to_string(), release: release.to_vec() }
}

#[test]
fn hydrate_projects_dedupes_requests_and_reuses_cache() {
    let mut client = PypiClient::with_base_url("http://127.0.0.1:9".to_string());
    let mut projects = vec![
        Project {
            name: "one".to_string(),
            file_path: "one/pyproject.toml".to_string(),
            dependencies: vec![
                dependency("httpx", "0.27.0"),
                dependency("httpx", "0.27.0"),
                dependency("rich", "13.7.0"),
            ],
        },
        Project {
            name: "two".to_string(),
            file_path: "two/pyproject.toml".to_string(),
            dependencies: vec![dependency("httpx", "0.27.0")],
        },
    ];

    let mut requests = client.pending_for_projects(&projects);
    requests.sort();
    assert_eq!(requests, vec!["httpx".to_string(), "rich".to_string()]);
    let fetched: Fetched = vec![found("httpx", "0.28.1"), found("rich", "13.9.4")];
    client.hydrate_projects(&mut projects, &fetched);

    let requests = client.pending_for_projects(&projects);
    assert_eq!(requests.len(), 0);
    client.hydrate_projects(&mut projects, &Vec::new());
    assert!(projects.iter().all(|project| {
        project
            .dependencies
            .iter()
            .all(|dependency| matches!(dependency.status, DependencyStatus::UpdateAvailable(_)))
    }));
}

#[test]
fn refresh_forgets_only_named_packages() {
    let mut client = PypiClient::new();
    assert_eq!(client.base_url(), "https://pypi.org/pypi");
    let mut deps = vec![dependency("httpx", "0.27.0"), dependency("rich", "13.7.0")];
    let fetched: Fetched = vec![found("httpx", "0.28.1"), ("rich".to_string(), Ok(None))];
    client.hydrate_project(&mut deps, &fetched);
    assert_eq!(client.cached("httpx"), Some(Some("0.28.1".to_string())));
    assert_eq!(client.cached("rich"), Some(None));
    assert!(matches!(deps[1].status, DependencyStatus::NotFound));

    client.clear_project(vec!["httpx".to_string()]);
    assert_eq!(client.cached("httpx"), None);
    assert_eq!(client.cached("rich"), Some(None));
    assert_eq!(client.pending_packages(&deps), vec!["httpx".to_string()]);
}

#[test]
fn failed_fetches_are_not_cached() {
    let mut client = PypiClient::new();
    let mut deps = vec![dependency("httpx", "0.27.0")];
    let fetched: Fetched = vec![("httpx".to_string(), Err("failed to fetch httpx".to_string()))];
    client.hydrate_project(&mut deps, &fetched);
    assert_eq!(client.cached("httpx"), None);
    assert!(matches!(&deps[0].status, DependencyStatus::Unsupported(reason) if reason == "failed to fetch httpx"));
}

#[test]
fn unsupported_entries_are_not_fetched() {
    let client = PypiClient::new();
    let deps = vec![
        parse_dependency_entry("httpx".to_string(), DependencySection::Project, 0, &Vec::new()),
        dependency("rich", "13.7.0"),
    ];
    assert_eq!(client.pending_packages(&deps), vec!["rich".to_string()]);
}

#[test]
fn hydrating_sets_status_from_the_newest_version() {
    let mut entry = dependency("httpx", "0.27.0");
    hydrate_dependency(&mut entry, Some(Ok(Some("1.0.0".to_string()))));
    assert!(matches!(entry.status, DependencyStatus::UpdateAvailable(ChangeKind::Major)));
    assert_eq!(entry.latest_version_text.as_deref(), Some("1.0.0"));
    assert_eq!(entry.latest_version.as_ref().map(|v| v.release.clone()), Some(vec![1, 0, 0]));

    let mut same = dependency("httpx", "0.27.0");
    hydrate_dependency(&mut same, Some(Ok(Some("0.27.0".to_string()))));
    assert!(matches!(same.status, DependencyStatus::UpToDate));

    let mut older = dependency("httpx", "0.27.0");
    hydrate_dependency(&mut older, Some(Ok(Some("0.26.0".to_string()))));
    assert!(matches!(older.status, DependencyStatus::UpToDate));

    let mut bad = dependency("httpx", "0.27.0");
    hydrate_dependency(&mut bad, Some(Ok(Some("not a version".to_string()))));
    assert!(matches!(&bad.status, DependencyStatus::Unsupported(r)
        if r == "PyPI latest version is not valid PEP 440: not a version"));
    assert_eq!(bad.latest_version_text.as_deref(), Some("not a version"));
    assert!(bad.latest_version.is_none());

    let mut unknown = dependency("httpx", "0.27.0");
    hydrate_dependency(&mut unknown, None);
    assert!(matches!(unknown.status, DependencyStatus::NotFound));

    let mut unsupported = parse_dependency_entry("httpx".to_string(), DependencySection::Project, 0, &Vec::new());
    hydrate_dependency(&mut unsupported, Some(Ok(Some("1.0".to_string()))));
    assert!(matches!(&unsupported.status, DependencyStatus::Unsupported(r) if r == "unpinned requirement"));
    assert!(unsupported.latest_version_text.is_none());
}

#[test]
fn change_kinds() {
    assert_eq!(change_kind(&version("1.2.3", &[1, 2, 3]), &version("2.0", &[2, 0])), ChangeKind::Major);
    assert_eq!(change_kind(&version("1.2.3", &[1, 2, 3]), &version("1.3.0", &[1, 3, 0])), ChangeKind::Minor);
    assert_eq!(change_kind(&version("1.2.3", &[1, 2, 3]), &version("1.2.4", &[1, 2, 4])), ChangeKind::Patch);
    assert_eq!(change_kind(&version("1.2.3", &[1, 2, 3]), &version("1.2.3.post1", &[1, 2, 3])), ChangeKind::Patch);
    assert_eq!(change_kind(&version("1.2.3", &[1, 2, 3]), &version("1.2.3", &[1, 2, 3])), ChangeKind::Unchanged);
    assert_eq!(change_kind(&version("1", &[1]), &version("1.1", &[1, 1])), ChangeKind::Minor);
    assert_eq!(change_kind(&version("2.0", &[2, 0]), &version("1.9", &[1, 9])), ChangeKind::Minor);
}

#[test]
fn fetch_urls() {
    assert_eq!(fetch_url("https://pypi.org/pypi", "httpx"), "https://pypi.org/pypi/httpx/json");
    assert_eq!(fetch_url("http://localhost:1", "a-b"), "http://localhost:1/a-b/json");
}

#[test]
fn fetch_steps() {
    assert_eq!(REQUEST_RETRY_ATTEMPTS, 3);
    let done = |step: FetchStep| match step {
        FetchStep::Done(result) => result,
        FetchStep::Retry(ms) | FetchStep::Exhausted(ms) => panic!("unexpected wait of {ms} ms"),
    };
    let retry = |step: FetchStep| match step {
        FetchStep::Retry(ms) => ms,
        FetchStep::Done(result) => panic!("unexpected end {result:?}"),
        FetchStep::Exhausted(ms) => panic!("unexpected give-up after {ms} ms"),
    };
    let exhausted = |step: FetchStep| match step {
        FetchStep::Exhausted(ms) => ms,
        _ => panic!("expected the fetch to give up"),
    };
    assert_eq!(done(next_fetch_step("httpx", 0, FetchResponse::Payload(Some("1.0".to_string())))), Ok(Some("1.0".to_string())));
    assert_eq!(done(next_fetch_step("httpx", 0, FetchResponse::Payload(None))), Ok(None));
    assert_eq!(done(next_fetch_step("httpx", 1, FetchResponse::Status(404))), Ok(None));
    assert_eq!(
        done(next_fetch_step("httpx", 0, FetchResponse::MalformedPayload)),
        Err("failed to parse PyPI payload for httpx".to_string())
    );
    assert_eq!(
        done(next_fetch_step("httpx", 0, FetchResponse::Status(403))),
        Err("PyPI request failed for httpx: HTTP 403".to_string())
    );
    assert_eq!(retry(next_fetch_step("httpx", 0, FetchResponse::Status(429))), 300);
    assert_eq!(retry(next_fetch_step("httpx", 1, FetchResponse::Status(503))), 600);
    assert_eq!(exhausted(next_fetch_step("httpx", 2, FetchResponse::Status(500))), 1200);
    assert_eq!(exhausted(next_fetch_step("httpx", 2, FetchResponse::Status(429))), 1200);
    assert_eq!(retry(next_fetch_step("httpx", 0, FetchResponse::Transport)), 300);
    assert_eq!(retry(next_fetch_step("httpx", 1, FetchResponse::Transport)), 600);
    assert_eq!(done(next_fetch_step("httpx", 2, FetchResponse::Transport)), Err("failed to fetch httpx".to_string()));
}

#[test]
fn worker_plans() {
    assert_eq!(worker_plan(1, 8), (1, 1));
    assert_eq!(worker_plan(5, 8), (3, 2));
    assert_eq!(worker_plan(6, 8), (2, 3));
    assert_eq!(worker_plan(7, 8), (2, 4));
    assert_eq!(worker_plan(4, 1), (1, 4));
    assert_eq!(worker_plan(2, 8), (2, 1));
}
