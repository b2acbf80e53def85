use forklift::error::{resolve_token, ForkliftError};
use forklift::pagination::Pagination;
use forklift::record::{organization_forks, ForkRecord, OrgFork, OwnerType};
use forklift::repo_url::{parse_github_url, repo_from_parts, RepoInfo};
use forklift::report::{default_output_path, render_report};
use forklift::retry::{FetchError, RetryAction, RetryState};

fn rec(login: &str, kind: OwnerType, name: &str, url: Option<&str>) -> ForkRecord {
    ForkRecord {
        owner_login: login.to_string(),
        owner_type: kind,
        fork_name: name.to_string(),
        html_url: url.map(|u| u.to_string()),
    }
}

fn page_records(page: u32, n: u32) -> Vec<ForkRecord> {
    (0..n)
        .map(|i| {
            let kind = if i % 2 == 0 { OwnerType::Organization } else { OwnerType::User };
            rec(&format!("owner{}_{}", page, i), kind, "repo", Some(&format!("https://github.com/owner{}_{}/repo", page, i)))
        })
        .collect()
}

fn rate_limited() -> FetchError {
    FetchError { status: Some(403), message: "You have exceeded a secondary Rate Limit".to_string() }
}

fn sorted_logins(v: &[ForkRecord]) -> Vec<String> {
    let mut l: Vec<String> = v.iter().map(|r| r.owner_login.clone()).collect();
    l.sort();
    l
}

/// Fetches `total` pages, completing at each step the in-flight page that
/// `pick` chooses, and tracks the most pages ever in flight.
fn run(total: u32, concurrency: usize, pick: &dyn Fn(usize) -> usize) -> (Vec<ForkRecord>, usize) {
    let mut p = Pagination::start(page_records(1, 3), Some(total), concurrency);
    let mut in_flight: Vec<u32> = Vec::new();
    let mut peak = 0;
    loop {
        while let Some(page) = p.next_launch() {
            in_flight.push(page);
        }
        peak = peak.max(p.in_flight_count());
        assert!(p.in_flight_count() <= concurrency);
        if in_flight.is_empty() {
            break;
        }
        let idx = pick(in_flight.len()) % in_flight.len();
        let page = in_flight.remove(idx);
        assert!(p.is_in_flight(page));
        p.record_page(page, Ok(page_records(page, 3))).unwrap();
    }
    assert!(p.is_complete());
    (p.into_records(), peak)
}

#[test]
fn union_of_all_pages_in_any_completion_order() {
    let (a, _) = run(6, 3, &|_| 0);
    let (b, _) = run(6, 3, &|n| n - 1);
    let (c, _) = run(6, 3, &|n| n / 2);
    let mut expected: Vec<ForkRecord> = Vec::new();
    for page in 1..=6 {
        expected.extend(page_records(page, 3));
    }
    assert_eq!(a.len(), 18);
    assert_eq!(sorted_logins(&a), sorted_logins(&expected));
    assert_eq!(sorted_logins(&b), sorted_logins(&expected));
    assert_eq!(sorted_logins(&c), sorted_logins(&expected));
}

#[test]
fn in_flight_never_exceeds_concurrency() {
    for &c in &[1usize, 2, 10] {
        let (records, peak) = run(25, c, &|n| n / 2);
        assert_eq!(records.len(), 75);
        assert_eq!(peak, c.min(24));
    }
}

fn retry_run(failures: u32) -> (bool, Vec<u64>) {
    let mut st = RetryState::new();
    let mut waits = Vec::new();
    let mut left = failures;
    loop {
        if left == 0 {
            return (true, waits);
        }
        left -= 1;
        match st.on_failure(&rate_limited()) {
            RetryAction::Wait(s) => waits.push(s),
            RetryAction::GiveUp => return (false, waits),
        }
    }
}

#[test]
fn rate_limits_are_retried_three_times() {
    assert_eq!(retry_run(0), (true, vec![]));
    assert_eq!(retry_run(1), (true, vec![2]));
    assert_eq!(retry_run(2), (true, vec![2, 4]));
    assert_eq!(retry_run(3), (true, vec![2, 4, 8]));
    assert_eq!(retry_run(4), (false, vec![2, 4, 8]));
}

#[test]
fn other_failures_are_not_retried() {
    let not_found = FetchError { status: Some(404), message: "Not Found".to_string() };
    let forbidden = FetchError { status: Some(403), message: "Resource not accessible".to_string() };
    let no_status = FetchError { status: None, message: "rate limit".to_string() };
    for e in [not_found, forbidden, no_status] {
        let mut st = RetryState::new();
        assert!(!e.is_secondary_rate_limit());
        assert_eq!(st.on_failure(&e), RetryAction::GiveUp);
        assert_eq!(st.attempts, 0);
    }
}

#[test]
fn rate_limit_message_ignores_case() {
    let e = FetchError { status: Some(403), message: "API RATE LIMIT exceeded".to_string() };
    assert!(e.is_secondary_rate_limit());
    let e = FetchError { status: Some(403), message: "rate limi".to_string() };
    assert!(!e.is_secondary_rate_limit());
    let e = FetchError { status: Some(429), message: "rate limit".to_string() };
    assert!(!e.is_secondary_rate_limit());
}

#[test]
fn failure_aborts_the_run() {
    let mut p = Pagination::start(page_records(1, 2), Some(4), 2);
    assert_eq!(p.next_launch(), Some(2));
    assert_eq!(p.next_launch(), Some(3));
    assert_eq!(p.next_launch(), None);
    p.record_page(3, Ok(page_records(3, 2))).unwrap();
    let err = FetchError { status: Some(500), message: "Server Error".to_string() };
    assert_eq!(p.record_page(2, Err(err.clone())), Err(err));
    assert!(p.is_failed());
    assert!(!p.is_complete());
    assert_eq!(p.next_launch(), None);
}

#[test]
fn filter_keeps_organizations_only() {
    let records = vec![
        rec("acme", OwnerType::Organization, "tool", Some("https://github.com/acme/tool")),
        rec("alice", OwnerType::User, "tool", Some("https://github.com/alice/tool")),
        rec("initech", OwnerType::Organization, "tool", None),
        rec("ghost", OwnerType::Other, "tool", None),
    ];
    let out = organization_forks(&records);
    assert_eq!(
        out,
        vec![
            OrgFork {
                org_login: "acme".to_string(),
                fork_name: "tool".to_string(),
                fork_url: "https://github.com/acme/tool".to_string()
            },
            OrgFork { org_login: "initech".to_string(), fork_name: "tool".to_string(), fork_url: String::new() },
        ]
    );
}

#[test]
fn owner_type_names() {
    assert_eq!(OwnerType::from_type_name("Organization"), OwnerType::Organization);
    assert_eq!(OwnerType::from_type_name("User"), OwnerType::User);
    assert_eq!(OwnerType::from_type_name("organization"), OwnerType::Other);
    assert_eq!(OwnerType::from_type_name("Bot"), OwnerType::Other);
}

#[test]
fn zero_forks() {
    let mut p = Pagination::start(Vec::new(), None, 10);
    assert_eq!(p.next_launch(), None);
    assert!(p.is_complete());
    assert!(organization_forks(&p.into_records()).is_empty());
}

#[test]
fn single_page_uses_no_pool() {
    let first = page_records(1, 4);
    for count in [None, Some(1), Some(0)] {
        let mut p = Pagination::start(first.clone(), count, 10);
        assert_eq!(p.total_pages(), 1);
        assert_eq!(p.next_launch(), None);
        assert_eq!(p.in_flight_count(), 0);
        assert!(p.is_complete());
        let out = organization_forks(&p.into_records());
        assert_eq!(out, organization_forks(&first));
        assert_eq!(out.len(), 2);
    }
}

#[test]
fn parses_repository_addresses() {
    let expected = RepoInfo { owner: "kubernetes".to_string(), name: "kubernetes".to_string() };
    assert_eq!(parse_github_url("https://github.com/kubernetes/kubernetes"), Ok(expected.clone()));
    assert_eq!(parse_github_url("http://github.com/kubernetes/kubernetes/"), Ok(expected.clone()));
    assert_eq!(parse_github_url("github.com/kubernetes/kubernetes"), Ok(expected.clone()));
    assert_eq!(parse_github_url("https://github.com//kubernetes//kubernetes/tree"), Ok(expected));
}

#[test]
fn rejects_bad_addresses() {
    assert_eq!(
        parse_github_url("https://gitlab.com/a/b"),
        Err(ForkliftError::InvalidDomain("gitlab.com".to_string()))
    );
    assert_eq!(parse_github_url("https://127.0.0.1/a/b"), Err(ForkliftError::InvalidDomain(String::new())));
    assert_eq!(
        parse_github_url("https://github.com/onlyowner"),
        Err(ForkliftError::InvalidPathSegments(vec!["onlyowner".to_string()]))
    );
    assert_eq!(parse_github_url("https://github.com"), Err(ForkliftError::InvalidPathSegments(vec![])));
    assert_eq!(parse_github_url("http://[::1"), Err(ForkliftError::InvalidUrl("http://[::1".to_string())));
}

#[test]
fn host_and_path_checks() {
    let gh = Some("github.com".to_string());
    let segs = Some(vec!["".to_string(), "o".to_string(), "".to_string(), "r".to_string(), "x".to_string()]);
    assert_eq!(repo_from_parts(gh.clone(), segs), Ok(RepoInfo { owner: "o".to_string(), name: "r".to_string() }));
    assert_eq!(repo_from_parts(gh, None), Err(ForkliftError::InvalidPathSegments(vec![])));
    assert_eq!(repo_from_parts(None, None), Err(ForkliftError::InvalidDomain(String::new())));
}

#[test]
fn token_resolution() {
    assert_eq!(resolve_token(Some("a".to_string()), Some("b".to_string())), Ok("a".to_string()));
    assert_eq!(resolve_token(None, Some("b".to_string())), Ok("b".to_string()));
    assert_eq!(resolve_token(None, None), Err(ForkliftError::MissingGithubToken));
}

#[test]
fn report_text() {
    let forks = vec![
        OrgFork { org_login: "acme".to_string(), fork_name: "tool".to_string(), fork_url: "https://x/acme/tool".to_string() },
        OrgFork { org_login: "initech".to_string(), fork_name: "tool".to_string(), fork_url: String::new() },
    ];
    assert_eq!(
        render_report("o", "r", &forks),
        "# Organization-owned forks for o/r\n\n| Organization | Fork Name | URL |\n|--------------|----------|-----|\n| acme | tool | https://x/acme/tool |\n| initech | tool |  |\n"
    );
    assert_eq!(default_output_path("kubernetes"), "reports/kubernetes_forks.md");
}

fn sorted_rows(v: &[OrgFork]) -> Vec<(String, String, String)> {
    let mut l: Vec<(String, String, String)> =
        v.iter().map(|r| (r.org_login.clone(), r.fork_name.clone(), r.fork_url.clone())).collect();
    l.sort();
    l
}

#[test]
fn report_rows_independent_of_completion_order() {
    let (a, _) = run(5, 2, &|_| 0);
    let (b, _) = run(5, 2, &|n| n - 1);
    let mut all: Vec<ForkRecord> = Vec::new();
    for page in 1..=5 {
        all.extend(page_records(page, 3));
    }
    let rows_a = organization_forks(&a);
    let rows_b = organization_forks(&b);
    assert_eq!(rows_a.len(), 10);
    assert_eq!(sorted_rows(&rows_a), sorted_rows(&organization_forks(&all)));
    assert_eq!(sorted_rows(&rows_a), sorted_rows(&rows_b));
}
