use git_assist::decimal::{i32_to_string, u64_to_string};
use git_assist::errors::BisectError;
use git_assist::host::{
    collect_pages, merged_pull_requests, merged_pull_requests_from_pages, PullRequestRecord,
};

fn record(number: u64, merged: bool, merge_sha: Option<&str>) -> PullRequestRecord {
    PullRequestRecord {
        number,
        title: Some(format!("change {number}")),
        merged,
        base_sha: format!("base{number}"),
        merge_sha: merge_sha.map(|s| s.to_string()),
    }
}

#[test]
fn pagination_returns_all_records_in_order() {
    // 150 merged pull requests spread over a page of 100 and a page of 50,
    // already ascending by creation time as the provider reports them.
    let mut first: Vec<PullRequestRecord> = Vec::new();
    for n in 1..=100u64 {
        first.push(record(n, true, Some("m")));
    }
    let mut second: Vec<PullRequestRecord> = Vec::new();
    for n in 101..=150u64 {
        second.push(record(n, true, Some("m")));
    }
    let pages = vec![first, second];
    let prs = merged_pull_requests_from_pages(&pages).unwrap();
    assert_eq!(prs.len(), 150);
    for (i, pr) in prs.iter().enumerate() {
        assert_eq!(pr.identifier, (i as u64 + 1).to_string());
    }
}

#[test]
fn collect_pages_concatenates_in_order() {
    let pages = vec![
        vec![record(1, true, Some("m")), record(2, false, None)],
        vec![record(3, true, Some("m"))],
    ];
    let all = collect_pages(&pages);
    assert_eq!(all.len(), 3);
    assert_eq!(all[0].number, 1);
    assert_eq!(all[1].number, 2);
    assert_eq!(all[2].number, 3);
}

#[test]
fn one_missing_merge_sha_fails_the_entire_fetch() {
    let records = vec![
        record(1, true, Some("m1")),
        record(2, true, Some("m2")),
        record(3, true, None),
        record(4, true, Some("m4")),
        record(5, true, Some("m5")),
    ];
    let r = merged_pull_requests(&records);
    assert!(matches!(r, Err(BisectError::Fetch(m)) if m == "Could not find merge commit sha"));
}

#[test]
fn missing_merge_sha_fails_even_across_pages() {
    let pages = vec![
        vec![record(1, true, Some("m1"))],
        vec![record(2, true, None)],
    ];
    let r = merged_pull_requests_from_pages(&pages);
    assert!(matches!(r, Err(BisectError::Fetch(_))));
}

#[test]
fn closed_without_merge_is_excluded_not_fatal() {
    // An unmerged record may lack a merge sha without failing the fetch;
    // it simply never reaches the list.
    let records = vec![
        record(7, true, Some("m7")),
        record(8, false, None),
        record(9, true, Some("m9")),
    ];
    let prs = merged_pull_requests(&records).unwrap();
    assert_eq!(prs.len(), 2);
    assert_eq!(prs[0].identifier, "7");
    assert_eq!(prs[1].identifier, "9");
}

#[test]
fn normalization_keeps_titles_and_commit_ids() {
    let records = vec![PullRequestRecord {
        number: 42,
        title: Some("The change".to_string()),
        merged: true,
        base_sha: "abc".to_string(),
        merge_sha: Some("def".to_string()),
    }];
    let prs = merged_pull_requests(&records).unwrap();
    assert_eq!(prs.len(), 1);
    assert_eq!(prs[0].identifier, "42");
    assert_eq!(prs[0].title.as_deref(), Some("The change"));
    assert_eq!(prs[0].base_sha, "abc");
    assert_eq!(prs[0].merge_sha, "def");
}

#[test]
fn decimal_rendering_matches_expectations() {
    assert_eq!(u64_to_string(0), "0");
    assert_eq!(u64_to_string(7), "7");
    assert_eq!(u64_to_string(10), "10");
    assert_eq!(u64_to_string(12345), "12345");
    assert_eq!(u64_to_string(u64::MAX), u64::MAX.to_string());
    assert_eq!(i32_to_string(0), "0");
    assert_eq!(i32_to_string(-1), "-1");
    assert_eq!(i32_to_string(137), "137");
    assert_eq!(i32_to_string(i32::MIN), i32::MIN.to_string());
}
