use repo_catalog::aggregate::{aggregate, ordered_listing, Diagnostic, Failure, FileReport};
use repo_catalog::discovery::{discover, has_json_extension, WalkEntry};
use repo_catalog::stack::reversed;
use repo_catalog::{Owner, Repository};

fn record(id: u64, updated_at: &str) -> Repository {
    Repository {
        id,
        name: format!("repo-{}", id),
        full_name: format!("someone/repo-{}", id),
        owner: Owner {
            login: String::from("someone"),
            id: 7,
            avatar_url: String::from("https://example.org/a.png"),
            html_url: String::from("https://example.org/someone"),
            user_view_type: String::from("public"),
        },
        html_url: format!("https://example.org/someone/repo-{}", id),
        description: Some(String::from("a proof of concept")),
        fork: false,
        created_at: String::from("2020-01-01T00:00:00Z"),
        updated_at: String::from(updated_at),
        pushed_at: String::from("2020-01-02T00:00:00Z"),
        stargazers_count: 1,
        watchers_count: 1,
        has_discussions: false,
        forks_count: 0,
        allow_forking: true,
        is_template: false,
        web_commit_signoff_required: false,
        topics: Vec::new(),
        visibility: String::from("public"),
        forks: 0,
        watchers: 1,
        score: 1,
        subscribers_count: 0,
    }
}

fn record_ids(repos: &Vec<Repository>) -> Vec<u64> {
    let mut out = Vec::new();
    for r in repos {
        out.push(r.id);
    }
    out
}

fn three_files() -> Vec<FileReport> {
    vec![
        FileReport {
            path: String::from("data/2023/f1.json"),
            outcome: Ok(vec![
                record(1, "2023-01-01T00:00:00Z"),
                record(2, "2024-01-01T00:00:00Z"),
                record(3, "never"),
            ]),
        },
        FileReport {
            path: String::from("data/2023/f2.json"),
            outcome: Err(Failure::Decode(String::from("expected value at line 1 column 1"))),
        },
        FileReport {
            path: String::from("data/f3.json"),
            outcome: Ok(vec![record(4, "2025-01-01T00:00:00Z"), record(5, "2023-06-01T00:00:00Z")]),
        },
    ]
}

#[test]
fn json_extension() {
    assert!(has_json_extension("a.json"));
    assert!(has_json_extension("dir/sub/CVE-2024-0001.json"));
    assert!(has_json_extension(".json"));
    assert!(has_json_extension("a.b.json"));
    assert!(has_json_extension("caf\u{e9}/donn\u{e9}es.json"));
    assert!(!has_json_extension(""));
    assert!(!has_json_extension("json"));
    assert!(!has_json_extension("ajson"));
    assert!(!has_json_extension("a.JSON"));
    assert!(!has_json_extension("a.json.bak"));
    assert!(!has_json_extension("a.jsonl"));
    assert!(!has_json_extension("a.json/"));
    assert!(!has_json_extension("a.txt"));
    assert!(!has_json_extension("\u{e9}.jso"));
}

#[test]
fn discovery_selects_exactly_the_data_files() {
    let found = discover(vec![
        WalkEntry::Other(String::from("root")),
        WalkEntry::File(String::from("root/a.json")),
        WalkEntry::File(String::from("root/readme.md")),
        WalkEntry::Other(String::from("root/2023")),
        WalkEntry::File(String::from("root/2023/b.json")),
        WalkEntry::Other(String::from("root/2023/deep.json")),
        WalkEntry::File(String::from("root/2023/deep.json/c.json")),
        WalkEntry::File(String::from("root/2023/deep.json/notes.txt")),
        WalkEntry::File(String::from("root/2023/json")),
    ]);
    assert_eq!(
        found.paths,
        vec![
            String::from("root/a.json"),
            String::from("root/2023/b.json"),
            String::from("root/2023/deep.json/c.json"),
        ]
    );
    assert_eq!(found.skipped, Vec::<String>::new());
}

#[test]
fn discovery_passes_over_unreadable_entries() {
    let found = discover(vec![
        WalkEntry::File(String::from("root/a.json")),
        WalkEntry::Unreadable(String::from("root/locked: permission denied")),
        WalkEntry::Unreadable(String::from("x.json")),
        WalkEntry::File(String::from("root/z.json")),
    ]);
    assert_eq!(found.paths, vec![String::from("root/a.json"), String::from("root/z.json")]);
    assert_eq!(
        found.skipped,
        vec![String::from("root/locked: permission denied"), String::from("x.json")]
    );
}

#[test]
fn discovery_of_an_empty_walk() {
    let found = discover(Vec::new());
    assert!(found.paths.is_empty());
    assert!(found.skipped.is_empty());
}

#[test]
fn discovery_of_a_missing_root() {
    let found = discover(vec![WalkEntry::Unreadable(String::from(
        "IO error for operation on missing: No such file or directory",
    ))]);
    assert!(found.paths.is_empty());
    assert_eq!(found.skipped.len(), 1);
    let listing = ordered_listing(Vec::new());
    assert!(listing.records.is_empty());
    assert!(listing.diagnostics.is_empty());
}

#[test]
fn aggregation_is_complete() {
    let merged = aggregate(three_files());
    assert_eq!(record_ids(&merged.records), vec![1, 2, 3, 4, 5]);
    assert_eq!(
        merged.diagnostics,
        vec![Diagnostic {
            path: String::from("data/2023/f2.json"),
            failure: Failure::Decode(String::from("expected value at line 1 column 1")),
        }]
    );
}

#[test]
fn failed_file_leaves_siblings_untouched() {
    let with_failure = aggregate(three_files());
    let mut files = three_files();
    files.remove(1);
    let without = aggregate(files);
    assert_eq!(with_failure.records, without.records);
    assert!(without.diagnostics.is_empty());
}

#[test]
fn aggregation_does_not_deduplicate() {
    let merged = aggregate(vec![
        FileReport { path: String::from("a.json"), outcome: Ok(vec![record(1, "x")]) },
        FileReport { path: String::from("b.json"), outcome: Ok(vec![record(1, "x")]) },
        FileReport { path: String::from("c.json"), outcome: Ok(Vec::new()) },
    ]);
    assert_eq!(record_ids(&merged.records), vec![1, 1]);
    assert!(merged.diagnostics.is_empty());
}

#[test]
fn aggregation_of_failures_only() {
    let merged = aggregate(vec![
        FileReport {
            path: String::from("a.json"),
            outcome: Err(Failure::Read(String::from("first"))),
        },
        FileReport {
            path: String::from("b.json"),
            outcome: Err(Failure::Decode(String::from("second"))),
        },
    ]);
    assert!(merged.records.is_empty());
    assert_eq!(
        merged.diagnostics,
        vec![
            Diagnostic {
                path: String::from("a.json"),
                failure: Failure::Read(String::from("first")),
            },
            Diagnostic {
                path: String::from("b.json"),
                failure: Failure::Decode(String::from("second")),
            },
        ]
    );
    let listing = ordered_listing(vec![FileReport {
        path: String::from("a.json"),
        outcome: Err(Failure::Read(String::from("first"))),
    }]);
    assert!(listing.records.is_empty());
    assert_eq!(listing.diagnostics.len(), 1);
}

#[test]
fn listing_is_ordered() {
    let listing = ordered_listing(three_files());
    assert_eq!(record_ids(&listing.records), vec![4, 2, 5, 1, 3]);
    assert_eq!(listing.diagnostics.len(), 1);
    assert_eq!(listing.diagnostics[0].path, "data/2023/f2.json");
}

#[test]
fn listing_is_idempotent() {
    let first = ordered_listing(three_files());
    let second = ordered_listing(three_files());
    assert_eq!(first, second);
}

#[test]
fn reversed_turns_round() {
    assert_eq!(reversed(vec![1, 2, 3]), vec![3, 2, 1]);
    assert_eq!(reversed(Vec::<u8>::new()), Vec::<u8>::new());
    assert_eq!(reversed(vec![String::from("a")]), vec![String::from("a")]);
}
