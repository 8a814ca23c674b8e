use rohan::aggregate::{Aggregator, summarize};
use rohan::batch::make_batches;
use rohan::config::Config;
use rohan::limiter::{Admission, RateLimiter, WINDOW_MS};
use rohan::model::{Artifact, ErrorKind, GenerationResult, WorkItem};
use rohan::retry::{decide_retry, RetryDecision, DEFAULT_MAX_ATTEMPTS};
use rohan::sink::{build_scripts, FileStore, WriteOutcome};

fn op(name: &str) -> WorkItem {
    WorkItem::Operation {
        name: name.to_string(),
        http_method: "GET".to_string(),
        path: format!("/{}", name),
        schema_fragment: String::new(),
    }
}

fn item_name(w: &WorkItem) -> String {
    match w {
        WorkItem::Operation { name, .. } => name.clone(),
        WorkItem::ScenarioOutline { name, .. } => name.clone(),
    }
}

#[test]
fn test_config_default() {
    let config = Config::default();
    assert!(config.target.is_none());
    assert!(config.api_base.is_none());
    assert!(config.model.is_none());
}

#[test]
fn test_batches_reconstruct_order() {
    // Seven items in batches of three: ceil(7/3) = 3 batches, and the
    // concatenation in batch order is the original sequence.
    let items: Vec<WorkItem> = (0..7).map(|i| op(&format!("item{}", i))).collect();
    let batches = make_batches(items, 3);
    assert_eq!(batches.len(), 3);
    assert_eq!(batches[0].len(), 3);
    assert_eq!(batches[1].len(), 3);
    assert_eq!(batches[2].len(), 1);
    let flat: Vec<String> = batches.iter().flatten().map(item_name).collect();
    let expected: Vec<String> = (0..7).map(|i| format!("item{}", i)).collect();
    assert_eq!(flat, expected);
}

#[test]
fn test_batches_exact_division() {
    let items: Vec<WorkItem> = (0..6).map(|i| op(&format!("i{}", i))).collect();
    let batches = make_batches(items, 2);
    assert_eq!(batches.len(), 3);
    for b in &batches {
        assert_eq!(b.len(), 2);
    }
}

#[test]
fn test_batches_single() {
    let items = vec![op("only")];
    let batches = make_batches(items, 10);
    assert_eq!(batches.len(), 1);
    assert_eq!(batches[0].len(), 1);
}

#[test]
fn test_batches_empty() {
    let batches = make_batches(Vec::new(), 4);
    assert_eq!(batches.len(), 0);
}

#[test]
fn test_limiter_exact_rpm_never_blocks() {
    // Exactly rpm acquisitions within one window all admit.
    let mut limiter = RateLimiter::new(5, 1_000);
    for k in 0..5 {
        match limiter.acquire(1_000 + k) {
            Admission::Admit => {}
            Admission::WaitUntil { .. } => panic!("blocked within the cap"),
        }
    }
}

#[test]
fn test_limiter_over_rpm_waits_for_window() {
    // The rpm+1-th acquisition in one window waits until the boundary.
    let mut limiter = RateLimiter::new(3, 10_000);
    for _ in 0..3 {
        match limiter.acquire(10_500) {
            Admission::Admit => {}
            Admission::WaitUntil { .. } => panic!("blocked within the cap"),
        }
    }
    match limiter.acquire(20_000) {
        Admission::Admit => panic!("admitted over the cap"),
        Admission::WaitUntil { deadline_ms } => {
            assert_eq!(deadline_ms, 10_000 + WINDOW_MS);
            // The observed wait covers the remaining window time.
            assert_eq!(deadline_ms - 20_000, 50_000);
        }
    }
}

#[test]
fn test_limiter_window_reset_admits() {
    let mut limiter = RateLimiter::new(1, 0);
    assert!(matches!(limiter.acquire(10), Admission::Admit));
    assert!(matches!(limiter.acquire(20), Admission::WaitUntil { .. }));
    // Past the boundary the window resets and admits again.
    assert!(matches!(limiter.acquire(WINDOW_MS + 1), Admission::Admit));
}

#[test]
fn test_limiter_zero_rpm_unthrottled() {
    let mut limiter = RateLimiter::new(0, 0);
    for k in 0..100 {
        assert!(matches!(limiter.acquire(k), Admission::Admit));
    }
}

fn success(name: &str) -> GenerationResult {
    GenerationResult::Success {
        artifact: Artifact::Script { name: name.to_string(), code: "code".to_string() },
    }
}

fn result_name(r: &GenerationResult) -> String {
    match r {
        GenerationResult::Success { artifact: Artifact::Script { name, .. } } => name.clone(),
        GenerationResult::Success { .. } => "other".to_string(),
        GenerationResult::Failure { .. } => "failure".to_string(),
    }
}

#[test]
fn test_aggregator_orders_by_submission_index() {
    // Completion order 2, 0, 3, 1; the final collection is 0, 1, 2, 3.
    let mut agg = Aggregator::new(4);
    agg.record(2, success("r2"));
    agg.record(0, success("r0"));
    agg.record(3, success("r3"));
    agg.record(1, success("r1"));
    let ordered = agg.into_ordered();
    let names: Vec<String> = ordered.iter().map(result_name).collect();
    assert_eq!(names, vec!["r0", "r1", "r2", "r3"]);
}

#[test]
fn test_partial_failure_reported_at_index() {
    // Ten items, item 4 fails with a non-retryable error: 9 successes,
    // 1 failure, the collection has length 10 and marks index 4.
    let mut agg = Aggregator::new(10);
    for i in (0..10).rev() {
        if i == 4 {
            agg.record(
                i,
                GenerationResult::Failure {
                    kind: ErrorKind::Service,
                    message: "completion rejected".to_string(),
                },
            );
        } else {
            agg.record(i, success(&format!("r{}", i)));
        }
    }
    let ordered = agg.into_ordered();
    assert_eq!(ordered.len(), 10);
    let summary = summarize(&ordered);
    assert_eq!(summary.successes, 9);
    assert_eq!(summary.failures, 1);
    for (i, r) in ordered.iter().enumerate() {
        match r {
            GenerationResult::Failure { kind, .. } => {
                assert_eq!(i, 4);
                assert_eq!(*kind, ErrorKind::Service);
            }
            GenerationResult::Success { .. } => assert_ne!(i, 4),
        }
    }
}

#[test]
fn test_retry_transient_then_give_up() {
    match decide_retry(ErrorKind::Transport, 0, DEFAULT_MAX_ATTEMPTS) {
        RetryDecision::RetryAfter { backoff_ms } => assert_eq!(backoff_ms, 500),
        RetryDecision::GiveUp => panic!("gave up on a transient failure"),
    }
    match decide_retry(ErrorKind::Transport, 1, DEFAULT_MAX_ATTEMPTS) {
        RetryDecision::RetryAfter { backoff_ms } => assert_eq!(backoff_ms, 1_000),
        RetryDecision::GiveUp => panic!("gave up too early"),
    }
    assert!(matches!(
        decide_retry(ErrorKind::Transport, 3, DEFAULT_MAX_ATTEMPTS),
        RetryDecision::GiveUp
    ));
}

#[test]
fn test_retry_non_retryable_gives_up_at_once() {
    assert!(matches!(
        decide_retry(ErrorKind::Service, 0, DEFAULT_MAX_ATTEMPTS),
        RetryDecision::GiveUp
    ));
    assert!(matches!(
        decide_retry(ErrorKind::Parse, 0, DEFAULT_MAX_ATTEMPTS),
        RetryDecision::GiveUp
    ));
}

#[test]
fn test_sink_skips_existing_without_overwrite() {
    let mut store = FileStore::new();
    let name = "test_a.js".to_string();
    let first = "first".to_string();
    let second = "second".to_string();
    assert!(matches!(store.sink_write(&name, &first, false), WriteOutcome::Written));
    assert!(matches!(store.sink_write(&name, &second, false), WriteOutcome::Skipped));
    assert!(matches!(store.sink_write(&name, &second, true), WriteOutcome::Written));
}

#[test]
fn test_build_twice_is_idempotent() {
    // Building the same artifacts twice without overwrite writes each
    // file once and records every artifact in each run's manifest.
    let scripts = vec![
        ("Get_User".to_string(), "get user code".to_string()),
        ("Create_User".to_string(), "create user code".to_string()),
    ];
    let mut store = FileStore::new();
    let manifest1 = build_scripts(&mut store, &scripts, false);
    let manifest2 = build_scripts(&mut store, &scripts, false);
    assert_eq!(manifest1.len(), 2);
    assert_eq!(manifest2.len(), 2);
    assert_eq!(manifest1[0].id, 1);
    assert_eq!(manifest1[1].id, 2);
    assert_eq!(manifest1[0].file, "test_get_user.js");
    assert_eq!(manifest1[1].file, "test_create_user.js");
    assert_eq!(manifest2[0].file, manifest1[0].file);
    // The second run skipped both writes, so the first contents stay.
    assert!(matches!(
        store.sink_write(&"test_get_user.js".to_string(), &"x".to_string(), false),
        WriteOutcome::Skipped
    ));
}

#[test]
fn test_extract_code_block() {
    let reply = "Here is the script:\n```javascript\nimport http from 'k6/http';\nexport default function () {}\n```\nEnjoy!";
    let code = rohan::reply::extract_code_block(reply).expect("fenced reply must parse");
    assert_eq!(code, "import http from 'k6/http';\nexport default function () {}\n");
    assert!(rohan::reply::extract_code_block("no fences here").is_none());
    assert!(rohan::reply::extract_code_block("``` unterminated\nbody").is_none());
}

#[test]
fn test_render_template_substitutes() {
    let out = rohan::prompt::render_template("before {{SPEC}} after", "{{SPEC}}", "CONTENT")
        .expect("placeholder present");
    assert_eq!(out, "before CONTENT after");
    assert!(rohan::prompt::render_template("no placeholder", "{{SPEC}}", "x").is_none());
}

#[test]
fn test_manifest_serialization() {
    let entries = vec![
        rohan::sink::ManifestEntry {
            id: 1,
            name: "Get User".to_string(),
            file: "test_get_user.js".to_string(),
        },
        rohan::sink::ManifestEntry {
            id: 12,
            name: "A\"B".to_string(),
            file: "test_a_b.js".to_string(),
        },
    ];
    let text = rohan::sink::manifest_to_text(&entries);
    assert_eq!(
        text,
        "[{\"id\":1,\"name\":\"Get User\",\"file\":\"test_get_user.js\"},{\"id\":12,\"name\":\"A\\\"B\",\"file\":\"test_a_b.js\"}]"
    );
    assert_eq!(rohan::sink::manifest_to_text(&Vec::new()), "[]");
}

#[test]
fn test_script_content_framing() {
    let content = rohan::sink::script_content("Get_User", "export default function () {}");
    assert_eq!(
        content,
        "// Test: Get_User\n// Generated by Rohan\n\nexport default function () {}"
    );
}

#[test]
fn test_classify_status() {
    assert_eq!(rohan::retry::classify_status(429), ErrorKind::Transport);
    assert_eq!(rohan::retry::classify_status(500), ErrorKind::Transport);
    assert_eq!(rohan::retry::classify_status(503), ErrorKind::Transport);
    assert_eq!(rohan::retry::classify_status(400), ErrorKind::Service);
    assert_eq!(rohan::retry::classify_status(401), ErrorKind::Service);
    assert_eq!(rohan::retry::classify_status(404), ErrorKind::Service);
}
