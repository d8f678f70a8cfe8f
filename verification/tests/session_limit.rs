use ccusage::entry::{AgentReportKind, LoadedEntry, TokenUsage, UsageEntry, UsageMessage};
use ccusage::session::{limit_recent, limit_session_rows, UsageSummary};
use ccusage::timestamp::{parse_ts_timestamp, TimestampMs};

fn entry(session: &str, timestamp: &str, input: u64) -> LoadedEntry<f64> {
    LoadedEntry {
        data: UsageEntry {
            session_id: Some(session.to_string()),
            timestamp: timestamp.to_string(),
            message: UsageMessage {
                usage: TokenUsage {
                    input_tokens: input,
                    output_tokens: 0,
                    cache_creation_input_tokens: 0,
                    cache_read_input_tokens: 0,
                },
                model: Some("test-model".to_string()),
                id: None,
            },
            cost_usd: None,
            request_id: None,
        },
        timestamp: parse_ts_timestamp(timestamp).unwrap(),
        date: timestamp[..10].to_string(),
        project: "test-project".to_string(),
        session_id: session.to_string(),
        project_path: "/test-project".to_string(),
        cost: input as f64 / 100.0,
        extra_total_tokens: 0,
        model: Some("test-model".to_string()),
        missing_pricing_model: None,
    }
}

/// Three sessions: `a-resumed` started first but was resumed last, `m-new`
/// is recent, `z-old` is old.
fn entries() -> Vec<LoadedEntry<f64>> {
    vec![
        entry("a-resumed", "2026-01-01T10:00:00.000Z", 10),
        entry("z-old", "2026-01-02T10:00:00.000Z", 5),
        entry("m-new", "2026-01-04T10:00:00.000Z", 20),
        entry("a-resumed", "2026-01-05T10:00:00.000Z", 30),
    ]
}

fn summary(session: &str, input: u64, last_activity: Option<&str>) -> UsageSummary {
    UsageSummary {
        session_id: Some(session.to_string()),
        last_activity: last_activity.map(|s| s.to_string()),
        input_tokens: input,
        output_tokens: 0,
        cache_creation_tokens: 0,
        cache_read_tokens: 0,
        total_tokens: input,
    }
}

/// One row per session, in identifier order, without last-activity times.
fn summaries() -> Vec<UsageSummary> {
    vec![summary("a-resumed", 40, None), summary("m-new", 20, None), summary("z-old", 5, None)]
}

fn ids(rows: &[UsageSummary]) -> Vec<String> {
    rows.iter().map(|r| r.session_id.clone().unwrap_or_default()).collect()
}

fn input_total(rows: &[UsageSummary]) -> u64 {
    rows.iter().map(|r| r.input_tokens).sum()
}

#[test]
fn selects_by_activity_not_identifier_and_breaks_ties_deterministically() {
    let mut rows = vec![
        ("z-old", Some(1)),
        ("b-new", Some(3)),
        ("a-new", Some(3)),
        ("missing", None),
    ];
    limit_recent(&mut rows, Some(2), |(id, ts)| {
        (ts.map(TimestampMs::from_millis), id.to_string())
    });
    assert_eq!(rows, [("a-new", Some(3)), ("b-new", Some(3))]);
}

#[test]
fn unlimited_oversized_zero_and_empty_limits() {
    let original = vec![("b", Some(1)), ("a", Some(2))];
    let key =
        |row: &(&str, Option<i64>)| (row.1.map(TimestampMs::from_millis), row.0.to_string());
    let mut rows = original.clone();
    limit_recent(&mut rows, None, key);
    assert_eq!(rows, original);
    limit_recent(&mut rows, Some(10), key);
    assert_eq!(rows.len(), 2);
    limit_recent(&mut rows, Some(0), key);
    assert!(rows.is_empty());
    limit_recent(&mut rows, Some(1), key);
    assert!(rows.is_empty());
}

#[test]
fn last_sessions_selects_recent_activity_before_order_and_totals() {
    let entries = entries();
    let mut rows = summaries();
    limit_session_rows(&mut rows, &entries, AgentReportKind::Session, Some(2));
    assert_eq!(ids(&rows), vec!["a-resumed", "m-new"]);
    assert_eq!(rows.len(), 2);
    assert_eq!(input_total(&rows), 60);
}

#[test]
fn last_one_includes_all_usage_of_resumed_session_and_handles_large_or_empty_limits() {
    let entries = entries();
    let kind = AgentReportKind::Session;
    let mut rows = summaries();
    limit_session_rows(&mut rows, &entries, kind, Some(100));
    assert_eq!(rows.len(), 3);
    limit_session_rows(&mut rows, &entries, kind, Some(1));
    assert_eq!(rows[0].session_id.as_deref(), Some("a-resumed"));
    assert_eq!(input_total(&rows), 40);
    rows.clear();
    limit_session_rows(&mut rows, &entries, kind, Some(1));
    assert!(rows.is_empty());
}

#[test]
fn last_does_not_limit_period_rows_and_no_limit_preserves_sessions() {
    let entries = entries();
    for kind in [
        AgentReportKind::Daily,
        AgentReportKind::Weekly,
        AgentReportKind::Monthly,
        AgentReportKind::Session,
    ] {
        let mut rows = summaries();
        let before = ids(&rows);
        let last = if kind == AgentReportKind::Session { None } else { Some(1) };
        limit_session_rows(&mut rows, &entries, kind, last);
        assert_eq!(ids(&rows), before);
        assert_eq!(input_total(&rows), 65);
    }
}

#[test]
fn own_last_activity_wins_over_entry_times() {
    let entries = entries();
    let mut rows = vec![
        summary("a-resumed", 40, None),
        summary("z-old", 5, Some("2026-02-01T00:00:00Z")),
        summary("m-new", 20, None),
    ];
    limit_session_rows(&mut rows, &entries, AgentReportKind::Session, Some(3));
    assert_eq!(ids(&rows), vec!["z-old", "a-resumed", "m-new"]);
}

#[test]
fn unparsable_last_activity_falls_back_to_entries() {
    let entries = entries();
    let mut rows = vec![
        summary("z-old", 5, Some("yesterday")),
        summary("m-new", 20, Some("2026-01-04T10:00:00Z")),
    ];
    limit_session_rows(&mut rows, &entries, AgentReportKind::Session, Some(1));
    assert_eq!(ids(&rows), vec!["m-new"]);
}

#[test]
fn sessions_without_activity_are_oldest() {
    let entries = entries();
    let mut rows = vec![
        summary("unseen", 1, None),
        summary("z-old", 5, None),
        summary("another-unseen", 2, None),
    ];
    limit_session_rows(&mut rows, &entries, AgentReportKind::Session, Some(2));
    assert_eq!(ids(&rows), vec!["z-old", "another-unseen"]);
}

#[test]
fn rows_without_session_id_sort_as_empty_identifier() {
    let entries: Vec<LoadedEntry<f64>> = Vec::new();
    let mut rows = vec![summary("b", 1, None), summary("a", 2, None)];
    rows.push(UsageSummary { session_id: None, ..summary("", 3, None) });
    limit_session_rows(&mut rows, &entries, AgentReportKind::Session, Some(2));
    assert_eq!(ids(&rows), vec!["", "a"]);
}

#[test]
fn equal_keys_keep_their_order_and_limiting_twice_changes_nothing() {
    let mut rows = vec![("x", Some(5), 1), ("y", Some(7), 2), ("x", Some(5), 3), ("w", None, 4)];
    let key = |r: &(&str, Option<i64>, i32)| (r.1.map(TimestampMs::from_millis), r.0.to_string());
    limit_recent(&mut rows, Some(3), key);
    assert_eq!(rows, [("y", Some(7), 2), ("x", Some(5), 1), ("x", Some(5), 3)]);
    let once = rows.clone();
    limit_recent(&mut rows, Some(3), key);
    assert_eq!(rows, once);
}

#[test]
fn identifiers_compare_by_code_point() {
    let mut rows = vec![("é", Some(1)), ("z", Some(1)), ("Z", Some(1)), ("za", Some(1))];
    limit_recent(&mut rows, Some(4), |(id, ts)| {
        (ts.map(TimestampMs::from_millis), id.to_string())
    });
    assert_eq!(rows, [("Z", Some(1)), ("z", Some(1)), ("za", Some(1)), ("é", Some(1))]);
}

#[test]
fn kept_sessions_do_not_depend_on_row_order() {
    let entries = entries();
    let mut forward = summaries();
    let mut backward = summaries();
    backward.reverse();
    limit_session_rows(&mut forward, &entries, AgentReportKind::Session, Some(2));
    limit_session_rows(&mut backward, &entries, AgentReportKind::Session, Some(2));
    assert_eq!(ids(&forward), ids(&backward));
}

#[test]
fn limiting_to_m_then_n_rows_is_limiting_once_to_the_smaller() {
    let original = vec![
        ("c", Some(4)),
        ("a", Some(9)),
        ("d", None),
        ("b", Some(9)),
        ("e", Some(1)),
    ];
    let key = |r: &(&str, Option<i64>)| (r.1.map(TimestampMs::from_millis), r.0.to_string());
    for (m, n) in [(4u32, 2u32), (2, 4), (3, 3), (0, 5), (5, 0)] {
        let mut twice = original.clone();
        limit_recent(&mut twice, Some(m), key);
        limit_recent(&mut twice, Some(n), key);
        let mut once = original.clone();
        limit_recent(&mut once, Some(m.min(n)), key);
        assert_eq!(twice, once, "limits {m} then {n}");
    }
    let mut rows = original.clone();
    limit_recent(&mut rows, Some(4), key);
    limit_recent(&mut rows, Some(2), key);
    assert_eq!(rows, [("a", Some(9)), ("b", Some(9))]);
}

#[test]
fn limiting_rows_of_summaries_twice_keeps_the_newest() {
    let original = vec![("a", Some(3)), ("b", Some(5)), ("c", Some(1)), ("d", Some(4))];
    let key = |r: &(&str, Option<i64>)| (r.1.map(TimestampMs::from_millis), r.0.to_string());
    let mut rows = original.clone();
    limit_recent(&mut rows, Some(3), key);
    assert_eq!(rows, [("b", Some(5)), ("d", Some(4)), ("a", Some(3))]);
    limit_recent(&mut rows, Some(1), key);
    assert_eq!(rows, [("b", Some(5))]);
}
