use ccusage::jsonl::{contains_within, record_line_spans};
use ccusage::paths::{components, extract_project, extract_project_for_store, extract_session_id};
use ccusage::pi::PiStoreContext;
use ccusage::text::{decimal_string, str_eq};
use ccusage::timestamp::{format_rfc3339_millis, is_representable_millis, parse_ts_timestamp, TimestampMs};

#[test]
fn session_ids_come_from_the_file_stem() {
    assert_eq!(extract_session_id("sessions/project-a/agent_session-a.jsonl"), "session-a");
    assert_eq!(extract_session_id("/x/y/plain.jsonl"), "plain");
    assert_eq!(extract_session_id("/x/a_b_c.tar.gz"), "b_c.tar");
    assert_eq!(extract_session_id("/x/.hidden"), ".hidden");
    assert_eq!(extract_session_id("/x/name."), "name");
    assert_eq!(extract_session_id("/"), "unknown");
    assert_eq!(extract_session_id("dir/.."), "unknown");
    assert_eq!(extract_session_id(""), "unknown");
    assert_eq!(extract_session_id("a/b.jsonl/."), "b");
}

#[test]
fn projects_follow_the_sessions_directory() {
    assert_eq!(extract_project("/home/u/.pi/agent/sessions/project-a/s.jsonl"), "project-a");
    assert_eq!(extract_project("a//sessions/./p/x.jsonl"), "p");
    assert_eq!(extract_project("/home/u/other/p/x.jsonl"), "unknown");
    assert_eq!(extract_project("/home/u/sessions"), "unknown");
    assert_eq!(extract_project("/a/sessions/sessions/x"), "sessions");
    assert_eq!(extract_project("/a/sessions/../x"), "..");
}

#[test]
fn store_projects_are_the_first_directory_below_the_root() {
    assert_eq!(extract_project_for_store("/root/store/proj/x.jsonl", "/root/store"), "proj");
    assert_eq!(extract_project_for_store("/root/store/proj/x.jsonl", "/root/store/"), "proj");
    assert_eq!(extract_project_for_store("/root//store/./proj/x.jsonl", "/root/store"), "proj");
    assert_eq!(extract_project_for_store("/root/store", "/root/store"), "unknown");
    assert_eq!(extract_project_for_store("/elsewhere/sessions/p/x.jsonl", "/root/store"), "p");
    assert_eq!(extract_project_for_store("/root/storex/p/x.jsonl", "/root/store"), "unknown");
    assert_eq!(extract_project_for_store("/a/b", ""), "/");
}

#[test]
fn components_follow_std_path() {
    let cases = ["/a//b/./c/", "./a/b", ".", "", "a/../b", "/", "..", ".x/y"];
    for case in cases {
        let expected: Vec<String> = std::path::Path::new(case)
            .components()
            .map(|c| c.as_os_str().to_string_lossy().into_owned())
            .collect();
        assert_eq!(components(case), expected, "{case}");
    }
}

#[test]
fn store_context_names_and_projects() {
    let named = PiStoreContext::Named { root: "/r/omp", name: "omp" };
    assert_eq!(PiStoreContext::Default.store_name(), "pi");
    assert_eq!(named.store_name(), "omp");
    assert_eq!(PiStoreContext::Default.project("/r/sessions/p1/s.jsonl"), "p1");
    assert_eq!(named.project("/r/omp/p2/s.jsonl"), "p2");
}

#[test]
fn timestamps_parse_and_render_through_jiff() {
    assert_eq!(parse_ts_timestamp("2026-01-03T23:59:59.999Z"), Some(TimestampMs(1767484799999)));
    assert_eq!(parse_ts_timestamp("2026-01-04T01:00:00+01:00"), Some(TimestampMs(1767484800000)));
    assert_eq!(parse_ts_timestamp("not-a-timestamp"), None);
    assert_eq!(parse_ts_timestamp("2026-01-04T00:00:00"), None);
    assert_eq!(format_rfc3339_millis(TimestampMs(1767398400000)), "2026-01-03T00:00:00.000Z");
    assert_eq!(format_rfc3339_millis(TimestampMs(1)), "1970-01-01T00:00:00.001Z");
    assert!(is_representable_millis(253_402_207_200_000));
    assert!(!is_representable_millis(253_402_207_200_001));
    assert!(is_representable_millis(-377_705_023_201_000));
    assert!(!is_representable_millis(-377_705_023_201_001));
    assert_eq!(TimestampMs::from_millis(7).as_millis(), 7);
}

#[test]
fn decimal_and_equality_helpers() {
    assert_eq!(decimal_string(0), "0");
    assert_eq!(decimal_string(1234567890), "1234567890");
    assert_eq!(decimal_string(u64::MAX), u64::MAX.to_string());
    assert!(str_eq("héllo", "héllo"));
    assert!(!str_eq("héllo", "hello"));
    assert!(!str_eq("a", "ab"));
}

#[test]
fn only_lines_with_usage_and_message_keys_are_kept() {
    let content = b"{\"message\":{\"usage\":{}}}\n\n{\"type\":\"session\"}\r\n{\"usage\":1,\"message\":2}";
    let spans = record_line_spans(content);
    assert_eq!(spans, vec![(0, 24), (46, content.len())]);
    assert!(contains_within(content, 0, 24, b"\"usage\""));
    assert!(!contains_within(content, 26, 45, b"\"usage\""));
    assert_eq!(record_line_spans(b""), Vec::<(usize, usize)>::new());
}
