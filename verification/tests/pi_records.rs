use ccusage::entry::{CostMode, LoadedEntry, TokenUsage};
use ccusage::timestamp::{format_rfc3339_millis, parse_ts_timestamp, TimestampMs};
use ccusage::pi::{
    apply_total_token_fallback, display_model, entry_id, entry_id_for_store, push_entry,
    session_file_entries, session_requests, subagent_aggregate_request_id, subagent_request_id,
    subagent_result_model, PiAggregateUsage, PiCost, PiLine, PiMessage, PiRequest, PiStoreContext,
    PiSubagentDetails, PiSubagentMessage, PiSubagentResult, PiUsage,
};
use ccusage::pricing::{
    missing_store_pricing_model, store_cost, store_cost_from_tokens, store_pricing, PricingLookup,
};

fn s(x: &str) -> Option<String> {
    Some(x.to_string())
}

fn usage(input: u64, output: u64, cache_read: u64, cache_write: u64, cost: Option<f64>) -> PiUsage<f64> {
    PiUsage {
        input,
        output,
        cache_read,
        cache_write,
        total_tokens: 0,
        cost: cost.map(|total| PiCost { total: Some(total) }),
    }
}

fn assistant_line(timestamp: &str, model: &str, usage: PiUsage<f64>) -> PiLine<f64> {
    PiLine {
        record_type: s("message"),
        timestamp: s(timestamp),
        message: Some(PiMessage {
            role: s("assistant"),
            model: s(model),
            usage: Some(usage),
            tool_name: None,
            tool_call_id: None,
            details: None,
        }),
    }
}

fn nested(model: Option<&str>, timestamp: Option<i64>, usage: Option<PiUsage<f64>>) -> PiSubagentMessage<f64> {
    PiSubagentMessage { role: s("assistant"), model: model.map(|m| m.to_string()), timestamp, usage }
}

fn aggregate(input: u64, output: u64, cache_read: u64, cache_write: u64, cost: f64) -> PiAggregateUsage<f64> {
    PiAggregateUsage { input, output, cache_read, cache_write, total_tokens: 0, cost: Some(cost) }
}

fn subagent_line(timestamp: &str, call_id: Option<&str>, results: Vec<PiSubagentResult<f64>>) -> PiLine<f64> {
    PiLine {
        record_type: s("message"),
        timestamp: s(timestamp),
        message: Some(PiMessage {
            role: s("toolResult"),
            model: None,
            usage: None,
            tool_name: s("subagent"),
            tool_call_id: call_id.map(|c| c.to_string()),
            details: Some(PiSubagentDetails { results }),
        }),
    }
}

const LOG_PATH: &str = "/fixture/sessions/project-a/agent_session-a.jsonl";

fn entries_of(lines: &Vec<PiLine<f64>>, context: PiStoreContext) -> Vec<LoadedEntry<f64>> {
    session_file_entries(
        LOG_PATH,
        lines,
        context,
        |r: &PiRequest<f64>| r.display_cost.unwrap_or(0.0),
        |_: &PiRequest<f64>| None,
        |r: &PiRequest<f64>| r.timestamp_text[..10].to_string(),
    )
}

fn cost_text(c: &f64) -> String {
    c.to_string()
}

#[test]
fn keeps_nested_subagent_usage_when_the_tool_result_timestamp_is_invalid() {
    let lines = vec![subagent_line(
        "not-a-timestamp",
        Some("call-a"),
        vec![PiSubagentResult {
            model: s("provider/gpt-sub"),
            usage: Some(aggregate(999, 999, 0, 0, 9.99)),
            messages: vec![nested(Some("gpt-sub"), Some(1767398400000), Some(usage(25, 5, 0, 0, Some(0.2))))],
        }],
    )];
    let entries = entries_of(&lines, PiStoreContext::Default);
    assert_eq!(entries.len(), 1);
    assert_eq!(entries[0].data.message.usage.input_tokens, 25);
    assert_eq!(entries[0].data.message.usage.output_tokens, 5);
    assert_eq!(entries[0].cost, 0.2);
    assert_eq!(entries[0].data.timestamp, "2026-01-03T00:00:00.000Z");
}

#[test]
fn falls_back_to_total_tokens_when_pi_parts_are_missing() {
    let mut u = usage(0, 0, 0, 0, None);
    u.total_tokens = 333;
    let lines = vec![assistant_line("2026-01-02T00:00:00.000Z", "gpt-5", u)];
    let entries = entries_of(&lines, PiStoreContext::Default);
    assert_eq!(entries.len(), 1);
    assert_eq!(entries[0].data.message.usage.output_tokens, 333);
    assert_eq!(entries[0].extra_total_tokens, 0);
}

#[test]
fn keeps_record_when_cost_is_not_an_object() {
    let lines = vec![assistant_line("2026-01-02T00:00:00.000Z", "gpt-5", usage(100, 200, 0, 0, None))];
    let entries = entries_of(&lines, PiStoreContext::Default);
    assert_eq!(entries.len(), 1);
    assert_eq!(entries[0].data.message.usage.input_tokens, 100);
    assert_eq!(entries[0].data.message.usage.output_tokens, 200);
}

#[test]
fn prefixes_named_store_models_with_store_name() {
    let lines = vec![assistant_line("2026-01-02T00:00:00.000Z", "gpt-5", usage(100, 200, 0, 0, None))];
    let context = PiStoreContext::Named { root: "/fixture/sessions", name: "omp" };
    let entries = entries_of(&lines, context);
    assert_eq!(entries.len(), 1);
    assert_eq!(entries[0].model.as_deref(), Some("[omp] gpt-5"));
    assert_eq!(entries[0].data.message.model.as_deref(), Some("[omp] gpt-5"));
}

#[test]
fn includes_named_store_in_dedupe_identity() {
    let lines = vec![assistant_line("2026-01-02T00:00:00.000Z", "gpt-5", usage(100, 200, 0, 0, None))];
    let pi = entries_of(&lines, PiStoreContext::Default).pop().unwrap();
    let omp = entries_of(&lines, PiStoreContext::Named { root: "/fixture/sessions", name: "omp" })
        .pop()
        .unwrap();
    assert_ne!(entry_id(&pi, cost_text), entry_id_for_store("omp", &omp, cost_text));
}

fn price_table(entries: Vec<(&'static str, (f64, f64))>) -> PricingLookup<impl Fn(&str) -> Option<(f64, f64)>, impl Fn(&str) -> Option<(f64, f64)>> {
    let exact = entries.clone();
    let fuzzy = entries;
    PricingLookup {
        find_exact: move |m: &str| exact.iter().find(|(k, _)| *k == m).map(|(_, p)| *p),
        find: move |m: &str| fuzzy.iter().find(|(k, _)| *k == m).map(|(_, p)| *p),
    }
}

fn tokens(input: u64, output: u64) -> TokenUsage {
    TokenUsage { input_tokens: input, output_tokens: output, cache_creation_input_tokens: 0, cache_read_input_tokens: 0 }
}

fn named_store_cost<FE: Fn(&str) -> Option<(f64, f64)>, FF: Fn(&str) -> Option<(f64, f64)>>(
    pricing: &PricingLookup<FE, FF>,
    raw: &str,
    display: &str,
    usage: TokenUsage,
) -> f64 {
    let context = PiStoreContext::Named { root: "/fixture/sessions", name: "store" };
    context.cost(
        None,
        CostMode::Calculate,
        0.0,
        || panic!("a named store is not priced as pi's own"),
        || {
            store_cost_from_tokens(Some(raw), Some(display), Some(pricing), 0.0, |p: &(f64, f64)| {
                usage.input_tokens as f64 * p.0 + usage.output_tokens as f64 * p.1
            })
        },
    )
}

#[test]
fn named_store_name_does_not_price_unknown_models() {
    let pricing = price_table(vec![("o3", (0.000002, 0.000008))]);
    let display = display_model("o3", "totally-unknown-model");
    let price = store_pricing(Some("totally-unknown-model"), Some(display.as_str()), Some(&pricing));
    assert_eq!(price, None);
    let missing = missing_store_pricing_model(
        Some("totally-unknown-model"),
        Some(display.as_str()),
        tokens(1000000, 1000000),
        &None::<f64>,
        CostMode::Calculate,
        Some(&pricing),
        |m: &str| m.to_string(),
    );
    assert_eq!(missing.as_deref(), Some("totally-unknown-model"));
    let cost = named_store_cost(&pricing, "totally-unknown-model", &display, tokens(1000000, 1000000));
    assert_eq!(cost, 0.0);
}

#[test]
fn named_store_name_does_not_outmatch_real_model_pricing() {
    let pricing = price_table(vec![
        ("o3", (0.000002, 0.000008)),
        ("deepseek-chat", (0.001, 0.001)),
    ]);
    let display = display_model("deepseek-chat", "o3");
    let price = store_pricing(Some("o3"), Some(display.as_str()), Some(&pricing));
    assert_eq!(price, Some((0.000002, 0.000008)));
    let missing = missing_store_pricing_model(
        Some("o3"),
        Some(display.as_str()),
        tokens(1000, 2000),
        &None::<f64>,
        CostMode::Calculate,
        Some(&pricing),
        |m: &str| m.to_string(),
    );
    assert_eq!(missing, None);
    assert_eq!(named_store_cost(&pricing, "o3", &display, tokens(1000, 2000)), 0.018000000000000002);
}

#[test]
fn named_store_prefixed_pricing_override_wins_before_unprefixed_lookup() {
    let pricing = price_table(vec![
        ("gpt-5.4", (0.001, 0.001)),
        ("[omp] gpt-5.4", (0.000002, 0.000008)),
    ]);
    let display = display_model("omp", "gpt-5.4");
    let price = store_pricing(Some("gpt-5.4"), Some(display.as_str()), Some(&pricing));
    assert_eq!(price, Some((0.000002, 0.000008)));
    let missing = missing_store_pricing_model(
        Some("gpt-5.4"),
        Some(display.as_str()),
        tokens(1000, 2000),
        &None::<f64>,
        CostMode::Calculate,
        Some(&pricing),
        |m: &str| m.to_string(),
    );
    assert_eq!(missing, None);
    assert_eq!(named_store_cost(&pricing, "gpt-5.4", &display, tokens(1000, 2000)), 0.018000000000000002);
}

#[test]
fn named_store_pricing_needs_a_table_and_wants_no_price_in_display_mode() {
    let none: Option<&PricingLookup<fn(&str) -> Option<(f64, f64)>, fn(&str) -> Option<(f64, f64)>>> = None;
    assert_eq!(store_pricing(Some("o3"), Some("[omp] o3"), none), None);
    let pricing = price_table(vec![]);
    let ask = |mode: CostMode, cost: Option<f64>, usage: TokenUsage, raw: Option<&str>| {
        missing_store_pricing_model(raw, Some("[omp] x"), usage, &cost, mode, Some(&pricing), |m: &str| {
            format!("resolved-{m}")
        })
    };
    assert_eq!(ask(CostMode::Display, None, tokens(1, 1), Some("x")), None);
    assert_eq!(ask(CostMode::Auto, Some(0.05), tokens(1, 1), Some("x")), None);
    assert_eq!(ask(CostMode::Auto, None, tokens(1, 1), Some("x")).as_deref(), Some("resolved-x"));
    assert_eq!(ask(CostMode::Calculate, Some(0.05), tokens(0, 0), Some("x")), None);
    assert_eq!(ask(CostMode::Calculate, None, tokens(1, 0), None), None);
}

fn parallel_subagents() -> Vec<PiLine<f64>> {
    vec![
        assistant_line("2026-01-01T12:00:00.000Z", "gpt-parent", usage(10, 10, 30, 4, Some(0.1))),
        subagent_line(
            "2026-01-02T12:00:00.000Z",
            Some("call-1"),
            vec![
                PiSubagentResult {
                    model: s("provider/gpt-sub"),
                    usage: Some(aggregate(500, 50, 0, 0, 5.0)),
                    messages: vec![
                        nested(None, Some(1767398400000), Some(usage(100, 10, 1000, 10, Some(0.2)))),
                        PiSubagentMessage { role: s("user"), model: None, timestamp: Some(1767398400000), usage: Some(usage(7, 7, 0, 0, None)) },
                        nested(Some("gpt-sub"), Some(1767398401000), Some(usage(200, 30, 3000, 20, Some(0.3)))),
                    ],
                },
                PiSubagentResult {
                    model: s("provider/gpt-sub"),
                    usage: Some(aggregate(900, 90, 0, 0, 9.0)),
                    messages: vec![nested(None, Some(1767398400000), Some(usage(100, 10, 0, 10, Some(0.2))))],
                },
            ],
        ),
    ]
}

#[test]
fn includes_parallel_nested_subagent_messages_without_aggregate_double_counting() {
    let entries = entries_of(&parallel_subagents(), PiStoreContext::Default);
    assert_eq!(entries.len(), 4);
    let sum = |f: fn(&LoadedEntry<f64>) -> u64| entries.iter().map(f).sum::<u64>();
    assert_eq!(sum(|e| e.data.message.usage.input_tokens), 410);
    assert_eq!(sum(|e| e.data.message.usage.output_tokens), 60);
    assert_eq!(sum(|e| e.data.message.usage.cache_read_input_tokens), 4_030);
    assert_eq!(sum(|e| e.data.message.usage.cache_creation_input_tokens), 44);
    assert!((entries.iter().map(|e| e.cost).sum::<f64>() - 0.8).abs() < 1e-12);
}

#[test]
fn keeps_parallel_subagent_messages_with_identical_usage_distinct() {
    let entries = entries_of(&parallel_subagents(), PiStoreContext::Default);
    let identical = entries
        .iter()
        .filter(|entry| entry.data.message.usage.input_tokens == 100)
        .collect::<Vec<_>>();
    assert_eq!(identical.len(), 2);
    assert_ne!(entry_id(identical[0], cost_text), entry_id(identical[1], cost_text));
}

#[test]
fn prefixes_subagent_models_for_named_stores() {
    let context = PiStoreContext::Named { root: "/fixture/sessions", name: "omp" };
    let entries = entries_of(&parallel_subagents(), context);
    assert_eq!(entries.len(), 4);
    assert_eq!(entries[1].model.as_deref(), Some("[omp] gpt-sub"));
    assert_eq!(entries[2].model.as_deref(), Some("[omp] gpt-sub"));
    assert_eq!(entries[3].model.as_deref(), Some("[omp] gpt-sub"));
}

#[test]
fn subagent_requests_carry_their_own_ids_models_and_times() {
    let requests = session_requests(&parallel_subagents(), PiStoreContext::Default);
    assert_eq!(requests.len(), 4);
    let ids: Vec<Option<String>> = requests.iter().map(|r| r.request_id.clone()).collect();
    assert_eq!(ids[0], None);
    assert_eq!(ids[1].as_deref(), Some("subagent:call-1:0:0"));
    assert_eq!(ids[2].as_deref(), Some("subagent:call-1:0:2"));
    assert_eq!(ids[3].as_deref(), Some("subagent:call-1:1:0"));
    assert_eq!(requests[1].model.as_deref(), Some("[pi] gpt-sub"));
    assert_eq!(requests[1].raw_model.as_deref(), Some("gpt-sub"));
    assert_eq!(requests[1].timestamp_text, "2026-01-03T00:00:00.000Z");
    assert_eq!(requests[2].timestamp_text, "2026-01-03T00:00:01.000Z");
    assert_eq!(requests[0].model.as_deref(), Some("[pi] gpt-parent"));
    assert_eq!(requests[0].timestamp_text, "2026-01-01T12:00:00.000Z");
}

#[test]
fn falls_back_to_subagent_aggregate_when_nested_messages_are_unusable() {
    let lines = vec![subagent_line(
        "2026-01-05T12:00:00.000Z",
        None,
        vec![PiSubagentResult {
            model: s("provider/gpt-fallback"),
            usage: Some(aggregate(50, 5, 500, 2, 0.4)),
            messages: vec![
                nested(Some("gpt-x"), None, Some(usage(1, 1, 0, 0, None))),
                nested(Some("gpt-x"), Some(1767398400000), None),
                nested(Some("gpt-x"), Some(1767398400000), Some(usage(0, 0, 0, 0, None))),
                nested(Some("gpt-x"), Some(i64::MAX), Some(usage(3, 3, 0, 0, None))),
            ],
        }],
    )];
    let entries = entries_of(&lines, PiStoreContext::Default);
    assert_eq!(entries.len(), 1);
    assert_eq!(entries[0].data.message.usage.input_tokens, 50);
    assert_eq!(entries[0].data.message.usage.output_tokens, 5);
    assert_eq!(entries[0].data.message.usage.cache_read_input_tokens, 500);
    assert_eq!(entries[0].data.message.usage.cache_creation_input_tokens, 2);
    assert_eq!(entries[0].cost, 0.4);
    assert_eq!(entries[0].model.as_deref(), Some("[pi] gpt-fallback"));
    assert_eq!(entries[0].data.timestamp, "2026-01-05T12:00:00.000Z");
    assert_eq!(
        entries[0].data.request_id.as_deref(),
        Some("subagent:2026-01-05T12:00:00.000Z:0:aggregate")
    );
}

#[test]
fn records_that_carry_no_usable_usage_yield_nothing() {
    let mut other_type = assistant_line("2026-01-02T00:00:00.000Z", "gpt-5", usage(1, 1, 0, 0, None));
    other_type.record_type = s("session");
    let mut untyped = assistant_line("2026-01-02T00:00:00.000Z", "gpt-5", usage(1, 1, 0, 0, None));
    untyped.record_type = None;
    let bad_time = assistant_line("yesterday", "gpt-5", usage(1, 1, 0, 0, None));
    let zero = assistant_line("2026-01-02T00:00:00.000Z", "gpt-5", usage(0, 0, 0, 0, Some(1.0)));
    let mut user = assistant_line("2026-01-02T00:00:00.000Z", "gpt-5", usage(1, 1, 0, 0, None));
    user.message.as_mut().unwrap().role = s("user");
    let mut other_tool = subagent_line("2026-01-02T00:00:00.000Z", Some("c"), vec![]);
    other_tool.message.as_mut().unwrap().tool_name = s("bash");
    let no_message = PiLine::<f64> { record_type: s("message"), timestamp: s("2026-01-02T00:00:00.000Z"), message: None };
    let lines = vec![other_type, untyped, bad_time, zero, user, other_tool, no_message];
    let requests = session_requests(&lines, PiStoreContext::Default);
    assert_eq!(requests.len(), 1);
    assert_eq!(requests[0].usage.input_tokens, 1);
}

#[test]
fn subagent_models_lose_their_provider_prefix() {
    assert_eq!(subagent_result_model("openai/gpt-5"), "gpt-5");
    assert_eq!(subagent_result_model("a/b/c"), "c");
    assert_eq!(subagent_result_model("gpt-5/"), "gpt-5/");
    assert_eq!(subagent_result_model("gpt-5"), "gpt-5");
    assert_eq!(subagent_result_model(""), "");
}

#[test]
fn request_ids_name_call_run_and_message() {
    assert_eq!(subagent_request_id("call-a", 12, 0), "subagent:call-a:12:0");
    assert_eq!(subagent_aggregate_request_id("", 3), "subagent::3:aggregate");
    assert_eq!(display_model("pi", "gpt-5"), "[pi] gpt-5");
}

#[test]
fn total_tokens_complete_the_counted_parts() {
    let t = |i, o, cw, cr| TokenUsage { input_tokens: i, output_tokens: o, cache_creation_input_tokens: cw, cache_read_input_tokens: cr };
    assert_eq!(apply_total_token_fallback(t(0, 0, 0, 0), 0, 333), (t(0, 333, 0, 0), 0));
    assert_eq!(apply_total_token_fallback(t(10, 5, 1, 4), 0, 30), (t(10, 5, 1, 4), 10));
    assert_eq!(apply_total_token_fallback(t(10, 5, 1, 4), 0, 12), (t(10, 5, 1, 4), 0));
    assert_eq!(apply_total_token_fallback(t(u64::MAX, u64::MAX, 0, 0), 0, 5), (t(u64::MAX, u64::MAX, 0, 0), 0));
}

#[test]
fn entry_identity_joins_its_fields() {
    let lines = vec![assistant_line("2026-01-02T00:00:00.000Z", "gpt-5", usage(100, 200, 3, 4, Some(0.5)))];
    let entries = entries_of(&lines, PiStoreContext::Default);
    assert_eq!(
        entry_id(&entries[0], cost_text),
        "pi:project-a:session-a:2026-01-02T00:00:00.000Z:[pi] gpt-5::100:200:4:3:0:0.5"
    );
}

#[test]
fn unpriced_model_rule_depends_on_the_store() {
    let pricing = price_table(vec![]);
    let own = |model: Option<&str>, _u: TokenUsage, _c: &Option<f64>, _m: CostMode| model.map(|m| format!("own:{m}"));
    let named = PiStoreContext::Named { root: "/r", name: "omp" };
    let a = PiStoreContext::Default.missing_pricing_model(
        Some("x"), Some("[pi] x"), tokens(1, 1), &None::<f64>, CostMode::Calculate, Some(&pricing), |m: &str| m.to_string(), own,
    );
    assert_eq!(a.as_deref(), Some("own:[pi] x"));
    let b = named.missing_pricing_model(
        Some("x"), Some("[omp] x"), tokens(1, 1), &None::<f64>, CostMode::Calculate, Some(&pricing), |m: &str| m.to_string(), own,
    );
    assert_eq!(b.as_deref(), Some("x"));
}

type NoLookup = fn(&str) -> Option<(f64, f64)>;

fn own_store_missing(mode: CostMode, display_cost: Option<f64>) -> Option<String> {
    let none: Option<&PricingLookup<NoLookup, NoLookup>> = None;
    PiStoreContext::Default.missing_pricing_model(
        Some("unknown-model-xyz"),
        Some("[pi] unknown-model-xyz"),
        tokens(100, 200),
        &display_cost,
        mode,
        none,
        |m: &str| m.to_string(),
        |model: Option<&str>, _: TokenUsage, _: &Option<f64>, _: CostMode| model.map(|m| m.to_string()),
    )
}

#[test]
fn no_missing_pricing_model_in_display_mode() {
    assert_eq!(own_store_missing(CostMode::Display, None), None);
}

#[test]
fn no_missing_pricing_model_when_auto_mode_has_display_cost() {
    assert_eq!(own_store_missing(CostMode::Auto, Some(0.05)), None);
}

#[test]
fn own_store_pricing_rule_decides_otherwise() {
    assert_eq!(own_store_missing(CostMode::Auto, None).as_deref(), Some("[pi] unknown-model-xyz"));
    assert_eq!(own_store_missing(CostMode::Calculate, Some(0.05)).as_deref(), Some("[pi] unknown-model-xyz"));
    let pricing = price_table(vec![]);
    let missing = PiStoreContext::Named { root: "/fixture/sessions", name: "omp" }.missing_pricing_model(
        Some("x"),
        Some("[omp] x"),
        tokens(1, 1),
        &None::<f64>,
        CostMode::Calculate,
        Some(&pricing),
        |m: &str| format!("resolved-{m}"),
        |_: Option<&str>, _: TokenUsage, _: &Option<f64>, _: CostMode| Some("own".to_string()),
    );
    assert_eq!(missing.as_deref(), Some("resolved-x"));
}

#[test]
fn store_cost_follows_the_cost_mode() {
    let priced = || 1.5;
    assert_eq!(store_cost(CostMode::Display, Some(0.25), 0.0, priced), 0.25);
    assert_eq!(store_cost(CostMode::Display, None, 0.0, priced), 0.0);
    assert_eq!(store_cost(CostMode::Auto, Some(0.25), 0.0, priced), 0.25);
    assert_eq!(store_cost(CostMode::Auto, None, 0.0, priced), 1.5);
    assert_eq!(store_cost(CostMode::Calculate, Some(0.25), 0.0, priced), 1.5);
    let own = PiStoreContext::Default.cost(Some(0.25), CostMode::Display, 0.0, || 7.0, priced);
    assert_eq!(own, 7.0);
}

#[test]
fn file_entries_follow_records_and_skip_zero_token_requests() {
    let mut empty = usage(0, 0, 0, 0, Some(0.5));
    empty.total_tokens = 0;
    let lines = vec![
        assistant_line("2026-01-02T00:00:00.000Z", "gpt-a", usage(1, 2, 0, 0, None)),
        assistant_line("2026-01-02T01:00:00.000Z", "gpt-zero", empty),
        PiLine { record_type: s("session"), timestamp: s("2026-01-02T02:00:00.000Z"), message: None },
        assistant_line("2026-01-02T03:00:00.000Z", "gpt-b", usage(3, 4, 0, 0, Some(0.75))),
    ];
    let context = PiStoreContext::Named { root: "/fixture/sessions", name: "omp" };
    let entries = session_file_entries(
        LOG_PATH,
        &lines,
        context,
        |r: &PiRequest<f64>| r.display_cost.unwrap_or(-1.0),
        |r: &PiRequest<f64>| r.raw_model.clone(),
        |r: &PiRequest<f64>| format!("day-{}", &r.timestamp_text[11..13]),
    );
    assert_eq!(entries.len(), 2);
    assert_eq!(entries[0].model.as_deref(), Some("[omp] gpt-a"));
    assert_eq!(entries[1].model.as_deref(), Some("[omp] gpt-b"));
    for e in &entries {
        assert_eq!(e.session_id, "session-a");
        assert_eq!(e.data.session_id.as_deref(), Some("session-a"));
        assert_eq!(e.project, "project-a");
        assert_eq!(e.project_path, "project-a");
        assert!(e.data.message.usage.input_tokens + e.data.message.usage.output_tokens > 0);
    }
    assert_eq!(entries[0].cost, -1.0);
    assert_eq!(entries[1].cost, 0.75);
    assert_eq!(entries[1].missing_pricing_model.as_deref(), Some("gpt-b"));
    assert_eq!(entries[0].date, "day-00");
    assert_eq!(entries[1].date, "day-03");
    assert_eq!(entries[1].data.timestamp, "2026-01-02T03:00:00.000Z");
}

fn push(
    entries: &mut Vec<LoadedEntry<f64>>,
    timestamp_text: &str,
    raw_model: Option<&str>,
    usage_value: &PiUsage<f64>,
    display_cost: Option<f64>,
    context: PiStoreContext,
    mode: CostMode,
) -> bool {
    let timestamp = parse_ts_timestamp(timestamp_text).unwrap();
    let none: Option<&PricingLookup<NoLookup, NoLookup>> = None;
    push_entry(
        entries,
        "project-a",
        "session-a",
        timestamp_text.to_string(),
        timestamp,
        raw_model,
        usage_value,
        display_cost,
        None,
        context,
        mode,
        0.0,
        none,
        |m: &str| format!("resolved-{m}"),
        |model: Option<&str>, _: TokenUsage, _: &Option<f64>, _: CostMode| model.map(|m| format!("unpriced {m}")),
        |_: Option<&str>, _: TokenUsage, cost: Option<f64>| cost.unwrap_or(0.0),
        |_: Option<&str>, _: Option<&str>, usage: TokenUsage| usage.input_tokens as f64 * 0.001,
        |ts: TimestampMs| format_rfc3339_millis(ts)[..10].to_string(),
    )
}

#[test]
fn push_entry_records_a_pi_usage_record() {
    let mut entries = Vec::new();
    let u = PiUsage { input: 100, output: 10, cache_read: 20, cache_write: 3, total_tokens: 0, cost: None };
    let pushed = push(
        &mut entries,
        "2026-01-03T23:59:59.999Z",
        Some("gpt-5"),
        &u,
        Some(0.25),
        PiStoreContext::Default,
        CostMode::Display,
    );
    assert!(pushed);
    assert_eq!(entries.len(), 1);
    let e = &entries[0];
    assert_eq!(e.data.message.usage.input_tokens, 100);
    assert_eq!(e.data.message.usage.output_tokens, 10);
    assert_eq!(e.data.message.usage.cache_read_input_tokens, 20);
    assert_eq!(e.data.message.usage.cache_creation_input_tokens, 3);
    assert_eq!(e.extra_total_tokens, 0);
    assert_eq!(e.cost, 0.25);
    assert_eq!(e.date, "2026-01-03");
    assert_eq!(e.model.as_deref(), Some("[pi] gpt-5"));
    assert_eq!(e.data.message.model.as_deref(), Some("[pi] gpt-5"));
    assert_eq!(e.data.cost_usd, Some(0.25));
    assert_eq!(e.data.session_id.as_deref(), Some("session-a"));
    assert_eq!(e.project, "project-a");
    assert_eq!(e.missing_pricing_model, None);
}

#[test]
fn push_entry_refuses_usage_without_tokens() {
    let mut entries = Vec::new();
    let zero = PiUsage { input: 0, output: 0, cache_read: 0, cache_write: 0, total_tokens: 0, cost: None };
    let ctx = PiStoreContext::Default;
    assert!(!push(&mut entries, "2026-01-02T00:00:00.000Z", Some("gpt-5"), &zero, Some(1.0), ctx, CostMode::Auto));
    assert!(entries.is_empty());
    let mut total_only = zero;
    total_only.total_tokens = 7;
    assert!(push(&mut entries, "2026-01-02T00:00:00.000Z", None, &total_only, None, ctx, CostMode::Auto));
    assert_eq!(entries.len(), 1);
    assert_eq!(entries[0].data.message.usage.output_tokens, 7);
    assert_eq!(entries[0].model, None);
}

#[test]
fn push_entry_prices_by_store() {
    let mut entries = Vec::new();
    let u = usage(1000, 2000, 0, 0, None);
    let omp = PiStoreContext::Named { root: "/fixture/sessions", name: "omp" };
    assert!(push(&mut entries, "2026-01-02T00:00:00.000Z", Some("gpt-5"), &u, None, omp, CostMode::Calculate));
    assert!(push(&mut entries, "2026-01-02T00:00:00.000Z", Some("gpt-5"), &u, Some(0.5), omp, CostMode::Display));
    assert!(push(&mut entries, "2026-01-02T00:00:00.000Z", Some("gpt-5"), &u, None, PiStoreContext::Default, CostMode::Calculate));
    assert_eq!(entries[0].model.as_deref(), Some("[omp] gpt-5"));
    assert_eq!(entries[0].cost, 1.0);
    assert_eq!(entries[0].missing_pricing_model.as_deref(), Some("resolved-gpt-5"));
    assert_eq!(entries[1].missing_pricing_model, None);
    assert_eq!(entries[1].cost, 0.5);
    assert_eq!(entries[2].model.as_deref(), Some("[pi] gpt-5"));
    assert_eq!(entries[2].cost, 0.0);
    assert_eq!(entries[2].missing_pricing_model.as_deref(), Some("unpriced [pi] gpt-5"));
    assert_eq!(entries.len(), 3);
}

#[test]
fn identities_differ_in_any_one_field_and_pi_is_its_own_store() {
    let lines = vec![assistant_line("2026-01-02T00:00:00.000Z", "gpt-5", usage(100, 200, 0, 0, None))];
    let a = entries_of(&lines, PiStoreContext::Default).pop().unwrap();
    let mut b = entries_of(&lines, PiStoreContext::Default).pop().unwrap();
    assert_eq!(entry_id(&a, cost_text), entry_id(&b, cost_text));
    assert_eq!(entry_id(&a, cost_text), entry_id_for_store("pi", &a, cost_text));
    assert_eq!(
        entry_id(&a, cost_text),
        "pi:project-a:session-a:2026-01-02T00:00:00.000Z:[pi] gpt-5::100:200:0:0:0:0"
    );
    b.data.request_id = Some("r".to_string());
    assert_ne!(entry_id(&a, cost_text), entry_id(&b, cost_text));
    b.data.request_id = None;
    b.data.message.usage.cache_read_input_tokens = 1;
    assert_ne!(entry_id(&a, cost_text), entry_id(&b, cost_text));
}
