//! Reading usage from pi-agent session records: which records count, which
//! subagent usage is taken (per-request messages, or else the aggregate),
//! and the request that each usable record yields.
use vstd::prelude::*;
use vstd::string::*;
use crate::entry::{total_usage_tokens, CostMode, LoadedEntry, TokenUsage, UsageEntry, UsageMessage};
use crate::pricing::{
    lookups_total, missing_model_outcome, missing_store_pricing_model, store_cost, PricingLookup,
};
use crate::paths::{
    extract_project, extract_project_for_store, extract_session_id, find_last_char, last_position,
    lemma_last_position,
    project_for_store_of, project_of, session_id_of,
};
use crate::text::{
    decimal_string, decimal_text, is_digit_char, lemma_decimal_digits, lemma_decimal_injective,
    opt_str_is, str_eq,
};
use crate::timestamp::{
    format_rfc3339_millis, in_jiff_range, is_representable_millis, parse_ts_timestamp,
    parsed_timestamp, rfc3339_millis_text, TimestampMs,
};

verus! {

/// The optional display cost block of a pi usage record.
#[derive(Debug)]
pub struct PiCost<C> {
    pub total: Option<C>,
}

/// Token counts and optional display cost carried by a pi assistant message.
#[derive(Debug)]
pub struct PiUsage<C> {
    pub input: u64,
    pub output: u64,
    pub cache_read: u64,
    pub cache_write: u64,
    pub total_tokens: u64,
    pub cost: Option<PiCost<C>>,
}

/// The aggregate usage a subagent result reports for all its requests.
#[derive(Debug)]
pub struct PiAggregateUsage<C> {
    pub input: u64,
    pub output: u64,
    pub cache_read: u64,
    pub cache_write: u64,
    pub total_tokens: u64,
    pub cost: Option<C>,
}

/// One message of a subagent run.
#[derive(Debug)]
pub struct PiSubagentMessage<C> {
    pub role: Option<String>,
    pub model: Option<String>,
    pub timestamp: Option<i64>,
    pub usage: Option<PiUsage<C>>,
}

/// One run reported by pi's `subagent` tool.
#[derive(Debug)]
pub struct PiSubagentResult<C> {
    pub model: Option<String>,
    pub usage: Option<PiAggregateUsage<C>>,
    pub messages: Vec<PiSubagentMessage<C>>,
}

/// The details of a `subagent` tool result.
#[derive(Debug)]
pub struct PiSubagentDetails<C> {
    pub results: Vec<PiSubagentResult<C>>,
}

/// The `message` block of a pi record.
#[derive(Debug)]
pub struct PiMessage<C> {
    pub role: Option<String>,
    pub model: Option<String>,
    pub usage: Option<PiUsage<C>>,
    pub tool_name: Option<String>,
    pub tool_call_id: Option<String>,
    pub details: Option<PiSubagentDetails<C>>,
}

/// One pi session record (one JSON line), with the fields read here; empty
/// strings in the log stand as absent.
#[derive(Debug)]
pub struct PiLine<C> {
    pub record_type: Option<String>,
    pub timestamp: Option<String>,
    pub message: Option<PiMessage<C>>,
}

/// One request's usage as a pi record yields it, before pricing.
#[derive(Debug)]
pub struct PiRequest<C> {
    pub timestamp_text: String,
    pub timestamp: TimestampMs,
    pub raw_model: Option<String>,
    pub model: Option<String>,
    pub usage: TokenUsage,
    pub extra_total_tokens: u64,
    pub display_cost: Option<C>,
    pub request_id: Option<String>,
}

/// A `PiRequest` with its texts as character sequences.
pub ghost struct PiRequestView<C> {
    pub timestamp_text: Seq<char>,
    pub timestamp: TimestampMs,
    pub raw_model: Option<Seq<char>>,
    pub model: Option<Seq<char>>,
    pub usage: TokenUsage,
    pub extra_total_tokens: u64,
    pub display_cost: Option<C>,
    pub request_id: Option<Seq<char>>,
}

/// The view of an optional string.
pub open spec fn opt_view(o: Option<String>) -> Option<Seq<char>> {
    match o {
        Some(s) => Some(s@),
        None => None,
    }
}

impl<C> View for PiRequest<C> {
    type V = PiRequestView<C>;

    open spec fn view(&self) -> PiRequestView<C> {
        PiRequestView {
            timestamp_text: self.timestamp_text@,
            timestamp: self.timestamp,
            raw_model: opt_view(self.raw_model),
            model: opt_view(self.model),
            usage: self.usage,
            extra_total_tokens: self.extra_total_tokens,
            display_cost: self.display_cost,
            request_id: opt_view(self.request_id),
        }
    }
}

/// The views of a sequence of requests.
pub open spec fn requests_view<C>(s: Seq<PiRequest<C>>) -> Seq<PiRequestView<C>> {
    s.map_values(|r: PiRequest<C>| r@)
}

/// The one-element sequence of a present value, or the empty one.
pub open spec fn opt_seq<A>(o: Option<A>) -> Seq<A> {
    match o {
        Some(a) => seq![a],
        None => Seq::empty(),
    }
}

pub open spec fn message_text() -> Seq<char> {
    seq!['m', 'e', 's', 's', 'a', 'g', 'e']
}

pub open spec fn assistant_text() -> Seq<char> {
    seq!['a', 's', 's', 'i', 's', 't', 'a', 'n', 't']
}

pub open spec fn tool_result_text() -> Seq<char> {
    seq!['t', 'o', 'o', 'l', 'R', 'e', 's', 'u', 'l', 't']
}

pub open spec fn subagent_text() -> Seq<char> {
    seq!['s', 'u', 'b', 'a', 'g', 'e', 'n', 't']
}

pub open spec fn aggregate_text() -> Seq<char> {
    seq!['a', 'g', 'g', 'r', 'e', 'g', 'a', 't', 'e']
}

pub open spec fn pi_text() -> Seq<char> {
    seq!['p', 'i']
}

/// Whether an optional string is present and equal to `t`.
pub open spec fn opt_text_is(o: Option<String>, t: Seq<char>) -> bool {
    o is Some && o->0@ == t
}

/// Where a log comes from: pi's own session directory, or a named store
/// (another agent writing pi's format) rooted at `root`.
#[derive(Clone, Copy, Debug)]
pub enum PiStoreContext<'a> {
    Default,
    Named { root: &'a str, name: &'a str },
}

impl<'a> PiStoreContext<'a> {
    /// The store's name: `pi`, or the named store's name.
    pub open spec fn store_name_text(self) -> Seq<char> {
        match self {
            PiStoreContext::Default => pi_text(),
            PiStoreContext::Named { name, .. } => name@,
        }
    }

    /// The store's name, which prefixes model names.
    pub fn store_name(self) -> (name: &'a str)
        ensures
            name@ == self.store_name_text(),
    {
        match self {
            PiStoreContext::Default => {
                proof {
                    reveal_strlit("pi");
                    assert("pi"@ =~= pi_text());
                }
                "pi"
            },
            PiStoreContext::Named { name, .. } => name,
        }
    }

    /// The model to report as lacking a price: none in display mode or when
    /// auto mode has the log's cost; otherwise for pi's own store as
    /// `own_store_rule` decides from the display model, for a named store as
    /// `missing_store_pricing_model` decides.
    pub fn missing_pricing_model<
        C,
        P,
        FE: Fn(&str) -> Option<P>,
        FF: Fn(&str) -> Option<P>,
        FR: Fn(&str) -> String,
        FD: Fn(Option<&str>, TokenUsage, &Option<C>, CostMode) -> Option<String>,
    >(
        self,
        raw_model: Option<&str>,
        display_model: Option<&str>,
        usage: TokenUsage,
        display_cost: &Option<C>,
        mode: CostMode,
        pricing: Option<&PricingLookup<FE, FF>>,
        resolve_model_name: FR,
        own_store_rule: FD,
    ) -> (missing: Option<String>)
        requires
            lookups_total(pricing),
            forall|m: &str| #[trigger] resolve_model_name.requires((m,)),
            own_store_rule.requires((display_model, usage, display_cost, mode)),
        ensures
            mode == CostMode::Display || (mode == CostMode::Auto && *display_cost is Some)
                ==> missing is None,
            !(mode == CostMode::Display || (mode == CostMode::Auto && *display_cost is Some))
                ==> match self {
                PiStoreContext::Default => own_store_rule.ensures(
                    (display_model, usage, display_cost, mode),
                    missing,
                ),
                PiStoreContext::Named { .. } => missing_model_outcome(
                    raw_model,
                    display_model,
                    usage,
                    *display_cost,
                    mode,
                    pricing,
                    resolve_model_name,
                    missing,
                ),
            },
    {
        if mode == CostMode::Display {
            return None;
        }
        if mode == CostMode::Auto && display_cost.is_some() {
            return None;
        }
        match self {
            PiStoreContext::Default => own_store_rule(display_model, usage, display_cost, mode),
            PiStoreContext::Named { .. } => missing_store_pricing_model(
                raw_model,
                display_model,
                usage,
                display_cost,
                mode,
                pricing,
                resolve_model_name,
            ),
        }
    }

    /// The cost of a request: for pi's own store what `own_store_cost`
    /// gives, for a named store by cost mode (see `store_cost`) with
    /// `from_tokens` pricing the tokens.
    pub fn cost<C: Copy, FO: FnOnce() -> C, FT: FnOnce() -> C>(
        self,
        display_cost: Option<C>,
        mode: CostMode,
        zero: C,
        own_store_cost: FO,
        from_tokens: FT,
    ) -> (cost: C)
        requires
            own_store_cost.requires(()),
            from_tokens.requires(()),
        ensures
            self is Default ==> own_store_cost.ensures((), cost),
            self is Named ==> {
                &&& mode == CostMode::Display ==> cost == match display_cost {
                    Some(c) => c,
                    None => zero,
                }
                &&& (mode == CostMode::Auto && display_cost is Some) ==> cost == display_cost->0
                &&& (mode == CostMode::Calculate || (mode == CostMode::Auto && display_cost is None))
                    ==> from_tokens.ensures((), cost)
            },
    {
        match self {
            PiStoreContext::Default => own_store_cost(),
            PiStoreContext::Named { .. } => store_cost(mode, display_cost, zero, from_tokens),
        }
    }

    /// The project of the log at `path`: below the store root for a named
    /// store, after the `sessions` directory otherwise.
    pub open spec fn project_text(self, path: Seq<char>) -> Seq<char> {
        match self {
            PiStoreContext::Default => project_of(path),
            PiStoreContext::Named { root, .. } => project_for_store_of(path, root@),
        }
    }

    /// The project of the log at `path` (see `project_text`).
    pub fn project(self, path: &str) -> (project: String)
        ensures
            project@ == self.project_text(path@),
    {
        match self {
            PiStoreContext::Default => extract_project(path),
            PiStoreContext::Named { root, .. } => extract_project_for_store(path, root),
        }
    }
}

/// The model name of a subagent result's model: the part after its last
/// `/` (a provider prefix such as `openai/`), unless that part is empty.
pub open spec fn subagent_model_name(m: Seq<char>) -> Seq<char> {
    match last_position(m, '/') {
        Some(i) => if i + 1 < m.len() {
            m.skip(i + 1)
        } else {
            m
        },
        None => m,
    }
}

/// Strips a provider prefix from a subagent result's model (see
/// `subagent_model_name`).
pub fn subagent_result_model(model: &str) -> (name: &str)
    ensures
        name@ == subagent_model_name(model@),
{
    let n = model.unicode_len();
    match find_last_char(model, '/') {
        Some(i) => {
            if i < n - 1 {
                model.substring_char(i + 1, n)
            } else {
                model
            }
        },
        None => model,
    }
}

/// The model as reports show it: `[store] model`.
pub open spec fn display_model_text(store: Seq<char>, raw: Seq<char>) -> Seq<char> {
    seq!['['] + store + seq![']', ' '] + raw
}

/// The model a request of store `store` is shown under: `[store] model` for
/// its raw model, none without one.
pub open spec fn shown_model(store: Seq<char>, raw: Option<Seq<char>>) -> Option<Seq<char>> {
    match raw {
        Some(m) => Some(display_model_text(store, m)),
        None => None,
    }
}

/// Builds `[store] model`.
pub fn display_model(store: &str, raw: &str) -> (model: String)
    ensures
        model@ == display_model_text(store@, raw@),
{
    proof {
        reveal_strlit("[");
        reveal_strlit("] ");
        assert("["@ =~= seq!['[']);
        assert("] "@ =~= seq![']', ' ']);
    }
    let mut s = String::from_str("[");
    s.append(store);
    s.append("] ");
    s.append(raw);
    s
}

/// Token counts completed from a reported total: when the total exceeds
/// what the parts and `extra` count, a request with no counted tokens gets
/// the total as output tokens, and any other gets the difference as extra
/// tokens.
pub open spec fn token_fallback(usage: TokenUsage, extra: u64, total: u64) -> (TokenUsage, u64) {
    let counted = total_usage_tokens(usage) + extra;
    if total <= counted {
        (usage, extra)
    } else if counted == 0 {
        (TokenUsage { output_tokens: total, ..usage }, extra)
    } else {
        (usage, (total - total_usage_tokens(usage)) as u64)
    }
}

/// Completes token counts from a reported total (see `token_fallback`).
pub fn apply_total_token_fallback(usage: TokenUsage, extra: u64, total_tokens: u64) -> (r: (
    TokenUsage,
    u64,
))
    ensures
        r == token_fallback(usage, extra, total_tokens),
{
    let parts: u128 = usage.input_tokens as u128 + usage.output_tokens as u128
        + usage.cache_creation_input_tokens as u128 + usage.cache_read_input_tokens as u128;
    let counted: u128 = parts + extra as u128;
    if (total_tokens as u128) <= counted {
        (usage, extra)
    } else if counted == 0 {
        (TokenUsage { output_tokens: total_tokens, ..usage }, extra)
    } else {
        (usage, (total_tokens as u128 - parts) as u64)
    }
}

/// The token counts a pi usage record reports.
pub open spec fn pi_tokens<C>(u: PiUsage<C>) -> TokenUsage {
    TokenUsage {
        input_tokens: u.input,
        output_tokens: u.output,
        cache_creation_input_tokens: u.cache_write,
        cache_read_input_tokens: u.cache_read,
    }
}

/// The token counts a subagent's aggregate usage reports.
pub open spec fn aggregate_tokens<C>(u: PiAggregateUsage<C>) -> TokenUsage {
    TokenUsage {
        input_tokens: u.input,
        output_tokens: u.output,
        cache_creation_input_tokens: u.cache_write,
        cache_read_input_tokens: u.cache_read,
    }
}

/// The display cost a pi usage record carries.
pub open spec fn usage_cost<C>(u: PiUsage<C>) -> Option<C> {
    match u.cost {
        Some(c) => c.total,
        None => None,
    }
}

/// The request a record yields, if its token counts (completed from the
/// reported total) are not all zero.
pub open spec fn planned_request<C>(
    store: Seq<char>,
    timestamp_text: Seq<char>,
    timestamp: TimestampMs,
    raw_model: Option<Seq<char>>,
    tokens: TokenUsage,
    total: u64,
    cost: Option<C>,
    request_id: Option<Seq<char>>,
) -> Option<PiRequestView<C>> {
    let (usage, extra) = token_fallback(tokens, 0, total);
    if total_usage_tokens(usage) + extra == 0 {
        None
    } else {
        Some(
            PiRequestView {
                timestamp_text,
                timestamp,
                raw_model,
                model: shown_model(store, raw_model),
                usage,
                extra_total_tokens: extra,
                display_cost: cost,
                request_id,
            },
        )
    }
}

/// `subagent:`
pub open spec fn subagent_prefix_text() -> Seq<char> {
    seq!['s', 'u', 'b', 'a', 'g', 'e', 'n', 't', ':']
}

/// The request id of message `mi` of subagent result `ri` of tool call `call`.
pub open spec fn nested_request_id(call: Seq<char>, ri: nat, mi: nat) -> Seq<char> {
    subagent_prefix_text() + call + seq![':'] + decimal_text(ri) + seq![':'] + decimal_text(mi)
}

/// The request id of the aggregate usage of subagent result `ri` of tool
/// call `call`.
pub open spec fn aggregate_request_id(call: Seq<char>, ri: nat) -> Seq<char> {
    subagent_prefix_text() + call + seq![':'] + decimal_text(ri) + seq![':'] + aggregate_text()
}

/// What identifies a subagent tool call: its call id, else the record's
/// timestamp text, else nothing.
pub open spec fn call_identity<C>(line: PiLine<C>, msg: PiMessage<C>) -> Seq<char> {
    match msg.tool_call_id {
        Some(id) => id@,
        None => match line.timestamp {
            Some(t) => t@,
            None => Seq::empty(),
        },
    }
}

/// The model a subagent message is billed under: its own, else its result's
/// model without provider prefix.
pub open spec fn nested_model<C>(nested: PiSubagentMessage<C>, result: PiSubagentResult<C>) -> Option<
    Seq<char>,
> {
    match nested.model {
        Some(m) => Some(m@),
        None => match result.model {
            Some(m) => Some(subagent_model_name(m@)),
            None => None,
        },
    }
}

/// The request message `mi` of subagent result `ri` yields: an assistant
/// message with a representable millisecond timestamp and usage.
pub open spec fn nested_request<C>(
    store: Seq<char>,
    call: Seq<char>,
    result: PiSubagentResult<C>,
    ri: nat,
    mi: int,
) -> Option<PiRequestView<C>> {
    let nested = result.messages@[mi];
    if !opt_text_is(nested.role, assistant_text()) {
        None
    } else {
        match nested.timestamp {
            None => None,
            Some(ms) => match nested.usage {
                None => None,
                Some(u) => if !in_jiff_range(ms as int) {
                    None
                } else {
                    planned_request(
                        store,
                        rfc3339_millis_text(ms),
                        TimestampMs(ms),
                        nested_model(nested, result),
                        pi_tokens(u),
                        u.total_tokens,
                        usage_cost(u),
                        Some(nested_request_id(call, ri, mi as nat)),
                    )
                },
            },
        }
    }
}

/// The requests of the first `k` messages of subagent result `ri`.
pub open spec fn nested_requests<C>(
    store: Seq<char>,
    call: Seq<char>,
    result: PiSubagentResult<C>,
    ri: nat,
    k: int,
) -> Seq<PiRequestView<C>>
    decreases k,
{
    if k <= 0 {
        Seq::empty()
    } else {
        nested_requests(store, call, result, ri, k - 1) + opt_seq(
            nested_request(store, call, result, ri, k - 1),
        )
    }
}

/// The request the aggregate usage of subagent result `ri` yields, dated by
/// the record's own timestamp.
pub open spec fn aggregate_request<C>(
    store: Seq<char>,
    call: Seq<char>,
    line_timestamp: Option<String>,
    result: PiSubagentResult<C>,
    ri: nat,
) -> Option<PiRequestView<C>> {
    match result.usage {
        None => None,
        Some(agg) => match line_timestamp {
            None => None,
            Some(t) => match parsed_timestamp(t@) {
                None => None,
                Some(ts) => planned_request(
                    store,
                    t@,
                    ts,
                    match result.model {
                        Some(m) => Some(subagent_model_name(m@)),
                        None => None,
                    },
                    aggregate_tokens(agg),
                    agg.total_tokens,
                    agg.cost,
                    Some(aggregate_request_id(call, ri)),
                ),
            },
        },
    }
}

/// The requests of subagent result `ri`: those of its messages when any is
/// usable, else that of its aggregate usage.
pub open spec fn result_requests<C>(
    store: Seq<char>,
    call: Seq<char>,
    line_timestamp: Option<String>,
    result: PiSubagentResult<C>,
    ri: nat,
) -> Seq<PiRequestView<C>> {
    let nested = nested_requests(store, call, result, ri, result.messages@.len() as int);
    if nested.len() > 0 {
        nested
    } else {
        opt_seq(aggregate_request(store, call, line_timestamp, result, ri))
    }
}

/// The requests of the first `k` subagent results.
pub open spec fn subagent_requests<C>(
    store: Seq<char>,
    call: Seq<char>,
    line_timestamp: Option<String>,
    results: Seq<PiSubagentResult<C>>,
    k: int,
) -> Seq<PiRequestView<C>>
    decreases k,
{
    if k <= 0 {
        Seq::empty()
    } else {
        subagent_requests(store, call, line_timestamp, results, k - 1) + result_requests(
            store,
            call,
            line_timestamp,
            results[k - 1],
            (k - 1) as nat,
        )
    }
}

/// The request an assistant record yields: one with a parsable timestamp
/// and usage.
pub open spec fn assistant_request<C>(store: Seq<char>, line: PiLine<C>, msg: PiMessage<C>) -> Option<
    PiRequestView<C>,
> {
    match line.timestamp {
        None => None,
        Some(t) => match parsed_timestamp(t@) {
            None => None,
            Some(ts) => match msg.usage {
                None => None,
                Some(u) => planned_request(
                    store,
                    t@,
                    ts,
                    opt_view(msg.model),
                    pi_tokens(u),
                    u.total_tokens,
                    usage_cost(u),
                    None,
                ),
            },
        },
    }
}

/// The requests one pi record yields: an assistant message's own usage, or
/// the usage of the runs a `subagent` tool result reports; nothing for any
/// other record.
pub open spec fn line_requests<C>(store: Seq<char>, line: PiLine<C>) -> Seq<PiRequestView<C>> {
    if line.record_type is Some && line.record_type->0@ != message_text() {
        Seq::empty()
    } else {
        match line.message {
            None => Seq::empty(),
            Some(msg) => if opt_text_is(msg.role, assistant_text()) {
                opt_seq(assistant_request(store, line, msg))
            } else if !(opt_text_is(msg.role, tool_result_text()) && opt_text_is(
                msg.tool_name,
                subagent_text(),
            )) {
                Seq::empty()
            } else {
                match msg.details {
                    None => Seq::empty(),
                    Some(d) => subagent_requests(
                        store,
                        call_identity(line, msg),
                        line.timestamp,
                        d.results@,
                        d.results@.len() as int,
                    ),
                }
            },
        }
    }
}

/// The requests of the first `k` records, in order.
pub open spec fn file_requests<C>(store: Seq<char>, lines: Seq<PiLine<C>>, k: int) -> Seq<
    PiRequestView<C>,
>
    decreases k,
{
    if k <= 0 {
        Seq::empty()
    } else {
        file_requests(store, lines, k - 1) + line_requests(store, lines[k - 1])
    }
}

/// The view of an optional request.
pub open spec fn opt_request_view<C>(r: Option<PiRequest<C>>) -> Option<PiRequestView<C>> {
    match r {
        Some(q) => Some(q@),
        None => None,
    }
}

/// Decides `planned_request` and builds the request.
fn plan_request<C: Copy>(
    store: &str,
    timestamp_text: String,
    timestamp: TimestampMs,
    raw_model: Option<String>,
    tokens: TokenUsage,
    total: u64,
    cost: Option<C>,
    request_id: Option<String>,
) -> (r: Option<PiRequest<C>>)
    ensures
        opt_request_view(r) == planned_request(
            store@,
            timestamp_text@,
            timestamp,
            opt_view(raw_model),
            tokens,
            total,
            cost,
            opt_view(request_id),
        ),
{
    let (usage, extra) = apply_total_token_fallback(tokens, 0, total);
    if usage.input_tokens == 0 && usage.output_tokens == 0 && usage.cache_creation_input_tokens == 0
        && usage.cache_read_input_tokens == 0 && extra == 0 {
        return None;
    }
    let model = match &raw_model {
        Some(m) => Some(display_model(store, m.as_str())),
        None => None,
    };
    Some(
        PiRequest {
            timestamp_text,
            timestamp,
            raw_model,
            model,
            usage,
            extra_total_tokens: extra,
            display_cost: cost,
            request_id,
        },
    )
}

/// `subagent:{call}:{result_index}:` followed by `tail`.
fn subagent_id_with(call: &str, result_index: usize, tail: &str) -> (id: String)
    ensures
        id@ == subagent_prefix_text() + call@ + seq![':'] + decimal_text(result_index as nat)
            + seq![':'] + tail@,
{
    proof {
        reveal_strlit("subagent:");
        reveal_strlit(":");
        assert("subagent:"@ =~= subagent_prefix_text());
        assert(":"@ =~= seq![':']);
    }
    let mut id = String::from_str("subagent:");
    id.append(call);
    id.append(":");
    let r = decimal_string(result_index as u64);
    id.append(r.as_str());
    id.append(":");
    id.append(tail);
    id
}

/// The request id of message `message_index` of subagent result
/// `result_index` of tool call `call`.
pub fn subagent_request_id(call: &str, result_index: usize, message_index: usize) -> (id: String)
    ensures
        id@ == nested_request_id(call@, result_index as nat, message_index as nat),
{
    let m = decimal_string(message_index as u64);
    subagent_id_with(call, result_index, m.as_str())
}

/// The request id of the aggregate usage of subagent result `result_index`
/// of tool call `call`.
pub fn subagent_aggregate_request_id(call: &str, result_index: usize) -> (id: String)
    ensures
        id@ == aggregate_request_id(call@, result_index as nat),
{
    proof {
        reveal_strlit("aggregate");
        assert("aggregate"@ =~= aggregate_text());
    }
    subagent_id_with(call, result_index, "aggregate")
}

fn copy_opt_string(o: &Option<String>) -> (r: Option<String>)
    ensures
        opt_view(r) == opt_view(*o),
{
    match o {
        Some(s) => Some(s.clone()),
        None => None,
    }
}

/// Computes `nested_request`.
fn nested_request_exec<C: Copy>(
    store: &str,
    call: &str,
    result: &PiSubagentResult<C>,
    ri: usize,
    mi: usize,
) -> (r: Option<PiRequest<C>>)
    requires
        mi < result.messages@.len(),
    ensures
        opt_request_view(r) == nested_request(store@, call@, *result, ri as nat, mi as int),
{
    let nested = &result.messages[mi];
    proof {
        reveal_strlit("assistant");
        assert("assistant"@ =~= assistant_text());
    }
    if !opt_str_is(&nested.role, "assistant") {
        return None;
    }
    let ms = match nested.timestamp {
        Some(ms) => ms,
        None => {
            return None;
        },
    };
    let u = match &nested.usage {
        Some(u) => u,
        None => {
            return None;
        },
    };
    if !is_representable_millis(ms) {
        return None;
    }
    let ts_text = format_rfc3339_millis(TimestampMs(ms));
    let model = match &nested.model {
        Some(m) => Some(m.clone()),
        None => match &result.model {
            Some(m) => Some(String::from_str(subagent_result_model(m.as_str()))),
            None => None,
        },
    };
    let cost = match &u.cost {
        Some(c) => c.total,
        None => None,
    };
    let tokens = TokenUsage {
        input_tokens: u.input,
        output_tokens: u.output,
        cache_creation_input_tokens: u.cache_write,
        cache_read_input_tokens: u.cache_read,
    };
    let id = subagent_request_id(call, ri, mi);
    plan_request(store, ts_text, TimestampMs(ms), model, tokens, u.total_tokens, cost, Some(id))
}

proof fn lemma_requests_view_push<C>(s: Seq<PiRequest<C>>, q: PiRequest<C>)
    ensures
        requests_view(s.push(q)) == requests_view(s) + seq![q@],
{
    assert(requests_view(s.push(q)) =~= requests_view(s) + seq![q@]);
}

proof fn lemma_requests_view_concat<C>(a: Seq<PiRequest<C>>, b: Seq<PiRequest<C>>)
    ensures
        requests_view(a + b) == requests_view(a) + requests_view(b),
{
    assert(requests_view(a + b) =~= requests_view(a) + requests_view(b));
}

/// Computes `result_requests`.
fn result_requests_exec<C: Copy>(
    store: &str,
    call: &str,
    line_timestamp: &Option<String>,
    result: &PiSubagentResult<C>,
    ri: usize,
) -> (out: Vec<PiRequest<C>>)
    ensures
        requests_view(out@) == result_requests(store@, call@, *line_timestamp, *result, ri as nat),
{
    let mut out: Vec<PiRequest<C>> = Vec::new();
    let mut mi: usize = 0;
    assert(requests_view(out@) =~= Seq::<PiRequestView<C>>::empty());
    while mi < result.messages.len()
        invariant
            mi <= result.messages@.len(),
            requests_view(out@) == nested_requests(store@, call@, *result, ri as nat, mi as int),
        decreases result.messages@.len() - mi,
    {
        let r = nested_request_exec(store, call, result, ri, mi);
        match r {
            Some(q) => {
                proof {
                    lemma_requests_view_push(out@, q);
                }
                out.push(q);
            },
            None => {
                assert(opt_seq(opt_request_view(r)) =~= Seq::<PiRequestView<C>>::empty());
                assert(requests_view(out@) =~= requests_view(out@) + Seq::<
                    PiRequestView<C>,
                >::empty());
            },
        }
        mi = mi + 1;
    }
    if out.len() > 0 {
        return out;
    }
    let agg = match &result.usage {
        Some(agg) => agg,
        None => {
            return out;
        },
    };
    let t = match line_timestamp {
        Some(t) => t,
        None => {
            return out;
        },
    };
    let ts = match parse_ts_timestamp(t.as_str()) {
        Some(ts) => ts,
        None => {
            return out;
        },
    };
    let model = match &result.model {
        Some(m) => Some(String::from_str(subagent_result_model(m.as_str()))),
        None => None,
    };
    let tokens = TokenUsage {
        input_tokens: agg.input,
        output_tokens: agg.output,
        cache_creation_input_tokens: agg.cache_write,
        cache_read_input_tokens: agg.cache_read,
    };
    let id = subagent_aggregate_request_id(call, ri);
    match plan_request(store, t.clone(), ts, model, tokens, agg.total_tokens, agg.cost, Some(id)) {
        Some(q) => {
            proof {
                lemma_requests_view_push(out@, q);
            }
            out.push(q);
        },
        None => {},
    }
    out
}

/// Computes the requests of a `subagent` tool result's runs.
fn subagent_requests_exec<C: Copy>(
    store: &str,
    call: &str,
    line_timestamp: &Option<String>,
    results: &Vec<PiSubagentResult<C>>,
) -> (out: Vec<PiRequest<C>>)
    ensures
        requests_view(out@) == subagent_requests(
            store@,
            call@,
            *line_timestamp,
            results@,
            results@.len() as int,
        ),
{
    let mut out: Vec<PiRequest<C>> = Vec::new();
    let mut ri: usize = 0;
    assert(requests_view(out@) =~= Seq::<PiRequestView<C>>::empty());
    while ri < results.len()
        invariant
            ri <= results@.len(),
            requests_view(out@) == subagent_requests(
                store@,
                call@,
                *line_timestamp,
                results@,
                ri as int,
            ),
        decreases results@.len() - ri,
    {
        let mut more = result_requests_exec(store, call, line_timestamp, &results[ri], ri);
        proof {
            lemma_requests_view_concat(out@, more@);
        }
        out.append(&mut more);
        ri = ri + 1;
    }
    out
}

/// Computes `line_requests`.
fn line_requests_exec<C: Copy>(store: &str, line: &PiLine<C>) -> (out: Vec<PiRequest<C>>)
    ensures
        requests_view(out@) == line_requests(store@, *line),
{
    proof {
        reveal_strlit("message");
        reveal_strlit("assistant");
        reveal_strlit("toolResult");
        reveal_strlit("subagent");
        assert("message"@ =~= message_text());
        assert("assistant"@ =~= assistant_text());
        assert("toolResult"@ =~= tool_result_text());
        assert("subagent"@ =~= subagent_text());
    }
    let mut out: Vec<PiRequest<C>> = Vec::new();
    assert(requests_view(out@) =~= Seq::<PiRequestView<C>>::empty());
    match &line.record_type {
        Some(t) => {
            if !str_eq(t.as_str(), "message") {
                return out;
            }
        },
        None => {},
    }
    let msg = match &line.message {
        Some(m) => m,
        None => {
            return out;
        },
    };
    if opt_str_is(&msg.role, "assistant") {
        let t = match &line.timestamp {
            Some(t) => t,
            None => {
                return out;
            },
        };
        let ts = match parse_ts_timestamp(t.as_str()) {
            Some(ts) => ts,
            None => {
                return out;
            },
        };
        let u = match &msg.usage {
            Some(u) => u,
            None => {
                return out;
            },
        };
        let cost = match &u.cost {
            Some(c) => c.total,
            None => None,
        };
        let tokens = TokenUsage {
            input_tokens: u.input,
            output_tokens: u.output,
            cache_creation_input_tokens: u.cache_write,
            cache_read_input_tokens: u.cache_read,
        };
        let model = copy_opt_string(&msg.model);
        match plan_request(store, t.clone(), ts, model, tokens, u.total_tokens, cost, None) {
            Some(q) => {
                proof {
                    lemma_requests_view_push(out@, q);
                }
                out.push(q);
            },
            None => {},
        }
        return out;
    }
    if !(opt_str_is(&msg.role, "toolResult") && opt_str_is(&msg.tool_name, "subagent")) {
        return out;
    }
    let details = match &msg.details {
        Some(d) => d,
        None => {
            return out;
        },
    };
    let call: String = match &msg.tool_call_id {
        Some(id) => id.clone(),
        None => match &line.timestamp {
            Some(t) => t.clone(),
            None => String::new(),
        },
    };
    subagent_requests_exec(store, call.as_str(), &line.timestamp, &details.results)
}

/// The requests of a pi session log, record by record, in order. Models are
/// shown as `[store] model` for the store `context` names.
pub fn session_requests<C: Copy>(lines: &Vec<PiLine<C>>, context: PiStoreContext) -> (out: Vec<
    PiRequest<C>,
>)
    ensures
        requests_view(out@) == file_requests(
            context.store_name_text(),
            lines@,
            lines@.len() as int,
        ),
{
    let store = context.store_name();
    let mut out: Vec<PiRequest<C>> = Vec::new();
    let mut i: usize = 0;
    assert(requests_view(out@) =~= Seq::<PiRequestView<C>>::empty());
    while i < lines.len()
        invariant
            i <= lines@.len(),
            store@ == context.store_name_text(),
            requests_view(out@) == file_requests(store@, lines@, i as int),
        decreases lines@.len() - i,
    {
        let mut more = line_requests_exec(store, &lines[i]);
        proof {
            lemma_requests_view_concat(out@, more@);
        }
        out.append(&mut more);
        i = i + 1;
    }
    out
}

/// What each request of store `store` satisfies: it is shown as
/// `[store] model` and counts at least one token.
pub open spec fn request_is_kept<C>(store: Seq<char>, q: PiRequestView<C>) -> bool {
    &&& q.model == shown_model(store, q.raw_model)
    &&& total_usage_tokens(q.usage) + q.extra_total_tokens > 0
}

/// Every request of `s` is kept (see `request_is_kept`).
pub open spec fn all_kept<C>(store: Seq<char>, s: Seq<PiRequestView<C>>) -> bool {
    forall|i: int| 0 <= i < s.len() ==> request_is_kept(store, #[trigger] s[i])
}

/// A record yields no request exactly when its token counts and its
/// reported total are all zero.
pub proof fn lemma_request_needs_tokens<C>(
    store: Seq<char>,
    timestamp_text: Seq<char>,
    timestamp: TimestampMs,
    raw_model: Option<Seq<char>>,
    tokens: TokenUsage,
    total: u64,
    cost: Option<C>,
    request_id: Option<Seq<char>>,
)
    ensures
        planned_request(store, timestamp_text, timestamp, raw_model, tokens, total, cost, request_id)
            is None <==> (total_usage_tokens(tokens) == 0 && total == 0),
        all_kept(
            store,
            opt_seq(
                planned_request(
                    store,
                    timestamp_text,
                    timestamp,
                    raw_model,
                    tokens,
                    total,
                    cost,
                    request_id,
                ),
            ),
        ),
{
}

proof fn lemma_kept_concat<C>(store: Seq<char>, a: Seq<PiRequestView<C>>, b: Seq<PiRequestView<C>>)
    requires
        all_kept(store, a),
        all_kept(store, b),
    ensures
        all_kept(store, a + b),
{
    assert forall|i: int| 0 <= i < (a + b).len() implies request_is_kept(store, #[trigger] (a + b)[i]) by {
        if i < a.len() {
            assert((a + b)[i] == a[i]);
        } else {
            assert((a + b)[i] == b[i - a.len()]);
        }
    }
}

proof fn lemma_nested_kept<C>(
    store: Seq<char>,
    call: Seq<char>,
    result: PiSubagentResult<C>,
    ri: nat,
    k: int,
)
    ensures
        all_kept(store, nested_requests(store, call, result, ri, k)),
    decreases k,
{
    if k > 0 {
        lemma_nested_kept(store, call, result, ri, k - 1);
        let nested = result.messages@[k - 1];
        if let (Some(ms), Some(u)) = (nested.timestamp, nested.usage) {
            lemma_request_needs_tokens(
                store,
                rfc3339_millis_text(ms),
                TimestampMs(ms),
                nested_model(nested, result),
                pi_tokens(u),
                u.total_tokens,
                usage_cost(u),
                Some(nested_request_id(call, ri, (k - 1) as nat)),
            );
        }
        lemma_kept_concat(
            store,
            nested_requests(store, call, result, ri, k - 1),
            opt_seq(nested_request(store, call, result, ri, k - 1)),
        );
    }
}

proof fn lemma_subagent_kept<C>(
    store: Seq<char>,
    call: Seq<char>,
    line_timestamp: Option<String>,
    results: Seq<PiSubagentResult<C>>,
    k: int,
)
    ensures
        all_kept(store, subagent_requests(store, call, line_timestamp, results, k)),
    decreases k,
{
    if k > 0 {
        lemma_subagent_kept(store, call, line_timestamp, results, k - 1);
        let result = results[k - 1];
        let ri = (k - 1) as nat;
        lemma_nested_kept(store, call, result, ri, result.messages@.len() as int);
        if let (Some(agg), Some(t)) = (result.usage, line_timestamp) {
            if let Some(ts) = parsed_timestamp(t@) {
                lemma_request_needs_tokens(
                    store,
                    t@,
                    ts,
                    match result.model {
                        Some(m) => Some(subagent_model_name(m@)),
                        None => None,
                    },
                    aggregate_tokens(agg),
                    agg.total_tokens,
                    agg.cost,
                    Some(aggregate_request_id(call, ri)),
                );
            }
        }
        lemma_kept_concat(
            store,
            subagent_requests(store, call, line_timestamp, results, k - 1),
            result_requests(store, call, line_timestamp, result, ri),
        );
    }
}

proof fn lemma_line_kept<C>(store: Seq<char>, line: PiLine<C>)
    ensures
        all_kept(store, line_requests(store, line)),
{
    if let Some(msg) = line.message {
        if let (Some(t), Some(u)) = (line.timestamp, msg.usage) {
            if let Some(ts) = parsed_timestamp(t@) {
                lemma_request_needs_tokens(
                    store,
                    t@,
                    ts,
                    opt_view(msg.model),
                    pi_tokens(u),
                    u.total_tokens,
                    usage_cost(u),
                    None,
                );
            }
        }
        if let Some(d) = msg.details {
            lemma_subagent_kept(
                store,
                call_identity(line, msg),
                line.timestamp,
                d.results@,
                d.results@.len() as int,
            );
        }
    }
}

/// Every request the first `k` records of a log yield is shown as
/// `[store] model` and counts at least one token.
pub proof fn lemma_file_requests_kept<C>(store: Seq<char>, lines: Seq<PiLine<C>>, k: int)
    ensures
        all_kept(store, file_requests(store, lines, k)),
    decreases k,
{
    if k > 0 {
        lemma_file_requests_kept(store, lines, k - 1);
        lemma_line_kept(store, lines[k - 1]);
        lemma_kept_concat(
            store,
            file_requests(store, lines, k - 1),
            line_requests(store, lines[k - 1]),
        );
    }
}

/// The entry recorded for request `q` of the log of session `session_id` in
/// project `project`: the request's timestamp, model, tokens, display cost
/// and request id, under that session and project.
pub open spec fn entry_of_request<C>(
    e: LoadedEntry<C>,
    q: PiRequestView<C>,
    session_id: Seq<char>,
    project: Seq<char>,
) -> bool {
    &&& e.session_id@ == session_id
    &&& opt_view(e.data.session_id) == Some(session_id)
    &&& e.project@ == project
    &&& e.project_path@ == project
    &&& e.timestamp == q.timestamp
    &&& e.data.timestamp@ == q.timestamp_text
    &&& opt_view(e.model) == q.model
    &&& opt_view(e.data.message.model) == q.model
    &&& e.data.message.usage == q.usage
    &&& e.extra_total_tokens == q.extra_total_tokens
    &&& e.data.message.id is None
    &&& e.data.cost_usd == q.display_cost
    &&& opt_view(e.data.request_id) == q.request_id
}

/// Records the usage entry of a request of the log of session `session_id`
/// in project `project`, with the cost, pricing gap and local date worked
/// out for it.
fn record_request<C>(
    entries: &mut Vec<LoadedEntry<C>>,
    project: &str,
    session_id: &str,
    request: PiRequest<C>,
    cost: C,
    missing_pricing_model: Option<String>,
    date: String,
)
    ensures
        final(entries)@.len() == old(entries)@.len() + 1,
        final(entries)@.take(old(entries)@.len() as int) == old(entries)@,
        entry_of_request(final(entries)@.last(), request@, session_id@, project@),
        final(entries)@.last().cost == cost,
        final(entries)@.last().missing_pricing_model == missing_pricing_model,
        final(entries)@.last().date == date,
{
    let data = UsageEntry {
        session_id: Some(String::from_str(session_id)),
        timestamp: request.timestamp_text,
        message: UsageMessage {
            usage: request.usage,
            model: copy_opt_string(&request.model),
            id: None,
        },
        cost_usd: request.display_cost,
        request_id: request.request_id,
    };
    let entry = LoadedEntry {
        data,
        timestamp: request.timestamp,
        date,
        project: String::from_str(project),
        session_id: String::from_str(session_id),
        project_path: String::from_str(project),
        cost,
        extra_total_tokens: request.extra_total_tokens,
        model: request.model,
        missing_pricing_model,
    };
    entries.push(entry);
    assert(entries@.take(old(entries)@.len() as int) =~= old(entries)@);
}

/// The view of an optional string slice.
pub open spec fn opt_str_view(o: Option<&str>) -> Option<Seq<char>> {
    match o {
        Some(s) => Some(s@),
        None => None,
    }
}

/// Whether `cost` and `missing` are the cost and the unpriced model that
/// store `context` gives a request with raw model `raw_model`, shown as
/// `display`, with token counts `usage` and logged cost `display_cost`:
/// in display mode, and in auto mode with a logged cost, the logged cost
/// (`zero` without one) and no unpriced model; otherwise, for pi's own
/// store, what `own_store_cost` and `own_store_rule` give, and for a named
/// store the cost `tokens_cost` works out and the model
/// `missing_store_pricing_model` reports. For pi's own store the cost is
/// `own_store_cost`'s in every mode.
pub open spec fn priced_in_context<
    C,
    P,
    FE: Fn(&str) -> Option<P>,
    FF: Fn(&str) -> Option<P>,
    FR: Fn(&str) -> String,
    FU: Fn(Option<&str>, TokenUsage, &Option<C>, CostMode) -> Option<String>,
    FO: Fn(Option<&str>, TokenUsage, Option<C>) -> C,
    FT: Fn(Option<&str>, Option<&str>, TokenUsage) -> C,
>(
    context: PiStoreContext,
    raw_model: Option<&str>,
    display: Option<&str>,
    usage: TokenUsage,
    display_cost: Option<C>,
    mode: CostMode,
    zero: C,
    pricing: Option<&PricingLookup<FE, FF>>,
    resolve_model_name: FR,
    own_store_rule: FU,
    own_store_cost: FO,
    tokens_cost: FT,
    cost: C,
    missing: Option<String>,
) -> bool {
    let log_cost_decides = mode == CostMode::Display || (mode == CostMode::Auto
        && display_cost is Some);
    &&& match context {
        PiStoreContext::Default => own_store_cost.ensures((display, usage, display_cost), cost),
        PiStoreContext::Named { .. } => if log_cost_decides {
            cost == match display_cost {
                Some(c) => c,
                None => zero,
            }
        } else {
            tokens_cost.ensures((raw_model, display, usage), cost)
        },
    }
    &&& if log_cost_decides {
        missing is None
    } else {
        match context {
            PiStoreContext::Default => own_store_rule.ensures(
                (display, usage, &display_cost, mode),
                missing,
            ),
            PiStoreContext::Named { .. } => missing_model_outcome(
                raw_model,
                display,
                usage,
                display_cost,
                mode,
                pricing,
                resolve_model_name,
                missing,
            ),
        }
    }
}

/// Records the usage entry of one pi usage record of the log of session
/// `session_id` in project `project`, for the store `context` names: its
/// token counts (cache writes counted as cache creation) completed from
/// its reported total, its model shown as `[store] model`, its cost and
/// unpriced model as the store charges them (see `priced_in_context`), and
/// the date `date_of` gives its timestamp. A record that counts no token
/// is refused: nothing is recorded and the result is `false`.
pub fn push_entry<
    C: Copy,
    P,
    FE: Fn(&str) -> Option<P>,
    FF: Fn(&str) -> Option<P>,
    FR: Fn(&str) -> String,
    FU: Fn(Option<&str>, TokenUsage, &Option<C>, CostMode) -> Option<String>,
    FO: Fn(Option<&str>, TokenUsage, Option<C>) -> C,
    FT: Fn(Option<&str>, Option<&str>, TokenUsage) -> C,
    FD: Fn(TimestampMs) -> String,
>(
    entries: &mut Vec<LoadedEntry<C>>,
    project: &str,
    session_id: &str,
    timestamp_text: String,
    timestamp: TimestampMs,
    raw_model: Option<&str>,
    usage_value: &PiUsage<C>,
    display_cost: Option<C>,
    request_id: Option<String>,
    context: PiStoreContext,
    mode: CostMode,
    zero: C,
    pricing: Option<&PricingLookup<FE, FF>>,
    resolve_model_name: FR,
    own_store_rule: FU,
    own_store_cost: FO,
    tokens_cost: FT,
    date_of: FD,
) -> (pushed: bool)
    requires
        lookups_total(pricing),
        forall|m: &str| #[trigger] resolve_model_name.requires((m,)),
        forall|d: Option<&str>, u: TokenUsage, c: &Option<C>, k: CostMode|
            #[trigger] own_store_rule.requires((d, u, c, k)),
        forall|d: Option<&str>, u: TokenUsage, c: Option<C>|
            #[trigger] own_store_cost.requires((d, u, c)),
        forall|r: Option<&str>, d: Option<&str>, u: TokenUsage|
            #[trigger] tokens_cost.requires((r, d, u)),
        forall|t: TimestampMs| #[trigger] date_of.requires((t,)),
    ensures
        ({
            let store = context.store_name_text();
            let counted = token_fallback(pi_tokens(*usage_value), 0, usage_value.total_tokens);
            let planned = planned_request(
                store,
                timestamp_text@,
                timestamp,
                opt_str_view(raw_model),
                pi_tokens(*usage_value),
                usage_value.total_tokens,
                display_cost,
                opt_view(request_id),
            );
            &&& pushed == (total_usage_tokens(counted.0) + counted.1 > 0)
            &&& pushed == planned is Some
            &&& !pushed ==> final(entries)@ == old(entries)@
            &&& pushed ==> {
                let e = final(entries)@.last();
                &&& final(entries)@.len() == old(entries)@.len() + 1
                &&& final(entries)@.take(old(entries)@.len() as int) == old(entries)@
                &&& entry_of_request(e, planned->0, session_id@, project@)
                &&& e.data.message.usage == counted.0
                &&& e.extra_total_tokens == counted.1
                &&& opt_view(e.model) == shown_model(store, opt_str_view(raw_model))
                &&& date_of.ensures((timestamp,), e.date)
                &&& exists|display: Option<&str>|
                    opt_str_view(display) == opt_view(e.model) && #[trigger] priced_in_context(
                        context,
                        raw_model,
                        display,
                        counted.0,
                        display_cost,
                        mode,
                        zero,
                        pricing,
                        resolve_model_name,
                        own_store_rule,
                        own_store_cost,
                        tokens_cost,
                        e.cost,
                        e.missing_pricing_model,
                    )
            }
        }),
{
    let store = context.store_name();
    let raw = match raw_model {
        Some(m) => Some(String::from_str(m)),
        None => None,
    };
    let tokens = TokenUsage {
        input_tokens: usage_value.input,
        output_tokens: usage_value.output,
        cache_creation_input_tokens: usage_value.cache_write,
        cache_read_input_tokens: usage_value.cache_read,
    };
    let planned = plan_request(
        store,
        timestamp_text,
        timestamp,
        raw,
        tokens,
        usage_value.total_tokens,
        display_cost,
        request_id,
    );
    let request = match planned {
        None => {
            return false;
        },
        Some(r) => r,
    };
    let shown = copy_opt_string(&request.model);
    let display: Option<&str> = match &shown {
        Some(m) => Some(m.as_str()),
        None => None,
    };
    assert(opt_str_view(display) == opt_view(shown));
    let usage = request.usage;
    assert(own_store_cost.requires((display, usage, display_cost)));
    assert(tokens_cost.requires((raw_model, display, usage)));
    let own_cost = (|| -> (c: C)
        requires
            own_store_cost.requires((display, usage, display_cost)),
        ensures
            own_store_cost.ensures((display, usage, display_cost), c),
        { own_store_cost(display, usage, display_cost) });
    let from_tokens = (|| -> (c: C)
        requires
            tokens_cost.requires((raw_model, display, usage)),
        ensures
            tokens_cost.ensures((raw_model, display, usage), c),
        { tokens_cost(raw_model, display, usage) });
    let cost = context.cost(display_cost, mode, zero, own_cost, from_tokens);
    assert(own_store_rule.requires((display, usage, &display_cost, mode)));
    let missing = context.missing_pricing_model(
        raw_model,
        display,
        usage,
        &display_cost,
        mode,
        pricing,
        resolve_model_name,
        own_store_rule,
    );
    let date = date_of(timestamp);
    record_request(entries, project, session_id, request, cost, missing, date);
    assert(priced_in_context(
        context,
        raw_model,
        display,
        usage,
        display_cost,
        mode,
        zero,
        pricing,
        resolve_model_name,
        own_store_rule,
        own_store_cost,
        tokens_cost,
        cost,
        missing,
    ));
    true
}

/// Whether `entry` carries what the caller's closures give for request
/// `r`: its cost, the model it reports as unpriced, and its date.
pub open spec fn priced_by<
    C,
    FC: Fn(&PiRequest<C>) -> C,
    FM: Fn(&PiRequest<C>) -> Option<String>,
    FD: Fn(&PiRequest<C>) -> String,
>(entry: LoadedEntry<C>, r: PiRequest<C>, cost_of: FC, missing_of: FM, date_of: FD) -> bool {
    &&& cost_of.ensures((&r,), entry.cost)
    &&& missing_of.ensures((&r,), entry.missing_pricing_model)
    &&& date_of.ensures((&r,), entry.date)
}

/// The usage entries of the pi session log at `path`, whose records are
/// `lines`: one for each request `session_requests` finds, in record
/// order, under the session id of the path and the project `context` gives
/// for it. Each entry's model is `[store] model` for the request's raw
/// model and counts at least one token; `cost_of`, `missing_of` and
/// `date_of` give its cost, unpriced model and date.
pub fn session_file_entries<
    C: Copy,
    FC: Fn(&PiRequest<C>) -> C,
    FM: Fn(&PiRequest<C>) -> Option<String>,
    FD: Fn(&PiRequest<C>) -> String,
>(
    path: &str,
    lines: &Vec<PiLine<C>>,
    context: PiStoreContext,
    cost_of: FC,
    missing_of: FM,
    date_of: FD,
) -> (entries: Vec<LoadedEntry<C>>)
    requires
        forall|r: &PiRequest<C>| #[trigger] cost_of.requires((r,)),
        forall|r: &PiRequest<C>| #[trigger] missing_of.requires((r,)),
        forall|r: &PiRequest<C>| #[trigger] date_of.requires((r,)),
    ensures
        ({
            let store = context.store_name_text();
            let reqs = file_requests(store, lines@, lines@.len() as int);
            &&& entries@.len() == reqs.len()
            &&& forall|i: int|
                0 <= i < reqs.len() ==> entry_of_request(
                    #[trigger] entries@[i],
                    reqs[i],
                    session_id_of(path@),
                    context.project_text(path@),
                )
            &&& forall|i: int|
                0 <= i < reqs.len() ==> opt_view(#[trigger] entries@[i].model) == shown_model(
                    store,
                    reqs[i].raw_model,
                )
            &&& forall|i: int|
                0 <= i < reqs.len() ==> total_usage_tokens(#[trigger] entries@[i].data.message.usage)
                    + entries@[i].extra_total_tokens > 0
            &&& exists|rs: Seq<PiRequest<C>>|
                #[trigger] requests_view(rs) == reqs && forall|i: int|
                    0 <= i < reqs.len() ==> priced_by(
                        #[trigger] entries@[i],
                        rs[i],
                        cost_of,
                        missing_of,
                        date_of,
                    )
        }),
{
    let ghost store = context.store_name_text();
    let session_id = extract_session_id(path);
    let project = context.project(path);
    let mut requests = session_requests(lines, context);
    let ghost all = requests_view(requests@);
    let ghost taken = requests@;
    proof {
        lemma_file_requests_kept(store, lines@, lines@.len() as int);
    }
    let mut entries: Vec<LoadedEntry<C>> = Vec::new();
    while requests.len() > 0
        invariant
            all == file_requests(store, lines@, lines@.len() as int),
            all_kept(store, all),
            entries@.len() + requests@.len() == all.len(),
            requests@ == taken.skip(entries@.len() as int),
            session_id@ == session_id_of(path@),
            project@ == context.project_text(path@),
            forall|r: &PiRequest<C>| #[trigger] cost_of.requires((r,)),
            forall|r: &PiRequest<C>| #[trigger] missing_of.requires((r,)),
            forall|r: &PiRequest<C>| #[trigger] date_of.requires((r,)),
            forall|i: int|
                0 <= i < entries@.len() ==> entry_of_request(
                    #[trigger] entries@[i],
                    all[i],
                    session_id@,
                    project@,
                ),
            requests_view(taken) == all,
            forall|i: int|
                0 <= i < entries@.len() ==> priced_by(
                    #[trigger] entries@[i],
                    taken[i],
                    cost_of,
                    missing_of,
                    date_of,
                ),
        decreases requests@.len(),
    {
        let ghost before = entries@;
        let ghost k = entries@.len() as int;
        let request = requests.remove(0);
        assert(requests@ =~= taken.skip(k + 1));
        assert(request == taken[k]);
        assert(request@ == all[k]);
        let ghost r = request;
        let cost = cost_of(&request);
        let missing = missing_of(&request);
        let date = date_of(&request);
        record_request(&mut entries, project.as_str(), session_id.as_str(), request, cost, missing, date);
        assert(r == taken[k]);
        assert(priced_by(entries@[k], r, cost_of, missing_of, date_of));
        assert forall|i: int| 0 <= i < entries@.len() implies entry_of_request(
            #[trigger] entries@[i],
            all[i],
            session_id@,
            project@,
        ) by {
            if i < k {
                assert(entries@[i] == before[i]);
            }
        }
        assert forall|i: int| 0 <= i < entries@.len() implies priced_by(
            #[trigger] entries@[i],
            taken[i],
            cost_of,
            missing_of,
            date_of,
        ) by {
            if i < k {
                assert(entries@[i] == before[i]);
            }
        }
    }
    assert forall|i: int| 0 <= i < all.len() implies opt_view(#[trigger] entries@[i].model)
        == shown_model(store, all[i].raw_model) && total_usage_tokens(entries@[i].data.message.usage)
        + entries@[i].extra_total_tokens > 0 by {
        assert(request_is_kept(store, all[i]));
    }
    entries
}

/// The text of an optional string, or the empty text.
pub open spec fn text_or_empty(o: Option<String>) -> Seq<char> {
    match o {
        Some(s) => s@,
        None => Seq::empty(),
    }
}

/// The identity of a usage entry of store `store`, by which duplicate
/// records are recognised: store, project, session, timestamp text, model,
/// request id, the token counts, extra tokens and the cost's text, joined
/// by `:`.
pub open spec fn entry_id_text<C>(store: Seq<char>, entry: LoadedEntry<C>, cost: Seq<char>) -> Seq<
    char,
> {
    let c = seq![':'];
    store + c + entry.project@ + c + entry.session_id@ + c + entry.data.timestamp@ + c
        + text_or_empty(entry.model) + c + text_or_empty(entry.data.request_id) + c + decimal_text(
        entry.data.message.usage.input_tokens as nat,
    ) + c + decimal_text(entry.data.message.usage.output_tokens as nat) + c + decimal_text(
        entry.data.message.usage.cache_creation_input_tokens as nat,
    ) + c + decimal_text(entry.data.message.usage.cache_read_input_tokens as nat) + c
        + decimal_text(entry.extra_total_tokens as nat) + c + cost
}

fn append_field(id: &mut String, field: &str)
    ensures
        final(id)@ == old(id)@ + seq![':'] + field@,
{
    proof {
        reveal_strlit(":");
        assert(":"@ =~= seq![':']);
    }
    id.append(":");
    id.append(field);
}

fn append_opt_field(id: &mut String, field: &Option<String>)
    ensures
        final(id)@ == old(id)@ + seq![':'] + text_or_empty(*field),
{
    match field {
        Some(f) => append_field(id, f.as_str()),
        None => {
            append_field(id, "");
            proof {
                reveal_strlit("");
            }
            assert(""@ =~= Seq::<char>::empty());
        },
    }
}

/// Whether `render` gives one text for `cost`, whichever call it is.
pub open spec fn renders_deterministically<C, F: Fn(&C) -> String>(render: F, cost: &C) -> bool {
    forall|a: String, b: String|
        #[trigger] render.ensures((cost,), a) && #[trigger] render.ensures((cost,), b) ==> a@ == b@
}

/// The fields of an entry's identity, in order (see `entry_id_text`).
pub open spec fn entry_id_fields<C>(store: Seq<char>, entry: LoadedEntry<C>, cost: Seq<char>) -> Seq<
    Seq<char>,
> {
    seq![
        store,
        entry.project@,
        entry.session_id@,
        entry.data.timestamp@,
        text_or_empty(entry.model),
        text_or_empty(entry.data.request_id),
        decimal_text(entry.data.message.usage.input_tokens as nat),
        decimal_text(entry.data.message.usage.output_tokens as nat),
        decimal_text(entry.data.message.usage.cache_creation_input_tokens as nat),
        decimal_text(entry.data.message.usage.cache_read_input_tokens as nat),
        decimal_text(entry.extra_total_tokens as nat),
        cost,
    ]
}

/// The first `n` of `fields`, joined by `:`.
pub open spec fn join_fields(fields: Seq<Seq<char>>, n: int) -> Seq<char>
    decreases n,
{
    if n <= 0 {
        Seq::empty()
    } else if n == 1 {
        fields[0]
    } else {
        join_fields(fields, n - 1) + seq![':'] + fields[n - 1]
    }
}

/// An entry's identity is its fields joined by `:`.
pub proof fn lemma_entry_id_joins_fields<C>(store: Seq<char>, entry: LoadedEntry<C>, cost: Seq<char>)
    ensures
        entry_id_text(store, entry, cost) == join_fields(entry_id_fields(store, entry, cost), 12),
{
    reveal_with_fuel(join_fields, 12);
}

proof fn lemma_join_same(a: Seq<Seq<char>>, b: Seq<Seq<char>>, n: int)
    requires
        forall|i: int| 0 <= i < n ==> #[trigger] a[i] == b[i],
    ensures
        join_fields(a, n) == join_fields(b, n),
    decreases n,
{
    if n > 1 {
        lemma_join_same(a, b, n - 1);
    }
}

/// Joining by `:` tells apart field lists that differ in one field only.
proof fn lemma_join_one_field(a: Seq<Seq<char>>, b: Seq<Seq<char>>, n: int, k: int)
    requires
        0 <= k < n,
        forall|i: int| 0 <= i < n && i != k ==> #[trigger] a[i] == b[i],
        a[k] != b[k],
    ensures
        join_fields(a, n) != join_fields(b, n),
    decreases n,
{
    if n > 1 {
        let ja = join_fields(a, n);
        let jb = join_fields(b, n);
        if k == n - 1 {
            lemma_join_same(a, b, n - 1);
            let p = join_fields(a, n - 1) + seq![':'];
            assert(ja == p + a[k]);
            assert(jb == p + b[k]);
            if ja == jb {
                assert(a[k] =~= ja.skip(p.len() as int));
                assert(b[k] =~= jb.skip(p.len() as int));
            }
        } else {
            lemma_join_one_field(a, b, n - 1, k);
            let q = seq![':'] + a[n - 1];
            let pa = join_fields(a, n - 1);
            let pb = join_fields(b, n - 1);
            assert(ja =~= pa + q);
            assert(jb =~= pb + q);
            if ja == jb {
                assert(pa =~= ja.take(pa.len() as int));
                assert(pb =~= jb.take(pb.len() as int));
            }
        }
    }
}

/// Two entries whose identity fields (store, project, session, timestamp,
/// model, request id, token counts, extra tokens, cost text) agree but for
/// one get different identities.
pub proof fn lemma_entry_id_one_field<C>(
    s1: Seq<char>,
    e1: LoadedEntry<C>,
    c1: Seq<char>,
    s2: Seq<char>,
    e2: LoadedEntry<C>,
    c2: Seq<char>,
    k: int,
)
    requires
        0 <= k < 12,
        forall|i: int|
            0 <= i < 12 && i != k ==> #[trigger] entry_id_fields(s1, e1, c1)[i] == entry_id_fields(
                s2,
                e2,
                c2,
            )[i],
        entry_id_fields(s1, e1, c1)[k] != entry_id_fields(s2, e2, c2)[k],
    ensures
        entry_id_text(s1, e1, c1) != entry_id_text(s2, e2, c2),
{
    lemma_entry_id_joins_fields(s1, e1, c1);
    lemma_entry_id_joins_fields(s2, e2, c2);
    lemma_join_one_field(entry_id_fields(s1, e1, c1), entry_id_fields(s2, e2, c2), 12, k);
}

/// One entry, with one cost text, gets different identities under
/// different store names, whatever the names hold.
pub proof fn lemma_store_names_give_distinct_ids<C>(
    s1: Seq<char>,
    s2: Seq<char>,
    entry: LoadedEntry<C>,
    cost: Seq<char>,
)
    requires
        s1 != s2,
    ensures
        entry_id_text(s1, entry, cost) != entry_id_text(s2, entry, cost),
{
    assert forall|i: int| 0 <= i < 12 && i != 0 implies #[trigger] entry_id_fields(s1, entry, cost)[i]
        == entry_id_fields(s2, entry, cost)[i] by {}
    lemma_entry_id_one_field(s1, entry, cost, s2, entry, cost, 0);
}

/// With a renderer that gives one text per cost, the identity `entry_id`
/// gives an entry is the one `entry_id_for_store` gives it as a record of
/// the store named `pi`.
pub proof fn lemma_entry_id_is_pi_store_id<C, F: Fn(&C) -> String>(
    entry: LoadedEntry<C>,
    cost_text: F,
    own: Seq<char>,
    as_store: Seq<char>,
)
    requires
        renders_deterministically(cost_text, &entry.cost),
        exists|c: String|
            #[trigger] cost_text.ensures((&entry.cost,), c) && own == entry_id_text(
                pi_text(),
                entry,
                c@,
            ),
        exists|c: String|
            #[trigger] cost_text.ensures((&entry.cost,), c) && as_store == entry_id_text(
                pi_text(),
                entry,
                c@,
            ),
    ensures
        own == as_store,
{
    let c1 = choose|c: String|
        #[trigger] cost_text.ensures((&entry.cost,), c) && own == entry_id_text(
            pi_text(),
            entry,
            c@,
        );
    let c2 = choose|c: String|
        #[trigger] cost_text.ensures((&entry.cost,), c) && as_store == entry_id_text(
            pi_text(),
            entry,
            c@,
        );
    assert(c1@ == c2@);
}

/// The identity of `entry` as a record of store `store_name` (see
/// `entry_id_text`); `cost_text` renders the cost.
pub fn entry_id_for_store<C, F: Fn(&C) -> String>(
    store_name: &str,
    entry: &LoadedEntry<C>,
    cost_text: F,
) -> (id: String)
    requires
        cost_text.requires((&entry.cost,)),
    ensures
        exists|cost: String|
            cost_text.ensures((&entry.cost,), cost) && id@ == entry_id_text(
                store_name@,
                *entry,
                cost@,
            ),
        renders_deterministically(cost_text, &entry.cost) ==> forall|cost: String|
            #[trigger] cost_text.ensures((&entry.cost,), cost) ==> id@ == entry_id_text(
                store_name@,
                *entry,
                cost@,
            ),
{
    let mut id = String::from_str(store_name);
    append_field(&mut id, entry.project.as_str());
    append_field(&mut id, entry.session_id.as_str());
    append_field(&mut id, entry.data.timestamp.as_str());
    append_opt_field(&mut id, &entry.model);
    append_opt_field(&mut id, &entry.data.request_id);
    let t = decimal_string(entry.data.message.usage.input_tokens);
    append_field(&mut id, t.as_str());
    let t = decimal_string(entry.data.message.usage.output_tokens);
    append_field(&mut id, t.as_str());
    let t = decimal_string(entry.data.message.usage.cache_creation_input_tokens);
    append_field(&mut id, t.as_str());
    let t = decimal_string(entry.data.message.usage.cache_read_input_tokens);
    append_field(&mut id, t.as_str());
    let t = decimal_string(entry.extra_total_tokens);
    append_field(&mut id, t.as_str());
    let cost = cost_text(&entry.cost);
    append_field(&mut id, cost.as_str());
    assert(renders_deterministically(cost_text, &entry.cost) ==> forall|other: String|
        #[trigger] cost_text.ensures((&entry.cost,), other) ==> other@ == cost@);
    id
}

/// The identity of `entry` as a record of pi's own store.
pub fn entry_id<C, F: Fn(&C) -> String>(entry: &LoadedEntry<C>, cost_text: F) -> (id: String)
    requires
        cost_text.requires((&entry.cost,)),
    ensures
        exists|cost: String|
            cost_text.ensures((&entry.cost,), cost) && id@ == entry_id_text(
                pi_text(),
                *entry,
                cost@,
            ),
        renders_deterministically(cost_text, &entry.cost) ==> forall|cost: String|
            #[trigger] cost_text.ensures((&entry.cost,), cost) ==> id@ == entry_id_text(
                pi_text(),
                *entry,
                cost@,
            ),
{
    proof {
        reveal_strlit("pi");
        assert("pi"@ =~= pi_text());
    }
    entry_id_for_store("pi", entry, cost_text)
}

/// A digit is never `:`.
proof fn lemma_digit_not_colon(c: char)
    requires
        is_digit_char(c),
    ensures
        c != ':',
{
    let d = choose|d: nat| d < 10 && crate::text::digit_char(d) == c;
    assert(d == 0 || d == 1 || d == 2 || d == 3 || d == 4 || d == 5 || d == 6 || d == 7 || d == 8
        || d == 9);
}

/// Splitting at the first `:` after a run of digits.
proof fn lemma_split_after_digits(a1: Seq<char>, x1: Seq<char>, a2: Seq<char>, x2: Seq<char>)
    requires
        forall|i: int| 0 <= i < a1.len() ==> is_digit_char(#[trigger] a1[i]),
        forall|i: int| 0 <= i < a2.len() ==> is_digit_char(#[trigger] a2[i]),
        a1 + seq![':'] + x1 == a2 + seq![':'] + x2,
    ensures
        a1 == a2,
        x1 == x2,
{
    let s1 = a1 + seq![':'] + x1;
    let s2 = a2 + seq![':'] + x2;
    if a1.len() < a2.len() {
        assert(s1[a1.len() as int] == ':');
        assert(s2[a1.len() as int] == a2[a1.len() as int]);
        lemma_digit_not_colon(a2[a1.len() as int]);
    } else if a2.len() < a1.len() {
        assert(s2[a2.len() as int] == ':');
        assert(s1[a2.len() as int] == a1[a2.len() as int]);
        lemma_digit_not_colon(a1[a2.len() as int]);
    } else {
        assert(a1 =~= s1.take(a1.len() as int));
        assert(a2 =~= s2.take(a2.len() as int));
        assert(x1 =~= s1.skip(a1.len() as int + 1));
        assert(x2 =~= s2.skip(a2.len() as int + 1));
    }
}

/// Different messages or runs of one subagent call get different request
/// ids, and no message's id is a run's aggregate id.
pub proof fn lemma_subagent_request_ids_distinct(call: Seq<char>, r1: nat, m1: nat, r2: nat, m2: nat)
    ensures
        nested_request_id(call, r1, m1) == nested_request_id(call, r2, m2) ==> r1 == r2 && m1 == m2,
        aggregate_request_id(call, r1) == aggregate_request_id(call, r2) ==> r1 == r2,
        nested_request_id(call, r1, m1) != aggregate_request_id(call, r2),
{
    let p = subagent_prefix_text() + call + seq![':'];
    lemma_decimal_digits(r1);
    lemma_decimal_digits(r2);
    lemma_decimal_digits(m1);
    lemma_decimal_digits(m2);
    assert(nested_request_id(call, r1, m1) =~= p + (decimal_text(r1) + seq![':'] + decimal_text(m1)));
    assert(nested_request_id(call, r2, m2) =~= p + (decimal_text(r2) + seq![':'] + decimal_text(m2)));
    assert(aggregate_request_id(call, r1) =~= p + (decimal_text(r1) + seq![':'] + aggregate_text()));
    assert(aggregate_request_id(call, r2) =~= p + (decimal_text(r2) + seq![':'] + aggregate_text()));
    if nested_request_id(call, r1, m1) == nested_request_id(call, r2, m2) {
        let t1 = decimal_text(r1) + seq![':'] + decimal_text(m1);
        let t2 = decimal_text(r2) + seq![':'] + decimal_text(m2);
        assert(t1 =~= (p + t1).skip(p.len() as int));
        assert(t2 =~= (p + t2).skip(p.len() as int));
        lemma_split_after_digits(decimal_text(r1), decimal_text(m1), decimal_text(r2), decimal_text(m2));
        lemma_decimal_injective(r1, r2);
        lemma_decimal_injective(m1, m2);
    }
    if aggregate_request_id(call, r1) == aggregate_request_id(call, r2) {
        let t1 = decimal_text(r1) + seq![':'] + aggregate_text();
        let t2 = decimal_text(r2) + seq![':'] + aggregate_text();
        assert(t1 =~= (p + t1).skip(p.len() as int));
        assert(t2 =~= (p + t2).skip(p.len() as int));
        lemma_split_after_digits(decimal_text(r1), aggregate_text(), decimal_text(r2), aggregate_text());
        lemma_decimal_injective(r1, r2);
    }
    if nested_request_id(call, r1, m1) == aggregate_request_id(call, r2) {
        let t1 = decimal_text(r1) + seq![':'] + decimal_text(m1);
        let t2 = decimal_text(r2) + seq![':'] + aggregate_text();
        assert(t1 =~= (p + t1).skip(p.len() as int));
        assert(t2 =~= (p + t2).skip(p.len() as int));
        lemma_split_after_digits(decimal_text(r1), decimal_text(m1), decimal_text(r2), aggregate_text());
        assert(decimal_text(m1)[0] == aggregate_text()[0]);
        lemma_digit_not_colon(decimal_text(m1)[0]);
        assert(is_digit_char('a')) by {
            assert(is_digit_char(decimal_text(m1)[0]));
        }
        let d = choose|d: nat| d < 10 && crate::text::digit_char(d) == 'a';
        assert(d == 0 || d == 1 || d == 2 || d == 3 || d == 4 || d == 5 || d == 6 || d == 7 || d
            == 8 || d == 9);
    }
}

proof fn lemma_nested_requests_empty<C>(
    store: Seq<char>,
    call: Seq<char>,
    result: PiSubagentResult<C>,
    ri: nat,
    k: int,
)
    requires
        0 <= k,
    ensures
        nested_requests(store, call, result, ri, k).len() == 0 <==> forall|mi: int|
            0 <= mi < k ==> #[trigger] nested_request(store, call, result, ri, mi) is None,
    decreases k,
{
    if k > 0 {
        lemma_nested_requests_empty(store, call, result, ri, k - 1);
        let last = nested_request(store, call, result, ri, k - 1);
        if last is Some {
            assert(opt_seq(last).len() == 1);
        }
    }
}

/// A usable subagent message is billed under its own model when it names
/// one; its run's model (without provider prefix) is used only when the
/// message names none, and the request is shown as `[store] model`.
pub proof fn lemma_nested_request_model<C>(
    store: Seq<char>,
    call: Seq<char>,
    result: PiSubagentResult<C>,
    ri: nat,
    mi: int,
)
    requires
        nested_request(store, call, result, ri, mi) is Some,
    ensures
        ({
            let q = nested_request(store, call, result, ri, mi)->0;
            let own = result.messages@[mi].model;
            &&& own matches Some(m) ==> q.raw_model == Some(m@)
            &&& own is None ==> q.raw_model == match result.model {
                Some(r) => Some(subagent_model_name(r@)),
                None => None,
            }
            &&& q.model == shown_model(store, q.raw_model)
            &&& q.request_id == Some(nested_request_id(call, ri, mi as nat))
            &&& q.timestamp == TimestampMs(result.messages@[mi].timestamp->0)
            &&& q.timestamp_text == rfc3339_millis_text(result.messages@[mi].timestamp->0)
            &&& result.messages@[mi].usage matches Some(u) && {
                let counted = token_fallback(
                    TokenUsage {
                        input_tokens: u.input,
                        output_tokens: u.output,
                        cache_creation_input_tokens: u.cache_write,
                        cache_read_input_tokens: u.cache_read,
                    },
                    0,
                    u.total_tokens,
                );
                &&& q.usage == counted.0
                &&& q.extra_total_tokens == counted.1
                &&& q.display_cost == match u.cost {
                    Some(c) => c.total,
                    None => None,
                }
            }
        }),
{
}

/// A pi assistant record with a parsable timestamp and usage yields one
/// request, dated by that timestamp, under the record's own model shown as
/// `[store] model`, with the record's tokens (cache writes counted as cache
/// creation) completed from its total, its logged cost and no request id;
/// nothing when those tokens and the total are all zero.
pub proof fn lemma_assistant_request<C>(store: Seq<char>, line: PiLine<C>)
    requires
        line.record_type is None || line.record_type->0@ == message_text(),
        line.message matches Some(msg) && opt_text_is(msg.role, assistant_text()),
    ensures
        ({
            let msg = line.message->0;
            let out = line_requests(store, line);
            &&& out.len() <= 1
            &&& out.len() == 1 ==> line.timestamp is Some && parsed_timestamp(
                line.timestamp->0@,
            ) is Some && msg.usage is Some
            &&& (line.timestamp is Some && parsed_timestamp(line.timestamp->0@) is Some
                && msg.usage is Some) ==> {
                let t = line.timestamp->0;
                let ts = parsed_timestamp(t@)->0;
                let u = msg.usage->0;
                let counted = token_fallback(
                    TokenUsage {
                        input_tokens: u.input,
                        output_tokens: u.output,
                        cache_creation_input_tokens: u.cache_write,
                        cache_read_input_tokens: u.cache_read,
                    },
                    0,
                    u.total_tokens,
                );
                &&& out.len() == 0 <==> (u.input == 0 && u.output == 0 && u.cache_read == 0
                    && u.cache_write == 0 && u.total_tokens == 0)
                &&& out.len() == 1 ==> {
                    let q = out[0];
                    &&& q.timestamp == ts
                    &&& q.timestamp_text == t@
                    &&& q.raw_model == opt_view(msg.model)
                    &&& q.model == shown_model(store, opt_view(msg.model))
                    &&& q.usage == counted.0
                    &&& q.extra_total_tokens == counted.1
                    &&& q.display_cost == match u.cost {
                        Some(c) => c.total,
                        None => None,
                    }
                    &&& q.request_id is None
                }
            }
        }),
{
}

/// The part of a subagent run's model after its last `/`: the whole name
/// when it has no `/` or ends in one, else what follows the last `/`, which
/// holds no `/`.
pub proof fn lemma_subagent_model_name(m: Seq<char>)
    ensures
        !m.contains('/') ==> subagent_model_name(m) == m,
        m.len() > 0 && m.last() == '/' ==> subagent_model_name(m) == m,
        !subagent_model_name(m).contains('/') || subagent_model_name(m) == m,
        subagent_model_name(m) != m ==> exists|p: int|
            0 <= p < m.len() && m[p] == '/' && subagent_model_name(m) == m.skip(p + 1),
{
    lemma_last_position(m, '/');
    match last_position(m, '/') {
        Some(p) => {
            assert(m[p] == '/');
            assert(m.contains('/'));
            if p + 1 < m.len() {
                let t = m.skip(p + 1);
                assert forall|k: int| 0 <= k < t.len() implies t[k] != '/' by {
                    assert(t[k] == m[p + 1 + k]);
                }
            }
        },
        None => {
            if m.contains('/') {
                let k = choose|k: int| 0 <= k < m.len() && m[k] == '/';
                assert(m[k] == '/');
            }
        },
    }
}

/// A subagent run's usage is counted once: from its per-request messages
/// when any of them is usable, otherwise from its aggregate usage, never
/// from both.
pub proof fn lemma_subagent_usage_counted_once<C>(
    store: Seq<char>,
    call: Seq<char>,
    line_timestamp: Option<String>,
    result: PiSubagentResult<C>,
    ri: nat,
)
    ensures
        (exists|mi: int|
            0 <= mi < result.messages@.len() && #[trigger] nested_request(
                store,
                call,
                result,
                ri,
                mi,
            ) is Some) ==> result_requests(store, call, line_timestamp, result, ri)
            == nested_requests(store, call, result, ri, result.messages@.len() as int),
        (forall|mi: int|
            0 <= mi < result.messages@.len() ==> #[trigger] nested_request(
                store,
                call,
                result,
                ri,
                mi,
            ) is None) ==> result_requests(store, call, line_timestamp, result, ri) == opt_seq(
            aggregate_request(store, call, line_timestamp, result, ri),
        ),
{
    lemma_nested_requests_empty(store, call, result, ri, result.messages@.len() as int);
}

/// Completing token counts accounts for the reported total: the counted
/// tokens become the larger of the reported total and what was counted.
pub proof fn lemma_fallback_accounts_total(usage: TokenUsage, extra: u64, total: u64)
    ensures
        ({
            let (u, e) = token_fallback(usage, extra, total);
            let counted = total_usage_tokens(usage) + extra;
            total_usage_tokens(u) + e == if total > counted {
                total as int
            } else {
                counted
            }
        }),
{
}

/// The identity of an entry starts with its store's name and a `:`, so
/// entries of stores with different names (without `:`) never share an
/// identity.
pub proof fn lemma_store_name_in_identity<C>(
    s1: Seq<char>,
    e1: LoadedEntry<C>,
    c1: Seq<char>,
    s2: Seq<char>,
    e2: LoadedEntry<C>,
    c2: Seq<char>,
)
    requires
        s1 != s2,
        forall|i: int| 0 <= i < s1.len() ==> #[trigger] s1[i] != ':',
        forall|i: int| 0 <= i < s2.len() ==> #[trigger] s2[i] != ':',
    ensures
        entry_id_text(s1, e1, c1) != entry_id_text(s2, e2, c2),
{
    let id1 = entry_id_text(s1, e1, c1);
    let id2 = entry_id_text(s2, e2, c2);
    let r1 = id1.skip(s1.len() as int + 1);
    let r2 = id2.skip(s2.len() as int + 1);
    assert(id1 =~= s1 + seq![':'] + r1);
    assert(id2 =~= s2 + seq![':'] + r2);
    if id1 == id2 {
        if s1.len() < s2.len() {
            assert(id1[s1.len() as int] == ':');
            assert(id2[s1.len() as int] == s2[s1.len() as int]);
        } else if s2.len() < s1.len() {
            assert(id2[s2.len() as int] == ':');
            assert(id1[s2.len() as int] == s1[s2.len() as int]);
        } else {
            assert(s1 =~= id1.take(s1.len() as int));
            assert(s2 =~= id2.take(s2.len() as int));
        }
    }
}

} // verus!
