//! Usage records shared by the log readers and the reports.
use vstd::prelude::*;
use crate::timestamp::TimestampMs;

verus! {

/// Token counts of one request.
#[derive(Clone, Copy, Debug, PartialEq, Eq, Structural)]
pub struct TokenUsage {
    pub input_tokens: u64,
    pub output_tokens: u64,
    pub cache_creation_input_tokens: u64,
    pub cache_read_input_tokens: u64,
}

/// The sum of a request's token counts.
pub open spec fn total_usage_tokens(usage: TokenUsage) -> int {
    usage.input_tokens + usage.output_tokens + usage.cache_creation_input_tokens
        + usage.cache_read_input_tokens
}

/// The message block of a usage record.
#[derive(Debug)]
pub struct UsageMessage {
    pub usage: TokenUsage,
    pub model: Option<String>,
    pub id: Option<String>,
}

/// One usage record as a log reader saw it; `C` is the type of costs.
#[derive(Debug)]
pub struct UsageEntry<C> {
    pub session_id: Option<String>,
    pub timestamp: String,
    pub message: UsageMessage,
    pub cost_usd: Option<C>,
    pub request_id: Option<String>,
}

/// A usage record with everything the reports group and sum by; `C` is the
/// type of costs.
#[derive(Debug)]
pub struct LoadedEntry<C> {
    pub data: UsageEntry<C>,
    pub timestamp: TimestampMs,
    pub date: String,
    pub project: String,
    pub session_id: String,
    pub project_path: String,
    pub cost: C,
    pub extra_total_tokens: u64,
    pub model: Option<String>,
    pub missing_pricing_model: Option<String>,
}

/// The period a report groups by.
#[derive(Clone, Copy, Debug, PartialEq, Eq, Structural)]
pub enum AgentReportKind {
    Daily,
    Weekly,
    Monthly,
    Session,
}

/// How a cost is obtained: from the log, from token prices, or from the log
/// where it has one and from prices otherwise.
#[derive(Clone, Copy, Debug, PartialEq, Eq, Structural)]
pub enum CostMode {
    Auto,
    Calculate,
    Display,
}

} // verus!
