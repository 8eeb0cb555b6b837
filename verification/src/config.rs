//! The settings that the library reads.

use crate::security::AutonomyLevel;
use crate::text;
use vstd::prelude::*;
use vstd::string::*;

verus! {

/// Which tools need approval.
#[derive(Debug)]
pub struct AutonomyConfig {
    pub level: AutonomyLevel,
    /// Tools that never need approval.
    pub auto_approve: Vec<String>,
    /// Tools that always need approval.
    pub always_ask: Vec<String>,
    pub require_approval_for_medium_risk: bool,
    /// How long an approval prompt stays open, in seconds.
    pub approval_timeout_secs: u64,
}

/// The tools that only look things up.
pub open spec fn lookup_tools() -> Seq<Seq<char>> {
    seq![
        "file_read"@,
        "memory_recall"@,
        "web_search_tool"@,
        "web_fetch"@,
        "calculator"@,
        "glob_search"@,
        "content_search"@,
        "image_info"@,
        "weather"@,
    ]
}

impl Default for AutonomyConfig {
    /// Supervised; tools that only look things up need no approval.
    fn default() -> (r: Self)
        ensures
            r.level == AutonomyLevel::Supervised,
            text::texts(r.auto_approve@) == lookup_tools(),
            r.always_ask@.len() == 0,
            r.require_approval_for_medium_risk,
            r.approval_timeout_secs == 300,
    {
        let mut auto_approve: Vec<String> = Vec::new();
        auto_approve.push("file_read".to_string());
        auto_approve.push("memory_recall".to_string());
        auto_approve.push("web_search_tool".to_string());
        auto_approve.push("web_fetch".to_string());
        auto_approve.push("calculator".to_string());
        auto_approve.push("glob_search".to_string());
        auto_approve.push("content_search".to_string());
        auto_approve.push("image_info".to_string());
        auto_approve.push("weather".to_string());
        assert(text::texts(auto_approve@) =~= lookup_tools());
        AutonomyConfig {
            level: AutonomyLevel::Supervised,
            auto_approve,
            always_ask: Vec::new(),
            require_approval_for_medium_risk: true,
            approval_timeout_secs: 300,
        }
    }
}

/// What is observed and where it is written.
#[derive(Debug)]
pub struct ObservabilityConfig {
    pub backend: String,
    pub otel_endpoint: Option<String>,
    pub otel_service_name: Option<String>,
    /// `none`, `rolling` or `full`.
    pub runtime_trace_mode: String,
    /// Where the trace is written; relative paths start at the workspace.
    pub runtime_trace_path: String,
    /// How many entries a rolling trace keeps.
    pub runtime_trace_max_entries: usize,
}

} // verus!
