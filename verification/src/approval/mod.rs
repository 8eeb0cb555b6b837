//! Approval of tool calls in supervised mode.
//!
//! Before a tool runs, the [`ApprovalManager`] says whether its user has to be
//! asked. It keeps the session's "Always" answers and a log of all decisions.

pub mod adapter;
pub mod laws;
pub mod manager;
pub mod summary;

pub use adapter::{PendingApproval, PlatformRef};
pub use manager::{
    parse_approval_input, ApprovalLogEntry, ApprovalManager, ApprovalOutcome, ApprovalRequest,
    ApprovalResponse,
};
pub use summary::{summarize_args, truncate_for_summary};
