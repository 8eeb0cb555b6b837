//! How an approval prompt on a channel is found again.

use vstd::prelude::*;

verus! {

/// Where a channel put an approval prompt.
#[derive(Debug, Clone)]
pub enum PlatformRef {
    Cli,
    Telegram { chat_id: i64, message_id: i32 },
    Slack { channel_id: String, thread_ts: String },
    Gateway { connection_id: String },
}

/// An approval prompt that waits for its answer.
#[derive(Debug, Clone)]
pub struct PendingApproval {
    pub request_id: String,
    pub platform_ref: PlatformRef,
}

} // verus!
