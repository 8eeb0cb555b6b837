//! Messages of channels, and taking single messages off a channel's inbox.

use crate::tickets::{self, TicketedSlots};
use tokio_util::sync::CancellationToken;
use vstd::prelude::*;
use vstd::string::*;

verus! {

/// `tokio_util::sync::CancellationToken`, carried with a message and never
/// looked into.
#[verifier::external_type_specification]
#[verifier::external_body]
pub struct ExCancellationToken(tokio_util::sync::CancellationToken);

/// A file that came with a message.
#[derive(Debug, Clone)]
pub struct MediaAttachment {
    pub file_name: String,
    pub data: Vec<u8>,
    pub mime_type: Option<String>,
}

/// A message from a channel.
#[derive(Debug, Clone)]
pub struct ChannelMessage {
    pub id: String,
    pub sender: String,
    pub reply_target: String,
    pub content: String,
    pub channel: String,
    pub timestamp: u64,
    /// The thread in which to reply.
    pub thread_ts: Option<String>,
    /// The thread that this message belongs to. It is set only for messages
    /// inside a thread; messages outside are grouped by sender and channel.
    pub interruption_scope_id: Option<String>,
    pub attachments: Vec<MediaAttachment>,
}

/// A message to a channel.
#[derive(Debug, Clone)]
pub struct SendMessage {
    pub content: String,
    pub recipient: String,
    pub subject: Option<String>,
    /// The thread in which to reply.
    pub thread_ts: Option<String>,
    /// Stops the delivery of a message in parts.
    pub cancellation_token: Option<CancellationToken>,
}

impl SendMessage {
    /// A message without a subject, outside of any thread.
    pub fn new(content: String, recipient: String) -> (r: Self)
        ensures
            r == (SendMessage {
                content,
                recipient,
                subject: None,
                thread_ts: None,
                cancellation_token: None,
            }),
    {
        SendMessage { content, recipient, subject: None, thread_ts: None, cancellation_token: None }
    }

    /// A message with a subject, outside of any thread.
    pub fn with_subject(content: String, recipient: String, subject: String) -> (r: Self)
        ensures
            r == (SendMessage {
                content,
                recipient,
                subject: Some(subject),
                thread_ts: None,
                cancellation_token: None,
            }),
    {
        SendMessage {
            content,
            recipient,
            subject: Some(subject),
            thread_ts: None,
            cancellation_token: None,
        }
    }

    /// The same message in a thread.
    pub fn in_thread(self, thread_ts: Option<String>) -> (r: Self)
        ensures
            r == (SendMessage { thread_ts, ..self }),
    {
        SendMessage {
            content: self.content,
            recipient: self.recipient,
            subject: self.subject,
            thread_ts,
            cancellation_token: self.cancellation_token,
        }
    }

    /// The same message with a token that stops its delivery.
    pub fn with_cancellation(self, token: CancellationToken) -> (r: Self)
        ensures
            r == (SendMessage { cancellation_token: Some(token), ..self }),
    {
        SendMessage {
            content: self.content,
            recipient: self.recipient,
            subject: self.subject,
            thread_ts: self.thread_ts,
            cancellation_token: Some(token),
        }
    }
}

/// What waiting for the next reply gave.
#[derive(Debug)]
pub enum NextReply {
    Received(ChannelMessage),
    Timeout,
    /// The channel cannot wait for single replies.
    Unsupported,
}

/// How waiting for a reply came to an end.
#[derive(Debug)]
pub enum ReplyOutcome {
    /// The message arrived.
    Received(ChannelMessage),
    /// The time was up.
    TimedOut,
    /// The listener went away.
    Closed,
}

/// Messages that are taken off a channel's inbox before anything else sees
/// them: at most one taker per reply target, each for one message. A taker is a
/// `T`, such as the sending half of a one-shot channel. Each wait has a ticket, so
/// that one that ends cleans up after itself and not after a newer one.
#[derive(Debug)]
pub struct InboxInterceptor<T> {
    pending: TicketedSlots<T>,
}

impl<T> View for InboxInterceptor<T> {
    type V = Map<Seq<char>, (u64, T)>;

    closed spec fn view(&self) -> Map<Seq<char>, (u64, T)> {
        self.pending@
    }
}

/// The takers that are left when a wait comes to an end: one that got its
/// message is gone already; any other wait removes its own taker, and leaves that
/// of a newer wait for the same reply target.
pub open spec fn takers_after<T>(
    pending: Map<Seq<char>, (u64, T)>,
    reply_target: Seq<char>,
    ticket: u64,
    outcome: ReplyOutcome,
) -> Map<Seq<char>, (u64, T)> {
    match outcome {
        ReplyOutcome::Received(_) => pending,
        _ => tickets::released(pending, reply_target, ticket),
    }
}

impl<T> InboxInterceptor<T> {
    /// The ticket of the next wait.
    pub closed spec fn next_ticket(&self) -> u64 {
        self.pending.next_ticket()
    }

    /// Nobody waits.
    pub fn new() -> (r: Self)
        ensures
            r@ == Map::<Seq<char>, (u64, T)>::empty(),
            r.next_ticket() == 0,
    {
        InboxInterceptor { pending: TicketedSlots::new() }
    }

    /// Takes out who waits for a message with this reply target.
    pub fn take(&mut self, reply_target: &str) -> (r: Option<T>)
        ensures
            final(self)@ == old(self)@.remove(reply_target@),
            final(self).next_ticket() == old(self).next_ticket(),
            r == tickets::found(old(self)@, reply_target@),
    {
        self.pending.remove(reply_target)
    }

    /// Starts to wait for a message with this reply target, and gives the ticket
    /// of the wait. Who waited for it before waits no longer.
    pub fn register(&mut self, reply_target: &str, taker: T) -> (r: u64)
        ensures
            r == old(self).next_ticket(),
            final(self)@ == old(self)@.insert(reply_target@, (r, taker)),
            final(self).next_ticket() == tickets::ticket_after(r),
    {
        self.pending.insert(reply_target.to_string(), taker)
    }

    /// Ends the wait with this ticket and gives its result.
    pub fn await_reply(&mut self, reply_target: &str, ticket: u64, outcome: ReplyOutcome) -> (r:
        NextReply)
        ensures
            final(self)@ == takers_after(old(self)@, reply_target@, ticket, outcome),
            final(self).next_ticket() == old(self).next_ticket(),
            r == (match outcome {
                ReplyOutcome::Received(msg) => NextReply::Received(msg),
                _ => NextReply::Timeout,
            }),
    {
        match outcome {
            ReplyOutcome::Received(msg) => NextReply::Received(msg),
            _ => {
                self.cancel(reply_target, ticket);
                NextReply::Timeout
            },
        }
    }

    /// Gives up the wait with this ticket. A newer wait for the same reply target
    /// goes on.
    pub fn cancel(&mut self, reply_target: &str, ticket: u64)
        ensures
            final(self)@ == tickets::released(old(self)@, reply_target@, ticket),
            final(self).next_ticket() == old(self).next_ticket(),
    {
        self.pending.release(reply_target, ticket);
    }

    /// Whether nobody waits.
    pub fn is_empty(&self) -> (r: bool)
        ensures
            r == (self@ == Map::<Seq<char>, (u64, T)>::empty()),
    {
        self.pending.is_empty()
    }
}

// ── Laws ────────────────────────────────────────────────────────────

/// A taker is found once: the message after the first one passes.
pub proof fn taker_is_found_once<T>(
    pending: Map<Seq<char>, (u64, T)>,
    reply_target: Seq<char>,
    ticket: u64,
    taker: T,
)
    ensures
        ({
            let waiting = pending.insert(reply_target, (ticket, taker));
            &&& tickets::found(waiting, reply_target) == Some(taker)
            &&& tickets::found(waiting.remove(reply_target), reply_target) is None
        }),
{
}

/// A wait that times out or is given up leaves no taker of its own behind, so a
/// later message is not swallowed; where nobody waited before, all is as it was.
pub proof fn ended_wait_leaves_nothing<T>(
    pending: Map<Seq<char>, (u64, T)>,
    reply_target: Seq<char>,
    ticket: u64,
    taker: T,
    outcome: ReplyOutcome,
)
    requires
        !(outcome is Received),
    ensures
        ({
            let left = takers_after(
                pending.insert(reply_target, (ticket, taker)),
                reply_target,
                ticket,
                outcome,
            );
            &&& !left.contains_key(reply_target)
            &&& !pending.contains_key(reply_target) ==> left == pending
        }),
{
    tickets::owner_takes_its_value(pending, reply_target, ticket, taker);
}

/// A wait that ends leaves the taker of a newer wait for the same reply target in
/// its place, however it ends: the newer wait is `n` tickets younger.
pub proof fn older_wait_leaves_newer_taker<T>(
    pending: Map<Seq<char>, (u64, T)>,
    reply_target: Seq<char>,
    ticket: u64,
    n: nat,
    newer: T,
    outcome: ReplyOutcome,
)
    requires
        0 < n <= u64::MAX,
    ensures
        ({
            let waiting = pending.insert(
                reply_target,
                (tickets::nth_ticket(ticket, n), newer),
            );
            let left = takers_after(waiting, reply_target, ticket, outcome);
            &&& left == waiting
            &&& tickets::found(left, reply_target) == Some(newer)
        }),
{
    tickets::older_owner_leaves_newer(pending, reply_target, ticket, n, newer);
}

/// A wait that gets its message through [`InboxInterceptor::take`] leaves no
/// taker behind either.
pub proof fn answered_wait_leaves_nothing<T>(
    pending: Map<Seq<char>, (u64, T)>,
    reply_target: Seq<char>,
    ticket: u64,
    taker: T,
    msg: ChannelMessage,
)
    requires
        !pending.contains_key(reply_target),
    ensures
        takers_after(
            pending.insert(reply_target, (ticket, taker)).remove(reply_target),
            reply_target,
            ticket,
            ReplyOutcome::Received(msg),
        ) == pending,
{
    assert(pending.insert(reply_target, (ticket, taker)).remove(reply_target) =~= pending);
}

/// Waits for different reply targets do not touch each other.
pub proof fn waits_are_independent<T>(
    pending: Map<Seq<char>, (u64, T)>,
    reply_target: Seq<char>,
    other: Seq<char>,
    ticket: u64,
    taker: T,
    outcome: ReplyOutcome,
)
    requires
        other != reply_target,
    ensures
        tickets::found(pending.insert(reply_target, (ticket, taker)), other) == tickets::found(
            pending,
            other,
        ),
        tickets::found(takers_after(pending, reply_target, ticket, outcome), other)
            == tickets::found(pending, other),
{
    tickets::other_keys_stay(pending, reply_target, ticket, other);
}

/// A wait that got its message changes nothing more, and one that got none touches no
/// taker but its own.
pub proof fn ending_touches_its_own_taker<T>(
    pending: Map<Seq<char>, (u64, T)>,
    reply_target: Seq<char>,
    ticket: u64,
    msg: ChannelMessage,
)
    ensures
        takers_after(pending, reply_target, ticket, ReplyOutcome::Received(msg)) == pending,
        pending.contains_key(reply_target) && pending[reply_target].0 != ticket ==> takers_after(
            pending,
            reply_target,
            ticket,
            ReplyOutcome::TimedOut,
        ) == pending && takers_after(pending, reply_target, ticket, ReplyOutcome::Closed) == pending,
{
}

} // verus!
