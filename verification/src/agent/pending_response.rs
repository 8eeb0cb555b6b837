//! Routing a user's reply to the tool that waits for it.
//!
//! A tool that asks the user something waits under the scope of the message
//! that it works on. A later message of the same scope goes to the tool and not
//! to a new conversation.

use crate::channels::traits::ChannelMessage;
use crate::text;
use crate::tickets::{self, TicketedSlots};
use vstd::prelude::*;
use vstd::string::*;

verus! {

/// Where the message that is being worked on came from.
#[derive(Debug, Clone)]
pub struct MessageContext {
    pub channel: String,
    pub reply_target: String,
    pub sender: String,
    pub thread_ts: Option<String>,
    pub interruption_scope_id: Option<String>,
}

impl MessageContext {
    /// Where a message came from.
    pub fn from_message(msg: &ChannelMessage) -> (r: Self)
        ensures
            r.channel@ == msg.channel@,
            r.reply_target@ == msg.reply_target@,
            r.sender@ == msg.sender@,
            text::opt_text(r.thread_ts) == text::opt_text(msg.thread_ts),
            text::opt_text(r.interruption_scope_id) == text::opt_text(msg.interruption_scope_id),
    {
        MessageContext {
            channel: msg.channel.clone(),
            reply_target: msg.reply_target.clone(),
            sender: msg.sender.clone(),
            thread_ts: msg.thread_ts.clone(),
            interruption_scope_id: msg.interruption_scope_id.clone(),
        }
    }

    /// The scope of messages from here.
    pub open spec fn scope(&self) -> Seq<char> {
        scope_of(
            self.channel@,
            self.reply_target@,
            self.sender@,
            text::opt_text(self.interruption_scope_id),
        )
    }
}

/// The scope of a message.
pub open spec fn message_scope(msg: ChannelMessage) -> Seq<char> {
    scope_of(
        msg.channel@,
        msg.reply_target@,
        msg.sender@,
        text::opt_text(msg.interruption_scope_id),
    )
}

/// The text that names a scope: channel, reply target, sender and, inside a
/// thread, the thread.
pub open spec fn scope_of(
    channel: Seq<char>,
    reply_target: Seq<char>,
    sender: Seq<char>,
    thread: Option<Seq<char>>,
) -> Seq<char> {
    let base = channel + "_"@ + reply_target + "_"@ + sender;
    match thread {
        Some(scope) => base + "_"@ + scope,
        None => base,
    }
}

/// The text that names a scope.
pub fn scope_key(
    channel: &str,
    reply_target: &str,
    sender: &str,
    interruption_scope_id: Option<&str>,
) -> (r: String)
    ensures
        r@ == scope_of(channel@, reply_target@, sender@, text::opt_str(interruption_scope_id)),
{
    let mut key = channel.to_string();
    key.append("_");
    key.append(reply_target);
    key.append("_");
    key.append(sender);
    if let Some(scope) = interruption_scope_id {
        key.append("_");
        key.append(scope);
    }
    key
}

fn slice_of(s: &Option<String>) -> (r: Option<&str>)
    ensures
        text::opt_str(r) == text::opt_text(*s),
{
    match s {
        Some(t) => Some(t.as_str()),
        None => None,
    }
}

/// The scope of a message.
pub fn scope_key_for_message(msg: &ChannelMessage) -> (r: String)
    ensures
        r@ == message_scope(*msg),
{
    scope_key(
        msg.channel.as_str(),
        msg.reply_target.as_str(),
        msg.sender.as_str(),
        slice_of(&msg.interruption_scope_id),
    )
}

/// The scope of messages from a context.
pub fn scope_key_for_context(ctx: &MessageContext) -> (r: String)
    ensures
        r@ == ctx.scope(),
{
    scope_key(
        ctx.channel.as_str(),
        ctx.reply_target.as_str(),
        ctx.sender.as_str(),
        slice_of(&ctx.interruption_scope_id),
    )
}

// ── Waiters ─────────────────────────────────────────────────────────

/// The tools that wait for a reply, at most one per scope. A waiter is a `T`,
/// such as the sending half of a channel.
#[derive(Debug)]
pub struct WaiterRegistry<T> {
    waiters: TicketedSlots<T>,
}

impl<T> View for WaiterRegistry<T> {
    type V = Map<Seq<char>, (u64, T)>;

    closed spec fn view(&self) -> Map<Seq<char>, (u64, T)> {
        self.waiters@
    }
}

/// Belongs to a waiter. When its tool is done the guard goes back to the
/// registry, which then holds that waiter no longer.
#[derive(Debug)]
pub struct WaiterGuard {
    key: String,
    ticket: u64,
}

impl WaiterGuard {
    /// The scope of the waiter.
    pub closed spec fn scope(&self) -> Seq<char> {
        self.key@
    }

    /// The ticket of the waiter.
    pub closed spec fn ticket(&self) -> u64 {
        self.ticket
    }
}

impl<T> WaiterRegistry<T> {
    /// The ticket of the next waiter.
    pub closed spec fn next_ticket(&self) -> u64 {
        self.waiters.next_ticket()
    }

    /// Nobody waits.
    pub fn new() -> (r: Self)
        ensures
            r@ == Map::<Seq<char>, (u64, T)>::empty(),
            r.next_ticket() == 0,
    {
        WaiterRegistry { waiters: TicketedSlots::new() }
    }

    /// Whether a tool waits under this scope.
    pub fn contains_key(&self, key: &str) -> (r: bool)
        ensures
            r == self@.contains_key(key@),
    {
        self.waiters.contains_key(key)
    }

    /// Removes the waiter of a guard. A newer waiter of the same scope stays.
    pub fn release(&mut self, guard: &WaiterGuard)
        ensures
            final(self)@ == tickets::released(old(self)@, guard.scope(), guard.ticket()),
            final(self).next_ticket() == old(self).next_ticket(),
    {
        self.waiters.release(guard.key.as_str(), guard.ticket);
    }
}

/// Makes `waiter` wait for the next message of the scope `key`. Who waited there
/// before waits no longer.
pub fn register_waiter<T>(registry: &mut WaiterRegistry<T>, key: String, waiter: T) -> (r:
    WaiterGuard)
    ensures
        r.scope() == key@,
        r.ticket() == old(registry).next_ticket(),
        final(registry)@ == old(registry)@.insert(key@, (r.ticket(), waiter)),
        final(registry).next_ticket() == tickets::ticket_after(r.ticket()),
{
    let ticket = registry.waiters.insert(key.clone(), waiter);
    WaiterGuard { key, ticket }
}

/// Takes out the waiter that a message is for. The message belongs to it and
/// not to a new conversation.
pub fn try_route<T>(registry: &mut WaiterRegistry<T>, msg: &ChannelMessage) -> (r: Option<T>)
    ensures
        final(registry)@ == old(registry)@.remove(message_scope(*msg)),
        final(registry).next_ticket() == old(registry).next_ticket(),
        r == tickets::found(old(registry)@, message_scope(*msg)),
{
    let key = scope_key_for_message(msg);
    registry.waiters.remove(key.as_str())
}

// ── Laws ────────────────────────────────────────────────────────────

/// A reply lands in the scope of the message that is being worked on: both are
/// named alike where they agree on channel, reply target, sender and thread.
pub proof fn reply_lands_in_scope(ctx: MessageContext, msg: ChannelMessage)
    requires
        ctx.channel@ == msg.channel@,
        ctx.reply_target@ == msg.reply_target@,
        ctx.sender@ == msg.sender@,
        text::opt_text(ctx.interruption_scope_id) == text::opt_text(msg.interruption_scope_id),
    ensures
        ctx.scope() == message_scope(msg),
{
}

/// Threads are kept apart from each other and from what is outside of threads.
pub proof fn threads_are_apart(
    channel: Seq<char>,
    reply_target: Seq<char>,
    sender: Seq<char>,
    a: Option<Seq<char>>,
    b: Option<Seq<char>>,
)
    requires
        a != b,
    ensures
        scope_of(channel, reply_target, sender, a) != scope_of(channel, reply_target, sender, b),
{
    reveal_strlit("_");
    let base = channel + "_"@ + reply_target + "_"@ + sender;
    let x = scope_of(channel, reply_target, sender, a);
    let y = scope_of(channel, reply_target, sender, b);
    if x == y {
        match (a, b) {
            (Some(s), Some(t)) => {
                assert(x.skip((base.len() + 1) as int) =~= s);
                assert(y.skip((base.len() + 1) as int) =~= t);
            },
            (Some(s), None) => {
                assert(x.len() == base.len() + 1 + s.len());
            },
            (None, Some(t)) => {
                assert(y.len() == base.len() + 1 + t.len());
            },
            (None, None) => {},
        }
    }
}

/// A waiter gets the first message of its scope and no second one.
pub proof fn waiter_gets_one_message<T>(
    waiting: Map<Seq<char>, (u64, T)>,
    msg: ChannelMessage,
    ticket: u64,
    waiter: T,
)
    ensures
        ({
            let registered = waiting.insert(message_scope(msg), (ticket, waiter));
            &&& tickets::found(registered, message_scope(msg)) == Some(waiter)
            &&& tickets::found(
                registered.remove(message_scope(msg)),
                message_scope(msg),
            ) is None
        }),
{
}

/// Messages of other scopes pass by a waiter.
pub proof fn other_scopes_pass<T>(
    waiting: Map<Seq<char>, (u64, T)>,
    scope: Seq<char>,
    msg: ChannelMessage,
)
    requires
        message_scope(msg) != scope,
    ensures
        tickets::found(waiting.remove(message_scope(msg)), scope) == tickets::found(waiting, scope),
{
}

/// When a tool is done nothing of its waiting is left.
pub proof fn released_waiter_is_gone<T>(
    waiting: Map<Seq<char>, (u64, T)>,
    scope: Seq<char>,
    ticket: u64,
    waiter: T,
)
    ensures
        ({
            let left = tickets::released(
                waiting.insert(scope, (ticket, waiter)),
                scope,
                ticket,
            );
            &&& !left.contains_key(scope)
            &&& !waiting.contains_key(scope) ==> left == waiting
        }),
{
    tickets::owner_takes_its_value(waiting, scope, ticket, waiter);
}

/// A tool that is done leaves a newer waiter of the same scope waiting: the newer
/// one is `n` tickets younger.
pub proof fn newer_waiter_stays<T>(
    waiting: Map<Seq<char>, (u64, T)>,
    scope: Seq<char>,
    ticket: u64,
    n: nat,
    newer: T,
)
    requires
        0 < n <= u64::MAX,
    ensures
        ({
            let both = waiting.insert(scope, (tickets::nth_ticket(ticket, n), newer));
            tickets::released(both, scope, ticket) == both
        }),
{
    tickets::older_owner_leaves_newer(waiting, scope, ticket, n, newer);
}

/// Senders, reply targets and channels are kept apart: messages that differ in one of
/// them and in nothing else have different scopes.
pub proof fn senders_are_apart(
    channel: Seq<char>,
    reply_target: Seq<char>,
    a: Seq<char>,
    b: Seq<char>,
    thread: Option<Seq<char>>,
)
    requires
        a != b,
    ensures
        scope_of(channel, reply_target, a, thread) != scope_of(channel, reply_target, b, thread),
        scope_of(channel, a, reply_target, thread) != scope_of(channel, b, reply_target, thread),
        scope_of(a, channel, reply_target, thread) != scope_of(b, channel, reply_target, thread),
{
    let tail = match thread {
        Some(scope) => "_"@ + scope,
        None => Seq::empty(),
    };
    let front = channel + "_"@ + reply_target + "_"@;
    middle_tells(front, a, b, tail);
    assert(scope_of(channel, reply_target, a, thread) =~= front + a + tail);
    assert(scope_of(channel, reply_target, b, thread) =~= front + b + tail);
    let front = channel + "_"@;
    let back = "_"@ + reply_target + tail;
    middle_tells(front, a, b, back);
    assert(scope_of(channel, a, reply_target, thread) =~= front + a + back);
    assert(scope_of(channel, b, reply_target, thread) =~= front + b + back);
    let front = Seq::<char>::empty();
    let back = "_"@ + channel + "_"@ + reply_target + tail;
    middle_tells(front, a, b, back);
    assert(scope_of(a, channel, reply_target, thread) =~= front + a + back);
    assert(scope_of(b, channel, reply_target, thread) =~= front + b + back);
}

proof fn middle_tells(front: Seq<char>, a: Seq<char>, b: Seq<char>, back: Seq<char>)
    requires
        a != b,
    ensures
        front + a + back != front + b + back,
{
    let x = front + a + back;
    let y = front + b + back;
    if x == y {
        assert(x.len() == y.len());
        let from = front.len() as int;
        assert(x.subrange(from, from + a.len()) =~= a);
        assert(y.subrange(from, from + b.len()) =~= b);
    }
}

/// Messages have different scopes where they differ in their thread, their sender,
/// their reply target or their channel and in nothing else of these.
pub proof fn messages_are_kept_apart(a: ChannelMessage, b: ChannelMessage)
    ensures
        ({
            let thread = text::opt_text(a.interruption_scope_id) == text::opt_text(
                b.interruption_scope_id,
            );
            let sender = a.sender@ == b.sender@;
            let target = a.reply_target@ == b.reply_target@;
            let channel = a.channel@ == b.channel@;
            &&& !thread && sender && target && channel ==> message_scope(a) != message_scope(b)
            &&& thread && !sender && target && channel ==> message_scope(a) != message_scope(b)
            &&& thread && sender && !target && channel ==> message_scope(a) != message_scope(b)
            &&& thread && sender && target && !channel ==> message_scope(a) != message_scope(b)
            &&& thread && sender && target && channel ==> message_scope(a) == message_scope(b)
        }),
{
    let thread = text::opt_text(a.interruption_scope_id);
    let other = text::opt_text(b.interruption_scope_id);
    if thread != other {
        threads_are_apart(a.channel@, a.reply_target@, a.sender@, thread, other);
    }
    if a.sender@ != b.sender@ {
        senders_are_apart(a.channel@, a.reply_target@, a.sender@, b.sender@, thread);
    }
    if a.reply_target@ != b.reply_target@ {
        senders_are_apart(a.channel@, a.sender@, a.reply_target@, b.reply_target@, thread);
    }
    if a.channel@ != b.channel@ {
        senders_are_apart(a.reply_target@, a.sender@, a.channel@, b.channel@, thread);
    }
}

/// A scope names its parts in order: channel, reply target, sender and thread, with
/// an underscore between them.
pub proof fn scope_names_its_parts(
    channel: Seq<char>,
    reply_target: Seq<char>,
    sender: Seq<char>,
    thread: Seq<char>,
)
    ensures
        scope_of(channel, reply_target, sender, None) == text::join_spec(
            seq![channel, reply_target, sender],
            "_"@,
        ),
        scope_of(channel, reply_target, sender, Some(thread)) == text::join_spec(
            seq![channel, reply_target, sender, thread],
            "_"@,
        ),
{
    let one = seq![channel];
    let two = one + seq![reply_target];
    let three = two + seq![sender];
    let four = three + seq![thread];
    text::join_concat(one, seq![reply_target], "_"@);
    text::join_concat(two, seq![sender], "_"@);
    text::join_concat(three, seq![thread], "_"@);
    text::join_concat(seq![reply_target], Seq::empty(), "_"@);
    text::join_concat(seq![sender], Seq::empty(), "_"@);
    text::join_concat(seq![thread], Seq::empty(), "_"@);
    assert(three =~= seq![channel, reply_target, sender]);
    assert(four =~= seq![channel, reply_target, sender, thread]);
}

} // verus!
