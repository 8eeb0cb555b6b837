//! Messages of channels, interception of replies and routing to waiting tools.

use mentat::agent::pending_response::{
    register_waiter, scope_key, scope_key_for_context, scope_key_for_message, try_route,
    MessageContext, WaiterRegistry,
};
use mentat::channels::traits::{
    ChannelMessage, InboxInterceptor, NextReply, ReplyOutcome, SendMessage,
};
use tokio_util::sync::CancellationToken;

fn make_msg(channel: &str, reply_target: &str, sender: &str) -> ChannelMessage {
    ChannelMessage {
        id: "id".into(),
        sender: sender.into(),
        reply_target: reply_target.into(),
        content: "hi".into(),
        channel: channel.into(),
        timestamp: 1,
        thread_ts: None,
        interruption_scope_id: None,
        attachments: vec![],
    }
}

// ── Messages ─────────────────────────────────────────────────────────

#[test]
fn channel_message_clone_preserves_fields() {
    let message = ChannelMessage {
        id: "42".into(),
        sender: "alice".into(),
        reply_target: "alice".into(),
        content: "ping".into(),
        channel: "dummy".into(),
        timestamp: 999,
        thread_ts: None,
        interruption_scope_id: None,
        attachments: vec![],
    };

    let cloned = message.clone();
    assert_eq!(cloned.id, "42");
    assert_eq!(cloned.sender, "alice");
    assert_eq!(cloned.reply_target, "alice");
    assert_eq!(cloned.content, "ping");
    assert_eq!(cloned.channel, "dummy");
    assert_eq!(cloned.timestamp, 999);
}

#[test]
fn send_message_is_built_up() {
    let plain = SendMessage::new("hello".into(), "bob".into());
    assert_eq!(plain.content, "hello");
    assert_eq!(plain.recipient, "bob");
    assert!(plain.subject.is_none());
    assert!(plain.thread_ts.is_none());
    assert!(plain.cancellation_token.is_none());

    let full = SendMessage::with_subject("hello".into(), "bob".into(), "news".into())
        .in_thread(Some("t1".into()));
    assert_eq!(full.content, "hello");
    assert_eq!(full.subject.as_deref(), Some("news"));
    assert_eq!(full.thread_ts.as_deref(), Some("t1"));
    assert!(full.in_thread(None).thread_ts.is_none());
}

#[test]
fn cancellation_token_is_the_given_one() {
    let token = CancellationToken::new();
    let message = SendMessage::new("hello".into(), "bob".into()).with_cancellation(token.clone());
    let carried = message.cancellation_token.expect("a token");
    assert!(!carried.is_cancelled());
    token.cancel();
    assert!(carried.is_cancelled());
}

// ── Interception ─────────────────────────────────────────────────────

#[test]
fn inbox_interceptor_cleans_up_on_caller_cancel() {
    let mut interceptor: InboxInterceptor<u32> = InboxInterceptor::new();
    let ticket = interceptor.register("dropped", 1);
    assert!(!interceptor.is_empty(), "intercept should be registered");
    interceptor.cancel("dropped", ticket);
    assert!(
        interceptor.is_empty(),
        "cancellation must remove the orphaned intercept"
    );
}

#[test]
fn inbox_interceptor_received_clears_entry() {
    let mut interceptor: InboxInterceptor<u32> = InboxInterceptor::new();
    let ticket = interceptor.register("k", 7);
    assert_eq!(interceptor.take("k"), Some(7));
    let msg = make_msg("test", "k", "u");
    let reply = interceptor.await_reply("k", ticket, ReplyOutcome::Received(msg));
    assert!(matches!(reply, NextReply::Received(_)));
    assert!(interceptor.is_empty());
}

#[test]
fn ended_waits_leave_nothing_behind() {
    let mut interceptor: InboxInterceptor<u32> = InboxInterceptor::new();
    let first = interceptor.register("k", 7);
    let reply = interceptor.await_reply("k", first, ReplyOutcome::TimedOut);
    assert!(matches!(reply, NextReply::Timeout));
    assert!(interceptor.is_empty());

    let second = interceptor.register("k", 8);
    let reply = interceptor.await_reply("k", second, ReplyOutcome::Closed);
    assert!(matches!(reply, NextReply::Timeout));
    assert!(interceptor.take("k").is_none());
}

#[test]
fn older_wait_leaves_the_newer_one() {
    let mut interceptor: InboxInterceptor<u32> = InboxInterceptor::new();
    let a = interceptor.register("k", 1);
    let b = interceptor.register("k", 2);
    assert_ne!(a, b);
    let reply = interceptor.await_reply("k", a, ReplyOutcome::TimedOut);
    assert!(matches!(reply, NextReply::Timeout));
    interceptor.cancel("k", a);
    assert_eq!(interceptor.take("k"), Some(2));
    let msg = make_msg("test", "k", "u");
    let reply = interceptor.await_reply("k", b, ReplyOutcome::Received(msg));
    assert!(matches!(reply, NextReply::Received(_)));
    assert!(interceptor.is_empty());
}

#[test]
fn late_cancel_of_an_answered_wait_keeps_the_next_one() {
    let mut interceptor: InboxInterceptor<u32> = InboxInterceptor::new();
    let answered = interceptor.register("k", 1);
    assert_eq!(interceptor.take("k"), Some(1));
    let next = interceptor.register("k", 2);
    interceptor.cancel("k", answered);
    assert!(!interceptor.is_empty());
    interceptor.cancel("k", next);
    assert!(interceptor.is_empty());
}

#[test]
fn taker_is_taken_once_and_replaced_by_a_newer_one() {
    let mut interceptor: InboxInterceptor<u32> = InboxInterceptor::new();
    let _ = interceptor.register("k", 1);
    let _ = interceptor.register("other", 3);
    let _ = interceptor.register("k", 2);
    assert_eq!(interceptor.take("k"), Some(2));
    assert_eq!(interceptor.take("k"), None);
    assert_eq!(interceptor.take("other"), Some(3));
    assert!(interceptor.is_empty());
}

#[test]
fn ending_one_wait_keeps_the_others() {
    let mut interceptor: InboxInterceptor<u32> = InboxInterceptor::new();
    let a = interceptor.register("a", 1);
    let _ = interceptor.register("b", 2);
    let _ = interceptor.await_reply("a", a, ReplyOutcome::TimedOut);
    assert!(!interceptor.is_empty());
    assert_eq!(interceptor.take("b"), Some(2));
}

// ── Scopes ───────────────────────────────────────────────────────────

#[test]
fn scope_key_matches_interruption_format() {
    assert_eq!(scope_key("slack", "C1", "U1", None), "slack_C1_U1");
    assert_eq!(scope_key("slack", "C1", "U1", Some("ts")), "slack_C1_U1_ts");
}

#[test]
fn reply_lands_in_the_scope_of_its_context() {
    let mut msg = make_msg("slack", "C1", "U1");
    msg.interruption_scope_id = Some("ts".into());
    msg.thread_ts = Some("anchor".into());
    let ctx = MessageContext::from_message(&msg);
    assert_eq!(ctx.channel, "slack");
    assert_eq!(ctx.reply_target, "C1");
    assert_eq!(ctx.sender, "U1");
    assert_eq!(ctx.thread_ts.as_deref(), Some("anchor"));
    assert_eq!(ctx.interruption_scope_id.as_deref(), Some("ts"));
    assert_eq!(scope_key_for_context(&ctx), "slack_C1_U1_ts");
    assert_eq!(scope_key_for_message(&msg), scope_key_for_context(&ctx));
}

#[test]
fn threads_have_scopes_of_their_own() {
    let inside = scope_key("slack", "C1", "U1", Some("t1"));
    let elsewhere = scope_key("slack", "C1", "U1", Some("t2"));
    let outside = scope_key("slack", "C1", "U1", None);
    let blank = scope_key("slack", "C1", "U1", Some(""));
    assert_ne!(inside, elsewhere);
    assert_ne!(inside, outside);
    assert_eq!(blank, "slack_C1_U1_");
    assert_ne!(blank, outside);
}

// ── Waiters ──────────────────────────────────────────────────────────

#[test]
fn try_route_forwards_to_registered_waiter() {
    let mut registry: WaiterRegistry<&str> = WaiterRegistry::new();
    let msg = make_msg("slack", "DABC", "Ualice");
    let key = scope_key_for_message(&msg);
    let _guard = register_waiter(&mut registry, key, "alice's tool");

    assert_eq!(try_route(&mut registry, &msg), Some("alice's tool"));
}

#[test]
fn try_route_returns_false_without_waiter() {
    let mut registry: WaiterRegistry<&str> = WaiterRegistry::new();
    let msg = make_msg("slack", "DZZZ", "Uunknown");
    assert!(try_route(&mut registry, &msg).is_none());
}

#[test]
fn drop_guard_removes_waiter() {
    let mut registry: WaiterRegistry<&str> = WaiterRegistry::new();
    let msg = make_msg("slack", "DGUARD", "Uguard");
    let key = scope_key_for_message(&msg);
    let guard = register_waiter(&mut registry, key.clone(), "tool");
    assert!(registry.contains_key(&key));
    registry.release(&guard);
    assert!(!registry.contains_key(&key));
}

#[test]
fn try_route_only_delivers_first_message() {
    let mut registry: WaiterRegistry<&str> = WaiterRegistry::new();
    let msg = make_msg("slack", "DONCE", "Uonce");
    let key = scope_key_for_message(&msg);
    let _guard = register_waiter(&mut registry, key.clone(), "tool");

    assert!(try_route(&mut registry, &msg).is_some());
    assert!(try_route(&mut registry, &msg).is_none());
    assert!(!registry.contains_key(&key));
}

#[test]
fn messages_of_other_scopes_pass_a_waiter() {
    let mut registry: WaiterRegistry<&str> = WaiterRegistry::new();
    let waiting = make_msg("slack", "D1", "U1");
    let passing = make_msg("slack", "D1", "U2");
    let key = scope_key_for_message(&waiting);
    let _guard = register_waiter(&mut registry, key.clone(), "tool");
    assert!(try_route(&mut registry, &passing).is_none());
    assert!(registry.contains_key(&key));
}

#[test]
fn newer_waiter_replaces_the_older_one() {
    let mut registry: WaiterRegistry<&str> = WaiterRegistry::new();
    let msg = make_msg("slack", "D1", "U1");
    let key = scope_key_for_message(&msg);
    let _old = register_waiter(&mut registry, key.clone(), "old");
    let _new = register_waiter(&mut registry, key, "new");
    assert_eq!(try_route(&mut registry, &msg), Some("new"));
    assert!(try_route(&mut registry, &msg).is_none());
}

#[test]
fn finished_tool_leaves_a_newer_waiter() {
    let mut registry: WaiterRegistry<&str> = WaiterRegistry::new();
    let msg = make_msg("slack", "D1", "U1");
    let key = scope_key_for_message(&msg);
    let old = register_waiter(&mut registry, key.clone(), "old");
    let new = register_waiter(&mut registry, key.clone(), "new");
    registry.release(&old);
    assert!(registry.contains_key(&key));
    registry.release(&new);
    assert!(!registry.contains_key(&key));
}
