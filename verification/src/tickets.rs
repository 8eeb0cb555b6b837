//! Values kept under texts, each with a ticket that tells it apart from the
//! values that were kept there before.

use crate::slots::Slots;
use vstd::prelude::*;

verus! {

/// The ticket that is given out after `ticket`. Tickets start over at zero when
/// there are no more.
pub open spec fn ticket_after(ticket: u64) -> u64 {
    if ticket == u64::MAX {
        0
    } else {
        (ticket + 1) as u64
    }
}

/// The ticket that is given out `n` tickets after `ticket`.
pub open spec fn nth_ticket(ticket: u64, n: nat) -> u64
    decreases n,
{
    if n == 0 {
        ticket
    } else {
        ticket_after(nth_ticket(ticket, (n - 1) as nat))
    }
}

/// What is kept under `key` was kept with this ticket.
pub open spec fn owns<T>(kept: Map<Seq<char>, (u64, T)>, key: Seq<char>, ticket: u64) -> bool {
    kept.contains_key(key) && kept[key].0 == ticket
}

/// What is kept after the owner of a ticket has let go: its own value goes, that
/// of a newer owner stays.
pub open spec fn released<T>(kept: Map<Seq<char>, (u64, T)>, key: Seq<char>, ticket: u64) -> Map<
    Seq<char>,
    (u64, T),
> {
    if owns(kept, key, ticket) {
        kept.remove(key)
    } else {
        kept
    }
}

/// What is found under `key`.
pub open spec fn found<T>(kept: Map<Seq<char>, (u64, T)>, key: Seq<char>) -> Option<T> {
    if kept.contains_key(key) {
        Some(kept[key].1)
    } else {
        None
    }
}

/// Values kept under texts, one per text, each with its ticket.
#[derive(Debug)]
pub struct TicketedSlots<T> {
    slots: Slots<(u64, T)>,
    next: u64,
}

impl<T> View for TicketedSlots<T> {
    type V = Map<Seq<char>, (u64, T)>;

    closed spec fn view(&self) -> Map<Seq<char>, (u64, T)> {
        self.slots@
    }
}

impl<T> TicketedSlots<T> {
    /// The ticket that is given out next.
    pub closed spec fn next_ticket(&self) -> u64 {
        self.next
    }

    /// Nothing is kept.
    pub fn new() -> (r: Self)
        ensures
            r@ == Map::<Seq<char>, (u64, T)>::empty(),
            r.next_ticket() == 0,
    {
        TicketedSlots { slots: Slots::new(), next: 0 }
    }

    /// Keeps `value` under `key` and gives its ticket; what was kept there before
    /// goes.
    pub fn insert(&mut self, key: String, value: T) -> (r: u64)
        ensures
            r == old(self).next_ticket(),
            final(self)@ == old(self)@.insert(key@, (r, value)),
            final(self).next_ticket() == ticket_after(r),
    {
        let ticket = self.next;
        self.next = if ticket == u64::MAX {
            0
        } else {
            ticket + 1
        };
        self.slots.insert(key, (ticket, value));
        ticket
    }

    /// Takes out what is kept under `key`, whatever its ticket.
    pub fn remove(&mut self, key: &str) -> (r: Option<T>)
        ensures
            final(self)@ == old(self)@.remove(key@),
            final(self).next_ticket() == old(self).next_ticket(),
            r == found(old(self)@, key@),
    {
        match self.slots.remove(key) {
            Some((_, value)) => Some(value),
            None => None,
        }
    }

    /// Lets go of what was kept under `key` with this ticket. A newer value stays.
    pub fn release(&mut self, key: &str, ticket: u64)
        ensures
            final(self)@ == released(old(self)@, key@, ticket),
            final(self).next_ticket() == old(self).next_ticket(),
    {
        let own = match self.slots.get(key) {
            Some(entry) => entry.0 == ticket,
            None => false,
        };
        if own {
            let _ = self.slots.remove(key);
        }
    }

    /// Whether something is kept under `key`.
    pub fn contains_key(&self, key: &str) -> (r: bool)
        ensures
            r == self@.contains_key(key@),
    {
        self.slots.contains_key(key)
    }

    /// Whether nothing is kept.
    pub fn is_empty(&self) -> (r: bool)
        ensures
            r == (self@ == Map::<Seq<char>, (u64, T)>::empty()),
    {
        self.slots.is_empty()
    }
}

// ── Laws ────────────────────────────────────────────────────────────

/// A ticket is not given out again before all others were.
pub proof fn tickets_differ(ticket: u64, n: nat)
    requires
        0 < n <= u64::MAX,
    ensures
        nth_ticket(ticket, n) != ticket,
{
    nth_ticket_is_sum(ticket, n);
}

proof fn nth_ticket_is_sum(ticket: u64, n: nat)
    requires
        n <= u64::MAX,
    ensures
        nth_ticket(ticket, n) == (if ticket + n <= u64::MAX {
            ticket + n
        } else {
            ticket + n - u64::MAX - 1
        }),
    decreases n,
{
    if n > 0 {
        nth_ticket_is_sum(ticket, (n - 1) as nat);
    }
}

/// Whoever lets go of an older value leaves the newer one in its place: the values
/// were kept `n` tickets apart.
pub proof fn older_owner_leaves_newer<T>(
    kept: Map<Seq<char>, (u64, T)>,
    key: Seq<char>,
    ticket: u64,
    n: nat,
    newer: T,
)
    requires
        0 < n <= u64::MAX,
    ensures
        ({
            let both = kept.insert(key, (nth_ticket(ticket, n), newer));
            released(both, key, ticket) == both
        }),
{
    tickets_differ(ticket, n);
}

/// The owner of a value that is still kept takes it along; where nothing was kept
/// before, all is as it was.
pub proof fn owner_takes_its_value<T>(
    kept: Map<Seq<char>, (u64, T)>,
    key: Seq<char>,
    ticket: u64,
    value: T,
)
    ensures
        !released(kept.insert(key, (ticket, value)), key, ticket).contains_key(key),
        !kept.contains_key(key) ==> released(kept.insert(key, (ticket, value)), key, ticket) == kept,
{
    if !kept.contains_key(key) {
        assert(kept.insert(key, (ticket, value)).remove(key) =~= kept);
    }
}

/// Letting go under one text leaves what is kept under others.
pub proof fn other_keys_stay<T>(
    kept: Map<Seq<char>, (u64, T)>,
    key: Seq<char>,
    ticket: u64,
    other: Seq<char>,
)
    requires
        other != key,
    ensures
        found(released(kept, key, ticket), other) == found(kept, other),
        found(kept.remove(key), other) == found(kept, other),
{
}

} // verus!
