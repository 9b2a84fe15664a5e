//! What every pallet has from the system: the origin of a call and the log of events.

use vstd::prelude::*;

use crate::currency::AccountId;

verus! {

/// Who a call comes from.
#[derive(Clone, Copy, Debug, PartialEq, Eq, Structural)]
pub enum Origin {
    /// The runtime itself, with every permission.
    Root,
    /// A transaction signed by an account.
    Signed(AccountId),
    /// An unsigned transaction.
    Unsigned,
}

/// The account that signed the call, if it was signed.
pub open spec fn signer_of(origin: Origin) -> Option<AccountId> {
    match origin {
        Origin::Signed(who) => Some(who),
        _ => None,
    }
}

/// The account that signed the call, or `None` for any other origin.
pub fn ensure_signed(origin: Origin) -> (r: Option<AccountId>)
    ensures
        r == signer_of(origin),
{
    match origin {
        Origin::Signed(who) => Some(who),
        _ => None,
    }
}

/// Whether `o` passes a check for the origin `rule`: root always does.
pub open spec fn allows(rule: Origin, o: Origin) -> bool {
    o == Origin::Root || o == rule
}

/// Whether `o` passes a check for the origin `rule`.
pub fn origin_allowed(rule: Origin, o: Origin) -> (r: bool)
    ensures
        r == allows(rule, o),
{
    o == Origin::Root || o == rule
}

/// Events that can be compared for equality.
pub trait EventEq: Sized {
    fn event_eq(&self, other: &Self) -> (r: bool)
        ensures
            r == (*self == *other),
    ;
}

/// The last `n` events of `events`, or all of them if there are fewer.
pub open spec fn last_n<E>(events: Seq<E>, n: int) -> Seq<E> {
    if n >= events.len() { events } else { events.subrange(events.len() - n, events.len() as int) }
}

/// The last `n` events of `events`, in the order they were deposited.
pub fn last_events<E: Copy>(events: &Vec<E>, n: usize) -> (r: Vec<E>)
    ensures
        r@ == last_n(events@, n as int),
{
    let len = events.len();
    let start = if n >= len { 0 } else { len - n };
    let mut r: Vec<E> = Vec::new();
    let mut i = start;
    while i < len
        invariant
            start <= i <= len,
            len == events@.len(),
            r@ == events@.subrange(start as int, i as int),
        decreases len - i,
    {
        r.push(events[i]);
        proof {
            assert(events@.subrange(start as int, i + 1) =~= events@.subrange(start as int, i as int).push(events@[i as int]));
        }
        i = i + 1;
    }
    assert(last_n(events@, n as int) =~= events@.subrange(start as int, len as int));
    r
}

/// Whether the last events of `events` are `expected`, in this order.
pub fn expect_events<E: Copy + EventEq>(events: &Vec<E>, expected: &Vec<E>) -> (r: bool)
    ensures
        r == (last_n(events@, expected@.len() as int) == expected@),
{
    let last = last_events(events, expected.len());
    if last.len() != expected.len() {
        return false;
    }
    let n = last.len();
    let mut i: usize = 0;
    while i < n
        invariant
            n == last@.len(),
            n == expected@.len(),
            last@ == last_n(events@, expected@.len() as int),
            i <= n,
            forall|j: int| 0 <= j < i ==> last@[j] == expected@[j],
        decreases n - i,
    {
        if !last[i].event_eq(&expected[i]) {
            assert(last@[i as int] != expected@[i as int]);
            return false;
        }
        i = i + 1;
    }
    assert(last@ =~= expected@);
    true
}

} // verus!
