//! Per-connection session state: the write-once join and subscription
//! records, the stored subscriber offer, and the FIR sequence counter.

use vstd::prelude::*;

use crate::messages::{RoomId, Subscription, UserId};

verus! {

/// Once it joins a room, every session is classified as either a publisher
/// or a subscriber.
#[derive(Debug, Clone, Copy, PartialEq, Eq, Structural)]
pub enum JoinKind {
    Publisher,
    Subscriber,
}

/// State pertaining to a session that has joined a room.
#[derive(Debug, Clone, PartialEq, Eq)]
pub struct JoinState {
    /// Whether this session is a publisher or a subscriber.
    pub kind: JoinKind,

    /// The room this session is in.
    pub room_id: RoomId,

    /// The user this session belongs to.
    pub user_id: UserId,
}

impl JoinState {
    pub fn new(kind: JoinKind, room_id: RoomId, user_id: UserId) -> (r: Self)
        ensures
            r.kind == kind,
            r.room_id == room_id,
            r.user_id == user_id,
    {
        Self { kind, room_id, user_id }
    }
}

/// The state associated with a single connection. The join state and the
/// subscription are write-once: the first value stored in each is the value
/// the session keeps for its whole life.
#[derive(Debug)]
pub struct SessionState {
    destroyed: bool,
    fir_seq: u64,
    join_state: Option<JoinState>,
    subscription: Option<Subscription>,
    subscriber_offer: Option<String>,
}

impl SessionState {
    pub closed spec fn spec_destroyed(self) -> bool {
        self.destroyed
    }

    pub closed spec fn spec_fir_seq(self) -> u64 {
        self.fir_seq
    }

    pub closed spec fn spec_join_state(self) -> Option<JoinState> {
        self.join_state
    }

    pub closed spec fn spec_subscription(self) -> Option<Subscription> {
        self.subscription
    }

    pub closed spec fn spec_subscriber_offer(self) -> Option<String> {
        self.subscriber_offer
    }

    /// A fresh session: not destroyed, nothing joined, nothing subscribed,
    /// no stored offer, FIR sequence at zero.
    pub fn new() -> (r: Self)
        ensures
            !r.spec_destroyed(),
            r.spec_fir_seq() == 0,
            r.spec_join_state() is None,
            r.spec_subscription() is None,
            r.spec_subscriber_offer() is None,
    {
        Self {
            destroyed: false,
            fir_seq: 0,
            join_state: None,
            subscription: None,
            subscriber_offer: None,
        }
    }

    pub fn is_destroyed(&self) -> (r: bool)
        ensures
            r == self.spec_destroyed(),
    {
        self.destroyed
    }

    /// Marks the session destroyed. Destruction is terminal: nothing ever
    /// clears the flag again.
    pub fn set_destroyed(&mut self)
        ensures
            final(self).spec_destroyed(),
            final(self).spec_fir_seq() == old(self).spec_fir_seq(),
            final(self).spec_join_state() == old(self).spec_join_state(),
            final(self).spec_subscription() == old(self).spec_subscription(),
            final(self).spec_subscriber_offer() == old(self).spec_subscriber_offer(),
    {
        self.destroyed = true;
    }

    pub fn join_state(&self) -> (r: &Option<JoinState>)
        ensures
            *r == self.spec_join_state(),
    {
        &self.join_state
    }

    /// Stores the join state, exactly once. A second attempt fails, hands
    /// the rejected value back, and leaves the stored value untouched.
    pub fn set_join_state(&mut self, js: JoinState) -> (r: Result<(), JoinState>)
        ensures
            old(self).spec_join_state() is None ==> {
                &&& r is Ok
                &&& final(self).spec_join_state() == Some(js)
            },
            old(self).spec_join_state() is Some ==> {
                &&& r == Err::<(), JoinState>(js)
                &&& *final(self) == *old(self)
            },
            final(self).spec_destroyed() == old(self).spec_destroyed(),
            final(self).spec_fir_seq() == old(self).spec_fir_seq(),
            final(self).spec_subscription() == old(self).spec_subscription(),
            final(self).spec_subscriber_offer() == old(self).spec_subscriber_offer(),
    {
        match self.join_state {
            None => {
                self.join_state = Some(js);
                Ok(())
            },
            Some(_) => Err(js),
        }
    }

    pub fn subscription(&self) -> (r: &Option<Subscription>)
        ensures
            *r == self.spec_subscription(),
    {
        &self.subscription
    }

    /// Stores the subscription, exactly once. A second attempt fails, hands
    /// the rejected value back, and leaves the stored value untouched.
    pub fn set_subscription(&mut self, what: Subscription) -> (r: Result<(), Subscription>)
        ensures
            old(self).spec_subscription() is None ==> {
                &&& r is Ok
                &&& final(self).spec_subscription() == Some(what)
            },
            old(self).spec_subscription() is Some ==> {
                &&& r == Err::<(), Subscription>(what)
                &&& *final(self) == *old(self)
            },
            final(self).spec_destroyed() == old(self).spec_destroyed(),
            final(self).spec_fir_seq() == old(self).spec_fir_seq(),
            final(self).spec_join_state() == old(self).spec_join_state(),
            final(self).spec_subscriber_offer() == old(self).spec_subscriber_offer(),
    {
        match self.subscription {
            None => {
                self.subscription = Some(what);
                Ok(())
            },
            Some(_) => Err(what),
        }
    }

    pub fn subscriber_offer(&self) -> (r: &Option<String>)
        ensures
            *r == self.spec_subscriber_offer(),
    {
        &self.subscriber_offer
    }

    /// Stores the canonical offer that future subscribers to this session
    /// will be sent. A later offer replaces the stored one.
    pub fn set_subscriber_offer(&mut self, sdp: String)
        ensures
            final(self).spec_subscriber_offer() == Some(sdp),
            final(self).spec_destroyed() == old(self).spec_destroyed(),
            final(self).spec_fir_seq() == old(self).spec_fir_seq(),
            final(self).spec_join_state() == old(self).spec_join_state(),
            final(self).spec_subscription() == old(self).spec_subscription(),
    {
        self.subscriber_offer = Some(sdp);
    }

    /// Hands out the next FIR sequence number: returns the current value
    /// and advances the counter, wrapping at the largest value.
    pub fn next_fir_seq(&mut self) -> (r: u64)
        ensures
            r == old(self).spec_fir_seq(),
            old(self).spec_fir_seq() == u64::MAX ==> final(self).spec_fir_seq() == 0,
            old(self).spec_fir_seq() != u64::MAX ==> final(self).spec_fir_seq() == old(
                self,
            ).spec_fir_seq() + 1,
            final(self).spec_destroyed() == old(self).spec_destroyed(),
            final(self).spec_join_state() == old(self).spec_join_state(),
            final(self).spec_subscription() == old(self).spec_subscription(),
            final(self).spec_subscriber_offer() == old(self).spec_subscriber_offer(),
    {
        let r = self.fir_seq;
        self.fir_seq = if self.fir_seq == u64::MAX {
            0
        } else {
            self.fir_seq + 1
        };
        r
    }
}

/// Duplicates a join state; the copy equals the original.
pub fn clone_join_state(js: &JoinState) -> (r: JoinState)
    ensures
        r == *js,
{
    JoinState { kind: js.kind, room_id: js.room_id.clone(), user_id: js.user_id.clone() }
}

/// Duplicates a subscription; the copy equals the original.
pub fn clone_subscription(w: &Subscription) -> (r: Subscription)
    ensures
        r == *w,
{
    Subscription {
        notifications: w.notifications,
        data: w.data,
        media: match &w.media {
            None => None,
            Some(u) => Some(u.clone()),
        },
    }
}

/// Duplicates an optional string; the copy equals the original.
pub fn clone_opt_string(o: &Option<String>) -> (r: Option<String>)
    ensures
        r == *o,
{
    match o {
        None => None,
        Some(s) => Some(s.clone()),
    }
}

/// A single connection: the handle the gateway knows it by, plus its state.
#[derive(Debug)]
pub struct Session {
    /// The opaque handle identity the gateway supplied for this connection.
    pub handle: u64,

    /// The connection's signalling state.
    pub state: SessionState,
}

impl Session {
    /// A fresh session for the given gateway handle.
    pub fn new(handle: u64) -> (r: Self)
        ensures
            r.handle == handle,
            !r.state.spec_destroyed(),
            r.state.spec_fir_seq() == 0,
            r.state.spec_join_state() is None,
            r.state.spec_subscription() is None,
            r.state.spec_subscriber_offer() is None,
    {
        Self { handle, state: SessionState::new() }
    }
}

} // verus!
