//! Types for the signalling messages that clients send.

use vstd::prelude::*;

verus! {

/// A room ID naming a multicast room.
pub type RoomId = String;

/// A user ID naming a single client. Used to correlate multiple connections
/// back to the same conceptual user for managing subscriptions.
pub type UserId = String;

/// A message field which may or may not be present. An empty payload parses
/// as `Absent`; anything else must parse as a `T`.
#[derive(Debug, Clone, PartialEq, Eq)]
pub enum OptionalField<T> {
    Present(T),
    Absent,
}

impl<T> OptionalField<T> {
    /// Collapses the field into a plain `Option`.
    pub fn into_option(self) -> (r: Option<T>)
        ensures
            self matches OptionalField::Present(t) ==> r == Some(t),
            self is Absent ==> r is None,
    {
        match self {
            OptionalField::Present(x) => Some(x),
            OptionalField::Absent => None,
        }
    }
}

/// Which traffic a client wants pushed to it.
#[derive(Debug, Clone, PartialEq, Eq)]
pub struct Subscription {
    /// Whether to receive notifications (user joins and leaves, blocks).
    pub notifications: bool,

    /// Whether to receive data-channel traffic in the joined room.
    pub data: bool,

    /// If set, receive media (audio and video) from this particular user.
    pub media: Option<UserId>,
}

impl Default for Subscription {
    /// The subscription carrying nothing at all.
    fn default() -> (r: Self)
        ensures
            !r.notifications,
            !r.data,
            r.media is None,
    {
        Subscription { notifications: false, data: false, media: None }
    }
}

/// A signalling message carrying a JSEP SDP offer or answer. The SDP text
/// itself is opaque to the routing core.
#[derive(Debug, Clone, PartialEq, Eq)]
pub enum JsepKind {
    /// An offer to establish a connection.
    Offer { sdp: String },
    /// An answer responding to an offer.
    Answer { sdp: String },
}

/// The non-JSEP signalling messages a client can send.
#[derive(Debug, Clone, PartialEq, Eq)]
pub enum MessageKind {
    /// Join a room on the server. Prior to this, no audio, video, or data
    /// received from the client is forwarded to anyone. The `subscribe`
    /// field, if present, also establishes this client's subscription.
    Join {
        room_id: RoomId,
        user_id: UserId,
        subscribe: Option<Subscription>,
        token: Option<String>,
    },
    /// Disconnect the given user from the given room. Requires a token
    /// bequeathing that permission.
    Kick { room_id: RoomId, user_id: UserId, token: String },
    /// Subscribe to the traffic described by the given specification.
    Subscribe { what: Subscription },
    /// Stop all traffic between the sender and the given user, in both
    /// directions, superseding any subscriptions.
    Block { whom: UserId },
    /// Undo a block targeting the given user.
    Unblock { whom: UserId },
    /// Send a data message to every other client in the room, or to a
    /// single client if `whom` is given.
    Data { whom: Option<UserId>, body: String },
}

/// The mathematical content of a subscription: its flags and the viewed
/// media choice.
pub struct SubscriptionView {
    pub notifications: bool,
    pub data: bool,
    pub media: Option<Seq<char>>,
}

/// The mathematical content of a JSEP payload.
pub enum JsepView {
    Offer { sdp: Seq<char> },
    Answer { sdp: Seq<char> },
}

pub open spec fn view_jsep(j: JsepKind) -> JsepView {
    match j {
        JsepKind::Offer { sdp } => JsepView::Offer { sdp: sdp@ },
        JsepKind::Answer { sdp } => JsepView::Answer { sdp: sdp@ },
    }
}

/// The mathematical content of a signalling message.
pub enum MessageView {
    Join {
        room_id: Seq<char>,
        user_id: Seq<char>,
        subscribe: Option<SubscriptionView>,
        token: Option<Seq<char>>,
    },
    Kick { room_id: Seq<char>, user_id: Seq<char>, token: Seq<char> },
    Subscribe { what: SubscriptionView },
    Block { whom: Seq<char> },
    Unblock { whom: Seq<char> },
    Data { whom: Option<Seq<char>>, body: Seq<char> },
}

pub open spec fn view_opt_string(o: Option<String>) -> Option<Seq<char>> {
    match o {
        None => None,
        Some(s) => Some(s@),
    }
}

pub open spec fn view_subscription(s: Subscription) -> SubscriptionView {
    SubscriptionView {
        notifications: s.notifications,
        data: s.data,
        media: view_opt_string(s.media),
    }
}

pub open spec fn view_message(m: MessageKind) -> MessageView {
    match m {
        MessageKind::Join { room_id, user_id, subscribe, token } => MessageView::Join {
            room_id: room_id@,
            user_id: user_id@,
            subscribe: match subscribe {
                None => None,
                Some(w) => Some(view_subscription(w)),
            },
            token: view_opt_string(token),
        },
        MessageKind::Kick { room_id, user_id, token } => MessageView::Kick {
            room_id: room_id@,
            user_id: user_id@,
            token: token@,
        },
        MessageKind::Subscribe { what } => MessageView::Subscribe {
            what: view_subscription(what),
        },
        MessageKind::Block { whom } => MessageView::Block { whom: whom@ },
        MessageKind::Unblock { whom } => MessageView::Unblock { whom: whom@ },
        MessageKind::Data { whom, body } => MessageView::Data {
            whom: view_opt_string(whom),
            body: body@,
        },
    }
}

} // verus!
