//! The signalling message handlers: each takes the switchboard and one
//! client request, mutates the subscription graph as the request demands,
//! and hands back the response to send and the side effects to perform
//! (events to push, keyframe requests to relay, sessions to end).

use vstd::prelude::*;

use crate::auth::ValidatedToken;
use crate::config::Config;
use crate::events::{
    event_json, fanout_filtered, jsep_json, spec_jsep_json, spec_ser_event, Event, EventView,
};
use crate::messages::{RoomId, Subscription, UserId};
use crate::sessions::{clone_subscription, JoinKind, JoinState};
use crate::switchboard::{
    lemma_publisher_live, same_blocks, same_edges, same_indices, same_sessions, Switchboard,
};

verus! {

/// The failures surfaced to clients, each with its message text.
#[derive(Debug, Clone, Copy, PartialEq, Eq, Structural)]
pub enum SfuError {
    /// A join without a token while a key is configured.
    AnonymousJoin,
    /// A join with a token that does not permit this room.
    JoinDenied,
    /// A join with a token that does not validate.
    InvalidToken,
    /// A publisher join into a room already at its size limit.
    RoomFull,
    /// A publisher join beyond the server's user limit.
    ServerFull,
    /// A second join on the same handle.
    AlreadyJoined,
    /// A second subscription, set at join time.
    JoinSubscribed,
    /// A second subscription, set by a subscribe message.
    AlreadySubscribed,
    /// A media subscription naming a user with no publisher.
    NoSuchPublisher,
    /// A media subscription to a publisher that has not stored an offer.
    NoOffer,
    /// A block from a session that has not joined.
    BlockNotJoined,
    /// An unblock from a session that has not joined.
    UnblockNotJoined,
    /// A data message from a session that has not joined.
    DataNotJoined,
    /// A kick with a token that does not validate.
    KickInvalidToken,
    /// A kick with a token that does not grant kicking.
    KickDenied,
    /// A payload that does not parse as a message.
    InvalidMessage,
    /// A payload that does not parse as a JSEP offer or answer.
    InvalidJsep,
}

/// The message text of each failure.
pub open spec fn spec_error_message(e: SfuError) -> Seq<char> {
    match e {
        SfuError::AnonymousJoin => "Rejecting anonymous join!"@,
        SfuError::JoinDenied => "Rejecting join without permission!"@,
        SfuError::InvalidToken => "Rejecting join with invalid token!"@,
        SfuError::RoomFull => "Room is full."@,
        SfuError::ServerFull => "Server is full."@,
        SfuError::AlreadyJoined => "Handles may only join once!"@,
        SfuError::JoinSubscribed => "Handles may only subscribe once!"@,
        SfuError::AlreadySubscribed => "Users may only subscribe once!"@,
        SfuError::NoSuchPublisher => "Can't subscribe to a nonexistent publisher."@,
        SfuError::NoOffer => "Can't subscribe to a publisher that hasn't published."@,
        SfuError::BlockNotJoined => "Cannot block when not in a room."@,
        SfuError::UnblockNotJoined => "Cannot unblock when not in a room."@,
        SfuError::DataNotJoined => "Cannot send data when not in a room."@,
        SfuError::KickInvalidToken => "Rejecting kick with invalid token!"@,
        SfuError::KickDenied => "Rejecting kick without permission!"@,
        SfuError::InvalidMessage => "Invalid message."@,
        SfuError::InvalidJsep => "Invalid JSEP."@,
    }
}

impl SfuError {
    /// The human-readable text sent back to the client.
    pub fn message(&self) -> (r: String)
        ensures
            r@ == spec_error_message(*self),
    {
        match self {
            SfuError::AnonymousJoin => "Rejecting anonymous join!".to_owned(),
            SfuError::JoinDenied => "Rejecting join without permission!".to_owned(),
            SfuError::InvalidToken => "Rejecting join with invalid token!".to_owned(),
            SfuError::RoomFull => "Room is full.".to_owned(),
            SfuError::ServerFull => "Server is full.".to_owned(),
            SfuError::AlreadyJoined => "Handles may only join once!".to_owned(),
            SfuError::JoinSubscribed => "Handles may only subscribe once!".to_owned(),
            SfuError::AlreadySubscribed => "Users may only subscribe once!".to_owned(),
            SfuError::NoSuchPublisher => "Can't subscribe to a nonexistent publisher.".to_owned(),
            SfuError::NoOffer => "Can't subscribe to a publisher that hasn't published.".to_owned(),
            SfuError::BlockNotJoined => "Cannot block when not in a room.".to_owned(),
            SfuError::UnblockNotJoined => "Cannot unblock when not in a room.".to_owned(),
            SfuError::DataNotJoined => "Cannot send data when not in a room.".to_owned(),
            SfuError::KickInvalidToken => "Rejecting kick with invalid token!".to_owned(),
            SfuError::KickDenied => "Rejecting kick without permission!".to_owned(),
            SfuError::InvalidMessage => "Invalid message.".to_owned(),
            SfuError::InvalidJsep => "Invalid JSEP.".to_owned(),
        }
    }
}

/// The response to a signalling message: an optional JSON body and an
/// optional JSEP payload, both already serialized.
#[derive(Debug, Clone, PartialEq, Eq)]
pub struct MessageResponse {
    pub body: Option<String>,
    pub jsep: Option<String>,
}

/// What one handled message asks the host to do: reply, push events, relay
/// keyframe requests, and end sessions.
#[derive(Debug)]
pub struct Outcome {
    /// The reply to the sender.
    pub response: MessageResponse,
    /// Events to push, each to one handle.
    pub events: Vec<(u64, String)>,
    /// Keyframe requests to relay: each target handle with the FIR
    /// sequence number drawn for it.
    pub firs: Vec<(u64, u64)>,
    /// Handles whose sessions must be ended.
    pub end_sessions: Vec<u64>,
}

/// The event pushes pair each target with the same serialized event.
pub open spec fn events_match(evs: Seq<(u64, String)>, targets: Seq<u64>, ev: Seq<char>) -> bool {
    &&& evs.len() == targets.len()
    &&& forall|k: int|
        0 <= k < evs.len() ==> (#[trigger] evs[k]).0 == targets[k] && evs[k].1@ == ev
}

/// Pairs every target with a copy of the serialized event.
fn pair_targets(targets: &Vec<u64>, ev: &String) -> (r: Vec<(u64, String)>)
    ensures
        events_match(r@, targets@, ev@),
{
    let mut r: Vec<(u64, String)> = Vec::new();
    let mut i: usize = 0;
    while i < targets.len()
        invariant
            i <= targets@.len(),
            r@.len() == i,
            forall|k: int|
                0 <= k < i as int ==> (#[trigger] r@[k]).0 == targets@[k] && r@[k].1@ == ev@,
        decreases targets@.len() - i,
    {
        r.push((targets[i], ev.clone()));
        i = i + 1;
    }
    r
}

fn empty_body_response() -> (r: MessageResponse)
    ensures
        r.body matches Some(b) && b@ == "{}"@,
        r.jsep is None,
{
    MessageResponse { body: Some("{}".to_owned()), jsep: None }
}

/// Everything a block request does: the error on an unjoined sender with
/// the state untouched, or the recorded block, the notification to the
/// target's publisher, and the empty-object reply.
pub open spec fn block_behavior(
    pre: Switchboard,
    post: Switchboard,
    from: u64,
    whom: Seq<char>,
    r: Result<Outcome, SfuError>,
) -> bool {
    &&& (pre.spec_join_of(from) is None ==> {
        &&& r == Err::<Outcome, SfuError>(SfuError::BlockNotJoined)
        &&& same_sessions(pre, post)
        &&& same_indices(pre, post)
        &&& same_edges(pre, post)
        &&& same_blocks(pre, post)
    })
    &&& (pre.spec_join_of(from) matches Some(js) ==> {
        &&& r matches Ok(out)
        &&& forall|x: Seq<char>, y: Seq<char>| #[trigger]
            post.spec_blocks(x, y) <==> (pre.spec_blocks(x, y) || (x == js.user_id@ && y
                == whom))
        &&& same_sessions(pre, post)
        &&& same_indices(pre, post)
        &&& same_edges(pre, post)
        &&& (out.response.body matches Some(b) && b@ == "{}"@)
        &&& out.response.jsep is None
        &&& events_match(
            out.events@,
            fanout_filtered(
                pre,
                match pre.spec_publisher_of(whom) {
                    None => Seq::<u64>::empty(),
                    Some(p) => seq![p],
                },
                false,
                true,
                whom,
            ),
            spec_ser_event(EventView::Blocked { by: js.user_id@ }),
        )
        &&& out.firs@.len() == 0
        &&& out.end_sessions@.len() == 0
    })
}

/// Handles a block request: records the block and tells the target, via
/// its publisher session, who blocked it.
pub fn process_block(sb: &mut Switchboard, from: u64, whom: UserId) -> (r: Result<
    Outcome,
    SfuError,
>)
    requires
        old(sb).wf(),
    ensures
        final(sb).wf(),
        block_behavior(*old(sb), *final(sb), from, whom@, r),
{
    let js = match sb.join_state_of(from) {
        None => {
            return Err(SfuError::BlockNotJoined);
        },
        Some(js) => js,
    };
    let ev = event_json(&Event::Blocked { by: js.user_id.clone() });
    let targets: Vec<u64> = match sb.get_publisher(&whom) {
        None => Vec::new(),
        Some(p) => {
            let mut candidates: Vec<u64> = Vec::new();
            candidates.push(p);
            proof {
                assert(candidates@ =~= seq![p]);
            }
            crate::events::notify_user(sb, &whom, &candidates)
        },
    };
    let events = pair_targets(&targets, &ev);
    sb.establish_block(js.user_id, whom);
    proof {
        assert(fanout_filtered(
            *old(sb),
            Seq::<u64>::empty(),
            false,
            true,
            whom@,
        ) =~= Seq::<u64>::empty());
    }
    Ok(
        Outcome {
            response: empty_body_response(),
            events,
            firs: Vec::new(),
            end_sessions: Vec::new(),
        },
    )
}

/// Handles an unblock request: lifts the block, asks the target's
/// publisher for a fresh keyframe, and tells the target who unblocked it.
/// Everything an unblock request does: the error on an unjoined sender
/// with the state untouched, or the lifted block, the keyframe request
/// drawn for the target's publisher (advancing exactly that counter), the
/// notification to it, and the empty-object reply.
pub open spec fn unblock_behavior(
    pre: Switchboard,
    post: Switchboard,
    from: u64,
    whom: Seq<char>,
    r: Result<Outcome, SfuError>,
) -> bool {
    &&& (pre.spec_join_of(from) is None ==> {
        &&& r == Err::<Outcome, SfuError>(SfuError::UnblockNotJoined)
        &&& same_sessions(pre, post)
        &&& same_indices(pre, post)
        &&& same_edges(pre, post)
        &&& same_blocks(pre, post)
    })
    &&& (pre.spec_join_of(from) matches Some(js) ==> {
        &&& r matches Ok(out)
        &&& forall|x: Seq<char>, y: Seq<char>| #[trigger]
            post.spec_blocks(x, y) <==> (pre.spec_blocks(x, y) && !(x == js.user_id@ && y
                == whom))
        &&& same_indices(pre, post)
        &&& same_edges(pre, post)
        &&& (out.response.body matches Some(b) && b@ == "{}"@)
        &&& out.response.jsep is None
        &&& (pre.spec_publisher_of(whom) matches Some(p) ==> {
            &&& out.firs@.len() == 1
            &&& out.firs@[0].0 == p
            &&& out.firs@[0].1 == pre.spec_session(p).unwrap().state.spec_fir_seq()
            &&& post.spec_session(p).unwrap().state.spec_fir_seq() == (if pre.spec_session(
                p,
            ).unwrap().state.spec_fir_seq() == u64::MAX {
                0u64
            } else {
                (pre.spec_session(p).unwrap().state.spec_fir_seq() + 1) as u64
            })
            &&& post.has_session(p)
            &&& forall|h2: u64|
                h2 != p ==> #[trigger] post.spec_session(h2) == pre.spec_session(h2)
            &&& events_match(
                out.events@,
                fanout_filtered(post, seq![p], false, true, whom),
                spec_ser_event(EventView::Unblocked { by: js.user_id@ }),
            )
        })
        &&& (pre.spec_publisher_of(whom) is None ==> (out.firs@.len() == 0 && out.events@.len()
            == 0 && same_sessions(pre, post)))
        &&& out.end_sessions@.len() == 0
        &&& forall|h2: u64| #[trigger] post.spec_join_of(h2) == pre.spec_join_of(h2)
        &&& forall|h2: u64| #[trigger]
            post.spec_subscription_of(h2) == pre.spec_subscription_of(h2)
        &&& forall|h2: u64| #[trigger] post.spec_offer_of(h2) == pre.spec_offer_of(h2)
    })
}

pub fn process_unblock(sb: &mut Switchboard, from: u64, whom: UserId) -> (r: Result<
    Outcome,
    SfuError,
>)
    requires
        old(sb).wf(),
    ensures
        final(sb).wf(),
        unblock_behavior(*old(sb), *final(sb), from, whom@, r),
{
    let js = match sb.join_state_of(from) {
        None => {
            return Err(SfuError::UnblockNotJoined);
        },
        Some(js) => js,
    };
    sb.lift_block(&js.user_id, &whom);
    let mut firs: Vec<(u64, u64)> = Vec::new();
    let mut events: Vec<(u64, String)> = Vec::new();
    match sb.get_publisher(&whom) {
        None => {},
        Some(p) => {
            proof {
                lemma_publisher_live(*sb, whom@);
            }
            let seqno = sb.next_fir_seq_of(p);
            firs.push((p, seqno));
            let ev = event_json(&Event::Unblocked { by: js.user_id.clone() });
            let mut candidates: Vec<u64> = Vec::new();
            candidates.push(p);
            proof {
                assert(candidates@ =~= seq![p]);
            }
            let targets = crate::events::notify_user(sb, &whom, &candidates);
            events = pair_targets(&targets, &ev);
        },
    }
    Ok(
        Outcome {
            response: empty_body_response(),
            events,
            firs,
            end_sessions: Vec::new(),
        },
    )
}

/// Handles a data message: fans the wrapped body out to the sender's room,
/// to one user's data-subscribed sessions when a target is named, else to
/// every data-subscribed cohabitant but the sender.
/// Everything a data request does: the error on an unjoined sender, or
/// the wrapped body fanned out to the room's data-subscribed sessions —
/// to the named user's alone when a target is given, else to every
/// cohabitant but the sender.
pub open spec fn data_behavior(
    sb: Switchboard,
    from: u64,
    whom: Option<Seq<char>>,
    body: Seq<char>,
    r: Result<Outcome, SfuError>,
) -> bool {
    &&& (sb.spec_join_of(from) is None ==> r == Err::<Outcome, SfuError>(SfuError::DataNotJoined))
    &&& (sb.spec_join_of(from) matches Some(js) ==> {
        &&& r matches Ok(out)
        &&& (out.response.body matches Some(b) && b@ == "{}"@)
        &&& out.response.jsep is None
        &&& (whom matches Some(target) ==> events_match(
            out.events@,
            fanout_filtered(sb, sb.spec_room_list(js.room_id@), true, true, target),
            spec_ser_event(EventView::Data { body: body }),
        ))
        &&& (whom is None ==> events_match(
            out.events@,
            fanout_filtered(sb, sb.spec_room_list(js.room_id@), true, false, js.user_id@),
            spec_ser_event(EventView::Data { body: body }),
        ))
        &&& out.firs@.len() == 0
        &&& out.end_sessions@.len() == 0
    })
}

pub fn process_data(sb: &Switchboard, from: u64, whom: Option<UserId>, body: String) -> (r: Result<
    Outcome,
    SfuError,
>)
    requires
        sb.wf(),
    ensures
        data_behavior(*sb, from, crate::messages::view_opt_string(whom), body@, r),
{
    let js = match sb.join_state_of(from) {
        None => {
            return Err(SfuError::DataNotJoined);
        },
        Some(js) => js,
    };
    let ev = event_json(&Event::Data { body });
    let occupants = sb.publishers_occupying(&js.room_id);
    let targets = match &whom {
        Some(target) => crate::events::send_data_user(sb, target, &occupants),
        None => crate::events::send_data_except(sb, &js.user_id, &occupants),
    };
    let events = pair_targets(&targets, &ev);
    Ok(
        Outcome {
            response: empty_body_response(),
            events,
            firs: Vec::new(),
            end_sessions: Vec::new(),
        },
    )
}

/// Everything a subscribe request does: the error on a second
/// subscription with the state untouched, or the recorded subscription
/// and, when media is asked for, the link to the publisher and its stored
/// offer as the returned JSEP.
pub open spec fn subscribe_behavior(
    pre: Switchboard,
    post: Switchboard,
    from: u64,
    what: Subscription,
    r: Result<Outcome, SfuError>,
) -> bool {
    &&& (pre.spec_subscription_of(from) is Some ==> {
        &&& r == Err::<Outcome, SfuError>(SfuError::AlreadySubscribed)
        &&& same_sessions(pre, post)
        &&& same_indices(pre, post)
        &&& same_edges(pre, post)
        &&& same_blocks(pre, post)
    })
    &&& (pre.spec_subscription_of(from) is None ==> {
        &&& post.spec_subscription_of(from) == Some(what)
        &&& same_indices(pre, post)
        &&& same_blocks(pre, post)
        &&& forall|h2: u64|
            h2 != from ==> #[trigger] post.spec_session(h2) == pre.spec_session(h2)
        &&& forall|h2: u64| #[trigger]
            post.spec_subscription_of(h2) == (if h2 == from {
                Some(what)
            } else {
                pre.spec_subscription_of(h2)
            })
        &&& forall|h2: u64| #[trigger] post.spec_join_of(h2) == pre.spec_join_of(h2)
        &&& forall|h2: u64| #[trigger] post.spec_offer_of(h2) == pre.spec_offer_of(h2)
        &&& (what.media is None ==> {
            &&& r matches Ok(out)
            &&& (out.response.body matches Some(b) && b@ == "{}"@)
            &&& out.response.jsep is None
            &&& out.events@.len() == 0
            &&& out.firs@.len() == 0
            &&& out.end_sessions@.len() == 0
            &&& same_edges(pre, post)
        })
        &&& (what.media matches Some(mu) ==> {
            &&& (pre.spec_publisher_of(mu@) is None ==> (r == Err::<
                Outcome,
                SfuError,
            >(SfuError::NoSuchPublisher) && same_edges(pre, post)))
            &&& (pre.spec_publisher_of(mu@) matches Some(p) ==> {
                &&& (pre.spec_offer_of(p) is None ==> (r == Err::<Outcome, SfuError>(
                    SfuError::NoOffer,
                ) && same_edges(pre, post)))
                &&& (pre.spec_offer_of(p) matches Some(sdp) ==> {
                    &&& r matches Ok(out)
                    &&& (out.response.body matches Some(b) && b@ == "{}"@)
                    &&& (out.response.jsep matches Some(j) && j@ == spec_jsep_json(
                        "offer"@,
                        sdp@,
                    ))
                    &&& out.events@.len() == 0
                    &&& out.firs@.len() == 0
                    &&& out.end_sessions@.len() == 0
                    &&& forall|p2: u64| #[trigger]
                        post.spec_subscribers_to(p2) == if p2 == p {
                            pre.spec_subscribers_to(p2).push(from)
                        } else {
                            pre.spec_subscribers_to(p2)
                        }
                })
            })
        })
    })
}

/// Handles a subscribe request: stores the subscription once, and when it
/// names a publisher's media, links the subscription edge and returns the
/// publisher's stored offer.
pub fn process_subscribe(sb: &mut Switchboard, from: u64, what: Subscription) -> (r: Result<
    Outcome,
    SfuError,
>)
    requires
        old(sb).wf(),
        old(sb).has_session(from),
    ensures
        final(sb).wf(),
        subscribe_behavior(*old(sb), *final(sb), from, what, r),
{
    match sb.set_subscription_of(from, clone_subscription(&what)) {
        Err(_) => {
            return Err(SfuError::AlreadySubscribed);
        },
        Ok(()) => {},
    }
    match &what.media {
        None => Ok(
            Outcome {
                response: empty_body_response(),
                events: Vec::new(),
                firs: Vec::new(),
                end_sessions: Vec::new(),
            },
        ),
        Some(mu) => {
            let p = match sb.get_publisher(mu) {
                None => {
                    return Err(SfuError::NoSuchPublisher);
                },
                Some(p) => p,
            };
            let sdp = match sb.subscriber_offer_of(p) {
                None => {
                    return Err(SfuError::NoOffer);
                },
                Some(sdp) => sdp,
            };
            let jsep = jsep_json("offer", sdp.as_str());
            sb.subscribe_to_user(from, p);
            Ok(
                Outcome {
                    response: MessageResponse { body: Some("{}".to_owned()), jsep: Some(jsep) },
                    events: Vec::new(),
                    firs: Vec::new(),
                    end_sessions: Vec::new(),
                },
            )
        },
    }
}

/// The join kind a join request implies: a request that subscribes to the
/// data channel joins as a publisher, any other as a subscriber.
pub open spec fn spec_join_kind(subscribe: Option<Subscription>) -> JoinKind {
    if subscribe matches Some(w) && w.data {
        JoinKind::Publisher
    } else {
        JoinKind::Subscriber
    }
}

/// The publisher a join-time media subscription resolves against: the
/// switchboard as it stands after the join itself was indexed.
pub open spec fn spec_mid_publisher(
    sb: Switchboard,
    from: u64,
    user: Seq<char>,
    kind: JoinKind,
    mu: Seq<char>,
) -> Option<u64> {
    if kind == JoinKind::Publisher && sb.spec_publisher_of(user) is None && mu == user {
        Some(from)
    } else {
        sb.spec_publisher_of(mu)
    }
}

/// How a join request is decided, in the order the checks run.
pub enum JoinCheck {
    RoomFull,
    ServerFull,
    AlreadyJoined,
    AlreadySubscribed,
    NoPublisher,
    NoOffer,
    Accept,
}

/// The decision for a join request against the switchboard as it stood
/// before the request.
pub open spec fn spec_join_check(
    sb: Switchboard,
    from: u64,
    room: Seq<char>,
    user: Seq<char>,
    subscribe: Option<Subscription>,
    max_room: int,
    max_ccu: int,
) -> JoinCheck {
    let kind = spec_join_kind(subscribe);
    if kind == JoinKind::Publisher && max_room > 0 && sb.spec_room_users(room).len()
        >= max_room {
        JoinCheck::RoomFull
    } else if kind == JoinKind::Publisher && max_ccu > 0 && sb.spec_all_users().len() >= max_ccu {
        JoinCheck::ServerFull
    } else if sb.spec_join_of(from) is Some {
        JoinCheck::AlreadyJoined
    } else if subscribe is Some && sb.spec_subscription_of(from) is Some {
        JoinCheck::AlreadySubscribed
    } else {
        match subscribe {
            Some(w) => match w.media {
                Some(mu) => match spec_mid_publisher(sb, from, user, kind, mu@) {
                    None => JoinCheck::NoPublisher,
                    Some(p) => if sb.spec_offer_of(p) is None {
                        JoinCheck::NoOffer
                    } else {
                        JoinCheck::Accept
                    },
                },
                None => JoinCheck::Accept,
            },
            None => JoinCheck::Accept,
        }
    }
}

/// Whether a join request asks for media from some publisher.
pub open spec fn has_media(subscribe: Option<Subscription>) -> bool {
    subscribe matches Some(w) && w.media is Some
}

/// Nothing changed between the two switchboards.
pub open spec fn unchanged_all(a: Switchboard, b: Switchboard) -> bool {
    &&& same_sessions(a, b)
    &&& same_indices(a, b)
    &&& same_edges(a, b)
    &&& same_blocks(a, b)
}

/// Everything a join request does, for every way it can go: which error
/// comes back on which state, how the session and the indices change when
/// the join goes through, what the response and the join notification
/// carry, and what is left untouched.
pub open spec fn join_behavior(
    pre: Switchboard,
    post: Switchboard,
    max_room: int,
    max_ccu: int,
    from: u64,
    room: Seq<char>,
    user: Seq<char>,
    subscribe: Option<Subscription>,
    r: Result<Outcome, SfuError>,
) -> bool {
    let check = spec_join_check(pre, from, room, user, subscribe, max_room, max_ccu);
    let kind = spec_join_kind(subscribe);
    let joined = check == JoinCheck::AlreadySubscribed || check == JoinCheck::NoPublisher || check
        == JoinCheck::NoOffer || check == JoinCheck::Accept;
    &&& same_blocks(pre, post)
    &&& forall|h2: u64|
        h2 != from ==> #[trigger] post.spec_session(h2) == pre.spec_session(h2)
    &&& forall|h2: u64| #[trigger] post.spec_offer_of(h2) == pre.spec_offer_of(h2)
    &&& (check == JoinCheck::RoomFull ==> (r == Err::<Outcome, SfuError>(SfuError::RoomFull)
        && unchanged_all(pre, post)))
    &&& (check == JoinCheck::ServerFull ==> (r == Err::<Outcome, SfuError>(SfuError::ServerFull)
        && unchanged_all(pre, post)))
    &&& (check == JoinCheck::AlreadyJoined ==> (r == Err::<Outcome, SfuError>(
        SfuError::AlreadyJoined,
    ) && unchanged_all(pre, post)))
    &&& (check == JoinCheck::AlreadySubscribed ==> r == Err::<Outcome, SfuError>(
        SfuError::JoinSubscribed,
    ))
    &&& (check == JoinCheck::NoPublisher ==> (r == Err::<Outcome, SfuError>(
        SfuError::NoSuchPublisher,
    ) && same_edges(pre, post)))
    &&& (check == JoinCheck::NoOffer ==> (r == Err::<Outcome, SfuError>(SfuError::NoOffer)
        && same_edges(pre, post)))
    &&& (joined ==> {
        &&& (post.spec_join_of(from) matches Some(js2) && js2.kind == kind && js2.room_id@ == room
            && js2.user_id@ == user)
        &&& (kind == JoinKind::Publisher && pre.spec_publisher_of(user) is None ==> {
            &&& forall|u2: Seq<char>| #[trigger]
                post.spec_publishers_of(u2) == if u2 == user {
                    seq![from]
                } else {
                    pre.spec_publishers_of(u2)
                }
            &&& forall|r2: Seq<char>| #[trigger]
                post.spec_room_list(r2) == if r2 == room {
                    pre.spec_room_list(r2).push(from)
                } else {
                    pre.spec_room_list(r2)
                }
            &&& forall|u2: Seq<char>| #[trigger]
                post.spec_subs_of_user(u2) == pre.spec_subs_of_user(u2)
        })
        &&& (kind == JoinKind::Publisher && pre.spec_publisher_of(user) is Some ==> same_indices(
            pre,
            post,
        ))
        &&& (kind == JoinKind::Subscriber ==> {
            &&& forall|u2: Seq<char>| #[trigger]
                post.spec_subs_of_user(u2) == if u2 == user {
                    pre.spec_subs_of_user(u2).push(from)
                } else {
                    pre.spec_subs_of_user(u2)
                }
            &&& forall|u2: Seq<char>| #[trigger]
                post.spec_publishers_of(u2) == pre.spec_publishers_of(u2)
            &&& forall|r2: Seq<char>| #[trigger]
                post.spec_room_list(r2) == pre.spec_room_list(r2)
        })
    })
    &&& ((joined && subscribe is Some) ==> post.spec_subscription_of(from) == (if check
        == JoinCheck::AlreadySubscribed {
        pre.spec_subscription_of(from)
    } else {
        subscribe
    }))
    &&& (check == JoinCheck::Accept ==> (r matches Ok(out) && {
        &&& (out.response.body matches Some(b) && b@ == crate::events::spec_users_body(
            room,
            post.spec_room_users(room),
        ))
        &&& (subscribe matches Some(w) ==> (w.media matches Some(mu) ==> {
            &&& (out.response.jsep matches Some(j) && j@ == spec_jsep_json(
                "offer"@,
                pre.spec_offer_of(
                    spec_mid_publisher(pre, from, user, kind, mu@).unwrap(),
                ).unwrap()@,
            ))
            &&& forall|p2: u64| #[trigger]
                post.spec_subscribers_to(p2) == if p2 == spec_mid_publisher(
                    pre,
                    from,
                    user,
                    kind,
                    mu@,
                ).unwrap() {
                    pre.spec_subscribers_to(p2).push(from)
                } else {
                    pre.spec_subscribers_to(p2)
                }
        }))
        &&& (!has_media(subscribe) ==> (out.response.jsep is None && same_edges(pre, post)))
        &&& (kind == JoinKind::Publisher ==> events_match(
            out.events@,
            fanout_filtered(post, post.spec_room_list(room), false, false, user),
            spec_ser_event(EventView::Join { user_id: user, room_id: room }),
        ))
        &&& (kind == JoinKind::Subscriber ==> out.events@.len() == 0)
        &&& out.firs@.len() == 0
        &&& out.end_sessions@.len() == 0
    }))
}

/// Handles a join request whose permission check has already passed: runs
/// the capacity checks, records the write-once join state, indexes the
/// session, stores any join-time subscription, links a requested media
/// subscription, and reports the room's members.
#[verifier::rlimit(90)]
pub fn process_join_authorized(
    sb: &mut Switchboard,
    max_room_size: usize,
    max_ccu: usize,
    from: u64,
    room_id: RoomId,
    user_id: UserId,
    subscribe: Option<Subscription>,
) -> (r: Result<Outcome, SfuError>)
    requires
        old(sb).wf(),
        old(sb).has_session(from),
    ensures
        final(sb).wf(),
        join_behavior(
            *old(sb),
            *final(sb),
            max_room_size as int,
            max_ccu as int,
            from,
            room_id@,
            user_id@,
            subscribe,
            r,
        ),
{
    let ghost pre = *sb;
    let ghost kind_g = spec_join_kind(subscribe);
    let is_publisher = match &subscribe {
        Some(w) => w.data,
        None => false,
    };
    if is_publisher {
        let room_users = sb.get_room_users(&room_id);
        if max_room_size > 0 && room_users.len() >= max_room_size {
            return Err(SfuError::RoomFull);
        }
        let all_users = sb.get_all_users();
        if max_ccu > 0 && all_users.len() >= max_ccu {
            return Err(SfuError::ServerFull);
        }
    }
    let kind = if is_publisher {
        JoinKind::Publisher
    } else {
        JoinKind::Subscriber
    };
    let js = JoinState::new(kind, room_id.clone(), user_id.clone());
    match sb.set_join_state_of(from, js) {
        Err(_) => {
            return Err(SfuError::AlreadyJoined);
        },
        Ok(()) => {},
    }
    if is_publisher {
        sb.join_publisher(from, user_id.clone(), room_id.clone());
    } else {
        sb.join_subscriber(from, user_id.clone(), room_id.clone());
    }
    let ghost mid = *sb;
    // the join notification goes to the room's publishers, except the
    // joining user's own sessions
    let mut events: Vec<(u64, String)> = Vec::new();
    if is_publisher {
        let ev = event_json(
            &Event::Join { user_id: user_id.clone(), room_id: room_id.clone() },
        );
        let occupants = sb.publishers_occupying(&room_id);
        let targets = crate::events::notify_except(sb, &user_id, &occupants);
        events = pair_targets(&targets, &ev);
    }
    let mut jsep: Option<String> = None;
    match &subscribe {
        None => {},
        Some(w) => {
            match sb.set_subscription_of(from, clone_subscription(w)) {
                Err(_) => {
                    return Err(SfuError::JoinSubscribed);
                },
                Ok(()) => {},
            }
            match &w.media {
                None => {},
                Some(mu) => {
                    let p = match sb.get_publisher(mu) {
                        None => {
                            return Err(SfuError::NoSuchPublisher);
                        },
                        Some(p) => p,
                    };
                    let sdp = match sb.subscriber_offer_of(p) {
                        None => {
                            return Err(SfuError::NoOffer);
                        },
                        Some(sdp) => sdp,
                    };
                    jsep = Some(jsep_json("offer", sdp.as_str()));
                    sb.subscribe_to_user(from, p);
                },
            }
        },
    }
    let users_after = sb.get_room_users(&room_id);
    let body = crate::events::users_body_json(&room_id, &users_after);
    proof {
        // the notification filter sees the same verdicts at the end as it
        // did when the targets were collected
        if kind_g == JoinKind::Publisher {
            assert forall|k: int|
                0 <= k < mid.spec_room_list(room_id@).len() implies crate::events::fanout_pass(
                mid,
                #[trigger] mid.spec_room_list(room_id@)[k],
                false,
                false,
                user_id@,
            ) == crate::events::fanout_pass(
                *sb,
                mid.spec_room_list(room_id@)[k],
                false,
                false,
                user_id@,
            ) by {
                let h2 = mid.spec_room_list(room_id@)[k];
                if h2 != from {
                    assert(sb.spec_session(h2) == mid.spec_session(h2));
                }
            }
            crate::events::lemma_fanout_congruence(
                mid,
                *sb,
                mid.spec_room_list(room_id@),
                false,
                false,
                user_id@,
            );
        }
    }
    Ok(
        Outcome {
            response: MessageResponse { body: Some(body), jsep },
            events,
            firs: Vec::new(),
            end_sessions: Vec::new(),
        },
    )
}

/// Handles a join request: with no key configured every join is allowed;
/// with a key, the token must validate and permit the room. An allowed
/// join proceeds as `process_join_authorized`.
pub fn process_join(
    sb: &mut Switchboard,
    config: &Config,
    from: u64,
    room_id: RoomId,
    user_id: UserId,
    subscribe: Option<Subscription>,
    token: Option<String>,
) -> (r: Result<Outcome, SfuError>)
    requires
        old(sb).wf(),
        old(sb).has_session(from),
    ensures
        final(sb).wf(),
        config.auth_key is None ==> join_behavior(
            *old(sb),
            *final(sb),
            config.max_room_size as int,
            config.max_ccu as int,
            from,
            room_id@,
            user_id@,
            subscribe,
            r,
        ),
        (config.auth_key is Some && token is None) ==> (r == Err::<Outcome, SfuError>(
            SfuError::AnonymousJoin,
        ) && unchanged_all(*old(sb), *final(sb))),
        (config.auth_key is Some && token is Some) ==> (r == Err::<Outcome, SfuError>(
            SfuError::InvalidToken,
        ) || r == Err::<Outcome, SfuError>(SfuError::JoinDenied) || join_behavior(
            *old(sb),
            *final(sb),
            config.max_room_size as int,
            config.max_ccu as int,
            from,
            room_id@,
            user_id@,
            subscribe,
            r,
        )),
        (r == Err::<Outcome, SfuError>(SfuError::InvalidToken) || r == Err::<Outcome, SfuError>(
            SfuError::JoinDenied,
        ) || r == Err::<Outcome, SfuError>(SfuError::AnonymousJoin)) ==> unchanged_all(
            *old(sb),
            *final(sb),
        ),
{
    match &config.auth_key {
        None => process_join_authorized(
            sb,
            config.max_room_size,
            config.max_ccu,
            from,
            room_id,
            user_id,
            subscribe,
        ),
        Some(key) => match &token {
            None => Err(SfuError::AnonymousJoin),
            Some(tok) => {
                let decoded = ValidatedToken::from_str(tok.as_str(), key.as_slice());
                process_join_checked(
                    sb,
                    config.max_room_size,
                    config.max_ccu,
                    from,
                    room_id,
                    user_id,
                    subscribe,
                    decoded,
                )
            },
        },
    }
}

/// Rules on a join's decoded token: an undecodable token is rejected as
/// invalid, a token that does not permit the room is denied (the state
/// untouched either way), and a permitting token lets the join proceed.
pub fn process_join_checked(
    sb: &mut Switchboard,
    max_room_size: usize,
    max_ccu: usize,
    from: u64,
    room_id: RoomId,
    user_id: UserId,
    subscribe: Option<Subscription>,
    decoded: Result<ValidatedToken, crate::auth::AuthError>,
) -> (r: Result<Outcome, SfuError>)
    requires
        old(sb).wf(),
        old(sb).has_session(from),
    ensures
        final(sb).wf(),
        decoded is Err ==> (r == Err::<Outcome, SfuError>(SfuError::InvalidToken)
            && unchanged_all(*old(sb), *final(sb))),
        decoded matches Ok(t) ==> (!crate::auth::spec_may_join(t, room_id@) ==> (r == Err::<
            Outcome,
            SfuError,
        >(SfuError::JoinDenied) && unchanged_all(*old(sb), *final(sb)))),
        decoded matches Ok(t) ==> (crate::auth::spec_may_join(t, room_id@) ==> join_behavior(
            *old(sb),
            *final(sb),
            max_room_size as int,
            max_ccu as int,
            from,
            room_id@,
            user_id@,
            subscribe,
            r,
        )),
{
    match decoded {
        Err(_) => Err(SfuError::InvalidToken),
        Ok(t) => {
            if !t.may_join(&room_id) {
                Err(SfuError::JoinDenied)
            } else {
                process_join_authorized(
                    sb,
                    max_room_size,
                    max_ccu,
                    from,
                    room_id,
                    user_id,
                    subscribe,
                )
            }
        },
    }
}


/// What processing an offer hands back: the answer to return to the
/// publisher, and the stored subscriber offer pushed to each session that
/// already subscribes to it.
#[derive(Debug)]
pub struct OfferOutcome {
    /// The JSEP answer returned to the offering session.
    pub jsep: String,
    /// The renegotiation offer pushed to each existing subscriber.
    pub offer_pushes: Vec<(u64, String)>,
}

/// Handles a publisher's offer once the gateway has negotiated it: stores
/// the derived subscriber offer (replacing any previous one), pushes it to
/// every existing subscriber, and returns the answer as this session's
/// JSEP.
pub fn process_offer(
    sb: &mut Switchboard,
    from: u64,
    subscriber_offer_sdp: String,
    answer_sdp: &str,
) -> (r: OfferOutcome)
    requires
        old(sb).wf(),
        old(sb).has_session(from),
    ensures
        final(sb).wf(),
        final(sb).spec_offer_of(from) == Some(subscriber_offer_sdp),
        forall|h2: u64|
            h2 != from ==> #[trigger] final(sb).spec_offer_of(h2) == old(sb).spec_offer_of(h2),
        forall|h2: u64| #[trigger] final(sb).spec_join_of(h2) == old(sb).spec_join_of(h2),
        forall|h2: u64| #[trigger]
            final(sb).spec_subscription_of(h2) == old(sb).spec_subscription_of(h2),
        same_indices(*old(sb), *final(sb)),
        same_edges(*old(sb), *final(sb)),
        same_blocks(*old(sb), *final(sb)),
        r.jsep@ == spec_jsep_json("answer"@, answer_sdp@),
        events_match(
            r.offer_pushes@,
            old(sb).spec_subscribers_to(from),
            spec_jsep_json("offer"@, subscriber_offer_sdp@),
        ),
{
    let offer_json = jsep_json("offer", subscriber_offer_sdp.as_str());
    let subs = sb.subscribers_to(from);
    let offer_pushes = pair_targets(&subs, &offer_json);
    sb.set_subscriber_offer_of(from, subscriber_offer_sdp);
    let jsep = jsep_json("answer", answer_sdp);
    OfferOutcome { jsep, offer_pushes }
}

/// Handles a JSEP answer: an acknowledgement of an offer previously sent,
/// accepted with no state change.
pub fn process_answer() -> (r: String)
    ensures
        r@ == "{}"@,
{
    "{}".to_owned()
}

/// Tears a session down: drops it from every index and every subscription
/// edge in both directions, removes it from the session list, and, when
/// the user's indexed publisher session leaves, hands back one leave event
/// for each remaining roommate with notifications on.
pub fn disconnect_session(sb: &mut Switchboard, h: u64) -> (r: Vec<(u64, String)>)
    requires
        old(sb).wf(),
    ensures
        final(sb).wf(),
        final(sb).spec_session(h) is None,
        forall|h2: u64|
            h2 != h ==> #[trigger] final(sb).spec_session(h2) == old(sb).spec_session(h2),
        same_blocks(*old(sb), *final(sb)),
        forall|u2: Seq<char>| #[trigger]
            final(sb).spec_publishers_of(u2) == crate::switchboard::without(
                old(sb).spec_publishers_of(u2),
                h,
            ),
        forall|r2: Seq<char>| #[trigger]
            final(sb).spec_room_list(r2) == crate::switchboard::without(
                old(sb).spec_room_list(r2),
                h,
            ),
        forall|u2: Seq<char>| #[trigger]
            final(sb).spec_subs_of_user(u2) == crate::switchboard::without(
                old(sb).spec_subs_of_user(u2),
                h,
            ),
        forall|p: u64| #[trigger]
            final(sb).spec_subscribers_to(p) == if p == h {
                Seq::<u64>::empty()
            } else {
                crate::switchboard::without(old(sb).spec_subscribers_to(p), h)
            },
        forall|h2: u64| #[trigger]
            final(sb).spec_publishers_to(h2) == if h2 == h {
                Seq::<u64>::empty()
            } else {
                crate::switchboard::without(old(sb).spec_publishers_to(h2), h)
            },
        (old(sb).spec_join_of(h) matches Some(js) && js.kind == JoinKind::Publisher && old(
            sb,
        ).spec_publisher_of(js.user_id@) == Some(h)) ==> events_match(
            r@,
            fanout_filtered(
                *final(sb),
                final(sb).spec_room_list(old(sb).spec_join_of(h).unwrap().room_id@),
                false,
                false,
                old(sb).spec_join_of(h).unwrap().user_id@,
            ),
            spec_ser_event(
                EventView::Leave {
                    user_id: old(sb).spec_join_of(h).unwrap().user_id@,
                    room_id: old(sb).spec_join_of(h).unwrap().room_id@,
                },
            ),
        ),
        !(old(sb).spec_join_of(h) matches Some(js) && js.kind == JoinKind::Publisher && old(
            sb,
        ).spec_publisher_of(js.user_id@) == Some(h)) ==> r@.len() == 0,
{
    let js_opt = sb.join_state_of(h);
    let emit = match &js_opt {
        Some(js) => {
            if js.kind == JoinKind::Publisher {
                match sb.get_publisher(&js.user_id) {
                    Some(p) => p == h,
                    None => false,
                }
            } else {
                false
            }
        },
        None => false,
    };
    sb.leave_publisher(h);
    sb.leave_subscriber(h);
    proof {
        assert forall|u2: Seq<char>| !(#[trigger] sb.spec_publishers_of(u2)).contains(h) by {
            crate::switchboard::lemma_without_contains(old(sb).spec_publishers_of(u2), h, h);
        }
        assert forall|r2: Seq<char>| !(#[trigger] sb.spec_room_list(r2)).contains(h) by {
            crate::switchboard::lemma_without_contains(old(sb).spec_room_list(r2), h, h);
        }
        assert forall|u2: Seq<char>| !(#[trigger] sb.spec_subs_of_user(u2)).contains(h) by {
            crate::switchboard::lemma_without_contains(old(sb).spec_subs_of_user(u2), h, h);
        }
    }
    sb.disconnect(h);
    if emit {
        let js = match js_opt {
            Some(js) => js,
            None => {
                proof {
                    assert(false);
                }
                return Vec::new();
            },
        };
        let ev = event_json(
            &Event::Leave { user_id: js.user_id.clone(), room_id: js.room_id.clone() },
        );
        let occupants = sb.publishers_occupying(&js.room_id);
        let targets = crate::events::notify_except(sb, &js.user_id, &occupants);
        pair_targets(&targets, &ev)
    } else {
        Vec::new()
    }
}

/// Routes one parsed message to its handler; the contract dispatches per
/// message kind onto the handlers' own behaviour.
pub fn process_message(
    sb: &mut Switchboard,
    config: &Config,
    from: u64,
    msg: crate::messages::MessageKind,
) -> (r: Result<Outcome, SfuError>)
    requires
        old(sb).wf(),
        old(sb).has_session(from),
    ensures
        final(sb).wf(),
        msg matches crate::messages::MessageKind::Join { room_id, user_id, subscribe, token }
            ==> {
            &&& (config.auth_key is None ==> join_behavior(
                *old(sb),
                *final(sb),
                config.max_room_size as int,
                config.max_ccu as int,
                from,
                room_id@,
                user_id@,
                subscribe,
                r,
            ))
            &&& ((config.auth_key is Some && token is None) ==> (r == Err::<Outcome, SfuError>(
                SfuError::AnonymousJoin,
            ) && unchanged_all(*old(sb), *final(sb))))
            &&& ((config.auth_key is Some && token is Some) ==> (r == Err::<Outcome, SfuError>(
                SfuError::InvalidToken,
            ) || r == Err::<Outcome, SfuError>(SfuError::JoinDenied) || join_behavior(
                *old(sb),
                *final(sb),
                config.max_room_size as int,
                config.max_ccu as int,
                from,
                room_id@,
                user_id@,
                subscribe,
                r,
            )))
            &&& ((r == Err::<Outcome, SfuError>(SfuError::InvalidToken) || r == Err::<
                Outcome,
                SfuError,
            >(SfuError::JoinDenied) || r == Err::<Outcome, SfuError>(SfuError::AnonymousJoin))
                ==> unchanged_all(*old(sb), *final(sb)))
        },
        msg matches crate::messages::MessageKind::Kick { room_id, user_id, token } ==> {
            &&& kick_outcome(*old(sb), user_id@, r)
            &&& (config.auth_key is None ==> (r matches Ok(out) && out.end_sessions@
                == spec_kick_targets(*old(sb), user_id@)))
            &&& unchanged_all(*old(sb), *final(sb))
        },
        msg matches crate::messages::MessageKind::Subscribe { what } ==> subscribe_behavior(
            *old(sb),
            *final(sb),
            from,
            what,
            r,
        ),
        msg matches crate::messages::MessageKind::Block { whom } ==> block_behavior(
            *old(sb),
            *final(sb),
            from,
            whom@,
            r,
        ),
        msg matches crate::messages::MessageKind::Unblock { whom } ==> unblock_behavior(
            *old(sb),
            *final(sb),
            from,
            whom@,
            r,
        ),
        msg matches crate::messages::MessageKind::Data { whom, body } ==> (data_behavior(
            *old(sb),
            from,
            crate::messages::view_opt_string(whom),
            body@,
            r,
        ) && unchanged_all(*old(sb), *final(sb))),
{
    match msg {
        crate::messages::MessageKind::Join { room_id, user_id, subscribe, token } => process_join(
            sb,
            config,
            from,
            room_id,
            user_id,
            subscribe,
            token,
        ),
        crate::messages::MessageKind::Kick { room_id: _, user_id, token } => process_kick(
            sb,
            config,
            &user_id,
            &token,
        ),
        crate::messages::MessageKind::Subscribe { what } => process_subscribe(sb, from, what),
        crate::messages::MessageKind::Block { whom } => process_block(sb, from, whom),
        crate::messages::MessageKind::Unblock { whom } => process_unblock(sb, from, whom),
        crate::messages::MessageKind::Data { whom, body } => process_data(sb, from, whom, body),
    }
}

/// Combines the outcome of the message part and the JSEP part of one
/// request into the reply pushed back to the client: any error wins, and a
/// JSEP result rides along with the message body.
pub fn compose_response(
    msg_result: Option<Result<MessageResponse, SfuError>>,
    jsep_result: Option<Result<String, SfuError>>,
) -> (r: (String, Option<String>))
    ensures
        msg_result matches Some(Err(e)) ==> (r.0@ == crate::events::spec_error_envelope(
            spec_error_message(e),
        ) && r.1 is None),
        !(msg_result matches Some(Err(_))) ==> {
            &&& (jsep_result matches Some(Err(e2)) ==> (r.0@
                == crate::events::spec_error_envelope(spec_error_message(e2)) && r.1 is None))
            &&& (!(jsep_result matches Some(Err(_))) ==> {
                &&& (msg_result matches Some(Ok(resp)) ==> {
                    &&& (resp.body is None ==> r.0@ == crate::events::spec_success_plain())
                    &&& (resp.body matches Some(b) ==> r.0@ == crate::events::spec_success_with(
                        b@,
                    ))
                    &&& (jsep_result matches Some(Ok(j)) ==> r.1 == Some(j))
                    &&& (jsep_result is None ==> r.1 == resp.jsep)
                })
                &&& (msg_result is None ==> {
                    &&& r.0@ == crate::events::spec_success_plain()
                    &&& (jsep_result matches Some(Ok(j)) ==> r.1 == Some(j))
                    &&& (jsep_result is None ==> r.1 is None)
                })
            })
        },
{
    match (msg_result, jsep_result) {
        (Some(Err(e)), _) => {
            let msg = e.message();
            (crate::events::error_envelope(&msg), None)
        },
        (_, Some(Err(e2))) => {
            let msg = e2.message();
            (crate::events::error_envelope(&msg), None)
        },
        (Some(Ok(resp)), None) => {
            let body = crate::events::success_envelope(resp.body.as_ref());
            (body, resp.jsep)
        },
        (None, Some(Ok(j))) => (crate::events::success_envelope(None), Some(j)),
        (Some(Ok(resp)), Some(Ok(j))) => {
            let body = crate::events::success_envelope(resp.body.as_ref());
            (body, Some(j))
        },
        (None, None) => (crate::events::success_envelope(None), None),
    }
}

/// Leave notification idempotence: when the leave fan-out runs over a
/// room's occupants in a well-formed switchboard, a session is a target
/// exactly when it occupies the room, has notifications on, and belongs to
/// another user; the targets are pairwise distinct and belong to pairwise
/// distinct users, so each eligible roommate is told exactly once.
pub proof fn lemma_leave_notification_unique(sb: Switchboard, room: Seq<char>, user: Seq<char>)
    requires
        sb.wf(),
    ensures
        forall|h: u64|
            #[trigger] fanout_filtered(sb, sb.spec_room_list(room), false, false, user).contains(
                h,
            ) <==> (sb.spec_room_list(room).contains(h) && crate::events::fanout_pass(
                sb,
                h,
                false,
                false,
                user,
            )),
        forall|i: int, j: int|
            #![trigger fanout_filtered(sb, sb.spec_room_list(room), false, false, user)[i], fanout_filtered(sb, sb.spec_room_list(room), false, false, user)[j]]
            0 <= i < j < fanout_filtered(sb, sb.spec_room_list(room), false, false, user).len()
                ==> (fanout_filtered(sb, sb.spec_room_list(room), false, false, user)[i]
                != fanout_filtered(sb, sb.spec_room_list(room), false, false, user)[j]
                && sb.spec_join_of(
                fanout_filtered(sb, sb.spec_room_list(room), false, false, user)[i],
            ).unwrap().user_id@ != sb.spec_join_of(
                fanout_filtered(sb, sb.spec_room_list(room), false, false, user)[j],
            ).unwrap().user_id@),
{
    let hs = sb.spec_room_list(room);
    let t = fanout_filtered(sb, hs, false, false, user);
    assert forall|h: u64| #[trigger]
        t.contains(h) <==> (hs.contains(h) && crate::events::fanout_pass(
            sb,
            h,
            false,
            false,
            user,
        )) by {
        crate::events::lemma_fanout_contains(sb, hs, false, false, user, h);
    }
    crate::switchboard::lemma_room_occupants(sb, room);
    crate::events::lemma_fanout_nodup(sb, hs, false, false, user);
    assert forall|i: int, j: int|
        0 <= i < j < t.len() implies (t[i] != t[j] && sb.spec_join_of(t[i]).unwrap().user_id@
        != sb.spec_join_of(t[j]).unwrap().user_id@) by {
        assert(t[i] != t[j]);
        assert(t.contains(t[i]));
        assert(t.contains(t[j]));
        assert(hs.contains(t[i]));
        assert(hs.contains(t[j]));
        let ki = choose|k: int| 0 <= k < hs.len() && hs[k] == t[i];
        let kj = choose|k: int| 0 <= k < hs.len() && hs[k] == t[j];
        assert(ki != kj);
        if ki < kj {
            assert(sb.spec_join_of(hs[ki]).unwrap().user_id@ != sb.spec_join_of(
                hs[kj],
            ).unwrap().user_id@);
        } else {
            assert(sb.spec_join_of(hs[kj]).unwrap().user_id@ != sb.spec_join_of(
                hs[ki],
            ).unwrap().user_id@);
        }
    }
}

/// The sessions a kick must end: the target user's publisher, then every
/// subscriber session of that user.
/// The sessions a kick of `user` ends, in order: its indexed publisher,
/// then every subscriber session of the user.
pub open spec fn spec_kick_targets(sb: Switchboard, user: Seq<char>) -> Seq<u64> {
    (match sb.spec_publisher_of(user) {
        None => Seq::<u64>::empty(),
        Some(p) => seq![p],
    }) + sb.spec_subs_of_user(user)
}

/// What comes back from a kick, whichever way the token check went: on
/// success exactly the target user's sessions are ended with the
/// empty-object reply, and a refusal is one of the two kick errors.
pub open spec fn kick_outcome(sb: Switchboard, user: Seq<char>, r: Result<Outcome, SfuError>) -> bool {
    &&& (r matches Ok(out) ==> {
        &&& out.end_sessions@ == spec_kick_targets(sb, user)
        &&& (out.response.body matches Some(b) && b@ == "{}"@)
        &&& out.response.jsep is None
        &&& out.events@.len() == 0
        &&& out.firs@.len() == 0
    })
    &&& (r matches Err(e) ==> (e == SfuError::KickInvalidToken || e == SfuError::KickDenied))
}

/// The decision a kick makes over the decoded token: no decodable claims
/// is an invalid token; claims without the kick permission are refused;
/// claims with it end exactly the target user's sessions.
pub open spec fn kick_decided_behavior(
    sb: Switchboard,
    claims: Option<ValidatedToken>,
    user: Seq<char>,
    r: Result<Outcome, SfuError>,
) -> bool {
    &&& (claims is None ==> r == Err::<Outcome, SfuError>(SfuError::KickInvalidToken))
    &&& (claims matches Some(t) ==> (!t.kick_users ==> r == Err::<Outcome, SfuError>(
        SfuError::KickDenied,
    )))
    &&& (claims matches Some(t) ==> (t.kick_users ==> (r matches Ok(out) && {
        &&& out.end_sessions@ == spec_kick_targets(sb, user)
        &&& (out.response.body matches Some(b) && b@ == "{}"@)
        &&& out.response.jsep is None
        &&& out.events@.len() == 0
        &&& out.firs@.len() == 0
    })))
}

pub fn kick_targets(sb: &Switchboard, user_id: &UserId) -> (r: Vec<u64>)
    requires
        sb.wf(),
    ensures
        r@ == spec_kick_targets(*sb, user_id@),
{
    let mut r: Vec<u64> = Vec::new();
    match sb.get_publisher(user_id) {
        None => {},
        Some(p) => {
            r.push(p);
        },
    }
    let mut subs = sb.get_subscribers(user_id);
    let ghost head = r@;
    let ghost tail = subs@;
    let mut i: usize = 0;
    while i < subs.len()
        invariant
            subs@ == tail,
            i <= tail.len(),
            r@ == head + tail.take(i as int),
        decreases tail.len() - i,
    {
        r.push(subs[i]);
        proof {
            assert(head + tail.take(i as int + 1) =~= (head + tail.take(i as int)).push(
                tail[i as int],
            ));
        }
        i = i + 1;
    }
    proof {
        assert(tail.take(tail.len() as int) =~= tail);
        assert(r@ == head + tail);
        match sb.spec_publisher_of(user_id@) {
            None => {
                assert(head =~= Seq::<u64>::empty());
            },
            Some(p) => {
                assert(head =~= seq![p]);
            },
        }
    }
    r
}

/// Decides a kick from the already-decoded token claims (`None` when the
/// token did not decode), ending the target user's sessions exactly when
/// the claims carry the kick permission.
pub fn process_kick_decided(
    sb: &Switchboard,
    claims: Option<ValidatedToken>,
    user_id: &UserId,
) -> (r: Result<Outcome, SfuError>)
    requires
        sb.wf(),
    ensures
        kick_decided_behavior(*sb, claims, user_id@, r),
{
    match claims {
        None => Err(SfuError::KickInvalidToken),
        Some(t) => {
            if !t.kick_users {
                Err(SfuError::KickDenied)
            } else {
                Ok(
                    Outcome {
                        response: empty_body_response(),
                        events: Vec::new(),
                        firs: Vec::new(),
                        end_sessions: kick_targets(sb, user_id),
                    },
                )
            }
        },
    }
}

/// Handles a kick: with no key configured every kick is allowed; with a
/// key, the token is decoded and `process_kick_decided` rules on the
/// claims. An allowed kick ends every session of the target user.
pub fn process_kick(
    sb: &Switchboard,
    config: &Config,
    user_id: &UserId,
    token: &String,
) -> (r: Result<Outcome, SfuError>)
    requires
        sb.wf(),
    ensures
        config.auth_key is None ==> (r matches Ok(out) && out.end_sessions@ == spec_kick_targets(
            *sb,
            user_id@,
        )),
        kick_outcome(*sb, user_id@, r),
        r matches Err(e) ==> config.auth_key is Some,
{
    match &config.auth_key {
        None => Ok(
            Outcome {
                response: empty_body_response(),
                events: Vec::new(),
                firs: Vec::new(),
                end_sessions: kick_targets(sb, user_id),
            },
        ),
        Some(key) => {
            let claims = match ValidatedToken::from_str(token.as_str(), key.as_slice()) {
                Ok(t) => Some(t),
                Err(_) => None,
            };
            process_kick_decided(sb, claims, user_id)
        },
    }
}

} // verus!
