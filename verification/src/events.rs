//! Outbound JSON: the events pushed to other sessions, the response
//! envelopes sent back to a client, and the fan-out filters that pick
//! which sessions an event goes to.

use vstd::prelude::*;

use crate::messages::{RoomId, UserId};
use crate::switchboard::{views_of_strings, Switchboard};

verus! {

/// An event pushed to other sessions.
#[derive(Debug, Clone, PartialEq, Eq)]
pub enum Event {
    Join { user_id: UserId, room_id: RoomId },
    Leave { user_id: UserId, room_id: RoomId },
    Blocked { by: UserId },
    Unblocked { by: UserId },
    Data { body: String },
}

/// The mathematical content of an event.
pub enum EventView {
    Join { user_id: Seq<char>, room_id: Seq<char> },
    Leave { user_id: Seq<char>, room_id: Seq<char> },
    Blocked { by: Seq<char> },
    Unblocked { by: Seq<char> },
    Data { body: Seq<char> },
}

pub open spec fn view_event(e: Event) -> EventView {
    match e {
        Event::Join { user_id, room_id } => EventView::Join {
            user_id: user_id@,
            room_id: room_id@,
        },
        Event::Leave { user_id, room_id } => EventView::Leave {
            user_id: user_id@,
            room_id: room_id@,
        },
        Event::Blocked { by } => EventView::Blocked { by: by@ },
        Event::Unblocked { by } => EventView::Unblocked { by: by@ },
        Event::Data { body } => EventView::Data { body: body@ },
    }
}

/// A JSON string literal: the text escaped, between quotes.
pub open spec fn jq(x: Seq<char>) -> Seq<char> {
    "\""@ + spec_escape(x) + "\""@
}

/// The JSON text of an event.
pub open spec fn spec_ser_event(e: EventView) -> Seq<char> {
    match e {
        EventView::Join { user_id, room_id } => "{\"event\":\"join\",\"user_id\":"@ + jq(user_id)
            + ",\"room_id\":"@ + jq(room_id) + "}"@,
        EventView::Leave { user_id, room_id } => "{\"event\":\"leave\",\"user_id\":"@ + jq(user_id)
            + ",\"room_id\":"@ + jq(room_id) + "}"@,
        EventView::Blocked { by } => "{\"event\":\"blocked\",\"by\":"@ + jq(by) + "}"@,
        EventView::Unblocked { by } => "{\"event\":\"unblocked\",\"by\":"@ + jq(by) + "}"@,
        EventView::Data { body } => "{\"event\":\"data\",\"body\":"@ + jq(body) + "}"@,
    }
}

/// Serializes an event as the signalling message its recipients see.
pub fn event_json(e: &Event) -> (r: String)
    ensures
        r@ == spec_ser_event(view_event(*e)),
{
    match e {
        Event::Join { user_id, room_id } => {
            let mut out = "{\"event\":\"join\",\"user_id\":".to_owned();
            out.append("\"");
            let eu = escape_json(user_id.as_str());
            out.append(eu.as_str());
            out.append("\"");
            out.append(",\"room_id\":");
            out.append("\"");
            let er = escape_json(room_id.as_str());
            out.append(er.as_str());
            out.append("\"");
            out.append("}");
            out
        },
        Event::Leave { user_id, room_id } => {
            let mut out = "{\"event\":\"leave\",\"user_id\":".to_owned();
            out.append("\"");
            let eu = escape_json(user_id.as_str());
            out.append(eu.as_str());
            out.append("\"");
            out.append(",\"room_id\":");
            out.append("\"");
            let er = escape_json(room_id.as_str());
            out.append(er.as_str());
            out.append("\"");
            out.append("}");
            out
        },
        Event::Blocked { by } => {
            let mut out = "{\"event\":\"blocked\",\"by\":".to_owned();
            out.append("\"");
            let eb = escape_json(by.as_str());
            out.append(eb.as_str());
            out.append("\"");
            out.append("}");
            out
        },
        Event::Unblocked { by } => {
            let mut out = "{\"event\":\"unblocked\",\"by\":".to_owned();
            out.append("\"");
            let eb = escape_json(by.as_str());
            out.append(eb.as_str());
            out.append("\"");
            out.append("}");
            out
        },
        Event::Data { body } => {
            let mut out = "{\"event\":\"data\",\"body\":".to_owned();
            out.append("\"");
            let eb = escape_json(body.as_str());
            out.append(eb.as_str());
            out.append("\"");
            out.append("}");
            out
        },
    }
}

/// How one character is written inside a JSON string: quotes, backslashes,
/// and the common control characters are escaped; everything else stands
/// as itself.
pub open spec fn escape_char(c: char) -> Seq<char> {
    if c == '"' {
        seq!['\\', '"']
    } else if c == '\\' {
        seq!['\\', '\\']
    } else if c == '\n' {
        seq!['\\', 'n']
    } else if c == '\r' {
        seq!['\\', 'r']
    } else if c == '\t' {
        seq!['\\', 't']
    } else {
        seq![c]
    }
}

/// The text with every character escaped as JSON requires.
pub open spec fn spec_escape(s: Seq<char>) -> Seq<char>
    decreases s.len(),
{
    if s.len() == 0 {
        Seq::empty()
    } else {
        spec_escape(s.drop_last()) + escape_char(s.last())
    }
}

/// Escapes text for embedding in a JSON string.
pub fn escape_json(s: &str) -> (r: String)
    ensures
        r@ == spec_escape(s@),
{
    let n = s.unicode_len();
    let mut out = String::new();
    let mut i: usize = 0;
    while i < n
        invariant
            n == s@.len(),
            i <= n,
            out@ == spec_escape(s@.take(i as int)),
        decreases n - i,
    {
        proof {
            assert(s@.take(i as int + 1).drop_last() =~= s@.take(i as int));
            assert(s@.take(i as int + 1).last() == s@[i as int]);
        }
        let c = s.get_char(i);
        if c == '"' {
            out.append("\\\"");
            proof {
                reveal_strlit("\\\"");
                assert(out@ =~= spec_escape(s@.take(i as int)) + escape_char(s@[i as int]));
            }
        } else if c == '\\' {
            out.append("\\\\");
            proof {
                reveal_strlit("\\\\");
                assert(out@ =~= spec_escape(s@.take(i as int)) + escape_char(s@[i as int]));
            }
        } else if c == '\n' {
            out.append("\\n");
            proof {
                reveal_strlit("\\n");
                assert(out@ =~= spec_escape(s@.take(i as int)) + escape_char(s@[i as int]));
            }
        } else if c == '\r' {
            out.append("\\r");
            proof {
                reveal_strlit("\\r");
                assert(out@ =~= spec_escape(s@.take(i as int)) + escape_char(s@[i as int]));
            }
        } else if c == '\t' {
            out.append("\\t");
            proof {
                reveal_strlit("\\t");
                assert(out@ =~= spec_escape(s@.take(i as int)) + escape_char(s@[i as int]));
            }
        } else {
            let piece = s.substring_char(i, i + 1);
            out.append(piece);
            proof {
                assert(piece@ =~= seq![s@[i as int]]);
                assert(out@ =~= spec_escape(s@.take(i as int)) + escape_char(s@[i as int]));
            }
        }
        i = i + 1;
    }
    proof {
        assert(s@.take(n as int) =~= s@);
    }
    out
}

/// The JSON text of a JSEP payload carrying an SDP text, which is escaped.
pub open spec fn spec_jsep_json(kind: Seq<char>, sdp: Seq<char>) -> Seq<char> {
    "{\"type\":\""@ + kind + "\",\"sdp\":\""@ + spec_escape(sdp) + "\"}"@
}

/// Serializes a JSEP payload: `kind` is `offer` or `answer`.
pub fn jsep_json(kind: &str, sdp: &str) -> (r: String)
    ensures
        r@ == spec_jsep_json(kind@, sdp@),
{
    let mut out = "{\"type\":\"".to_owned();
    out.append(kind);
    out.append("\",\"sdp\":\"");
    let esc = escape_json(sdp);
    out.append(esc.as_str());
    out.append("\"}");
    out
}

/// The comma-separated JSON list of quoted user ids.
pub open spec fn spec_user_list(us: Seq<Seq<char>>) -> Seq<char>
    decreases us.len(),
{
    if us.len() == 0 {
        Seq::empty()
    } else if us.len() == 1 {
        jq(us[0])
    } else {
        spec_user_list(us.drop_last()) + ","@ + jq(us.last())
    }
}

/// The JSON body answering a join: the room's users.
pub open spec fn spec_users_body(room: Seq<char>, us: Seq<Seq<char>>) -> Seq<char> {
    "{\"users\":{"@ + jq(room) + ":["@ + spec_user_list(us) + "]}}"@
}

/// Serializes the member list body of a join response.
pub fn users_body_json(room: &RoomId, users: &Vec<UserId>) -> (r: String)
    ensures
        r@ == spec_users_body(room@, views_of_strings(users@)),
{
    let mut out = "{\"users\":{".to_owned();
    out.append("\"");
    let eroom = escape_json(room.as_str());
    out.append(eroom.as_str());
    out.append("\"");
    out.append(":[");
    let mut i: usize = 0;
    let ghost us = views_of_strings(users@);
    let ghost head = out@;
    while i < users.len()
        invariant
            us == views_of_strings(users@),
            us.len() == users@.len(),
            i <= users@.len(),
            head == "{\"users\":{"@ + "\""@ + spec_escape(room@) + "\""@ + ":["@,
            out@ == head + spec_user_list(us.take(i as int)),
        decreases users@.len() - i,
    {
        proof {
            assert(us.take(i as int + 1).drop_last() =~= us.take(i as int));
            assert(us.take(i as int + 1).last() == us[i as int]);
            assert(us[i as int] == users@[i as int]@);
        }
        if i > 0 {
            out.append(",");
        }
        out.append("\"");
        let euser = escape_json(users[i].as_str());
        out.append(euser.as_str());
        out.append("\"");
        proof {
            if i == 0 {
                assert(spec_user_list(us.take(1)) =~= jq(us[0]));
                assert(out@ =~= head + jq(us[0]));
            } else {
                assert(out@ =~= head + (spec_user_list(us.take(i as int)) + ","@ + jq(
                    us[i as int],
                )));
                assert(spec_user_list(us.take(i as int + 1)) =~= spec_user_list(us.take(i as int))
                    + ","@ + jq(us[i as int]));
            }
        }
        i = i + 1;
    }
    proof {
        assert(us.take(us.len() as int) =~= us);
    }
    out.append("]}}");
    proof {
        assert(out@ =~= spec_users_body(room@, us));
    }
    out
}

/// The plain success envelope.
pub open spec fn spec_success_plain() -> Seq<char> {
    "{\"success\":true}"@
}

/// The success envelope wrapping a response body.
pub open spec fn spec_success_with(body: Seq<char>) -> Seq<char> {
    "{\"success\":true,\"response\":"@ + body + "}"@
}

/// The failure envelope wrapping an error message, which is escaped.
pub open spec fn spec_error_envelope(msg: Seq<char>) -> Seq<char> {
    "{\"success\":false,\"error\":{\"msg\":\""@ + spec_escape(msg) + "\"}}"@
}

/// Serializes the response envelope for a successful operation.
pub fn success_envelope(body: Option<&String>) -> (r: String)
    ensures
        body is None ==> r@ == spec_success_plain(),
        body matches Some(b) ==> r@ == spec_success_with(b@),
{
    match body {
        None => "{\"success\":true}".to_owned(),
        Some(b) => {
            let mut out = "{\"success\":true,\"response\":".to_owned();
            out.append(b.as_str());
            out.append("}");
            out
        },
    }
}

/// Serializes the response envelope for a failed operation.
pub fn error_envelope(msg: &String) -> (r: String)
    ensures
        r@ == spec_error_envelope(msg@),
{
    let mut out = "{\"success\":false,\"error\":{\"msg\":\"".to_owned();
    let esc = escape_json(msg.as_str());
    out.append(esc.as_str());
    out.append("\"}}");
    out
}

/// Whether the session `h` is an eligible recipient: it must have both a
/// subscription and a join state, the subscription must carry the right
/// flag (`data` for data traffic, `notifications` otherwise), and its user
/// must equal `u` (when `to_user` holds) or differ from `u` (otherwise).
pub open spec fn fanout_pass(
    sb: Switchboard,
    h: u64,
    data_flag: bool,
    to_user: bool,
    u: Seq<char>,
) -> bool {
    match (sb.spec_subscription_of(h), sb.spec_join_of(h)) {
        (Some(w), Some(js)) => (if data_flag {
            w.data
        } else {
            w.notifications
        }) && (if to_user {
            js.user_id@ == u
        } else {
            js.user_id@ != u
        }),
        _ => false,
    }
}

/// The candidates that pass the fan-out filter, in order.
pub open spec fn fanout_filtered(
    sb: Switchboard,
    hs: Seq<u64>,
    data_flag: bool,
    to_user: bool,
    u: Seq<char>,
) -> Seq<u64>
    decreases hs.len(),
{
    if hs.len() == 0 {
        Seq::empty()
    } else {
        fanout_filtered(sb, hs.drop_last(), data_flag, to_user, u) + if fanout_pass(
            sb,
            hs.last(),
            data_flag,
            to_user,
            u,
        ) {
            seq![hs.last()]
        } else {
            Seq::empty()
        }
    }
}

fn fanout_targets(
    sb: &Switchboard,
    candidates: &Vec<u64>,
    data_flag: bool,
    to_user: bool,
    u: &UserId,
) -> (r: Vec<u64>)
    ensures
        r@ == fanout_filtered(*sb, candidates@, data_flag, to_user, u@),
{
    let mut out: Vec<u64> = Vec::new();
    let mut i: usize = 0;
    while i < candidates.len()
        invariant
            i <= candidates@.len(),
            out@ == fanout_filtered(*sb, candidates@.take(i as int), data_flag, to_user, u@),
        decreases candidates@.len() - i,
    {
        proof {
            assert(candidates@.take(i as int + 1).drop_last() =~= candidates@.take(i as int));
            assert(candidates@.take(i as int + 1).last() == candidates@[i as int]);
        }
        let h = candidates[i];
        let pass = match (sb.subscription_of(h), sb.join_state_of(h)) {
            (Some(w), Some(js)) => {
                let flag = if data_flag {
                    w.data
                } else {
                    w.notifications
                };
                let user_match = js.user_id.eq(u);
                flag && (if to_user {
                    user_match
                } else {
                    !user_match
                })
            },
            _ => false,
        };
        if pass {
            out.push(h);
            proof {
                assert(out@ =~= fanout_filtered(*sb, candidates@.take(i as int), data_flag, to_user, u@)
                    + seq![h]);
            }
        } else {
            proof {
                assert(fanout_filtered(*sb, candidates@.take(i as int + 1), data_flag, to_user, u@)
                    =~= fanout_filtered(*sb, candidates@.take(i as int), data_flag, to_user, u@));
            }
        }
        i = i + 1;
    }
    proof {
        assert(candidates@.take(candidates@.len() as int) =~= candidates@);
    }
    out
}

/// The candidates to notify with an event about `myself`: every session
/// with notifications on, except the user's own sessions.
pub fn notify_except(sb: &Switchboard, myself: &UserId, candidates: &Vec<u64>) -> (r: Vec<u64>)
    ensures
        r@ == fanout_filtered(*sb, candidates@, false, false, myself@),
{
    fanout_targets(sb, candidates, false, false, myself)
}

/// The candidates to notify that belong to `target` and have notifications
/// on.
pub fn notify_user(sb: &Switchboard, target: &UserId, candidates: &Vec<u64>) -> (r: Vec<u64>)
    ensures
        r@ == fanout_filtered(*sb, candidates@, false, true, target@),
{
    fanout_targets(sb, candidates, false, true, target)
}

/// The candidates to hand a data message to: every data-subscribed session
/// except the sender's own.
pub fn send_data_except(sb: &Switchboard, myself: &UserId, candidates: &Vec<u64>) -> (r: Vec<u64>)
    ensures
        r@ == fanout_filtered(*sb, candidates@, true, false, myself@),
{
    fanout_targets(sb, candidates, true, false, myself)
}

/// The candidates to hand a data message to that belong to `target` and
/// are data-subscribed.
pub fn send_data_user(sb: &Switchboard, target: &UserId, candidates: &Vec<u64>) -> (r: Vec<u64>)
    ensures
        r@ == fanout_filtered(*sb, candidates@, true, true, target@),
{
    fanout_targets(sb, candidates, true, true, target)
}

/// Membership in the fan-out: a handle is among the targets exactly when
/// it is among the candidates and passes the filter.
pub proof fn lemma_fanout_contains(
    sb: Switchboard,
    hs: Seq<u64>,
    data_flag: bool,
    to_user: bool,
    u: Seq<char>,
    x: u64,
)
    ensures
        fanout_filtered(sb, hs, data_flag, to_user, u).contains(x) <==> (hs.contains(x)
            && fanout_pass(sb, x, data_flag, to_user, u)),
    decreases hs.len(),
{
    if hs.len() == 0 {
    } else {
        let pre = hs.drop_last();
        lemma_fanout_contains(sb, pre, data_flag, to_user, u, x);
        let d = fanout_filtered(sb, pre, data_flag, to_user, u);
        if fanout_pass(sb, hs.last(), data_flag, to_user, u) {
            assert(fanout_filtered(sb, hs, data_flag, to_user, u) =~= d + seq![hs.last()]);
            assert forall|y: u64| (d + seq![hs.last()]).contains(y) implies (d.contains(y) || y
                == hs.last()) by {
                let k = choose|k: int|
                    0 <= k < (d + seq![hs.last()]).len() && (d + seq![hs.last()])[k] == y;
                if k < d.len() {
                    assert(d[k] == y);
                }
            }
            if d.contains(x) || x == hs.last() {
                if x == hs.last() {
                    assert((d + seq![hs.last()])[d.len() as int] == x);
                } else {
                    let k = choose|k: int| 0 <= k < d.len() && d[k] == x;
                    assert((d + seq![hs.last()])[k] == x);
                }
            }
        } else {
            assert(fanout_filtered(sb, hs, data_flag, to_user, u) =~= d);
        }
        if pre.contains(x) {
            let k = choose|k: int| 0 <= k < pre.len() && pre[k] == x;
            assert(hs[k] == x);
        }
        if hs.contains(x) {
            let k = choose|k: int| 0 <= k < hs.len() && hs[k] == x;
            if k < hs.len() - 1 {
                assert(pre[k] == x);
            }
        }
    }
}

/// Two switchboards that agree on the filter verdict of every candidate
/// fan out to the same targets.
pub proof fn lemma_fanout_congruence(
    a: Switchboard,
    b: Switchboard,
    hs: Seq<u64>,
    data_flag: bool,
    to_user: bool,
    u: Seq<char>,
)
    requires
        forall|k: int|
            0 <= k < hs.len() ==> fanout_pass(a, #[trigger] hs[k], data_flag, to_user, u)
                == fanout_pass(b, hs[k], data_flag, to_user, u),
    ensures
        fanout_filtered(a, hs, data_flag, to_user, u) == fanout_filtered(
            b,
            hs,
            data_flag,
            to_user,
            u,
        ),
    decreases hs.len(),
{
    if hs.len() == 0 {
    } else {
        let pre = hs.drop_last();
        assert(forall|k: int|
            0 <= k < pre.len() ==> fanout_pass(a, #[trigger] pre[k], data_flag, to_user, u)
                == fanout_pass(b, pre[k], data_flag, to_user, u));
        lemma_fanout_congruence(a, b, pre, data_flag, to_user, u);
        assert(hs[hs.len() - 1] == hs.last());
        assert(fanout_pass(a, hs.last(), data_flag, to_user, u) == fanout_pass(
            b,
            hs.last(),
            data_flag,
            to_user,
            u,
        ));
    }
}

/// The fan-out never invents or repeats targets: over a duplicate-free
/// candidate list its result is duplicate-free.
pub proof fn lemma_fanout_nodup(
    sb: Switchboard,
    hs: Seq<u64>,
    data_flag: bool,
    to_user: bool,
    u: Seq<char>,
)
    requires
        forall|i: int, j: int| #![trigger hs[i], hs[j]] 0 <= i < j < hs.len() ==> hs[i] != hs[j],
    ensures
        forall|i: int, j: int|
            #![trigger fanout_filtered(sb, hs, data_flag, to_user, u)[i], fanout_filtered(sb, hs, data_flag, to_user, u)[j]]
            0 <= i < j < fanout_filtered(sb, hs, data_flag, to_user, u).len() ==> fanout_filtered(
                sb,
                hs,
                data_flag,
                to_user,
                u,
            )[i] != fanout_filtered(sb, hs, data_flag, to_user, u)[j],
    decreases hs.len(),
{
    if hs.len() == 0 {
    } else {
        let pre = hs.drop_last();
        assert(forall|i: int, j: int|
            #![trigger pre[i], pre[j]]
            0 <= i < j < pre.len() ==> pre[i] != pre[j]);
        lemma_fanout_nodup(sb, pre, data_flag, to_user, u);
        let d = fanout_filtered(sb, pre, data_flag, to_user, u);
        let w = fanout_filtered(sb, hs, data_flag, to_user, u);
        if fanout_pass(sb, hs.last(), data_flag, to_user, u) {
            assert(w =~= d + seq![hs.last()]);
            assert forall|i: int, j: int| 0 <= i < j < w.len() implies w[i] != w[j] by {
                if j == d.len() {
                    if w[i] == hs.last() {
                        assert(d[i] == hs.last());
                        assert(d.contains(hs.last()));
                        lemma_fanout_contains(sb, pre, data_flag, to_user, u, hs.last());
                        let k = choose|k: int| 0 <= k < pre.len() && pre[k] == hs.last();
                        assert(hs[k] == hs[hs.len() - 1]);
                    }
                }
            }
        } else {
            assert(w =~= d);
        }
    }
}

} // verus!
