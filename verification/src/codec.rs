//! The wire codec for signalling messages: a parser for the JSON payloads
//! clients send, and a canonical serializer. The grammar is the fixed
//! message shape: one object of known keys in any order, string or integer
//! identifiers, `true`/`false`/`null` scalars, and one level of nested
//! subscription object. Strings carry the escapes JSON writes with a
//! single letter or symbol; numeric escapes are not read.

use vstd::prelude::*;

use crate::events::{escape_char, escape_json, spec_escape};
use crate::messages::{
    JsepKind, JsepView, MessageKind, MessageView, OptionalField, Subscription, SubscriptionView,
    view_jsep, view_message,
};

verus! {

/// The error returned for a payload that does not parse as a message.
#[derive(Debug, Clone, Copy, PartialEq, Eq, Structural)]
pub struct ParseError;

/// What a payload means: nothing (an empty object), one message, or a
/// malformed text.
pub enum ParseOutcome {
    Empty,
    Message(MessageView),
    Invalid,
}

/// The fields collected while walking the members of a message object.
/// The outer option records whether the key was seen at all; for keys that
/// admit `null`, the inner option records the value.
pub struct Raw {
    pub kind: Option<String>,
    pub room_id: Option<String>,
    pub user_id: Option<String>,
    pub token: Option<Option<String>>,
    pub whom: Option<Option<String>>,
    pub body: Option<String>,
    pub subscribe: Option<Option<Subscription>>,
    pub what: Option<Subscription>,
}

/// The view of a `Raw` record.
pub struct RawView {
    pub kind: Option<Seq<char>>,
    pub room_id: Option<Seq<char>>,
    pub user_id: Option<Seq<char>>,
    pub token: Option<Option<Seq<char>>>,
    pub whom: Option<Option<Seq<char>>>,
    pub body: Option<Seq<char>>,
    pub subscribe: Option<Option<SubscriptionView>>,
    pub what: Option<SubscriptionView>,
}

pub open spec fn view_opt2_string(o: Option<Option<String>>) -> Option<Option<Seq<char>>> {
    match o {
        None => None,
        Some(None) => Some(None),
        Some(Some(s)) => Some(Some(s@)),
    }
}

pub open spec fn view_raw(r: Raw) -> RawView {
    RawView {
        kind: crate::messages::view_opt_string(r.kind),
        room_id: crate::messages::view_opt_string(r.room_id),
        user_id: crate::messages::view_opt_string(r.user_id),
        token: view_opt2_string(r.token),
        whom: view_opt2_string(r.whom),
        body: crate::messages::view_opt_string(r.body),
        subscribe: match r.subscribe {
            None => None,
            Some(None) => Some(None),
            Some(Some(w)) => Some(Some(crate::messages::view_subscription(w))),
        },
        what: match r.what {
            None => None,
            Some(w) => Some(crate::messages::view_subscription(w)),
        },
    }
}

/// A record with no key seen yet.
pub open spec fn raw_empty() -> RawView {
    RawView {
        kind: None,
        room_id: None,
        user_id: None,
        token: None,
        whom: None,
        body: None,
        subscribe: None,
        what: None,
    }
}

/// How many of the record's keys are still unseen; the member walk sets one
/// per step, so this bounds its recursion.
pub open spec fn count_unset(r: RawView) -> int {
    (if r.kind is None {
        1int
    } else {
        0int
    }) + (if r.room_id is None {
        1int
    } else {
        0int
    }) + (if r.user_id is None {
        1int
    } else {
        0int
    }) + (if r.token is None {
        1int
    } else {
        0int
    }) + (if r.whom is None {
        1int
    } else {
        0int
    }) + (if r.body is None {
        1int
    } else {
        0int
    }) + (if r.subscribe is None {
        1int
    } else {
        0int
    }) + (if r.what is None {
        1int
    } else {
        0int
    })
}

/// The fields collected while walking a subscription object.
pub struct SubRaw {
    pub notifications: Option<bool>,
    pub data: Option<bool>,
    pub media: Option<Option<String>>,
}

pub struct SubRawView {
    pub notifications: Option<bool>,
    pub data: Option<bool>,
    pub media: Option<Option<Seq<char>>>,
}

pub open spec fn view_sub_raw(r: SubRaw) -> SubRawView {
    SubRawView {
        notifications: r.notifications,
        data: r.data,
        media: view_opt2_string(r.media),
    }
}

pub open spec fn sub_raw_empty() -> SubRawView {
    SubRawView { notifications: None, data: None, media: None }
}

pub open spec fn count_unset_sub(r: SubRawView) -> int {
    (if r.notifications is None {
        1int
    } else {
        0int
    }) + (if r.data is None {
        1int
    } else {
        0int
    }) + (if r.media is None {
        1int
    } else {
        0int
    })
}

/// A subscription record with serde-style defaults for unseen keys.
pub open spec fn sub_raw_finish(r: SubRawView) -> SubscriptionView {
    SubscriptionView {
        notifications: match r.notifications {
            None => false,
            Some(b) => b,
        },
        data: match r.data {
            None => false,
            Some(b) => b,
        },
        media: match r.media {
            None => None,
            Some(m) => m,
        },
    }
}

pub open spec fn is_ws(c: char) -> bool {
    c == ' ' || c == '\t' || c == '\n' || c == '\r'
}

pub open spec fn is_digit(c: char) -> bool {
    '0' <= c && c <= '9'
}

/// The first position at or after `i` holding a non-whitespace character
/// (or the end of the text).
pub open spec fn skip_ws(s: Seq<char>, i: int) -> int
    decreases s.len() - i,
{
    if 0 <= i < s.len() && is_ws(s[i]) {
        skip_ws(s, i + 1)
    } else {
        i
    }
}

/// The character a backslash escape code denotes, for the escapes JSON
/// defines by a single letter or symbol.
pub open spec fn escape_code(c: char) -> Option<char> {
    if c == '"' {
        Some('"')
    } else if c == '\\' {
        Some('\\')
    } else if c == '/' {
        Some('/')
    } else if c == 'b' {
        Some('\u{0008}')
    } else if c == 'f' {
        Some('\u{000C}')
    } else if c == 'n' {
        Some('\n')
    } else if c == 'r' {
        Some('\r')
    } else if c == 't' {
        Some('\t')
    } else {
        None
    }
}

/// The contents of a JSON string read from `i` up to its closing quote,
/// escape sequences decoded, gathered onto `acc`; and the position after
/// the quote.
pub open spec fn parse_string_body(s: Seq<char>, i: int, acc: Seq<char>) -> Option<
    (Seq<char>, int),
>
    decreases s.len() - i,
{
    if !(0 <= i < s.len()) {
        None
    } else if s[i] == '"' {
        Some((acc, i + 1))
    } else if s[i] == '\\' {
        if i + 1 < s.len() {
            match escape_code(s[i + 1]) {
                Some(c) => parse_string_body(s, i + 2, acc.push(c)),
                None => None,
            }
        } else {
            None
        }
    } else {
        parse_string_body(s, i + 1, acc.push(s[i]))
    }
}

/// The first position at or after `i` holding a non-digit character.
pub open spec fn digits_end(s: Seq<char>, i: int) -> int
    decreases s.len() - i,
{
    if 0 <= i < s.len() && is_digit(s[i]) {
        digits_end(s, i + 1)
    } else {
        i
    }
}

/// A JSON string at `i`: its decoded contents and the position after it.
pub open spec fn parse_jstring(s: Seq<char>, i: int) -> Option<(Seq<char>, int)> {
    if 0 <= i < s.len() && s[i] == '"' {
        parse_string_body(s, i + 1, Seq::empty())
    } else {
        None
    }
}

/// An identifier value at `i`: a JSON string, or a run of digits taken as
/// the identifier's text.
pub open spec fn parse_id_value(s: Seq<char>, i: int) -> Option<(Seq<char>, int)> {
    if 0 <= i < s.len() && s[i] == '"' {
        parse_jstring(s, i)
    } else if 0 <= i < s.len() && is_digit(s[i]) {
        Some((s.subrange(i, digits_end(s, i)), digits_end(s, i)))
    } else {
        None
    }
}

pub open spec fn has_null(s: Seq<char>, i: int) -> bool {
    &&& 0 <= i
    &&& i + 4 <= s.len()
    &&& s[i] == 'n'
    &&& s[i + 1] == 'u'
    &&& s[i + 2] == 'l'
    &&& s[i + 3] == 'l'
}

pub open spec fn has_true(s: Seq<char>, i: int) -> bool {
    &&& 0 <= i
    &&& i + 4 <= s.len()
    &&& s[i] == 't'
    &&& s[i + 1] == 'r'
    &&& s[i + 2] == 'u'
    &&& s[i + 3] == 'e'
}

pub open spec fn has_false(s: Seq<char>, i: int) -> bool {
    &&& 0 <= i
    &&& i + 5 <= s.len()
    &&& s[i] == 'f'
    &&& s[i + 1] == 'a'
    &&& s[i + 2] == 'l'
    &&& s[i + 3] == 's'
    &&& s[i + 4] == 'e'
}

/// A boolean literal at `i`.
pub open spec fn parse_bool(s: Seq<char>, i: int) -> Option<(bool, int)> {
    if has_true(s, i) {
        Some((true, i + 4))
    } else if has_false(s, i) {
        Some((false, i + 5))
    } else {
        None
    }
}

/// After one member's value ends at `j`: a comma continues the walk at the
/// following position, a closing brace ends the object.
pub enum MemberTail {
    Continue(int),
    Close(int),
    Bad,
}

pub open spec fn member_tail(s: Seq<char>, j: int) -> MemberTail {
    let t = skip_ws(s, j);
    if 0 <= t < s.len() && s[t] == ',' {
        MemberTail::Continue(t + 1)
    } else if 0 <= t < s.len() && s[t] == '}' {
        MemberTail::Close(t + 1)
    } else {
        MemberTail::Bad
    }
}

/// One key of a subscription object with its value, merged into `acc`.
/// A duplicate or unknown key, or an ill-typed value, is an error.
pub open spec fn sub_member_value(s: Seq<char>, i: int, key: Seq<char>, acc: SubRawView) -> Option<
    (SubRawView, int),
> {
    if key == "notifications"@ {
        if acc.notifications is None {
            match parse_bool(s, i) {
                Some((b, j)) => Some((SubRawView { notifications: Some(b), ..acc }, j)),
                None => None,
            }
        } else {
            None
        }
    } else if key == "data"@ {
        if acc.data is None {
            match parse_bool(s, i) {
                Some((b, j)) => Some((SubRawView { data: Some(b), ..acc }, j)),
                None => None,
            }
        } else {
            None
        }
    } else if key == "media"@ {
        if acc.media is None {
            if has_null(s, i) {
                Some((SubRawView { media: Some(None), ..acc }, i + 4))
            } else {
                match parse_id_value(s, i) {
                    Some((x, j)) => Some((SubRawView { media: Some(Some(x)), ..acc }, j)),
                    None => None,
                }
            }
        } else {
            None
        }
    } else {
        None
    }
}

/// The members of a subscription object, starting just after `{` or after a
/// comma: collects keys until the closing brace.
pub open spec fn parse_sub_members(s: Seq<char>, i: int, acc: SubRawView) -> Option<
    (SubRawView, int),
>
    decreases count_unset_sub(acc),
{
    let i1 = skip_ws(s, i);
    match parse_jstring(s, i1) {
        None => None,
        Some((key, i2)) => {
            let i3 = skip_ws(s, i2);
            if 0 <= i3 < s.len() && s[i3] == ':' {
                let i4 = skip_ws(s, i3 + 1);
                match sub_member_value(s, i4, key, acc) {
                    None => None,
                    Some((acc2, j)) => match member_tail(s, j) {
                        MemberTail::Close(j2) => Some((acc2, j2)),
                        MemberTail::Continue(j2) => if count_unset_sub(acc2) < count_unset_sub(
                            acc,
                        ) {
                            parse_sub_members(s, j2, acc2)
                        } else {
                            None
                        },
                        MemberTail::Bad => None,
                    },
                }
            } else {
                None
            }
        },
    }
}

/// A subscription object at `i`.
pub open spec fn parse_subscription(s: Seq<char>, i: int) -> Option<(SubscriptionView, int)> {
    if 0 <= i < s.len() && s[i] == '{' {
        let i1 = skip_ws(s, i + 1);
        if 0 <= i1 < s.len() && s[i1] == '}' {
            Some((sub_raw_finish(sub_raw_empty()), i1 + 1))
        } else {
            match parse_sub_members(s, i + 1, sub_raw_empty()) {
                Some((r, j)) => Some((sub_raw_finish(r), j)),
                None => None,
            }
        }
    } else {
        None
    }
}

/// One key of a message object with its value, merged into `acc`.
pub open spec fn member_value(s: Seq<char>, i: int, key: Seq<char>, acc: RawView) -> Option<
    (RawView, int),
> {
    if key == "kind"@ {
        if acc.kind is None {
            match parse_jstring(s, i) {
                Some((x, j)) => Some((RawView { kind: Some(x), ..acc }, j)),
                None => None,
            }
        } else {
            None
        }
    } else if key == "room_id"@ {
        if acc.room_id is None {
            match parse_id_value(s, i) {
                Some((x, j)) => Some((RawView { room_id: Some(x), ..acc }, j)),
                None => None,
            }
        } else {
            None
        }
    } else if key == "user_id"@ {
        if acc.user_id is None {
            match parse_id_value(s, i) {
                Some((x, j)) => Some((RawView { user_id: Some(x), ..acc }, j)),
                None => None,
            }
        } else {
            None
        }
    } else if key == "token"@ {
        if acc.token is None {
            if has_null(s, i) {
                Some((RawView { token: Some(None), ..acc }, i + 4))
            } else {
                match parse_jstring(s, i) {
                    Some((x, j)) => Some((RawView { token: Some(Some(x)), ..acc }, j)),
                    None => None,
                }
            }
        } else {
            None
        }
    } else if key == "whom"@ {
        if acc.whom is None {
            if has_null(s, i) {
                Some((RawView { whom: Some(None), ..acc }, i + 4))
            } else {
                match parse_id_value(s, i) {
                    Some((x, j)) => Some((RawView { whom: Some(Some(x)), ..acc }, j)),
                    None => None,
                }
            }
        } else {
            None
        }
    } else if key == "body"@ {
        if acc.body is None {
            match parse_jstring(s, i) {
                Some((x, j)) => Some((RawView { body: Some(x), ..acc }, j)),
                None => None,
            }
        } else {
            None
        }
    } else if key == "subscribe"@ {
        if acc.subscribe is None {
            if has_null(s, i) {
                Some((RawView { subscribe: Some(None), ..acc }, i + 4))
            } else {
                match parse_subscription(s, i) {
                    Some((w, j)) => Some((RawView { subscribe: Some(Some(w)), ..acc }, j)),
                    None => None,
                }
            }
        } else {
            None
        }
    } else if key == "what"@ {
        if acc.what is None {
            match parse_subscription(s, i) {
                Some((w, j)) => Some((RawView { what: Some(w), ..acc }, j)),
                None => None,
            }
        } else {
            None
        }
    } else {
        None
    }
}

/// The members of a message object, starting just after `{` or after a
/// comma: collects keys until the closing brace.
pub open spec fn parse_members(s: Seq<char>, i: int, acc: RawView) -> Option<(RawView, int)>
    decreases count_unset(acc),
{
    let i1 = skip_ws(s, i);
    match parse_jstring(s, i1) {
        None => None,
        Some((key, i2)) => {
            let i3 = skip_ws(s, i2);
            if 0 <= i3 < s.len() && s[i3] == ':' {
                let i4 = skip_ws(s, i3 + 1);
                match member_value(s, i4, key, acc) {
                    None => None,
                    Some((acc2, j)) => match member_tail(s, j) {
                        MemberTail::Close(j2) => Some((acc2, j2)),
                        MemberTail::Continue(j2) => if count_unset(acc2) < count_unset(acc) {
                            parse_members(s, j2, acc2)
                        } else {
                            None
                        },
                        MemberTail::Bad => None,
                    },
                }
            } else {
                None
            }
        },
    }
}

/// Assembles a message from the collected fields, enforcing which keys each
/// kind requires.
pub open spec fn build_message(r: RawView) -> ParseOutcome {
    match r.kind {
        None => ParseOutcome::Invalid,
        Some(k) => {
            if k == "join"@ {
                match (r.room_id, r.user_id) {
                    (Some(rm), Some(u)) => ParseOutcome::Message(
                        MessageView::Join {
                            room_id: rm,
                            user_id: u,
                            subscribe: match r.subscribe {
                                None => None,
                                Some(w) => w,
                            },
                            token: match r.token {
                                None => None,
                                Some(t) => t,
                            },
                        },
                    ),
                    _ => ParseOutcome::Invalid,
                }
            } else if k == "kick"@ {
                match (r.room_id, r.user_id, r.token) {
                    (Some(rm), Some(u), Some(Some(t))) => ParseOutcome::Message(
                        MessageView::Kick { room_id: rm, user_id: u, token: t },
                    ),
                    _ => ParseOutcome::Invalid,
                }
            } else if k == "subscribe"@ {
                match r.what {
                    Some(w) => ParseOutcome::Message(MessageView::Subscribe { what: w }),
                    None => ParseOutcome::Invalid,
                }
            } else if k == "block"@ {
                match r.whom {
                    Some(Some(w)) => ParseOutcome::Message(MessageView::Block { whom: w }),
                    _ => ParseOutcome::Invalid,
                }
            } else if k == "unblock"@ {
                match r.whom {
                    Some(Some(w)) => ParseOutcome::Message(MessageView::Unblock { whom: w }),
                    _ => ParseOutcome::Invalid,
                }
            } else if k == "data"@ {
                match r.body {
                    Some(b) => ParseOutcome::Message(
                        MessageView::Data {
                            whom: match r.whom {
                                None => None,
                                Some(w) => w,
                            },
                            body: b,
                        },
                    ),
                    None => ParseOutcome::Invalid,
                }
            } else {
                ParseOutcome::Invalid
            }
        },
    }
}

/// What a whole payload means: an empty object is the absent message; any
/// other well-formed object must be a message; everything else, including
/// trailing text, is invalid.
pub open spec fn spec_parse_message(s: Seq<char>) -> ParseOutcome {
    let i0 = skip_ws(s, 0);
    if 0 <= i0 < s.len() && s[i0] == '{' {
        let i1 = skip_ws(s, i0 + 1);
        if 0 <= i1 < s.len() && s[i1] == '}' {
            if skip_ws(s, i1 + 1) == s.len() {
                ParseOutcome::Empty
            } else {
                ParseOutcome::Invalid
            }
        } else {
            match parse_members(s, i0 + 1, raw_empty()) {
                None => ParseOutcome::Invalid,
                Some((r, j)) => if skip_ws(s, j) == s.len() {
                    build_message(r)
                } else {
                    ParseOutcome::Invalid
                },
            }
        }
    } else {
        ParseOutcome::Invalid
    }
}

/// The fields collected while walking a JSEP object.
pub struct JsepRaw {
    pub kind_field: Option<String>,
    pub sdp: Option<String>,
}

pub struct JsepRawView {
    pub kind_field: Option<Seq<char>>,
    pub sdp: Option<Seq<char>>,
}

pub open spec fn view_jsep_raw(r: JsepRaw) -> JsepRawView {
    JsepRawView {
        kind_field: crate::messages::view_opt_string(r.kind_field),
        sdp: crate::messages::view_opt_string(r.sdp),
    }
}

pub open spec fn jsep_raw_empty() -> JsepRawView {
    JsepRawView { kind_field: None, sdp: None }
}

pub open spec fn count_unset_jsep(r: JsepRawView) -> int {
    (if r.kind_field is None {
        1int
    } else {
        0int
    }) + (if r.sdp is None {
        1int
    } else {
        0int
    })
}

/// One key of a JSEP object with its value, merged into `acc`.
pub open spec fn jsep_member_value(s: Seq<char>, i: int, key: Seq<char>, acc: JsepRawView) -> Option<
    (JsepRawView, int),
> {
    if key == "type"@ {
        if acc.kind_field is None {
            match parse_jstring(s, i) {
                Some((x, j)) => Some((JsepRawView { kind_field: Some(x), ..acc }, j)),
                None => None,
            }
        } else {
            None
        }
    } else if key == "sdp"@ {
        if acc.sdp is None {
            match parse_jstring(s, i) {
                Some((x, j)) => Some((JsepRawView { sdp: Some(x), ..acc }, j)),
                None => None,
            }
        } else {
            None
        }
    } else {
        None
    }
}

/// The members of a JSEP object, starting just after `{` or after a comma.
pub open spec fn parse_jsep_members(s: Seq<char>, i: int, acc: JsepRawView) -> Option<
    (JsepRawView, int),
>
    decreases count_unset_jsep(acc),
{
    let i1 = skip_ws(s, i);
    match parse_jstring(s, i1) {
        None => None,
        Some((key, i2)) => {
            let i3 = skip_ws(s, i2);
            if 0 <= i3 < s.len() && s[i3] == ':' {
                let i4 = skip_ws(s, i3 + 1);
                match jsep_member_value(s, i4, key, acc) {
                    None => None,
                    Some((acc2, j)) => match member_tail(s, j) {
                        MemberTail::Close(j2) => Some((acc2, j2)),
                        MemberTail::Continue(j2) => if count_unset_jsep(acc2) < count_unset_jsep(
                            acc,
                        ) {
                            parse_jsep_members(s, j2, acc2)
                        } else {
                            None
                        },
                        MemberTail::Bad => None,
                    },
                }
            } else {
                None
            }
        },
    }
}

/// What a JSEP payload means: an offer or answer with its SDP text, or
/// nothing for any other shape.
pub open spec fn spec_parse_jsep(s: Seq<char>) -> Option<JsepView> {
    let i0 = skip_ws(s, 0);
    if 0 <= i0 < s.len() && s[i0] == '{' {
        match parse_jsep_members(s, i0 + 1, jsep_raw_empty()) {
            None => None,
            Some((r, j)) => if skip_ws(s, j) == s.len() {
                match (r.kind_field, r.sdp) {
                    (Some(k), Some(sdp)) => if k == "offer"@ {
                        Some(JsepView::Offer { sdp })
                    } else if k == "answer"@ {
                        Some(JsepView::Answer { sdp })
                    } else {
                        None
                    },
                    _ => None,
                }
            } else {
                None
            },
        }
    } else {
        None
    }
}

/// A JSON string literal: the text escaped, between quotes.
pub open spec fn jstr(x: Seq<char>) -> Seq<char> {
    "\""@ + spec_escape(x) + "\""@
}

/// The canonical serialization of a subscription.
pub open spec fn spec_ser_sub(v: SubscriptionView) -> Seq<char> {
    "{\"notifications\":"@ + (if v.notifications {
        "true"@
    } else {
        "false"@
    }) + ",\"data\":"@ + (if v.data {
        "true"@
    } else {
        "false"@
    }) + ",\"media\":"@ + (match v.media {
        None => "null"@,
        Some(x) => jstr(x),
    }) + "}"@
}

/// The canonical serialization of a message, with each kind's keys in a
/// fixed order and absent optional keys omitted.
pub open spec fn spec_ser_message(v: MessageView) -> Seq<char> {
    match v {
        MessageView::Join { room_id, user_id, subscribe, token } => "{\"kind\":\"join\",\"room_id\":"@
            + jstr(room_id) + ",\"user_id\":"@ + jstr(user_id) + (match subscribe {
            None => Seq::<char>::empty(),
            Some(w) => ",\"subscribe\":"@ + spec_ser_sub(w),
        }) + (match token {
            None => Seq::<char>::empty(),
            Some(t) => ",\"token\":"@ + jstr(t),
        }) + "}"@,
        MessageView::Kick { room_id, user_id, token } => "{\"kind\":\"kick\",\"room_id\":"@ + jstr(
            room_id,
        ) + ",\"user_id\":"@ + jstr(user_id) + ",\"token\":"@ + jstr(token) + "}"@,
        MessageView::Subscribe { what } => "{\"kind\":\"subscribe\",\"what\":"@ + spec_ser_sub(what)
            + "}"@,
        MessageView::Block { whom } => "{\"kind\":\"block\",\"whom\":"@ + jstr(whom) + "}"@,
        MessageView::Unblock { whom } => "{\"kind\":\"unblock\",\"whom\":"@ + jstr(whom) + "}"@,
        MessageView::Data { whom, body } => "{\"kind\":\"data\","@ + (match whom {
            None => Seq::<char>::empty(),
            Some(w) => "\"whom\":"@ + jstr(w) + ","@,
        }) + "\"body\":"@ + jstr(body) + "}"@,
    }
}

impl OptionalField<MessageKind> {
    /// Parses a payload that may hold a message or nothing, collapsing the
    /// empty case into `None`.
    pub fn try_parse(val: &str) -> (r: Result<Option<MessageKind>, ParseError>)
        ensures
            spec_parse_message(val@) == ParseOutcome::Empty <==> r == Ok::<
                Option<MessageKind>,
                ParseError,
            >(None),
            r matches Ok(o) ==> (o matches Some(m) ==> spec_parse_message(val@)
                == ParseOutcome::Message(view_message(m))),
            r is Err <==> spec_parse_message(val@) == ParseOutcome::Invalid,
    {
        match parse_message(val) {
            Ok(of) => Ok(of.into_option()),
            Err(e) => Err(e),
        }
    }
}

fn skip_ws_exec(s: &str, n: usize, i: usize) -> (r: usize)
    requires
        n == s@.len(),
        i <= n,
    ensures
        r as int == skip_ws(s@, i as int),
        i <= r <= n,
    decreases n - i,
{
    if i < n {
        let c = s.get_char(i);
        if c == ' ' || c == '\t' || c == '\n' || c == '\r' {
            return skip_ws_exec(s, n, i + 1);
        }
    }
    i
}

fn digits_end_exec(s: &str, n: usize, i: usize) -> (r: usize)
    requires
        n == s@.len(),
        i <= n,
    ensures
        r as int == digits_end(s@, i as int),
        i <= r <= n,
    decreases n - i,
{
    if i < n {
        let c = s.get_char(i);
        if '0' <= c && c <= '9' {
            return digits_end_exec(s, n, i + 1);
        }
    }
    i
}

fn parse_jstring_exec(s: &str, n: usize, i: usize) -> (r: Option<(String, usize)>)
    requires
        n == s@.len(),
        i <= n,
    ensures
        r matches Some(p) ==> (parse_jstring(s@, i as int) == Some((p.0@, p.1 as int)) && p.1
            <= n),
        r is None ==> parse_jstring(s@, i as int) is None,
{
    if !(i < n && s.get_char(i) == '"') {
        return None;
    }
    let mut out = String::new();
    let mut j = i + 1;
    while j < n
        invariant
            n == s@.len(),
            i + 1 <= j <= n,
            s@[i as int] == '"',
            parse_string_body(s@, i as int + 1, Seq::<char>::empty()) == parse_string_body(
                s@,
                j as int,
                out@,
            ),
        decreases n - j,
    {
        let ghost prior = out@;
        let c = s.get_char(j);
        if c == '"' {
            return Some((out, j + 1));
        } else if c == '\\' {
            if j + 1 < n {
                let c2 = s.get_char(j + 1);
                if c2 == '"' {
                    out.append("\"");
                    proof {
                        reveal_strlit("\"");
                        assert(out@ =~= prior.push('"'));
                    }
                } else if c2 == '\\' {
                    out.append("\\");
                    proof {
                        reveal_strlit("\\");
                        assert(out@ =~= prior.push('\\'));
                    }
                } else if c2 == '/' {
                    out.append("/");
                    proof {
                        reveal_strlit("/");
                        assert(out@ =~= prior.push('/'));
                    }
                } else if c2 == 'b' {
                    out.append("\u{0008}");
                    proof {
                        reveal_strlit("\u{0008}");
                        assert(out@ =~= prior.push('\u{0008}'));
                    }
                } else if c2 == 'f' {
                    out.append("\u{000C}");
                    proof {
                        reveal_strlit("\u{000C}");
                        assert(out@ =~= prior.push('\u{000C}'));
                    }
                } else if c2 == 'n' {
                    out.append("\n");
                    proof {
                        reveal_strlit("\n");
                        assert(out@ =~= prior.push('\n'));
                    }
                } else if c2 == 'r' {
                    out.append("\r");
                    proof {
                        reveal_strlit("\r");
                        assert(out@ =~= prior.push('\r'));
                    }
                } else if c2 == 't' {
                    out.append("\t");
                    proof {
                        reveal_strlit("\t");
                        assert(out@ =~= prior.push('\t'));
                    }
                } else {
                    return None;
                }
                proof {
                    assert(escape_code(s@[j as int + 1]) == Some(out@.last()));
                    assert(parse_string_body(s@, j as int, prior) == parse_string_body(
                        s@,
                        j as int + 2,
                        out@,
                    ));
                }
                j = j + 2;
            } else {
                return None;
            }
        } else {
            let piece = s.substring_char(j, j + 1);
            out.append(piece);
            proof {
                assert(piece@ =~= seq![s@[j as int]]);
                assert(out@ =~= prior.push(s@[j as int]));
                assert(parse_string_body(s@, j as int, prior) == parse_string_body(
                    s@,
                    j as int + 1,
                    out@,
                ));
            }
            j = j + 1;
        }
    }
    None
}

fn parse_id_value_exec(s: &str, n: usize, i: usize) -> (r: Option<(String, usize)>)
    requires
        n == s@.len(),
        i <= n,
    ensures
        r matches Some(p) ==> (parse_id_value(s@, i as int) == Some((p.0@, p.1 as int)) && p.1
            <= n),
        r is None ==> parse_id_value(s@, i as int) is None,
{
    if i < n && s.get_char(i) == '"' {
        parse_jstring_exec(s, n, i)
    } else if i < n {
        let c = s.get_char(i);
        if '0' <= c && c <= '9' {
            let j = digits_end_exec(s, n, i);
            let x = s.substring_char(i, j).to_owned();
            Some((x, j))
        } else {
            None
        }
    } else {
        None
    }
}

fn has_null_exec(s: &str, n: usize, i: usize) -> (r: bool)
    requires
        n == s@.len(),
        i <= n,
    ensures
        r == has_null(s@, i as int),
{
    n - i >= 4 && s.get_char(i) == 'n' && s.get_char(i + 1) == 'u' && s.get_char(i + 2) == 'l'
        && s.get_char(i + 3) == 'l'
}

fn parse_bool_exec(s: &str, n: usize, i: usize) -> (r: Option<(bool, usize)>)
    requires
        n == s@.len(),
        i <= n,
    ensures
        r matches Some(p) ==> (parse_bool(s@, i as int) == Some((p.0, p.1 as int)) && p.1 <= n),
        r is None ==> parse_bool(s@, i as int) is None,
{
    if n - i >= 4 && s.get_char(i) == 't' && s.get_char(i + 1) == 'r' && s.get_char(i + 2) == 'u'
        && s.get_char(i + 3) == 'e' {
        Some((true, i + 4))
    } else if n - i >= 5 && s.get_char(i) == 'f' && s.get_char(i + 1) == 'a' && s.get_char(i + 2)
        == 'l' && s.get_char(i + 3) == 's' && s.get_char(i + 4) == 'e' {
        Some((false, i + 5))
    } else {
        None
    }
}

fn sub_member_value_exec(s: &str, n: usize, i: usize, key: &String, acc: SubRaw) -> (r: Option<
    (SubRaw, usize),
>)
    requires
        n == s@.len(),
        i <= n,
    ensures
        r matches Some(p) ==> (sub_member_value(s@, i as int, key@, view_sub_raw(acc)) == Some(
            (view_sub_raw(p.0), p.1 as int),
        ) && p.1 <= n && count_unset_sub(view_sub_raw(p.0)) < count_unset_sub(view_sub_raw(acc))),
        r is None ==> sub_member_value(s@, i as int, key@, view_sub_raw(acc)) is None,
{
    if key.eq(&"notifications".to_owned()) {
        if acc.notifications.is_none() {
            match parse_bool_exec(s, n, i) {
                Some((b, j)) => Some((SubRaw { notifications: Some(b), ..acc }, j)),
                None => None,
            }
        } else {
            None
        }
    } else if key.eq(&"data".to_owned()) {
        if acc.data.is_none() {
            match parse_bool_exec(s, n, i) {
                Some((b, j)) => Some((SubRaw { data: Some(b), ..acc }, j)),
                None => None,
            }
        } else {
            None
        }
    } else if key.eq(&"media".to_owned()) {
        if acc.media.is_none() {
            if has_null_exec(s, n, i) {
                Some((SubRaw { media: Some(None), ..acc }, i + 4))
            } else {
                match parse_id_value_exec(s, n, i) {
                    Some((x, j)) => Some((SubRaw { media: Some(Some(x)), ..acc }, j)),
                    None => None,
                }
            }
        } else {
            None
        }
    } else {
        None
    }
}

fn parse_sub_members_exec(s: &str, n: usize, i: usize, acc: SubRaw) -> (r: Option<(SubRaw, usize)>)
    requires
        n == s@.len(),
        i <= n,
    ensures
        r matches Some(p) ==> (parse_sub_members(s@, i as int, view_sub_raw(acc)) == Some(
            (view_sub_raw(p.0), p.1 as int),
        ) && p.1 <= n),
        r is None ==> parse_sub_members(s@, i as int, view_sub_raw(acc)) is None,
    decreases count_unset_sub(view_sub_raw(acc)),
{
    let i1 = skip_ws_exec(s, n, i);
    match parse_jstring_exec(s, n, i1) {
        None => None,
        Some((key, i2)) => {
            let i3 = skip_ws_exec(s, n, i2);
            if i3 < n && s.get_char(i3) == ':' {
                let i4 = skip_ws_exec(s, n, i3 + 1);
                match sub_member_value_exec(s, n, i4, &key, acc) {
                    None => None,
                    Some((acc2, j)) => {
                        let t = skip_ws_exec(s, n, j);
                        if t < n && s.get_char(t) == ',' {
                            parse_sub_members_exec(s, n, t + 1, acc2)
                        } else if t < n && s.get_char(t) == '}' {
                            Some((acc2, t + 1))
                        } else {
                            None
                        }
                    },
                }
            } else {
                None
            }
        },
    }
}

fn sub_finish_exec(acc: SubRaw) -> (r: Subscription)
    ensures
        crate::messages::view_subscription(r) == sub_raw_finish(view_sub_raw(acc)),
{
    Subscription {
        notifications: match acc.notifications {
            None => false,
            Some(b) => b,
        },
        data: match acc.data {
            None => false,
            Some(b) => b,
        },
        media: match acc.media {
            None => None,
            Some(m) => m,
        },
    }
}

fn parse_subscription_exec(s: &str, n: usize, i: usize) -> (r: Option<(Subscription, usize)>)
    requires
        n == s@.len(),
        i <= n,
    ensures
        r matches Some(p) ==> (parse_subscription(s@, i as int) == Some(
            (crate::messages::view_subscription(p.0), p.1 as int),
        ) && p.1 <= n),
        r is None ==> parse_subscription(s@, i as int) is None,
{
    if i < n && s.get_char(i) == '{' {
        let i1 = skip_ws_exec(s, n, i + 1);
        if i1 < n && s.get_char(i1) == '}' {
            Some((
                sub_finish_exec(SubRaw { notifications: None, data: None, media: None }),
                i1 + 1,
            ))
        } else {
            match parse_sub_members_exec(
                s,
                n,
                i + 1,
                SubRaw { notifications: None, data: None, media: None },
            ) {
                Some((acc, j)) => Some((sub_finish_exec(acc), j)),
                None => None,
            }
        }
    } else {
        None
    }
}

fn member_value_exec(s: &str, n: usize, i: usize, key: &String, acc: Raw) -> (r: Option<
    (Raw, usize),
>)
    requires
        n == s@.len(),
        i <= n,
    ensures
        r matches Some(p) ==> (member_value(s@, i as int, key@, view_raw(acc)) == Some(
            (view_raw(p.0), p.1 as int),
        ) && p.1 <= n && count_unset(view_raw(p.0)) < count_unset(view_raw(acc))),
        r is None ==> member_value(s@, i as int, key@, view_raw(acc)) is None,
{
    if key.eq(&"kind".to_owned()) {
        if acc.kind.is_none() {
            match parse_jstring_exec(s, n, i) {
                Some((x, j)) => Some((Raw { kind: Some(x), ..acc }, j)),
                None => None,
            }
        } else {
            None
        }
    } else if key.eq(&"room_id".to_owned()) {
        if acc.room_id.is_none() {
            match parse_id_value_exec(s, n, i) {
                Some((x, j)) => Some((Raw { room_id: Some(x), ..acc }, j)),
                None => None,
            }
        } else {
            None
        }
    } else if key.eq(&"user_id".to_owned()) {
        if acc.user_id.is_none() {
            match parse_id_value_exec(s, n, i) {
                Some((x, j)) => Some((Raw { user_id: Some(x), ..acc }, j)),
                None => None,
            }
        } else {
            None
        }
    } else if key.eq(&"token".to_owned()) {
        if acc.token.is_none() {
            if has_null_exec(s, n, i) {
                Some((Raw { token: Some(None), ..acc }, i + 4))
            } else {
                match parse_jstring_exec(s, n, i) {
                    Some((x, j)) => Some((Raw { token: Some(Some(x)), ..acc }, j)),
                    None => None,
                }
            }
        } else {
            None
        }
    } else if key.eq(&"whom".to_owned()) {
        if acc.whom.is_none() {
            if has_null_exec(s, n, i) {
                Some((Raw { whom: Some(None), ..acc }, i + 4))
            } else {
                match parse_id_value_exec(s, n, i) {
                    Some((x, j)) => Some((Raw { whom: Some(Some(x)), ..acc }, j)),
                    None => None,
                }
            }
        } else {
            None
        }
    } else if key.eq(&"body".to_owned()) {
        if acc.body.is_none() {
            match parse_jstring_exec(s, n, i) {
                Some((x, j)) => Some((Raw { body: Some(x), ..acc }, j)),
                None => None,
            }
        } else {
            None
        }
    } else if key.eq(&"subscribe".to_owned()) {
        if acc.subscribe.is_none() {
            if has_null_exec(s, n, i) {
                Some((Raw { subscribe: Some(None), ..acc }, i + 4))
            } else {
                match parse_subscription_exec(s, n, i) {
                    Some((w, j)) => Some((Raw { subscribe: Some(Some(w)), ..acc }, j)),
                    None => None,
                }
            }
        } else {
            None
        }
    } else if key.eq(&"what".to_owned()) {
        if acc.what.is_none() {
            match parse_subscription_exec(s, n, i) {
                Some((w, j)) => Some((Raw { what: Some(w), ..acc }, j)),
                None => None,
            }
        } else {
            None
        }
    } else {
        None
    }
}

fn parse_members_exec(s: &str, n: usize, i: usize, acc: Raw) -> (r: Option<(Raw, usize)>)
    requires
        n == s@.len(),
        i <= n,
    ensures
        r matches Some(p) ==> (parse_members(s@, i as int, view_raw(acc)) == Some(
            (view_raw(p.0), p.1 as int),
        ) && p.1 <= n),
        r is None ==> parse_members(s@, i as int, view_raw(acc)) is None,
    decreases count_unset(view_raw(acc)),
{
    let i1 = skip_ws_exec(s, n, i);
    match parse_jstring_exec(s, n, i1) {
        None => None,
        Some((key, i2)) => {
            let i3 = skip_ws_exec(s, n, i2);
            if i3 < n && s.get_char(i3) == ':' {
                let i4 = skip_ws_exec(s, n, i3 + 1);
                match member_value_exec(s, n, i4, &key, acc) {
                    None => None,
                    Some((acc2, j)) => {
                        let t = skip_ws_exec(s, n, j);
                        if t < n && s.get_char(t) == ',' {
                            parse_members_exec(s, n, t + 1, acc2)
                        } else if t < n && s.get_char(t) == '}' {
                            Some((acc2, t + 1))
                        } else {
                            None
                        }
                    },
                }
            } else {
                None
            }
        },
    }
}

fn build_message_exec(r: Raw) -> (out: Result<MessageKind, ParseError>)
    ensures
        out matches Ok(m) ==> build_message(view_raw(r)) == ParseOutcome::Message(view_message(m)),
        out is Err ==> build_message(view_raw(r)) == ParseOutcome::Invalid,
{
    let k = match r.kind {
        None => {
            return Err(ParseError);
        },
        Some(k) => k,
    };
    if k.eq(&"join".to_owned()) {
        match (r.room_id, r.user_id) {
            (Some(rm), Some(u)) => Ok(
                MessageKind::Join {
                    room_id: rm,
                    user_id: u,
                    subscribe: match r.subscribe {
                        None => None,
                        Some(w) => w,
                    },
                    token: match r.token {
                        None => None,
                        Some(t) => t,
                    },
                },
            ),
            _ => Err(ParseError),
        }
    } else if k.eq(&"kick".to_owned()) {
        match (r.room_id, r.user_id, r.token) {
            (Some(rm), Some(u), Some(Some(t))) => Ok(
                MessageKind::Kick { room_id: rm, user_id: u, token: t },
            ),
            _ => Err(ParseError),
        }
    } else if k.eq(&"subscribe".to_owned()) {
        match r.what {
            Some(w) => Ok(MessageKind::Subscribe { what: w }),
            None => Err(ParseError),
        }
    } else if k.eq(&"block".to_owned()) {
        match r.whom {
            Some(Some(w)) => Ok(MessageKind::Block { whom: w }),
            _ => Err(ParseError),
        }
    } else if k.eq(&"unblock".to_owned()) {
        match r.whom {
            Some(Some(w)) => Ok(MessageKind::Unblock { whom: w }),
            _ => Err(ParseError),
        }
    } else if k.eq(&"data".to_owned()) {
        match r.body {
            Some(b) => Ok(
                MessageKind::Data {
                    whom: match r.whom {
                        None => None,
                        Some(w) => w,
                    },
                    body: b,
                },
            ),
            None => Err(ParseError),
        }
    } else {
        Err(ParseError)
    }
}

/// Parses a signalling payload: an empty object means no message, any other
/// well-formed object must be one of the known message shapes, and anything
/// else is an error.
pub fn parse_message(s: &str) -> (r: Result<OptionalField<MessageKind>, ParseError>)
    ensures
        r == Ok::<OptionalField<MessageKind>, ParseError>(OptionalField::Absent)
            <==> spec_parse_message(s@) == ParseOutcome::Empty,
        r matches Ok(of) ==> (of matches OptionalField::Present(m) ==> spec_parse_message(s@)
            == ParseOutcome::Message(view_message(m))),
        r is Err <==> spec_parse_message(s@) == ParseOutcome::Invalid,
{
    let n = s.unicode_len();
    let i0 = skip_ws_exec(s, n, 0);
    if i0 < n && s.get_char(i0) == '{' {
        let i1 = skip_ws_exec(s, n, i0 + 1);
        if i1 < n && s.get_char(i1) == '}' {
            if skip_ws_exec(s, n, i1 + 1) == n {
                Ok(OptionalField::Absent)
            } else {
                Err(ParseError)
            }
        } else {
            match parse_members_exec(
                s,
                n,
                i0 + 1,
                Raw {
                    kind: None,
                    room_id: None,
                    user_id: None,
                    token: None,
                    whom: None,
                    body: None,
                    subscribe: None,
                    what: None,
                },
            ) {
                None => Err(ParseError),
                Some((raw, j)) => {
                    if skip_ws_exec(s, n, j) == n {
                        match build_message_exec(raw) {
                            Ok(m) => Ok(OptionalField::Present(m)),
                            Err(e) => Err(e),
                        }
                    } else {
                        Err(ParseError)
                    }
                },
            }
        }
    } else {
        Err(ParseError)
    }
}

fn jsep_member_value_exec(s: &str, n: usize, i: usize, key: &String, acc: JsepRaw) -> (r: Option<
    (JsepRaw, usize),
>)
    requires
        n == s@.len(),
        i <= n,
    ensures
        r matches Some(p) ==> (jsep_member_value(s@, i as int, key@, view_jsep_raw(acc)) == Some(
            (view_jsep_raw(p.0), p.1 as int),
        ) && p.1 <= n && count_unset_jsep(view_jsep_raw(p.0)) < count_unset_jsep(
            view_jsep_raw(acc),
        )),
        r is None ==> jsep_member_value(s@, i as int, key@, view_jsep_raw(acc)) is None,
{
    if key.eq(&"type".to_owned()) {
        if acc.kind_field.is_none() {
            match parse_jstring_exec(s, n, i) {
                Some((x, j)) => Some((JsepRaw { kind_field: Some(x), ..acc }, j)),
                None => None,
            }
        } else {
            None
        }
    } else if key.eq(&"sdp".to_owned()) {
        if acc.sdp.is_none() {
            match parse_jstring_exec(s, n, i) {
                Some((x, j)) => Some((JsepRaw { sdp: Some(x), ..acc }, j)),
                None => None,
            }
        } else {
            None
        }
    } else {
        None
    }
}

fn parse_jsep_members_exec(s: &str, n: usize, i: usize, acc: JsepRaw) -> (r: Option<
    (JsepRaw, usize),
>)
    requires
        n == s@.len(),
        i <= n,
    ensures
        r matches Some(p) ==> (parse_jsep_members(s@, i as int, view_jsep_raw(acc)) == Some(
            (view_jsep_raw(p.0), p.1 as int),
        ) && p.1 <= n),
        r is None ==> parse_jsep_members(s@, i as int, view_jsep_raw(acc)) is None,
    decreases count_unset_jsep(view_jsep_raw(acc)),
{
    let i1 = skip_ws_exec(s, n, i);
    match parse_jstring_exec(s, n, i1) {
        None => None,
        Some((key, i2)) => {
            let i3 = skip_ws_exec(s, n, i2);
            if i3 < n && s.get_char(i3) == ':' {
                let i4 = skip_ws_exec(s, n, i3 + 1);
                match jsep_member_value_exec(s, n, i4, &key, acc) {
                    None => None,
                    Some((acc2, j)) => {
                        let t = skip_ws_exec(s, n, j);
                        if t < n && s.get_char(t) == ',' {
                            parse_jsep_members_exec(s, n, t + 1, acc2)
                        } else if t < n && s.get_char(t) == '}' {
                            Some((acc2, t + 1))
                        } else {
                            None
                        }
                    },
                }
            } else {
                None
            }
        },
    }
}

/// Parses a JSEP payload: an object holding a `type` of `offer` or
/// `answer` and the `sdp` text; anything else is an error.
pub fn parse_jsep(s: &str) -> (r: Result<JsepKind, ParseError>)
    ensures
        r matches Ok(k) ==> spec_parse_jsep(s@) == Some(view_jsep(k)),
        r is Err <==> spec_parse_jsep(s@) is None,
{
    let n = s.unicode_len();
    let i0 = skip_ws_exec(s, n, 0);
    if !(i0 < n && s.get_char(i0) == '{') {
        return Err(ParseError);
    }
    match parse_jsep_members_exec(s, n, i0 + 1, JsepRaw { kind_field: None, sdp: None }) {
        None => Err(ParseError),
        Some((raw, j)) => {
            if skip_ws_exec(s, n, j) != n {
                return Err(ParseError);
            }
            match (raw.kind_field, raw.sdp) {
                (Some(k), Some(sdp)) => {
                    if k.eq(&"offer".to_owned()) {
                        Ok(JsepKind::Offer { sdp })
                    } else if k.eq(&"answer".to_owned()) {
                        Ok(JsepKind::Answer { sdp })
                    } else {
                        Err(ParseError)
                    }
                },
                _ => Err(ParseError),
            }
        },
    }
}

fn serialize_sub(w: &Subscription) -> (r: String)
    ensures
        r@ == spec_ser_sub(crate::messages::view_subscription(*w)),
{
    let mut out = "{\"notifications\":".to_owned();
    out.append(if w.notifications {
        "true"
    } else {
        "false"
    });
    out.append(",\"data\":");
    out.append(if w.data {
        "true"
    } else {
        "false"
    });
    out.append(",\"media\":");
    match &w.media {
        None => {
            out.append("null");
        },
        Some(x) => {
            out.append("\"");
            let esc_x = escape_json(x.as_str());
            out.append(esc_x.as_str());
            out.append("\"");
        },
    }
    out.append("}");
    out
}

/// Serializes a message in the canonical wire form: the form that
/// `parse_message` maps back to the same message.
#[verifier::rlimit(60)]
pub fn serialize_message(m: &MessageKind) -> (r: String)
    ensures
        r@ == spec_ser_message(view_message(*m)),
{
    match m {
        MessageKind::Join { room_id, user_id, subscribe, token } => {
            let mut out = "{\"kind\":\"join\",\"room_id\":".to_owned();
            out.append("\"");
            let esc_room_id = escape_json(room_id.as_str());
            out.append(esc_room_id.as_str());
            out.append("\"");
            out.append(",\"user_id\":");
            out.append("\"");
            let esc_user_id = escape_json(user_id.as_str());
            out.append(esc_user_id.as_str());
            out.append("\"");
            match subscribe {
                None => {},
                Some(w) => {
                    out.append(",\"subscribe\":");
                    let ws = serialize_sub(w);
                    out.append(ws.as_str());
                },
            }
            match token {
                None => {},
                Some(t) => {
                    out.append(",\"token\":");
                    out.append("\"");
                    let esc_t = escape_json(t.as_str());
                    out.append(esc_t.as_str());
                    out.append("\"");
                },
            }
            out.append("}");
            out
        },
        MessageKind::Kick { room_id, user_id, token } => {
            let mut out = "{\"kind\":\"kick\",\"room_id\":".to_owned();
            out.append("\"");
            let esc_room_id = escape_json(room_id.as_str());
            out.append(esc_room_id.as_str());
            out.append("\"");
            out.append(",\"user_id\":");
            out.append("\"");
            let esc_user_id = escape_json(user_id.as_str());
            out.append(esc_user_id.as_str());
            out.append("\"");
            out.append(",\"token\":");
            out.append("\"");
            let esc_token = escape_json(token.as_str());
            out.append(esc_token.as_str());
            out.append("\"");
            out.append("}");
            out
        },
        MessageKind::Subscribe { what } => {
            let mut out = "{\"kind\":\"subscribe\",\"what\":".to_owned();
            let ws = serialize_sub(what);
            out.append(ws.as_str());
            out.append("}");
            out
        },
        MessageKind::Block { whom } => {
            let mut out = "{\"kind\":\"block\",\"whom\":".to_owned();
            out.append("\"");
            let esc_whom = escape_json(whom.as_str());
            out.append(esc_whom.as_str());
            out.append("\"");
            out.append("}");
            out
        },
        MessageKind::Unblock { whom } => {
            let mut out = "{\"kind\":\"unblock\",\"whom\":".to_owned();
            out.append("\"");
            let esc_whom = escape_json(whom.as_str());
            out.append(esc_whom.as_str());
            out.append("\"");
            out.append("}");
            out
        },
        MessageKind::Data { whom, body } => {
            let mut out = "{\"kind\":\"data\",".to_owned();
            match whom {
                None => {},
                Some(w) => {
                    out.append("\"whom\":");
                    out.append("\"");
                    let esc_w = escape_json(w.as_str());
                    out.append(esc_w.as_str());
                    out.append("\"");
                    out.append(",");
                },
            }
            out.append("\"body\":");
            out.append("\"");
            let esc_body = escape_json(body.as_str());
            out.append(esc_body.as_str());
            out.append("\"");
            out.append("}");
            out
        },
    }
}

/// Text that the canonical serializer writes as itself: no quote, no
/// backslash, none of the control characters it escapes.
pub open spec fn no_specials(x: Seq<char>) -> bool {
    forall|i: int|
        0 <= i < x.len() ==> ((#[trigger] x[i]) != '"' && x[i] != '\\' && x[i] != '\n' && x[i]
            != '\r' && x[i] != '\t')
}

proof fn lemma_escape_identity(x: Seq<char>)
    requires
        no_specials(x),
    ensures
        spec_escape(x) == x,
    decreases x.len(),
{
    if x.len() == 0 {
        assert(spec_escape(x) =~= x);
    } else {
        assert(no_specials(x.drop_last()));
        lemma_escape_identity(x.drop_last());
        assert(x[x.len() - 1] == x.last());
        assert(escape_char(x.last()) =~= seq![x.last()]);
        assert(spec_escape(x) =~= x.drop_last() + seq![x.last()]);
        assert(x.drop_last() + seq![x.last()] =~= x);
    }
}

proof fn lemma_escape_concat(a: Seq<char>, b: Seq<char>)
    ensures
        spec_escape(a + b) == spec_escape(a) + spec_escape(b),
    decreases b.len(),
{
    if b.len() == 0 {
        assert(a + b =~= a);
        assert(spec_escape(b) =~= Seq::<char>::empty());
        assert(spec_escape(a) + spec_escape(b) =~= spec_escape(a));
    } else {
        lemma_escape_concat(a, b.drop_last());
        assert((a + b).drop_last() =~= a + b.drop_last());
        assert((a + b).last() == b.last());
        assert(spec_escape(a + b) =~= (spec_escape(a) + spec_escape(b.drop_last()))
            + escape_char(b.last()));
        assert(spec_escape(a) + spec_escape(b) =~= (spec_escape(a) + spec_escape(b.drop_last()))
            + escape_char(b.last()));
    }
}

/// A stretch of escaped text followed by a quote reads back as the text it
/// was escaped from.
proof fn lemma_parse_escaped(s: Seq<char>, i: int, x: Seq<char>, acc: Seq<char>)
    requires
        0 <= i,
        i + spec_escape(x).len() < s.len(),
        s.subrange(i, i + spec_escape(x).len() as int) == spec_escape(x),
        s[i + spec_escape(x).len()] == '"',
    ensures
        parse_string_body(s, i, acc) == Some((acc + x, i + spec_escape(x).len() + 1)),
    decreases x.len(),
{
    let e = spec_escape(x);
    lemma_chars_of(s, i, e);
    if x.len() == 0 {
        assert(e =~= Seq::<char>::empty());
        assert(s[i] == '"');
        assert(acc + x =~= acc);
    } else {
        let x0 = x[0];
        let rest = x.subrange(1, x.len() as int);
        assert(x =~= seq![x0] + rest);
        lemma_escape_concat(seq![x0], rest);
        assert(spec_escape(seq![x0]) =~= escape_char(x0)) by {
            assert(seq![x0].drop_last() =~= Seq::<char>::empty());
            assert(seq![x0].last() == x0);
            assert(spec_escape(Seq::<char>::empty()) =~= Seq::<char>::empty());
        }
        let e0 = escape_char(x0);
        assert(e == spec_escape(seq![x0] + rest));
        assert(e =~= e0 + spec_escape(rest));
        let erest = spec_escape(rest);
        assert(s.subrange(i + e0.len() as int, i + e0.len() + erest.len() as int) =~= erest) by {
            assert forall|k: int|
                0 <= k < erest.len() implies s.subrange(
                i + e0.len() as int,
                i + e0.len() + erest.len() as int,
            )[k] == erest[k] by {
                assert(e[e0.len() + k] == erest[k]);
                assert(s[i + (e0.len() + k)] == e[e0.len() + k]);
            }
        }
        assert(s[i + e0.len() + erest.len()] == '"');
        if x0 == '"' || x0 == '\\' || x0 == '\n' || x0 == '\r' || x0 == '\t' {
            assert(e0.len() == 2);
            assert(s[i] == e[0] && s[i + 1] == e[1]) by {
                assert(s[i + 0] == e[0]);
            }
            assert(e[0] == e0[0] && e[1] == e0[1]);
            assert(s[i] == '\\');
            assert(escape_code(s[i + 1]) == Some(x0));
            lemma_parse_escaped(s, i + 2, rest, acc.push(x0));
            assert(acc.push(x0) + rest =~= acc + x);
        } else {
            assert(e0 =~= seq![x0]);
            assert(s[i] == e[0]) by {
                assert(s[i + 0] == e[0]);
            }
            assert(e[0] == x0);
            assert(s[i] != '"' && s[i] != '\\');
            lemma_parse_escaped(s, i + 1, rest, acc.push(x0));
            assert(acc.push(x0) + rest =~= acc + x);
        }
    }
}

/// A serialized JSON string reads back as the text it was written from.
proof fn lemma_jstring_at(s: Seq<char>, i: int, x: Seq<char>)
    requires
        0 <= i,
        i + spec_escape(x).len() + 2 <= s.len(),
        s[i] == '"',
        s.subrange(i + 1, i + 1 + spec_escape(x).len() as int) == spec_escape(x),
        s[i + 1 + spec_escape(x).len()] == '"',
    ensures
        parse_jstring(s, i) == Some((x, i + spec_escape(x).len() + 2)),
{
    lemma_parse_escaped(s, i + 1, x, Seq::empty());
    assert(Seq::<char>::empty() + x =~= x);
}

/// One serialized member, then either a comma continuing the walk or the
/// closing brace: how `parse_members` steps through canonical text.
proof fn lemma_member_step(
    s: Seq<char>,
    i: int,
    key: Seq<char>,
    acc: RawView,
    acc2: RawView,
    jval: int,
)
    requires
        0 <= i,
        i + key.len() + 3 < s.len(),
        s[i] == '"',
        no_specials(key),
        s.subrange(i + 1, i + 1 + key.len()) == key,
        s[i + 1 + key.len()] == '"',
        s[i + 2 + key.len()] == ':',
        !is_ws(s[i + 3 + key.len()]),
        member_value(s, i + 3 + key.len(), key, acc) == Some((acc2, jval)),
        count_unset(acc2) < count_unset(acc),
        0 <= jval < s.len(),
    ensures
        s[jval] == ',' ==> parse_members(s, i, acc) == parse_members(s, jval + 1, acc2),
        s[jval] == '}' ==> parse_members(s, i, acc) == Some((acc2, jval + 1)),
{
    assert(skip_ws(s, i) == i);
    lemma_escape_identity(key);
    lemma_jstring_at(s, i, key);
    let i2 = i + key.len() + 1;
    assert(parse_jstring(s, i) == Some((key, i + key.len() + 2)));
    assert(skip_ws(s, i + key.len() + 2) == i + key.len() + 2);
    assert(skip_ws(s, i + key.len() + 3) == i + key.len() + 3);
    if s[jval] == ',' {
        assert(skip_ws(s, jval) == jval);
        assert(member_tail(s, jval) == MemberTail::Continue(jval + 1));
    } else if s[jval] == '}' {
        assert(skip_ws(s, jval) == jval);
        assert(member_tail(s, jval) == MemberTail::Close(jval + 1));
    }
}

/// Round trip for a block message: parsing its canonical serialization
/// yields it back.
#[verifier::rlimit(100)]
#[verifier::spinoff_prover]
proof fn lemma_round_trip_block(whom: Seq<char>)
    ensures
        spec_parse_message(spec_ser_message(MessageView::Block { whom })) == ParseOutcome::Message(
            MessageView::Block { whom },
        ),
{
    reveal_strlit("{\"kind\":\"block\",\"whom\":");
    reveal_strlit("\"");
    reveal_strlit("}");
    reveal_strlit("kind");
    reveal_strlit("block");
    reveal_strlit("whom");
    reveal_strlit("join");
    reveal_strlit("room_id");
    reveal_strlit("user_id");
    reveal_strlit("token");
    reveal_strlit("body");
    reveal_strlit("subscribe");
    reveal_strlit("what");
    reveal_strlit("kick");
    reveal_strlit("unblock");
    reveal_strlit("data");
    let lit = "{\"kind\":\"block\",\"whom\":"@;
    let s = spec_ser_message(MessageView::Block { whom });
    assert(s =~= lit + jstr(whom) + "}"@);
    let wl = spec_escape(whom).len() as int;
    let n = s.len();
    assert(lit.len() == 23);
    assert(n == 26 + wl);
    assert(no_specials("kind"@) && no_specials("block"@) && no_specials("whom"@));
    lemma_escape_identity("block"@);

    // the walk: brace, then the kind member, then the whom member
    assert(s[0] == '{');
    assert(skip_ws(s, 0) == 0);
    assert(s[1] == '"');
    assert(skip_ws(s, 1) == 1);

    // member one: "kind":"block"
    let acc0 = raw_empty();
    let acc1 = RawView { kind: Some("block"@), ..acc0 };
    assert(s.subrange(2, 6) =~= "kind"@);
    assert(s[6] == '"' && s[7] == ':' && s[8] == '"');
    assert(s.subrange(9, 14) =~= "block"@);
    assert(s[14] == '"');
    lemma_jstring_at(s, 8, "block"@);
    assert(member_value(s, 8, "kind"@, acc0) == Some((acc1, 15int)));
    assert(s[15] == ',');
    lemma_member_step(s, 1, "kind"@, acc0, acc1, 15);
    assert(parse_members(s, 1, acc0) == parse_members(s, 16, acc1));

    // member two: "whom":<whom>
    let acc2 = RawView { whom: Some(Some(whom)), ..acc1 };
    assert(s[16] == '"');
    assert(s.subrange(17, 21) =~= "whom"@);
    assert(s[21] == '"' && s[22] == ':' && s[23] == '"');
    assert(s.subrange(24, 24 + wl) =~= spec_escape(whom));
    assert(s[24 + wl] == '"');
    lemma_jstring_at(s, 23, whom);
    assert("whom"@ != "kind"@) by {
        assert("whom"@[0] == 'w' && "kind"@[0] == 'k');
    }
    assert("whom"@ != "room_id"@) by {
        assert("whom"@.len() == 4 && "room_id"@.len() == 7);
    }
    assert("whom"@ != "user_id"@) by {
        assert("whom"@.len() == 4 && "user_id"@.len() == 7);
    }
    assert("whom"@ != "token"@) by {
        assert("whom"@.len() == 4 && "token"@.len() == 5);
    }
    assert(!has_null(s, 23));
    assert(parse_id_value(s, 23) == Some((whom, 25 + wl)));
    assert(member_value(s, 23, "whom"@, acc1) == Some((acc2, 25 + wl)));
    assert(s[25 + wl] == '}');
    lemma_member_step(s, 16, "whom"@, acc1, acc2, 25 + wl);
    assert(parse_members(s, 16, acc1) == Some((acc2, n as int)));

    assert(skip_ws(s, n as int) == n);
    assert("block"@ != "join"@) by {
        assert("block"@.len() == 5 && "join"@.len() == 4);
    }
    assert("block"@ != "kick"@) by {
        assert("block"@.len() == 5 && "kick"@.len() == 4);
    }
    assert("block"@ != "subscribe"@) by {
        assert("block"@.len() == 5 && "subscribe"@.len() == 9);
    }
    assert(build_message(acc2) == ParseOutcome::Message(MessageView::Block { whom }));
}

/// The indexes of a concatenation: every character of the serialized text
/// agrees with the sequence it was built from.
proof fn lemma_chars_of(s: Seq<char>, i: int, x: Seq<char>)
    requires
        0 <= i,
        i + x.len() <= s.len(),
        s.subrange(i, i + x.len() as int) == x,
    ensures
        forall|k: int| 0 <= k < x.len() ==> s[i + k] == #[trigger] x[k],
        forall|j: int| i <= j < i + x.len() ==> (#[trigger] s[j]) == x[j - i],
{
    assert forall|k: int| 0 <= k < x.len() implies s[i + k] == #[trigger] x[k] by {
        assert(s.subrange(i, i + x.len() as int)[k] == s[i + k]);
    }
    assert forall|j: int| i <= j < i + x.len() implies (#[trigger] s[j]) == x[j - i] by {
        assert(s.subrange(i, i + x.len() as int)[j - i] == s[j]);
    }
}

#[verifier::rlimit(100)]
#[verifier::spinoff_prover]
proof fn lemma_round_trip_unblock(whom: Seq<char>)
    ensures
        spec_parse_message(spec_ser_message(MessageView::Unblock { whom }))
            == ParseOutcome::Message(MessageView::Unblock { whom }),
{
    reveal_strlit("{\"kind\":\"unblock\",\"whom\":");
    reveal_strlit("\"");
    reveal_strlit("}");
    reveal_strlit("kind");
    reveal_strlit("unblock");
    reveal_strlit("whom");
    reveal_strlit("join");
    reveal_strlit("room_id");
    reveal_strlit("user_id");
    reveal_strlit("token");
    reveal_strlit("kick");
    reveal_strlit("subscribe");
    reveal_strlit("block");
    let s = spec_ser_message(MessageView::Unblock { whom });
    assert(s =~= "{\"kind\":\"unblock\",\"whom\":"@ + jstr(whom) + "}"@);
    let wl = spec_escape(whom).len() as int;
    let n = s.len();
    assert(n == 28 + wl);
    assert(no_specials("kind"@) && no_specials("unblock"@) && no_specials("whom"@));
    lemma_escape_identity("unblock"@);

    assert(s[0] == '{');
    assert(skip_ws(s, 0) == 0);
    assert(s[1] == '"');
    assert(skip_ws(s, 1) == 1);

    let acc0 = raw_empty();
    let acc1 = RawView { kind: Some("unblock"@), ..acc0 };
    assert(s.subrange(2, 6) =~= "kind"@);
    assert(s[6] == '"' && s[7] == ':' && s[8] == '"');
    assert(s.subrange(9, 16) =~= "unblock"@);
    assert(s[16] == '"');
    lemma_jstring_at(s, 8, "unblock"@);
    assert(member_value(s, 8, "kind"@, acc0) == Some((acc1, 17int)));
    assert(s[17] == ',');
    lemma_member_step(s, 1, "kind"@, acc0, acc1, 17);
    assert(parse_members(s, 1, acc0) == parse_members(s, 18, acc1));

    let acc2 = RawView { whom: Some(Some(whom)), ..acc1 };
    assert(s[18] == '"');
    assert(s.subrange(19, 23) =~= "whom"@);
    assert(s[23] == '"' && s[24] == ':' && s[25] == '"');
    assert(s.subrange(26, 26 + wl) =~= spec_escape(whom));
    assert(s[26 + wl] == '"');
    lemma_jstring_at(s, 25, whom);
    assert("whom"@ != "kind"@) by {
        assert("whom"@[0] == 'w' && "kind"@[0] == 'k');
    }
    assert("whom"@ != "room_id"@) by {
        assert("whom"@.len() == 4 && "room_id"@.len() == 7);
    }
    assert("whom"@ != "user_id"@) by {
        assert("whom"@.len() == 4 && "user_id"@.len() == 7);
    }
    assert("whom"@ != "token"@) by {
        assert("whom"@.len() == 4 && "token"@.len() == 5);
    }
    assert(!has_null(s, 25));
    assert(parse_id_value(s, 25) == Some((whom, 27 + wl)));
    assert(member_value(s, 25, "whom"@, acc1) == Some((acc2, 27 + wl)));
    assert(s[27 + wl] == '}');
    lemma_member_step(s, 18, "whom"@, acc1, acc2, 27 + wl);
    assert(parse_members(s, 18, acc1) == Some((acc2, n as int)));

    assert(skip_ws(s, n as int) == n);
    assert("unblock"@ != "join"@) by {
        assert("unblock"@.len() == 7 && "join"@.len() == 4);
    }
    assert("unblock"@ != "kick"@) by {
        assert("unblock"@.len() == 7 && "kick"@.len() == 4);
    }
    assert("unblock"@ != "subscribe"@) by {
        assert("unblock"@.len() == 7 && "subscribe"@.len() == 9);
    }
    assert("unblock"@ != "block"@) by {
        assert("unblock"@.len() == 7 && "block"@.len() == 5);
    }
    assert(build_message(acc2) == ParseOutcome::Message(MessageView::Unblock { whom }));
}

/// The canonical text of a data message.
spec fn data_text(whom: Option<Seq<char>>, body: Seq<char>) -> Seq<char> {
    "{\"kind\":\"data\","@ + (match whom {
        None => Seq::<char>::empty(),
        Some(w) => "\"whom\":"@ + jstr(w) + ","@,
    }) + "\"body\":"@ + jstr(body) + "}"@
}

proof fn lemma_data_lens()
    ensures
        "{\"kind\":\"data\","@.len() == 15,
        "\"whom\":"@.len() == 7,
        "\"body\":"@.len() == 7,
        ","@.len() == 1,
        "\""@.len() == 1,
        "}"@.len() == 1,
{
    reveal_strlit("{\"kind\":\"data\",");
    reveal_strlit("\"whom\":");
    reveal_strlit("\"body\":");
    reveal_strlit(",");
    reveal_strlit("\"");
    reveal_strlit("}");
}

#[verifier::rlimit(100)]
#[verifier::spinoff_prover]
proof fn lemma_data_m1(s: Seq<char>, whom: Option<Seq<char>>, body: Seq<char>)
    requires
        s == data_text(whom, body),
    ensures
        parse_members(s, 1, raw_empty()) == parse_members(
            s,
            15,
            RawView { kind: Some("data"@), ..raw_empty() },
        ),
{
    reveal_strlit("{\"kind\":\"data\",");
    reveal_strlit("kind");
    reveal_strlit("data");
    let acc0 = raw_empty();
    let acc1 = RawView { kind: Some("data"@), ..acc0 };
    assert(s.subrange(2, 6) =~= "kind"@);
    assert(s[6] == '"' && s[7] == ':' && s[8] == '"');
    assert(s.subrange(9, 13) =~= "data"@);
    assert(s[13] == '"');
    assert(no_specials("kind"@) && no_specials("data"@));
    lemma_escape_identity("data"@);
    lemma_jstring_at(s, 8, "data"@);
    assert(member_value(s, 8, "kind"@, acc0) == Some((acc1, 14int)));
    assert(s[14] == ',');
    lemma_member_step(s, 1, "kind"@, acc0, acc1, 14);
}

#[verifier::rlimit(100)]
#[verifier::spinoff_prover]
proof fn lemma_data_m_whom(s: Seq<char>, w: Seq<char>, body: Seq<char>)
    requires
        s == data_text(Some(w), body),
    ensures
        parse_members(s, 15, RawView { kind: Some("data"@), ..raw_empty() }) == parse_members(
            s,
            25 + spec_escape(w).len() as int,
            RawView { kind: Some("data"@), whom: Some(Some(w)), ..raw_empty() },
        ),
{
    reveal_strlit("\"whom\":");
    reveal_strlit(",");
    reveal_strlit("\"");
    reveal_strlit("kind");
    reveal_strlit("room_id");
    reveal_strlit("user_id");
    reveal_strlit("token");
    reveal_strlit("whom");
    lemma_data_lens();
    let wl = spec_escape(w).len() as int;
    let acc1 = RawView { kind: Some("data"@), ..raw_empty() };
    let acc2 = RawView { kind: Some("data"@), whom: Some(Some(w)), ..raw_empty() };
    assert(s[15] == '"');
    assert(s.subrange(16, 20) =~= "whom"@);
    assert(s[20] == '"' && s[21] == ':' && s[22] == '"');
    assert(s.subrange(23, 23 + wl) =~= spec_escape(w));
    assert(s[23 + wl] == '"');
    assert(no_specials("whom"@));
    assert("whom"@ != "kind"@) by {
        assert("whom"@[0] == 'w' && "kind"@[0] == 'k');
    }
    assert("whom"@ != "room_id"@) by {
        assert("whom"@.len() == 4 && "room_id"@.len() == 7);
    }
    assert("whom"@ != "user_id"@) by {
        assert("whom"@.len() == 4 && "user_id"@.len() == 7);
    }
    assert("whom"@ != "token"@) by {
        assert("whom"@.len() == 4 && "token"@.len() == 5);
    }
    lemma_jstring_at(s, 22, w);
    assert(!has_null(s, 22));
    assert(parse_id_value(s, 22) == Some((w, 24 + wl)));
    assert(member_value(s, 22, "whom"@, acc1) == Some((acc2, 24 + wl)));
    assert(s[24 + wl] == ',');
    lemma_member_step(s, 15, "whom"@, acc1, acc2, 24 + wl);
}

#[verifier::rlimit(100)]
#[verifier::spinoff_prover]
proof fn lemma_data_m_body(s: Seq<char>, whom: Option<Seq<char>>, body: Seq<char>, i: int, acc: RawView)
    requires
        s == data_text(whom, body),
        acc == (match whom {
            None => RawView { kind: Some("data"@), ..raw_empty() },
            Some(w) => RawView { kind: Some("data"@), whom: Some(Some(w)), ..raw_empty() },
        }),
        i == 15 + (match whom {
            None => 0int,
            Some(w) => 10 + spec_escape(w).len() as int,
        }),
    ensures
        parse_members(s, i, acc) == Some(
            (RawView { body: Some(body), ..acc }, s.len() as int),
        ),
{
    reveal_strlit("\"body\":");
    reveal_strlit("}");
    reveal_strlit("\"");
    reveal_strlit("kind");
    reveal_strlit("room_id");
    reveal_strlit("user_id");
    reveal_strlit("token");
    reveal_strlit("whom");
    reveal_strlit("body");
    reveal_strlit("subscribe");
    reveal_strlit("what");
    lemma_data_lens();
    let bl = spec_escape(body).len() as int;
    let acc2 = RawView { body: Some(body), ..acc };
    assert(s[i] == '"');
    assert(s.subrange(i + 1, i + 5) =~= "body"@);
    assert(s[i + 5] == '"' && s[i + 6] == ':' && s[i + 7] == '"');
    assert(s.subrange(i + 8, i + 8 + bl) =~= spec_escape(body));
    assert(s[i + 8 + bl] == '"');
    assert(no_specials("body"@));
    assert("body"@ != "kind"@) by {
        assert("body"@[0] == 'b' && "kind"@[0] == 'k');
    }
    assert("body"@ != "room_id"@) by {
        assert("body"@.len() == 4 && "room_id"@.len() == 7);
    }
    assert("body"@ != "user_id"@) by {
        assert("body"@.len() == 4 && "user_id"@.len() == 7);
    }
    assert("body"@ != "token"@) by {
        assert("body"@.len() == 4 && "token"@.len() == 5);
    }
    assert("body"@ != "whom"@) by {
        assert("body"@[0] == 'b' && "whom"@[0] == 'w');
    }
    lemma_jstring_at(s, i + 7, body);
    assert(member_value(s, i + 7, "body"@, acc) == Some((acc2, i + 9 + bl)));
    assert(s[i + 9 + bl] == '}');
    assert(s.len() == i + 10 + bl);
    lemma_member_step(s, i, "body"@, acc, acc2, i + 9 + bl);
}

#[verifier::rlimit(100)]
#[verifier::spinoff_prover]
proof fn lemma_round_trip_data(whom: Option<Seq<char>>, body: Seq<char>)
    ensures
        spec_parse_message(spec_ser_message(MessageView::Data { whom, body }))
            == ParseOutcome::Message(MessageView::Data { whom, body }),
{
    let s = spec_ser_message(MessageView::Data { whom, body });
    assert(s == data_text(whom, body));
    let n = s.len();
    lemma_data_lens();
    assert(s[0] == '{' && s[1] == '"') by {
        reveal_strlit("{\"kind\":\"data\",");
    }
    assert(skip_ws(s, 0) == 0);
    assert(skip_ws(s, 1) == 1);
    let acc1 = RawView { kind: Some("data"@), ..raw_empty() };
    lemma_data_m1(s, whom, body);
    let accw = match whom {
        None => acc1,
        Some(w) => RawView { kind: Some("data"@), whom: Some(Some(w)), ..raw_empty() },
    };
    let iw: int = match whom {
        None => 15,
        Some(w) => 25 + spec_escape(w).len() as int,
    };
    match whom {
        None => {},
        Some(w) => {
            lemma_data_m_whom(s, w, body);
        },
    }
    assert(parse_members(s, 15, acc1) == parse_members(s, iw, accw));
    lemma_data_m_body(s, whom, body, iw, accw);
    let accf = RawView { body: Some(body), ..accw };
    assert(parse_members(s, 1, raw_empty()) == Some((accf, n as int)));
    assert(skip_ws(s, n as int) == n);
    assert(build_message(accf) == ParseOutcome::Message(MessageView::Data { whom, body })) by {
        reveal_strlit("data");
        assert("data"@ != "join"@) by {
            reveal_strlit("data");
            reveal_strlit("join");
            assert("data"@[0] == 'd' && "join"@[0] == 'j');
        }
        assert("data"@ != "kick"@) by {
            reveal_strlit("data");
            reveal_strlit("kick");
            assert("data"@[0] == 'd' && "kick"@[0] == 'k');
        }
        assert("data"@ != "subscribe"@) by {
            reveal_strlit("data");
            reveal_strlit("subscribe");
            assert("data"@.len() == 4 && "subscribe"@.len() == 9);
        }
        assert("data"@ != "block"@) by {
            reveal_strlit("data");
            reveal_strlit("block");
            assert("data"@.len() == 4 && "block"@.len() == 5);
        }
        assert("data"@ != "unblock"@) by {
            reveal_strlit("data");
            reveal_strlit("unblock");
            assert("data"@.len() == 4 && "unblock"@.len() == 7);
        }
    }
}

/// The canonical text of a kick message.
spec fn kick_text(room_id: Seq<char>, user_id: Seq<char>, token: Seq<char>) -> Seq<char> {
    "{\"kind\":\"kick\",\"room_id\":"@ + jstr(room_id) + ",\"user_id\":"@ + jstr(user_id)
        + ",\"token\":"@ + jstr(token) + "}"@
}

proof fn lemma_kick_lens()
    ensures
        "{\"kind\":\"kick\",\"room_id\":"@.len() == 25,
        ",\"user_id\":"@.len() == 11,
        ",\"token\":"@.len() == 9,
        "\""@.len() == 1,
        "}"@.len() == 1,
{
    reveal_strlit("{\"kind\":\"kick\",\"room_id\":");
    reveal_strlit(",\"user_id\":");
    reveal_strlit(",\"token\":");
    reveal_strlit("\"");
    reveal_strlit("}");
}

#[verifier::rlimit(100)]
#[verifier::spinoff_prover]
proof fn lemma_kick_m1(s: Seq<char>, room_id: Seq<char>, user_id: Seq<char>, token: Seq<char>)
    requires
        s == kick_text(room_id, user_id, token),
    ensures
        parse_members(s, 1, raw_empty()) == parse_members(
            s,
            15,
            RawView { kind: Some("kick"@), ..raw_empty() },
        ),
{
    reveal_strlit("{\"kind\":\"kick\",\"room_id\":");
    reveal_strlit("kind");
    reveal_strlit("kick");
    let acc0 = raw_empty();
    let acc1 = RawView { kind: Some("kick"@), ..acc0 };
    assert(s.subrange(2, 6) =~= "kind"@);
    assert(s[6] == '"' && s[7] == ':' && s[8] == '"');
    assert(s.subrange(9, 13) =~= "kick"@);
    assert(s[13] == '"');
    assert(no_specials("kind"@) && no_specials("kick"@));
    lemma_escape_identity("kick"@);
    lemma_jstring_at(s, 8, "kick"@);
    assert(member_value(s, 8, "kind"@, acc0) == Some((acc1, 14int)));
    assert(s[14] == ',');
    lemma_member_step(s, 1, "kind"@, acc0, acc1, 14);
}

#[verifier::rlimit(100)]
#[verifier::spinoff_prover]
proof fn lemma_kick_m2(s: Seq<char>, room_id: Seq<char>, user_id: Seq<char>, token: Seq<char>)
    requires
        s == kick_text(room_id, user_id, token),
    ensures
        parse_members(s, 15, RawView { kind: Some("kick"@), ..raw_empty() }) == parse_members(
            s,
            28 + spec_escape(room_id).len() as int,
            RawView { kind: Some("kick"@), room_id: Some(room_id), ..raw_empty() },
        ),
{
    reveal_strlit("{\"kind\":\"kick\",\"room_id\":");
    reveal_strlit(",\"user_id\":");
    reveal_strlit("\"");
    reveal_strlit("kind");
    reveal_strlit("room_id");
    let rl = spec_escape(room_id).len() as int;
    let acc1 = RawView { kind: Some("kick"@), ..raw_empty() };
    let acc2 = RawView { kind: Some("kick"@), room_id: Some(room_id), ..raw_empty() };
    assert(s[15] == '"');
    assert(s.subrange(16, 23) =~= "room_id"@);
    assert(s[23] == '"' && s[24] == ':' && s[25] == '"');
    assert(s.subrange(26, 26 + rl) =~= spec_escape(room_id));
    assert(s[26 + rl] == '"');
    assert(no_specials("room_id"@));
    assert("room_id"@ != "kind"@) by {
        assert("room_id"@.len() == 7 && "kind"@.len() == 4);
    }
    lemma_jstring_at(s, 25, room_id);
    assert(!has_null(s, 25));
    assert(parse_id_value(s, 25) == Some((room_id, 27 + rl)));
    assert(member_value(s, 25, "room_id"@, acc1) == Some((acc2, 27 + rl)));
    assert(s[27 + rl] == ',');
    lemma_member_step(s, 15, "room_id"@, acc1, acc2, 27 + rl);
}

#[verifier::rlimit(100)]
#[verifier::spinoff_prover]
proof fn lemma_kick_m3(s: Seq<char>, room_id: Seq<char>, user_id: Seq<char>, token: Seq<char>)
    requires
        s == kick_text(room_id, user_id, token),
    ensures
        parse_members(
            s,
            28 + spec_escape(room_id).len() as int,
            RawView { kind: Some("kick"@), room_id: Some(room_id), ..raw_empty() },
        ) == parse_members(
            s,
            41 + spec_escape(room_id).len() + spec_escape(user_id).len() as int,
            RawView {
                kind: Some("kick"@),
                room_id: Some(room_id),
                user_id: Some(user_id),
                ..raw_empty()
            },
        ),
{
    reveal_strlit(",\"user_id\":");
    reveal_strlit(",\"token\":");
    reveal_strlit("\"");
    reveal_strlit("kind");
    reveal_strlit("room_id");
    reveal_strlit("user_id");
    lemma_kick_lens();
    let rl = spec_escape(room_id).len() as int;
    let ul = spec_escape(user_id).len() as int;
    let acc2 = RawView { kind: Some("kick"@), room_id: Some(room_id), ..raw_empty() };
    let acc3 = RawView {
        kind: Some("kick"@),
        room_id: Some(room_id),
        user_id: Some(user_id),
        ..raw_empty()
    };
    assert(s[28 + rl] == '"');
    assert(s.subrange(29 + rl, 36 + rl) =~= "user_id"@);
    assert(s[36 + rl] == '"' && s[37 + rl] == ':' && s[38 + rl] == '"');
    assert(s.subrange(39 + rl, 39 + rl + ul) =~= spec_escape(user_id));
    assert(s[39 + rl + ul] == '"');
    assert(no_specials("user_id"@));
    assert("user_id"@ != "kind"@) by {
        assert("user_id"@.len() == 7 && "kind"@.len() == 4);
    }
    assert("user_id"@ != "room_id"@) by {
        assert("user_id"@[0] == 'u' && "room_id"@[0] == 'r');
    }
    lemma_jstring_at(s, 38 + rl, user_id);
    assert(!has_null(s, 38 + rl));
    assert(parse_id_value(s, 38 + rl) == Some((user_id, 40 + rl + ul)));
    assert(member_value(s, 38 + rl, "user_id"@, acc2) == Some((acc3, 40 + rl + ul)));
    assert(s[40 + rl + ul] == ',');
    lemma_member_step(s, 28 + rl, "user_id"@, acc2, acc3, 40 + rl + ul);
}

#[verifier::rlimit(100)]
#[verifier::spinoff_prover]
proof fn lemma_kick_m4(s: Seq<char>, room_id: Seq<char>, user_id: Seq<char>, token: Seq<char>)
    requires
        s == kick_text(room_id, user_id, token),
    ensures
        parse_members(
            s,
            41 + spec_escape(room_id).len() + spec_escape(user_id).len() as int,
            RawView {
                kind: Some("kick"@),
                room_id: Some(room_id),
                user_id: Some(user_id),
                ..raw_empty()
            },
        ) == Some(
            (
                RawView {
                    kind: Some("kick"@),
                    room_id: Some(room_id),
                    user_id: Some(user_id),
                    token: Some(Some(token)),
                    ..raw_empty()
                },
                s.len() as int,
            ),
        ),
{
    reveal_strlit(",\"token\":");
    reveal_strlit("}");
    reveal_strlit("\"");
    reveal_strlit("kind");
    reveal_strlit("room_id");
    reveal_strlit("user_id");
    reveal_strlit("token");
    lemma_kick_lens();
    let rl = spec_escape(room_id).len() as int;
    let ul = spec_escape(user_id).len() as int;
    let tl = spec_escape(token).len() as int;
    let acc3 = RawView {
        kind: Some("kick"@),
        room_id: Some(room_id),
        user_id: Some(user_id),
        ..raw_empty()
    };
    let acc4 = RawView {
        kind: Some("kick"@),
        room_id: Some(room_id),
        user_id: Some(user_id),
        token: Some(Some(token)),
        ..raw_empty()
    };
    assert(s.len() == 52 + rl + ul + tl);
    assert(s[41 + rl + ul] == '"');
    assert(s.subrange(42 + rl + ul, 47 + rl + ul) =~= "token"@);
    assert(s[47 + rl + ul] == '"' && s[48 + rl + ul] == ':' && s[49 + rl + ul] == '"');
    assert(s.subrange(50 + rl + ul, 50 + rl + ul + tl) =~= spec_escape(token));
    assert(s[50 + rl + ul + tl] == '"');
    assert(no_specials("token"@));
    assert("token"@ != "kind"@) by {
        assert("token"@[0] == 't' && "kind"@[0] == 'k');
    }
    assert("token"@ != "room_id"@) by {
        assert("token"@.len() == 5 && "room_id"@.len() == 7);
    }
    assert("token"@ != "user_id"@) by {
        assert("token"@.len() == 5 && "user_id"@.len() == 7);
    }
    lemma_jstring_at(s, 49 + rl + ul, token);
    assert(!has_null(s, 49 + rl + ul));
    assert(member_value(s, 49 + rl + ul, "token"@, acc3) == Some((acc4, 51 + rl + ul + tl)));
    assert(s[51 + rl + ul + tl] == '}');
    lemma_member_step(s, 41 + rl + ul, "token"@, acc3, acc4, 51 + rl + ul + tl);
}

#[verifier::rlimit(100)]
#[verifier::spinoff_prover]
proof fn lemma_round_trip_kick(room_id: Seq<char>, user_id: Seq<char>, token: Seq<char>)
    ensures
        spec_parse_message(spec_ser_message(MessageView::Kick { room_id, user_id, token }))
            == ParseOutcome::Message(MessageView::Kick { room_id, user_id, token }),
{
    let s = spec_ser_message(MessageView::Kick { room_id, user_id, token });
    assert(s == kick_text(room_id, user_id, token));
    let n = s.len();
    assert(n == 52 + spec_escape(room_id).len() + spec_escape(user_id).len() + spec_escape(
        token,
    ).len()) by {
        reveal_strlit("{\"kind\":\"kick\",\"room_id\":");
        reveal_strlit(",\"user_id\":");
        reveal_strlit(",\"token\":");
        reveal_strlit("\"");
        reveal_strlit("}");
    }
    assert(s[0] == '{' && s[1] == '"') by {
        reveal_strlit("{\"kind\":\"kick\",\"room_id\":");
    }
    assert(skip_ws(s, 0) == 0);
    assert(skip_ws(s, 1) == 1);
    lemma_kick_m1(s, room_id, user_id, token);
    lemma_kick_m2(s, room_id, user_id, token);
    lemma_kick_m3(s, room_id, user_id, token);
    lemma_kick_m4(s, room_id, user_id, token);
    assert(skip_ws(s, n as int) == n);
    let acc4 = RawView {
        kind: Some("kick"@),
        room_id: Some(room_id),
        user_id: Some(user_id),
        token: Some(Some(token)),
        ..raw_empty()
    };
    assert(parse_members(s, 1, raw_empty()) == Some((acc4, n as int)));
    assert(build_message(acc4) == ParseOutcome::Message(
        MessageView::Kick { room_id, user_id, token },
    )) by {
        assert("kick"@ != "join"@) by {
            reveal_strlit("kick");
            reveal_strlit("join");
            assert("kick"@[0] == 'k' && "join"@[0] == 'j');
        }
    }
}

/// One serialized subscription member, then a comma or the closing brace:
/// how `parse_sub_members` steps through canonical text.
proof fn lemma_sub_member_step(
    s: Seq<char>,
    i: int,
    key: Seq<char>,
    acc: SubRawView,
    acc2: SubRawView,
    jval: int,
)
    requires
        0 <= i,
        i + key.len() + 3 < s.len(),
        s[i] == '"',
        no_specials(key),
        s.subrange(i + 1, i + 1 + key.len()) == key,
        s[i + 1 + key.len()] == '"',
        s[i + 2 + key.len()] == ':',
        !is_ws(s[i + 3 + key.len()]),
        sub_member_value(s, i + 3 + key.len(), key, acc) == Some((acc2, jval)),
        count_unset_sub(acc2) < count_unset_sub(acc),
        0 <= jval < s.len(),
    ensures
        s[jval] == ',' ==> parse_sub_members(s, i, acc) == parse_sub_members(s, jval + 1, acc2),
        s[jval] == '}' ==> parse_sub_members(s, i, acc) == Some((acc2, jval + 1)),
{
    assert(skip_ws(s, i) == i);
    lemma_escape_identity(key);
    lemma_jstring_at(s, i, key);
    assert(parse_jstring(s, i) == Some((key, i + key.len() + 2)));
    assert(skip_ws(s, i + key.len() + 2) == i + key.len() + 2);
    assert(skip_ws(s, i + key.len() + 3) == i + key.len() + 3);
    if s[jval] == ',' {
        assert(skip_ws(s, jval) == jval);
        assert(member_tail(s, jval) == MemberTail::Continue(jval + 1));
    } else if s[jval] == '}' {
        assert(skip_ws(s, jval) == jval);
        assert(member_tail(s, jval) == MemberTail::Close(jval + 1));
    }
}

proof fn lemma_sub_lens()
    ensures
        "{\"notifications\":"@.len() == 17,
        ",\"data\":"@.len() == 8,
        ",\"media\":"@.len() == 9,
        "true"@.len() == 4,
        "false"@.len() == 5,
        "null"@.len() == 4,
        "\""@.len() == 1,
        "}"@.len() == 1,
{
    reveal_strlit("{\"notifications\":");
    reveal_strlit(",\"data\":");
    reveal_strlit(",\"media\":");
    reveal_strlit("true");
    reveal_strlit("false");
    reveal_strlit("null");
    reveal_strlit("\"");
    reveal_strlit("}");
}

/// The length of a serialized boolean.
spec fn blen(b: bool) -> int {
    if b {
        4
    } else {
        5
    }
}

#[verifier::rlimit(100)]
#[verifier::spinoff_prover]
proof fn lemma_sub_m1(s: Seq<char>, i: int, w: SubscriptionView)
    requires
        0 <= i,
        i + spec_ser_sub(w).len() <= s.len(),
        s.subrange(i, i + spec_ser_sub(w).len() as int) == spec_ser_sub(w),
    ensures
        parse_sub_members(s, i + 1, sub_raw_empty()) == parse_sub_members(
            s,
            i + 18 + blen(w.notifications),
            SubRawView { notifications: Some(w.notifications), ..sub_raw_empty() },
        ),
{
    reveal_strlit("{\"notifications\":");
    reveal_strlit(",\"data\":");
    reveal_strlit("notifications");
    reveal_strlit("true");
    reveal_strlit("false");
    reveal_strlit("\"");
    lemma_sub_lens();
    let ss = spec_ser_sub(w);
    lemma_chars_of(s, i, ss);
    let acc0 = sub_raw_empty();
    let acc1 = SubRawView { notifications: Some(w.notifications), ..acc0 };
    let b1 = blen(w.notifications);
    assert(s[i + 1] == '"') by {
        assert(ss[1] == '"');
        assert(s[i + 1] == ss[1]);
    }
    assert(s.subrange(i + 2, i + 15) =~= "notifications"@) by {
        assert forall|k: int| 0 <= k < 13 implies s.subrange(i + 2, i + 15)[k]
            == "notifications"@[k] by {
            assert(ss[2 + k] == "notifications"@[k]);
            assert(s[i + (2 + k)] == ss[2 + k]);
        }
    }
    assert(s[i + 15] == '"' && s[i + 16] == ':') by {
        assert(ss[15] == '"' && ss[16] == ':');
        assert(s[i + 15] == ss[15] && s[i + 16] == ss[16]);
    }
    assert(no_specials("notifications"@));
    if w.notifications {
        assert(s[i + 17] == 't' && s[i + 18] == 'r' && s[i + 19] == 'u' && s[i + 20] == 'e') by {
            assert(ss[17] == 't' && ss[18] == 'r' && ss[19] == 'u' && ss[20] == 'e');
            assert(s[i + 17] == ss[17] && s[i + 18] == ss[18] && s[i + 19] == ss[19] && s[i + 20]
                == ss[20]);
        }
        assert(has_true(s, i + 17));
        assert(parse_bool(s, i + 17) == Some((true, i + 21)));
    } else {
        assert(s[i + 17] == 'f' && s[i + 18] == 'a' && s[i + 19] == 'l' && s[i + 20] == 's' && s[
            i + 21
        ] == 'e');
        assert(!has_true(s, i + 17));
        assert(has_false(s, i + 17));
        assert(parse_bool(s, i + 17) == Some((false, i + 22)));
    }
    assert(sub_member_value(s, i + 17, "notifications"@, acc0) == Some(
        (acc1, i + 17 + b1),
    ));
    assert(s[i + 17 + b1] == ',');
    lemma_sub_member_step(s, i + 1, "notifications"@, acc0, acc1, i + 17 + b1);
}

#[verifier::rlimit(100)]
#[verifier::spinoff_prover]
proof fn lemma_sub_m2(s: Seq<char>, i: int, w: SubscriptionView)
    requires
        0 <= i,
        i + spec_ser_sub(w).len() <= s.len(),
        s.subrange(i, i + spec_ser_sub(w).len() as int) == spec_ser_sub(w),
    ensures
        parse_sub_members(
            s,
            i + 18 + blen(w.notifications),
            SubRawView { notifications: Some(w.notifications), ..sub_raw_empty() },
        ) == parse_sub_members(
            s,
            i + 26 + blen(w.notifications) + blen(w.data),
            SubRawView {
                notifications: Some(w.notifications),
                data: Some(w.data),
                ..sub_raw_empty()
            },
        ),
{
    reveal_strlit(",\"data\":");
    reveal_strlit(",\"media\":");
    reveal_strlit("notifications");
    reveal_strlit("data");
    reveal_strlit("true");
    reveal_strlit("false");
    reveal_strlit("\"");
    lemma_sub_lens();
    let ss = spec_ser_sub(w);
    lemma_chars_of(s, i, ss);
    let b1 = blen(w.notifications);
    let b2 = blen(w.data);
    let acc1 = SubRawView { notifications: Some(w.notifications), ..sub_raw_empty() };
    let acc2 = SubRawView {
        notifications: Some(w.notifications),
        data: Some(w.data),
        ..sub_raw_empty()
    };
    let k = i + 18 + b1;
    assert(s[k] == '"');
    assert(s.subrange(k + 1, k + 5) =~= "data"@);
    assert(s[k + 5] == '"' && s[k + 6] == ':');
    assert(no_specials("data"@));
    assert("data"@ != "notifications"@) by {
        assert("data"@.len() == 4 && "notifications"@.len() == 13);
    }
    if w.data {
        assert(s[k + 7] == 't' && s[k + 8] == 'r' && s[k + 9] == 'u' && s[k + 10] == 'e');
        assert(has_true(s, k + 7));
        assert(parse_bool(s, k + 7) == Some((true, k + 11)));
    } else {
        assert(s[k + 7] == 'f' && s[k + 8] == 'a' && s[k + 9] == 'l' && s[k + 10] == 's' && s[k
            + 11] == 'e');
        assert(!has_true(s, k + 7));
        assert(has_false(s, k + 7));
        assert(parse_bool(s, k + 7) == Some((false, k + 12)));
    }
    assert(sub_member_value(s, k + 7, "data"@, acc1) == Some((acc2, k + 7 + b2)));
    assert(s[k + 7 + b2] == ',');
    lemma_sub_member_step(s, k, "data"@, acc1, acc2, k + 7 + b2);
}

#[verifier::rlimit(100)]
#[verifier::spinoff_prover]
proof fn lemma_sub_m3(s: Seq<char>, i: int, w: SubscriptionView)
    requires
        0 <= i,
        i + spec_ser_sub(w).len() <= s.len(),
        s.subrange(i, i + spec_ser_sub(w).len() as int) == spec_ser_sub(w),
    ensures
        parse_sub_members(
            s,
            i + 26 + blen(w.notifications) + blen(w.data),
            SubRawView {
                notifications: Some(w.notifications),
                data: Some(w.data),
                ..sub_raw_empty()
            },
        ) == Some(
            (
                SubRawView {
                    notifications: Some(w.notifications),
                    data: Some(w.data),
                    media: Some(w.media),
                },
                i + spec_ser_sub(w).len() as int,
            ),
        ),
{
    reveal_strlit(",\"media\":");
    reveal_strlit("notifications");
    reveal_strlit("data");
    reveal_strlit("media");
    reveal_strlit("null");
    reveal_strlit("\"");
    reveal_strlit("}");
    lemma_sub_lens();
    let ss = spec_ser_sub(w);
    lemma_chars_of(s, i, ss);
    let b1 = blen(w.notifications);
    let b2 = blen(w.data);
    let acc2 = SubRawView {
        notifications: Some(w.notifications),
        data: Some(w.data),
        ..sub_raw_empty()
    };
    let acc3 = SubRawView {
        notifications: Some(w.notifications),
        data: Some(w.data),
        media: Some(w.media),
    };
    let k = i + 26 + b1 + b2;
    assert(s[k] == '"');
    assert(s.subrange(k + 1, k + 6) =~= "media"@);
    assert(s[k + 6] == '"' && s[k + 7] == ':');
    assert(no_specials("media"@));
    assert("media"@ != "notifications"@) by {
        assert("media"@.len() == 5 && "notifications"@.len() == 13);
    }
    assert("media"@ != "data"@) by {
        assert("media"@.len() == 5 && "data"@.len() == 4);
    }
    match w.media {
        None => {
            assert(s[k + 8] == 'n' && s[k + 9] == 'u' && s[k + 10] == 'l' && s[k + 11] == 'l');
            assert(has_null(s, k + 8));
            assert(sub_member_value(s, k + 8, "media"@, acc2) == Some((acc3, k + 12)));
            assert(s[k + 12] == '}');
            assert(ss.len() == k + 13 - i);
            lemma_sub_member_step(s, k, "media"@, acc2, acc3, k + 12);
        },
        Some(m) => {
            let ml = spec_escape(m).len() as int;
            assert(s[k + 8] == '"');
            assert(s.subrange(k + 9, k + 9 + ml) =~= spec_escape(m));
            assert(s[k + 9 + ml] == '"');
            lemma_jstring_at(s, k + 8, m);
            assert(!has_null(s, k + 8));
            assert(parse_id_value(s, k + 8) == Some((m, k + 10 + ml)));
            assert(sub_member_value(s, k + 8, "media"@, acc2) == Some((acc3, k + 10 + ml)));
            assert(s[k + 10 + ml] == '}');
            assert(ss.len() == k + 11 + ml - i);
            lemma_sub_member_step(s, k, "media"@, acc2, acc3, k + 10 + ml);
        },
    }
}

/// A canonical subscription object inside a larger text parses back to the
/// subscription it was written from.
#[verifier::rlimit(100)]
#[verifier::spinoff_prover]
proof fn lemma_parse_sub(s: Seq<char>, i: int, w: SubscriptionView)
    requires
        0 <= i,
        i + spec_ser_sub(w).len() <= s.len(),
        s.subrange(i, i + spec_ser_sub(w).len() as int) == spec_ser_sub(w),
    ensures
        parse_subscription(s, i) == Some((w, i + spec_ser_sub(w).len() as int)),
{
    lemma_sub_lens();
    let ss = spec_ser_sub(w);
    lemma_chars_of(s, i, ss);
    assert(s[i] == '{') by {
        reveal_strlit("{\"notifications\":");
        assert(ss[0] == '{');
        assert(s[i + 0] == ss[0]);
    }
    assert(s[i + 1] == '"') by {
        reveal_strlit("{\"notifications\":");
        assert(ss[1] == '"');
        assert(s[i + 1] == ss[1]);
    }
    assert(skip_ws(s, i + 1) == i + 1);
    lemma_sub_m1(s, i, w);
    lemma_sub_m2(s, i, w);
    lemma_sub_m3(s, i, w);
    let acc3 = SubRawView {
        notifications: Some(w.notifications),
        data: Some(w.data),
        media: Some(w.media),
    };
    assert(parse_sub_members(s, i + 1, sub_raw_empty()) == Some(
        (acc3, i + ss.len() as int),
    ));
    assert(sub_raw_finish(acc3) == w);
}

/// The canonical text of a subscribe message.
spec fn subscribe_text(what: SubscriptionView) -> Seq<char> {
    "{\"kind\":\"subscribe\",\"what\":"@ + spec_ser_sub(what) + "}"@
}

#[verifier::rlimit(100)]
#[verifier::spinoff_prover]
proof fn lemma_subscribe_m1(s: Seq<char>, what: SubscriptionView)
    requires
        s == subscribe_text(what),
    ensures
        parse_members(s, 1, raw_empty()) == parse_members(
            s,
            20,
            RawView { kind: Some("subscribe"@), ..raw_empty() },
        ),
{
    reveal_strlit("{\"kind\":\"subscribe\",\"what\":");
    reveal_strlit("kind");
    reveal_strlit("subscribe");
    let acc0 = raw_empty();
    let acc1 = RawView { kind: Some("subscribe"@), ..acc0 };
    assert(s.subrange(2, 6) =~= "kind"@);
    assert(s[6] == '"' && s[7] == ':' && s[8] == '"');
    assert(s.subrange(9, 18) =~= "subscribe"@);
    assert(s[18] == '"');
    assert(no_specials("kind"@) && no_specials("subscribe"@));
    lemma_escape_identity("subscribe"@);
    lemma_jstring_at(s, 8, "subscribe"@);
    assert(member_value(s, 8, "kind"@, acc0) == Some((acc1, 19int)));
    assert(s[19] == ',');
    lemma_member_step(s, 1, "kind"@, acc0, acc1, 19);
}

#[verifier::rlimit(100)]
#[verifier::spinoff_prover]
proof fn lemma_subscribe_m2(s: Seq<char>, what: SubscriptionView)
    requires
        s == subscribe_text(what),
    ensures
        parse_members(s, 20, RawView { kind: Some("subscribe"@), ..raw_empty() }) == Some(
            (
                RawView { kind: Some("subscribe"@), what: Some(what), ..raw_empty() },
                s.len() as int,
            ),
        ),
{
    reveal_strlit("{\"kind\":\"subscribe\",\"what\":");
    reveal_strlit("}");
    reveal_strlit("\"");
    reveal_strlit("kind");
    reveal_strlit("room_id");
    reveal_strlit("user_id");
    reveal_strlit("token");
    reveal_strlit("whom");
    reveal_strlit("body");
    reveal_strlit("subscribe");
    reveal_strlit("what");
    let acc1 = RawView { kind: Some("subscribe"@), ..raw_empty() };
    let acc2 = RawView { kind: Some("subscribe"@), what: Some(what), ..raw_empty() };
    let sl = spec_ser_sub(what).len() as int;
    assert(s.len() == 28 + sl);
    assert(s[20] == '"');
    assert(s.subrange(21, 25) =~= "what"@);
    assert(s[25] == '"' && s[26] == ':');
    assert(no_specials("what"@));
    assert("what"@ != "kind"@) by {
        assert("what"@[0] == 'w' && "kind"@[0] == 'k');
    }
    assert("what"@ != "room_id"@) by {
        assert("what"@.len() == 4 && "room_id"@.len() == 7);
    }
    assert("what"@ != "user_id"@) by {
        assert("what"@.len() == 4 && "user_id"@.len() == 7);
    }
    assert("what"@ != "token"@) by {
        assert("what"@.len() == 4 && "token"@.len() == 5);
    }
    assert("what"@ != "whom"@) by {
        assert("what"@[1] == 'h' && "whom"@[1] == 'h');
        assert("what"@[2] == 'a' && "whom"@[2] == 'o');
    }
    assert("what"@ != "body"@) by {
        assert("what"@[0] == 'w' && "body"@[0] == 'b');
    }
    assert("what"@ != "subscribe"@) by {
        assert("what"@.len() == 4 && "subscribe"@.len() == 9);
    }
    assert(s.subrange(27, 27 + sl) =~= spec_ser_sub(what));
    lemma_parse_sub(s, 27, what);
    assert(s[27] == '{') by {
        reveal_strlit("{\"notifications\":");
        lemma_chars_of(s, 27, spec_ser_sub(what));
    }
    assert(!is_ws(s[27]));
    assert(member_value(s, 27, "what"@, acc1) == Some((acc2, 27 + sl)));
    assert(s[27 + sl] == '}');
    lemma_member_step(s, 20, "what"@, acc1, acc2, 27 + sl);
}

#[verifier::rlimit(100)]
#[verifier::spinoff_prover]
proof fn lemma_round_trip_subscribe(what: SubscriptionView)
    requires
    ensures
        spec_parse_message(spec_ser_message(MessageView::Subscribe { what }))
            == ParseOutcome::Message(MessageView::Subscribe { what }),
{
    let s = spec_ser_message(MessageView::Subscribe { what });
    assert(s == subscribe_text(what));
    let n = s.len();
    assert(n == 28 + spec_ser_sub(what).len()) by {
        reveal_strlit("{\"kind\":\"subscribe\",\"what\":");
        reveal_strlit("}");
    }
    assert(s[0] == '{' && s[1] == '"') by {
        reveal_strlit("{\"kind\":\"subscribe\",\"what\":");
    }
    assert(skip_ws(s, 0) == 0);
    assert(skip_ws(s, 1) == 1);
    lemma_subscribe_m1(s, what);
    lemma_subscribe_m2(s, what);
    let accf = RawView { kind: Some("subscribe"@), what: Some(what), ..raw_empty() };
    assert(parse_members(s, 1, raw_empty()) == Some((accf, n as int)));
    assert(skip_ws(s, n as int) == n);
    assert(build_message(accf) == ParseOutcome::Message(MessageView::Subscribe { what })) by {
        assert("subscribe"@ != "join"@) by {
            reveal_strlit("subscribe");
            reveal_strlit("join");
            assert("subscribe"@.len() == 9 && "join"@.len() == 4);
        }
        assert("subscribe"@ != "kick"@) by {
            reveal_strlit("subscribe");
            reveal_strlit("kick");
            assert("subscribe"@.len() == 9 && "kick"@.len() == 4);
        }
    }
}

/// The canonical text of a join message.
spec fn join_text(
    room_id: Seq<char>,
    user_id: Seq<char>,
    subscribe: Option<SubscriptionView>,
    token: Option<Seq<char>>,
) -> Seq<char> {
    "{\"kind\":\"join\",\"room_id\":"@ + jstr(room_id) + ",\"user_id\":"@ + jstr(user_id)
        + (match subscribe {
        None => Seq::<char>::empty(),
        Some(w) => ",\"subscribe\":"@ + spec_ser_sub(w),
    }) + (match token {
        None => Seq::<char>::empty(),
        Some(t) => ",\"token\":"@ + jstr(t),
    }) + "}"@
}

proof fn lemma_join_lens()
    ensures
        "{\"kind\":\"join\",\"room_id\":"@.len() == 25,
        ",\"user_id\":"@.len() == 11,
        ",\"subscribe\":"@.len() == 13,
        ",\"token\":"@.len() == 9,
        "\""@.len() == 1,
        "}"@.len() == 1,
{
    reveal_strlit("{\"kind\":\"join\",\"room_id\":");
    reveal_strlit(",\"user_id\":");
    reveal_strlit(",\"subscribe\":");
    reveal_strlit(",\"token\":");
    reveal_strlit("\"");
    reveal_strlit("}");
}

#[verifier::rlimit(100)]
#[verifier::spinoff_prover]
proof fn lemma_join_m1(
    s: Seq<char>,
    room_id: Seq<char>,
    user_id: Seq<char>,
    subscribe: Option<SubscriptionView>,
    token: Option<Seq<char>>,
)
    requires
        s == join_text(room_id, user_id, subscribe, token),
    ensures
        parse_members(s, 1, raw_empty()) == parse_members(
            s,
            15,
            RawView { kind: Some("join"@), ..raw_empty() },
        ),
{
    reveal_strlit("{\"kind\":\"join\",\"room_id\":");
    reveal_strlit("kind");
    reveal_strlit("join");
    let acc0 = raw_empty();
    let acc1 = RawView { kind: Some("join"@), ..acc0 };
    assert(s.subrange(2, 6) =~= "kind"@);
    assert(s[6] == '"' && s[7] == ':' && s[8] == '"');
    assert(s.subrange(9, 13) =~= "join"@);
    assert(s[13] == '"');
    assert(no_specials("kind"@) && no_specials("join"@));
    lemma_escape_identity("join"@);
    lemma_jstring_at(s, 8, "join"@);
    assert(member_value(s, 8, "kind"@, acc0) == Some((acc1, 14int)));
    assert(s[14] == ',');
    lemma_member_step(s, 1, "kind"@, acc0, acc1, 14);
}

#[verifier::rlimit(100)]
#[verifier::spinoff_prover]
proof fn lemma_join_m2(
    s: Seq<char>,
    room_id: Seq<char>,
    user_id: Seq<char>,
    subscribe: Option<SubscriptionView>,
    token: Option<Seq<char>>,
)
    requires
        s == join_text(room_id, user_id, subscribe, token),
    ensures
        parse_members(s, 15, RawView { kind: Some("join"@), ..raw_empty() }) == parse_members(
            s,
            28 + spec_escape(room_id).len() as int,
            RawView { kind: Some("join"@), room_id: Some(room_id), ..raw_empty() },
        ),
{
    reveal_strlit("{\"kind\":\"join\",\"room_id\":");
    reveal_strlit(",\"user_id\":");
    reveal_strlit("\"");
    reveal_strlit("kind");
    reveal_strlit("room_id");
    let rl = spec_escape(room_id).len() as int;
    let acc1 = RawView { kind: Some("join"@), ..raw_empty() };
    let acc2 = RawView { kind: Some("join"@), room_id: Some(room_id), ..raw_empty() };
    assert(s[15] == '"');
    assert(s.subrange(16, 23) =~= "room_id"@);
    assert(s[23] == '"' && s[24] == ':' && s[25] == '"');
    assert(s.subrange(26, 26 + rl) =~= spec_escape(room_id));
    assert(s[26 + rl] == '"');
    assert(no_specials("room_id"@));
    assert("room_id"@ != "kind"@) by {
        assert("room_id"@.len() == 7 && "kind"@.len() == 4);
    }
    lemma_jstring_at(s, 25, room_id);
    assert(!has_null(s, 25));
    assert(parse_id_value(s, 25) == Some((room_id, 27 + rl)));
    assert(member_value(s, 25, "room_id"@, acc1) == Some((acc2, 27 + rl)));
    assert(s[27 + rl] == ',');
    lemma_member_step(s, 15, "room_id"@, acc1, acc2, 27 + rl);
}

#[verifier::rlimit(100)]
#[verifier::spinoff_prover]
proof fn lemma_join_m3(
    s: Seq<char>,
    room_id: Seq<char>,
    user_id: Seq<char>,
    subscribe: Option<SubscriptionView>,
    token: Option<Seq<char>>,
)
    requires
        s == join_text(room_id, user_id, subscribe, token),
    ensures
        s[40 + spec_escape(room_id).len() + spec_escape(user_id).len() as int] == ','
            ==> parse_members(
            s,
            28 + spec_escape(room_id).len() as int,
            RawView { kind: Some("join"@), room_id: Some(room_id), ..raw_empty() },
        ) == parse_members(
            s,
            41 + spec_escape(room_id).len() + spec_escape(user_id).len() as int,
            RawView {
                kind: Some("join"@),
                room_id: Some(room_id),
                user_id: Some(user_id),
                ..raw_empty()
            },
        ),
        s[40 + spec_escape(room_id).len() + spec_escape(user_id).len() as int] == '}'
            ==> parse_members(
            s,
            28 + spec_escape(room_id).len() as int,
            RawView { kind: Some("join"@), room_id: Some(room_id), ..raw_empty() },
        ) == Some(
            (
                RawView {
                    kind: Some("join"@),
                    room_id: Some(room_id),
                    user_id: Some(user_id),
                    ..raw_empty()
                },
                41 + spec_escape(room_id).len() + spec_escape(user_id).len() as int,
            ),
        ),
{
    reveal_strlit(",\"user_id\":");
    reveal_strlit("\"");
    reveal_strlit("kind");
    reveal_strlit("room_id");
    reveal_strlit("user_id");
    lemma_join_lens();
    let rl = spec_escape(room_id).len() as int;
    let ul = spec_escape(user_id).len() as int;
    let acc2 = RawView { kind: Some("join"@), room_id: Some(room_id), ..raw_empty() };
    let acc3 = RawView {
        kind: Some("join"@),
        room_id: Some(room_id),
        user_id: Some(user_id),
        ..raw_empty()
    };
    assert(s[28 + rl] == '"');
    assert(s.subrange(29 + rl, 36 + rl) =~= "user_id"@);
    assert(s[36 + rl] == '"' && s[37 + rl] == ':' && s[38 + rl] == '"');
    assert(s.subrange(39 + rl, 39 + rl + ul) =~= spec_escape(user_id));
    assert(s[39 + rl + ul] == '"');
    assert(no_specials("user_id"@));
    assert("user_id"@ != "kind"@) by {
        assert("user_id"@.len() == 7 && "kind"@.len() == 4);
    }
    assert("user_id"@ != "room_id"@) by {
        assert("user_id"@[0] == 'u' && "room_id"@[0] == 'r');
    }
    lemma_jstring_at(s, 38 + rl, user_id);
    assert(!has_null(s, 38 + rl));
    assert(parse_id_value(s, 38 + rl) == Some((user_id, 40 + rl + ul)));
    assert(member_value(s, 38 + rl, "user_id"@, acc2) == Some((acc3, 40 + rl + ul)));
    assert(40 + rl + ul < s.len());
    lemma_member_step(s, 28 + rl, "user_id"@, acc2, acc3, 40 + rl + ul);
}

#[verifier::rlimit(100)]
#[verifier::spinoff_prover]
proof fn lemma_join_m_sub(
    s: Seq<char>,
    room_id: Seq<char>,
    user_id: Seq<char>,
    w: SubscriptionView,
    token: Option<Seq<char>>,
)
    requires
        s == join_text(room_id, user_id, Some(w), token),
    ensures
        s[53 + spec_escape(room_id).len() + spec_escape(user_id).len() + spec_ser_sub(
            w,
        ).len() as int] == ',' ==> parse_members(
            s,
            41 + spec_escape(room_id).len() + spec_escape(user_id).len() as int,
            RawView {
                kind: Some("join"@),
                room_id: Some(room_id),
                user_id: Some(user_id),
                ..raw_empty()
            },
        ) == parse_members(
            s,
            54 + spec_escape(room_id).len() + spec_escape(user_id).len() + spec_ser_sub(
                w,
            ).len() as int,
            RawView {
                kind: Some("join"@),
                room_id: Some(room_id),
                user_id: Some(user_id),
                subscribe: Some(Some(w)),
                ..raw_empty()
            },
        ),
        s[53 + spec_escape(room_id).len() + spec_escape(user_id).len() + spec_ser_sub(
            w,
        ).len() as int] == '}' ==> parse_members(
            s,
            41 + spec_escape(room_id).len() + spec_escape(user_id).len() as int,
            RawView {
                kind: Some("join"@),
                room_id: Some(room_id),
                user_id: Some(user_id),
                ..raw_empty()
            },
        ) == Some(
            (
                RawView {
                    kind: Some("join"@),
                    room_id: Some(room_id),
                    user_id: Some(user_id),
                    subscribe: Some(Some(w)),
                    ..raw_empty()
                },
                54 + spec_escape(room_id).len() + spec_escape(user_id).len() + spec_ser_sub(
                    w,
                ).len() as int,
            ),
        ),
{
    reveal_strlit(",\"subscribe\":");
    reveal_strlit("\"");
    reveal_strlit("kind");
    reveal_strlit("room_id");
    reveal_strlit("user_id");
    reveal_strlit("token");
    reveal_strlit("whom");
    reveal_strlit("body");
    reveal_strlit("subscribe");
    lemma_join_lens();
    let rl = spec_escape(room_id).len() as int;
    let ul = spec_escape(user_id).len() as int;
    let sl = spec_ser_sub(w).len() as int;
    let p = 41 + rl + ul;
    let acc3 = RawView {
        kind: Some("join"@),
        room_id: Some(room_id),
        user_id: Some(user_id),
        ..raw_empty()
    };
    let acc4 = RawView {
        kind: Some("join"@),
        room_id: Some(room_id),
        user_id: Some(user_id),
        subscribe: Some(Some(w)),
        ..raw_empty()
    };
    assert(s[p] == '"');
    assert(s.subrange(p + 1, p + 10) =~= "subscribe"@);
    assert(s[p + 10] == '"' && s[p + 11] == ':');
    assert(no_specials("subscribe"@));
    assert("subscribe"@ != "kind"@) by {
        assert("subscribe"@.len() == 9 && "kind"@.len() == 4);
    }
    assert("subscribe"@ != "room_id"@) by {
        assert("subscribe"@.len() == 9 && "room_id"@.len() == 7);
    }
    assert("subscribe"@ != "user_id"@) by {
        assert("subscribe"@.len() == 9 && "user_id"@.len() == 7);
    }
    assert("subscribe"@ != "token"@) by {
        assert("subscribe"@.len() == 9 && "token"@.len() == 5);
    }
    assert("subscribe"@ != "whom"@) by {
        assert("subscribe"@.len() == 9 && "whom"@.len() == 4);
    }
    assert("subscribe"@ != "body"@) by {
        assert("subscribe"@.len() == 9 && "body"@.len() == 4);
    }
    assert(s.subrange(p + 12, p + 12 + sl) =~= spec_ser_sub(w));
    lemma_parse_sub(s, p + 12, w);
    assert(s[p + 12] == '{') by {
        reveal_strlit("{\"notifications\":");
        lemma_chars_of(s, p + 12, spec_ser_sub(w));
    }
    assert(!is_ws(s[p + 12]));
    assert(!has_null(s, p + 12));
    assert(member_value(s, p + 12, "subscribe"@, acc3) == Some((acc4, p + 12 + sl)));
    assert(p + 12 + sl < s.len());
    lemma_member_step(s, p, "subscribe"@, acc3, acc4, p + 12 + sl);
}

#[verifier::rlimit(100)]
#[verifier::spinoff_prover]
proof fn lemma_join_m_token(
    s: Seq<char>,
    room_id: Seq<char>,
    user_id: Seq<char>,
    subscribe: Option<SubscriptionView>,
    t: Seq<char>,
    q: int,
    acc: RawView,
)
    requires
        s == join_text(room_id, user_id, subscribe, Some(t)),
        acc == (RawView {
            kind: Some("join"@),
            room_id: Some(room_id),
            user_id: Some(user_id),
            subscribe: match subscribe {
                None => None,
                Some(w) => Some(Some(w)),
            },
            ..raw_empty()
        }),
        q == 41 + spec_escape(room_id).len() + spec_escape(user_id).len() + (match subscribe {
            None => 0int,
            Some(w) => 13 + spec_ser_sub(w).len() as int,
        }),
    ensures
        parse_members(s, q, acc) == Some(
            (RawView { token: Some(Some(t)), ..acc }, s.len() as int),
        ),
{
    reveal_strlit(",\"token\":");
    reveal_strlit("}");
    reveal_strlit("\"");
    reveal_strlit("kind");
    reveal_strlit("room_id");
    reveal_strlit("user_id");
    reveal_strlit("token");
    lemma_join_lens();
    let tl = spec_escape(t).len() as int;
    let acc5 = RawView { token: Some(Some(t)), ..acc };
    assert(s.len() == q + 11 + tl);
    assert(s[q] == '"');
    assert(s.subrange(q + 1, q + 6) =~= "token"@);
    assert(s[q + 6] == '"' && s[q + 7] == ':' && s[q + 8] == '"');
    assert(s.subrange(q + 9, q + 9 + tl) =~= spec_escape(t));
    assert(s[q + 9 + tl] == '"');
    assert(no_specials("token"@));
    assert("token"@ != "kind"@) by {
        assert("token"@[0] == 't' && "kind"@[0] == 'k');
    }
    assert("token"@ != "room_id"@) by {
        assert("token"@.len() == 5 && "room_id"@.len() == 7);
    }
    assert("token"@ != "user_id"@) by {
        assert("token"@.len() == 5 && "user_id"@.len() == 7);
    }
    lemma_jstring_at(s, q + 8, t);
    assert(!has_null(s, q + 8));
    assert(member_value(s, q + 8, "token"@, acc) == Some((acc5, q + 10 + tl)));
    assert(s[q + 10 + tl] == '}');
    lemma_member_step(s, q, "token"@, acc, acc5, q + 10 + tl);
}

#[verifier::rlimit(100)]
#[verifier::spinoff_prover]
proof fn lemma_round_trip_join(
    room_id: Seq<char>,
    user_id: Seq<char>,
    subscribe: Option<SubscriptionView>,
    token: Option<Seq<char>>,
)
    ensures
        spec_parse_message(
            spec_ser_message(MessageView::Join { room_id, user_id, subscribe, token }),
        ) == ParseOutcome::Message(MessageView::Join { room_id, user_id, subscribe, token }),
{
    let s = spec_ser_message(MessageView::Join { room_id, user_id, subscribe, token });
    assert(s == join_text(room_id, user_id, subscribe, token));
    let rl = spec_escape(room_id).len() as int;
    let ul = spec_escape(user_id).len() as int;
    let n = s.len();
    lemma_join_lens();
    assert(s[0] == '{' && s[1] == '"') by {
        reveal_strlit("{\"kind\":\"join\",\"room_id\":");
    }
    assert(skip_ws(s, 0) == 0);
    assert(skip_ws(s, 1) == 1);
    lemma_join_m1(s, room_id, user_id, subscribe, token);
    lemma_join_m2(s, room_id, user_id, subscribe, token);
    lemma_join_m3(s, room_id, user_id, subscribe, token);
    let acc3 = RawView {
        kind: Some("join"@),
        room_id: Some(room_id),
        user_id: Some(user_id),
        ..raw_empty()
    };
    let accs = RawView {
        kind: Some("join"@),
        room_id: Some(room_id),
        user_id: Some(user_id),
        subscribe: match subscribe {
            None => None,
            Some(w) => Some(Some(w)),
        },
        ..raw_empty()
    };
    let accf = RawView {
        token: match token {
            None => None,
            Some(t) => Some(Some(t)),
        },
        ..accs
    };
    match subscribe {
        None => {
            assert(accs == acc3);
            match token {
                None => {
                    assert(s =~= "{\"kind\":\"join\",\"room_id\":"@ + jstr(room_id)
                        + ",\"user_id\":"@ + jstr(user_id) + "}"@);
                    assert(s[40 + rl + ul] == '}') by {
                        reveal_strlit("}");
                    }
                    assert(n == 41 + rl + ul);
                    assert(parse_members(s, 1, raw_empty()) == Some((accf, n as int)));
                },
                Some(t) => {
                    assert(s =~= "{\"kind\":\"join\",\"room_id\":"@ + jstr(room_id)
                        + ",\"user_id\":"@ + jstr(user_id) + (",\"token\":"@ + jstr(t))
                        + "}"@);
                    assert(s[40 + rl + ul] == ',') by {
                        reveal_strlit(",\"token\":");
                    }
                    lemma_join_m_token(s, room_id, user_id, subscribe, t, 41 + rl + ul, accs);
                    assert(n == 52 + rl + ul + spec_escape(t).len());
                    assert(parse_members(s, 1, raw_empty()) == Some((accf, n as int)));
                },
            }
        },
        Some(w) => {
            let sl = spec_ser_sub(w).len() as int;
            match token {
                None => {
                    assert(s =~= "{\"kind\":\"join\",\"room_id\":"@ + jstr(room_id)
                        + ",\"user_id\":"@ + jstr(user_id) + (",\"subscribe\":"@
                        + spec_ser_sub(w)) + "}"@);
                    assert(s[40 + rl + ul] == ',') by {
                        reveal_strlit(",\"subscribe\":");
                    }
                    lemma_join_m_sub(s, room_id, user_id, w, token);
                    assert(s[53 + rl + ul + sl] == '}') by {
                        reveal_strlit("}");
                    }
                    assert(n == 54 + rl + ul + sl);
                    assert(parse_members(s, 1, raw_empty()) == Some((accf, n as int)));
                },
                Some(t) => {
                    assert(s =~= "{\"kind\":\"join\",\"room_id\":"@ + jstr(room_id)
                        + ",\"user_id\":"@ + jstr(user_id) + (",\"subscribe\":"@
                        + spec_ser_sub(w)) + (",\"token\":"@ + jstr(t)) + "}"@);
                    assert(s[40 + rl + ul] == ',') by {
                        reveal_strlit(",\"subscribe\":");
                    }
                    lemma_join_m_sub(s, room_id, user_id, w, token);
                    assert(s[53 + rl + ul + sl] == ',') by {
                        reveal_strlit(",\"token\":");
                    }
                    lemma_join_m_token(
                        s,
                        room_id,
                        user_id,
                        subscribe,
                        t,
                        54 + rl + ul + sl,
                        accs,
                    );
                    assert(n == 65 + rl + ul + sl + spec_escape(t).len());
                    assert(parse_members(s, 1, raw_empty()) == Some((accf, n as int)));
                },
            }
        },
    }
    assert(skip_ws(s, n as int) == n);
    assert(build_message(accf) == ParseOutcome::Message(
        MessageView::Join { room_id, user_id, subscribe, token },
    ));
}

/// Message parse round trip: any message, serialized in the canonical
/// wire form, parses back to exactly itself.
pub proof fn lemma_parse_round_trip(v: MessageView)
    ensures
        spec_parse_message(spec_ser_message(v)) == ParseOutcome::Message(v),
{
    match v {
        MessageView::Join { room_id, user_id, subscribe, token } => {
            lemma_round_trip_join(room_id, user_id, subscribe, token);
        },
        MessageView::Kick { room_id, user_id, token } => {
            lemma_round_trip_kick(room_id, user_id, token);
        },
        MessageView::Subscribe { what } => {
            lemma_round_trip_subscribe(what);
        },
        MessageView::Block { whom } => {
            lemma_round_trip_block(whom);
        },
        MessageView::Unblock { whom } => {
            lemma_round_trip_unblock(whom);
        },
        MessageView::Data { whom, body } => {
            lemma_round_trip_data(whom, body);
        },
    }
}

} // verus!
