//! Token validation: deciding who may join which room and who may kick.
//! The cryptographic check itself is done by an outside library; the
//! permission rules over the validated claims are verified here.

use vstd::prelude::*;

use crate::messages::RoomId;
use crate::switchboard::vec_contains_id;

verus! {

/// The claims carried by a validated token.
#[derive(Debug, Clone, PartialEq, Eq)]
pub struct ValidatedToken {
    /// Whether this token grants joining at all.
    pub join_hub: bool,

    /// Whether this token grants kicking users.
    pub kick_users: bool,

    /// If present, the rooms that `join_hub` is restricted to; if absent,
    /// the token permits joining any room.
    pub room_ids: Option<Vec<RoomId>>,
}

/// The error returned for a token that does not validate, or whose claims
/// are not in the expected shape.
#[derive(Debug, Clone, Copy, PartialEq, Eq, Structural)]
pub struct AuthError;

/// What a token allows for a room: joining is allowed when the token
/// grants joining at all and either carries no room restriction or lists
/// this room.
pub open spec fn spec_may_join(t: ValidatedToken, room: Seq<char>) -> bool {
    t.join_hub && match t.room_ids {
        None => true,
        Some(rs) => rs@.map_values(|r: RoomId| r@).contains(room),
    }
}

impl ValidatedToken {
    /// Whether this token permits joining the given room.
    pub fn may_join(&self, room_id: &RoomId) -> (r: bool)
        ensures
            r == spec_may_join(*self, room_id@),
    {
        if self.join_hub {
            match &self.room_ids {
                None => true,
                Some(allowed_rooms) => vec_contains_id(allowed_rooms, room_id),
            }
        } else {
            false
        }
    }

    /// Validates a token against the configured RS512 public key and reads
    /// its claims. The cryptographic outcome depends on the key and the
    /// clock, so nothing ties the result to the token text; the mapping
    /// from whatever claims come back to the token value is fixed by
    /// `claims_to_token`.
    pub fn from_str(value: &str, key: &[u8]) -> (r: Result<ValidatedToken, AuthError>) {
        match decode_rs512(value, key) {
            None => Err(AuthError),
            Some(claims) => claims_to_token(&claims),
        }
    }
}

/// The boolean a claim contributes: false when the key is absent, its
/// value when it holds a boolean, and nothing (an error) otherwise.
pub open spec fn spec_claim_bool(c: serde_json::Value, key: Seq<char>) -> Option<bool> {
    match json_member_of(c, key) {
        None => Some(false),
        Some(v) => json_bool_of(v),
    }
}

/// The strings of a claims array, if every element is a string.
pub open spec fn strings_of(items: Seq<serde_json::Value>) -> Option<Seq<Seq<char>>>
    decreases items.len(),
{
    if items.len() == 0 {
        Some(Seq::empty())
    } else {
        match (strings_of(items.drop_last()), json_string_of(items.last())) {
            (Some(pre), Some(x)) => Some(pre.push(x)),
            _ => None,
        }
    }
}

/// The room restriction the claims carry: unrestricted when the key is
/// absent or `null`, the listed rooms when it holds an array of strings,
/// and nothing (an error) otherwise.
pub open spec fn spec_claim_rooms(c: serde_json::Value) -> Option<Option<Seq<Seq<char>>>> {
    match json_member_of(c, "room_ids"@) {
        None => Some(None),
        Some(v) => if json_null_of(v) {
            Some(None)
        } else {
            match json_array_of(v) {
                None => None,
                Some(items) => match strings_of(items) {
                    None => None,
                    Some(rs) => Some(Some(rs)),
                },
            }
        },
    }
}

/// The room restriction a token value carries, as views.
pub open spec fn view_rooms(o: Option<Vec<RoomId>>) -> Option<Seq<Seq<char>>> {
    match o {
        None => None,
        Some(v) => Some(v@.map_values(|x: RoomId| x@)),
    }
}

proof fn lemma_strings_of_none(items: Seq<serde_json::Value>, k: int)
    requires
        0 <= k <= items.len(),
        strings_of(items.take(k)) is None,
    ensures
        strings_of(items) is None,
    decreases items.len() - k,
{
    if k == items.len() {
        assert(items.take(k) =~= items);
    } else {
        assert(items.take(k + 1).drop_last() =~= items.take(k));
        lemma_strings_of_none(items, k + 1);
    }
}

/// Reads a decoded claims value into a token: `join_hub` and `kick_users`
/// default to false when absent, an ill-typed claim is an error, and
/// `room_ids` is unrestricted when absent or null, else a list of rooms.
pub fn claims_to_token(claims: &serde_json::Value) -> (r: Result<ValidatedToken, AuthError>)
    ensures
        r is Err <==> (spec_claim_bool(*claims, "join_hub"@) is None || spec_claim_bool(
            *claims,
            "kick_users"@,
        ) is None || spec_claim_rooms(*claims) is None),
        r matches Ok(t) ==> {
            &&& Some(t.join_hub) == spec_claim_bool(*claims, "join_hub"@)
            &&& Some(t.kick_users) == spec_claim_bool(*claims, "kick_users"@)
            &&& Some(view_rooms(t.room_ids)) == spec_claim_rooms(*claims)
        },
{
    let join_hub = match json_get(claims, "join_hub") {
        None => false,
        Some(v) => match json_as_bool(v) {
            Some(b) => b,
            None => {
                return Err(AuthError);
            },
        },
    };
    let kick_users = match json_get(claims, "kick_users") {
        None => false,
        Some(v) => match json_as_bool(v) {
            Some(b) => b,
            None => {
                return Err(AuthError);
            },
        },
    };
    let room_ids = match json_get(claims, "room_ids") {
        None => None,
        Some(v) => {
            if json_is_null(v) {
                None
            } else {
                match json_as_array(v) {
                    None => {
                        return Err(AuthError);
                    },
                    Some(items) => {
                        let ghost vv = *v;
                        let mut rooms: Vec<RoomId> = Vec::new();
                        let mut i: usize = 0;
                        while i < items.len()
                            invariant
                                i <= items@.len(),
                                json_member_of(*claims, "room_ids"@) == Some(vv),
                                !json_null_of(vv),
                                json_array_of(vv) == Some(items@),
                                strings_of(items@.take(i as int)) == Some(
                                    crate::switchboard::views_of_strings(rooms@),
                                ),
                            decreases items@.len() - i,
                        {
                            proof {
                                assert(items@.take(i as int + 1).drop_last() =~= items@.take(
                                    i as int,
                                ));
                                assert(items@.take(i as int + 1).last() == items@[i as int]);
                            }
                            match json_as_string(&items[i]) {
                                None => {
                                    proof {
                                        lemma_strings_of_none(items@, i as int + 1);
                                    }
                                    return Err(AuthError);
                                },
                                Some(room) => {
                                    rooms.push(room);
                                    proof {
                                        assert(crate::switchboard::views_of_strings(rooms@)
                                            =~= strings_of(
                                            items@.take(i as int),
                                        ).unwrap().push(room@));
                                    }
                                },
                            }
                            i = i + 1;
                        }
                        proof {
                            assert(items@.take(items@.len() as int) =~= items@);
                        }
                        Some(rooms)
                    },
                }
            }
        },
    };
    let token = ValidatedToken { join_hub, kick_users, room_ids };
    proof {
        match &token.room_ids {
            None => {},
            Some(v) => {
                assert(view_rooms(token.room_ids) == Some(
                    crate::switchboard::views_of_strings(v@),
                ));
            },
        }
    }
    Ok(token)
}

#[verifier::external_type_specification]
#[verifier::external_body]
pub struct ExJsonValue(serde_json::Value);

/// Relies on jsonwebtoken::decode with RS512 validation over a DER-encoded
/// RSA public key, with the RustCrypto backend carrying the signature
/// check: returns the token's claims when the signature and the registered
/// claims check out, and nothing otherwise. The outcome depends on the
/// clock, so nothing is promised of it.
#[verifier::external_body]
fn decode_rs512(token: &str, der_key: &[u8]) -> Option<serde_json::Value> {
    let validation = jsonwebtoken::Validation::new(jsonwebtoken::Algorithm::RS512);
    let key = jsonwebtoken::DecodingKey::from_rsa_der(der_key);
    match jsonwebtoken::decode::<serde_json::Value>(token, &key, &validation) {
        Ok(data) => Some(data.claims),
        Err(_) => None,
    }
}

/// The member a JSON value holds under a key, as serde_json::Value::get
/// computes it: a function of the value and the key alone.
pub uninterp spec fn json_member_of(v: serde_json::Value, key: Seq<char>) -> Option<
    serde_json::Value,
>;

/// The boolean a JSON value holds, as serde_json::Value::as_bool computes
/// it: a function of the value alone.
pub uninterp spec fn json_bool_of(v: serde_json::Value) -> Option<bool>;

/// Whether a JSON value is `null`, as serde_json::Value::is_null computes
/// it: a function of the value alone.
pub uninterp spec fn json_null_of(v: serde_json::Value) -> bool;

/// The elements a JSON array holds, as serde_json::Value::as_array
/// computes them: a function of the value alone.
pub uninterp spec fn json_array_of(v: serde_json::Value) -> Option<Seq<serde_json::Value>>;

/// The text a JSON string holds, as serde_json::Value::as_str computes
/// it: a function of the value alone.
pub uninterp spec fn json_string_of(v: serde_json::Value) -> Option<Seq<char>>;

/// Relies on serde_json::Value::get: the member of a JSON object under the
/// given key, if the value is an object holding that key.
#[verifier::external_body]
fn json_get<'a>(v: &'a serde_json::Value, key: &str) -> (r: Option<&'a serde_json::Value>)
    ensures
        r matches Some(x) ==> json_member_of(*v, key@) == Some(*x),
        r is None ==> json_member_of(*v, key@) is None,
{
    v.get(key)
}

/// Relies on serde_json::Value::as_bool: the boolean a JSON value holds, if
/// it is a boolean.
#[verifier::external_body]
fn json_as_bool(v: &serde_json::Value) -> (r: Option<bool>)
    ensures
        r == json_bool_of(*v),
{
    v.as_bool()
}

/// Relies on serde_json::Value::is_null: whether a JSON value is `null`.
#[verifier::external_body]
fn json_is_null(v: &serde_json::Value) -> (r: bool)
    ensures
        r == json_null_of(*v),
{
    v.is_null()
}

/// Relies on serde_json::Value::as_array: the elements of a JSON array, if
/// the value is an array.
#[verifier::external_body]
fn json_as_array(v: &serde_json::Value) -> (r: Option<&Vec<serde_json::Value>>)
    ensures
        r matches Some(a) ==> json_array_of(*v) == Some(a@),
        r is None ==> json_array_of(*v) is None,
{
    v.as_array()
}

/// Relies on serde_json::Value::as_str: the text a JSON value holds, if it
/// is a string, as an owned copy.
#[verifier::external_body]
fn json_as_string(v: &serde_json::Value) -> (r: Option<String>)
    ensures
        r matches Some(x) ==> json_string_of(*v) == Some(x@),
        r is None ==> json_string_of(*v) is None,
{
    match v.as_str() {
        Some(s) => Some(s.to_owned()),
        None => None,
    }
}

} // verus!
