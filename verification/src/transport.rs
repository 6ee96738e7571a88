//! Checks and error shapes at the edge of the server: request fields, the error
//! payload sent to clients, and the HTTP status of each error.

use vstd::prelude::*;
use vstd::string::*;
use crate::errors::{internal_message, ErrorDetails, RuleError};
use crate::identity::{is_uuid, parses_as_uuid};
use crate::text::{chars_of, str_eq, to_uppercase, trim, trimmed, uppercased, utf16_len, utf16_units};

verus! {

/// The error for a malformed message, carrying one validation message.
pub open spec fn invalid_message_error(e: RuleError, message: Seq<char>) -> bool {
    &&& e.code@ == "INVALID_MESSAGE"@
    &&& e.message@ == "消息格式无效"@
    &&& e.details matches Some(ErrorDetails::Messages(v)) && v@.len() == 1 && v@[0]@ == message
}

/// A malformed message, with the validation message.
pub fn invalid_message(message: &str) -> (e: RuleError)
    ensures
        invalid_message_error(e, message@),
{
    let mut messages: Vec<String> = Vec::new();
    messages.push(message.to_owned());
    RuleError::new("INVALID_MESSAGE", "消息格式无效").with_details(ErrorDetails::Messages(messages))
}

/// The payload sent for an internal error, without its details.
pub fn internal_error_payload() -> (e: RuleError)
    ensures
        e.code@ == "INTERNAL_ERROR"@,
        e.message@ == internal_message(),
        e.details is None,
{
    RuleError::new("INTERNAL_ERROR", "服务器内部错误")
}

/// The error as sent to a client: an internal error loses its details, and an error
/// without details gets an explicit empty detail.
pub fn rule_error_payload(error: RuleError) -> (e: RuleError)
    ensures
        error.code@ == "INTERNAL_ERROR"@ ==> e.code@ == "INTERNAL_ERROR"@ && e.message@ == internal_message()
            && e.details is None,
        error.code@ != "INTERNAL_ERROR"@ ==> e.code == error.code && e.message == error.message && e.details == match error.details {
            Some(d) => Some(d),
            None => Some(ErrorDetails::Null),
        },
{
    if str_eq(error.code.as_str(), "INTERNAL_ERROR") {
        return internal_error_payload();
    }
    let mut error = error;
    if error.details.is_none() {
        error.details = Some(ErrorDetails::Null);
    }
    error
}

/// A room code in a request: trimmed, 4 to 12 UTF-16 code units, then upper-cased.
pub fn validated_socket_room_code(value: String) -> (r: Result<String, RuleError>)
    ensures
        4 <= utf16_units(trimmed(value@)) <= 12 ==> (r matches Ok(code) && code@ == uppercased(trimmed(value@))),
        !(4 <= utf16_units(trimmed(value@)) <= 12) ==> (r matches Err(e) && invalid_message_error(
            e,
            "roomCode must contain 4 to 12 characters"@,
        )),
{
    let trimmed_code = trim(value.as_str());
    let length = utf16_len(trimmed_code);
    if !(4 <= length && length <= 12) {
        return Err(invalid_message("roomCode must contain 4 to 12 characters"));
    }
    Ok(to_uppercase(trimmed_code))
}

/// An action id takes 8 to 128 UTF-16 code units.
pub fn validate_action_id(value: &str) -> (r: Result<(), RuleError>)
    ensures
        r is Ok <==> 8 <= utf16_units(value@) <= 128,
        r matches Err(e) ==> invalid_message_error(e, "actionId must contain 8 to 128 characters"@),
{
    let length = utf16_len(value);
    if !(8 <= length && length <= 128) {
        return Err(invalid_message("actionId must contain 8 to 128 characters"));
    }
    Ok(())
}

/// A card id takes 1 to 80 UTF-16 code units.
pub fn validate_card_id(value: &str) -> (r: Result<(), RuleError>)
    ensures
        r is Ok <==> 1 <= utf16_units(value@) <= 80,
        r matches Err(e) ==> invalid_message_error(e, "cardId must contain 1 to 80 characters"@),
{
    let length = utf16_len(value);
    if !(1 <= length && length <= 80) {
        return Err(invalid_message("cardId must contain 1 to 80 characters"));
    }
    Ok(())
}

/// A play of cards names 1 to 10 card ids, each valid, under a valid action id; the
/// first check that fails gives the error.
#[verifier::loop_isolation(false)]
pub fn validate_play_payload(action_id: &str, card_ids: &[String]) -> (r: Result<(), RuleError>)
    ensures
        r is Ok <==> 8 <= utf16_units(action_id@) <= 128 && 1 <= card_ids@.len() <= 10 && forall|i: int|
            0 <= i < card_ids@.len() ==> 1 <= utf16_units((#[trigger] card_ids@[i])@) <= 80,
        !(8 <= utf16_units(action_id@) <= 128) ==> (r matches Err(e) && invalid_message_error(
            e,
            "actionId must contain 8 to 128 characters"@,
        )),
        8 <= utf16_units(action_id@) <= 128 && !(1 <= card_ids@.len() <= 10) ==> (r matches Err(e)
            && invalid_message_error(e, "cardIds must contain 1 to 10 cards"@)),
        8 <= utf16_units(action_id@) <= 128 && 1 <= card_ids@.len() <= 10 && r is Err ==> (r matches Err(e)
            && invalid_message_error(e, "cardId must contain 1 to 80 characters"@)),
{
    match validate_action_id(action_id) {
        Ok(()) => {},
        Err(e) => {
            return Err(e);
        },
    }
    if !(1 <= card_ids.len() && card_ids.len() <= 10) {
        return Err(invalid_message("cardIds must contain 1 to 10 cards"));
    }
    let mut i: usize = 0;
    while i < card_ids.len()
        invariant
            i <= card_ids@.len(),
            forall|j: int| 0 <= j < i ==> 1 <= utf16_units((#[trigger] card_ids@[j])@) <= 80,
        decreases card_ids@.len() - i,
    {
        match validate_card_id(card_ids[i].as_str()) {
            Ok(()) => {},
            Err(e) => {
                return Err(e);
            },
        }
        i = i + 1;
    }
    Ok(())
}

/// A command on one card: a valid action id, then a valid card id.
pub fn validate_card_payload(action_id: &str, card_id: &str) -> (r: Result<(), RuleError>)
    ensures
        r is Ok <==> 8 <= utf16_units(action_id@) <= 128 && 1 <= utf16_units(card_id@) <= 80,
        !(8 <= utf16_units(action_id@) <= 128) ==> (r matches Err(e) && invalid_message_error(
            e,
            "actionId must contain 8 to 128 characters"@,
        )),
        8 <= utf16_units(action_id@) <= 128 && !(1 <= utf16_units(card_id@) <= 80) ==> (r matches Err(e)
            && invalid_message_error(e, "cardId must contain 1 to 80 characters"@)),
{
    match validate_action_id(action_id) {
        Ok(()) => {},
        Err(e) => {
            return Err(e);
        },
    }
    validate_card_id(card_id)
}

/// Checks the identity a socket presents: a valid room code, a participant id in UUID
/// form and a reconnect token of 32 to 128 UTF-16 code units, in that order. Gives the
/// normalized room code.
pub fn validate_socket_auth(room_code: String, participant_id: &str, reconnect_token: &str) -> (r: Result<String, RuleError>)
    ensures
        !(4 <= utf16_units(trimmed(room_code@)) <= 12) ==> (r matches Err(e) && invalid_message_error(
            e,
            "roomCode must contain 4 to 12 characters"@,
        )),
        4 <= utf16_units(trimmed(room_code@)) <= 12 && !parses_as_uuid(participant_id@) ==> (r matches Err(e)
            && invalid_message_error(e, "participantId must be a UUID"@)),
        4 <= utf16_units(trimmed(room_code@)) <= 12 && parses_as_uuid(participant_id@) && !(32 <= utf16_units(
            reconnect_token@,
        ) <= 128) ==> (r matches Err(e) && invalid_message_error(
            e,
            "reconnectToken must contain 32 to 128 characters"@,
        )),
        4 <= utf16_units(trimmed(room_code@)) <= 12 && parses_as_uuid(participant_id@) && 32 <= utf16_units(
            reconnect_token@,
        ) <= 128 ==> (r matches Ok(code) && code@ == uppercased(trimmed(room_code@))),
{
    let code = match validated_socket_room_code(room_code) {
        Ok(c) => c,
        Err(e) => {
            return Err(e);
        },
    };
    if !is_uuid(participant_id) {
        return Err(invalid_message("participantId must be a UUID"));
    }
    let length = utf16_len(reconnect_token);
    if !(32 <= length && length <= 128) {
        return Err(invalid_message("reconnectToken must contain 32 to 128 characters"));
    }
    Ok(code)
}

/// The HTTP status of a refused request, by the error's code.
pub open spec fn status_for_code(code: Seq<char>) -> u16 {
    if code == "ROOM_NOT_FOUND"@ {
        404
    } else if code == "INVALID_CREDENTIALS"@ {
        401
    } else if code == "DISPLAY_NAME_TAKEN"@ || code == "ROOM_FULL"@ || code == "STALE_STATE"@ {
        409
    } else if code == "SERVER_BUSY"@ {
        503
    } else if code == "INTERNAL_ERROR"@ {
        500
    } else {
        400
    }
}

/// The HTTP status of a refused request.
pub fn status_for_rule_error(error: &RuleError) -> (status: u16)
    ensures
        status == status_for_code(error.code@),
{
    let code = error.code.as_str();
    if str_eq(code, "ROOM_NOT_FOUND") {
        404
    } else if str_eq(code, "INVALID_CREDENTIALS") {
        401
    } else if str_eq(code, "DISPLAY_NAME_TAKEN") || str_eq(code, "ROOM_FULL") || str_eq(code, "STALE_STATE") {
        409
    } else if str_eq(code, "SERVER_BUSY") {
        503
    } else if str_eq(code, "INTERNAL_ERROR") {
        500
    } else {
        400
    }
}

/// Why an HTTP request was refused.
#[derive(Debug)]
pub enum HttpError {
    /// The request itself is malformed.
    InvalidRequest,
    /// A rule refused it.
    Rule(RuleError),
}

impl From<RuleError> for HttpError {
    fn from(error: RuleError) -> (r: Self) {
        if str_eq(error.code.as_str(), "INVALID_DISPLAY_NAME") {
            HttpError::InvalidRequest
        } else {
            HttpError::Rule(error)
        }
    }
}

impl vstd::std_specs::convert::FromSpecImpl<RuleError> for HttpError {
    open spec fn obeys_from_spec() -> bool {
        true
    }

    open spec fn from_spec(error: RuleError) -> HttpError {
        if error.code@ == "INVALID_DISPLAY_NAME"@ {
            HttpError::InvalidRequest
        } else {
            HttpError::Rule(error)
        }
    }
}

impl HttpError {
    /// The response to send: its status and its error payload. A malformed request is
    /// answered 400 with `INVALID_REQUEST`; a refused one with the status of its code
    /// and its payload.
    pub fn response_parts(self) -> (r: (u16, RuleError))
        ensures
            match self {
                HttpError::InvalidRequest => r.0 == 400 && r.1.code@ == "INVALID_REQUEST"@ && r.1.message@
                    == "请求格式无效"@ && r.1.details is None,
                HttpError::Rule(error) => r.0 == status_for_code(error.code@) && (error.code@ == "INTERNAL_ERROR"@
                    ==> r.1.code@ == "INTERNAL_ERROR"@ && r.1.details is None) && (error.code@
                    != "INTERNAL_ERROR"@ ==> r.1.code == error.code && r.1.message == error.message
                    && r.1.details == match error.details {
                    Some(d) => Some(d),
                    None => Some(ErrorDetails::Null),
                }),
            },
    {
        match self {
            HttpError::InvalidRequest => (400, RuleError::new("INVALID_REQUEST", "请求格式无效")),
            HttpError::Rule(error) => {
                let status = status_for_rule_error(&error);
                (status, rule_error_payload(error))
            },
        }
    }
}

/// A room code in a URL: as for sockets, every refusal being a malformed request.
pub fn validated_room_code(value: String) -> (r: Result<String, HttpError>)
    ensures
        4 <= utf16_units(trimmed(value@)) <= 12 ==> (r matches Ok(code) && code@ == uppercased(trimmed(value@))),
        !(4 <= utf16_units(trimmed(value@)) <= 12) ==> r matches Err(HttpError::InvalidRequest),
{
    match validated_socket_room_code(value) {
        Ok(code) => Ok(code),
        Err(_) => Err(HttpError::InvalidRequest),
    }
}

} // verus!
