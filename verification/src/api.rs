//! REST decisions: which status code an outcome is reported with, and who may
//! connect as whom.
//!
//! - `POST /match`: create a match
//! - `GET  /match/{id}`: public match info
//! - `POST /match/{id}/join`: join as a player (auto-starts the match)
//! - `GET  /ws/{match_id}?token=...`: live connection

use crate::match_manager::MatchManager;
use crate::network::Role;
use crate::text::{contains_text, same_text};
use vstd::prelude::*;

verus! {

pub const OK: u16 = 200;

pub const BAD_REQUEST: u16 = 400;

pub const NOT_FOUND: u16 = 404;

pub const CONFLICT: u16 = 409;

pub const SERVICE_UNAVAILABLE: u16 = 503;

/// Status of a refused create request: a full server is unavailable, anything
/// else is a bad request.
pub open spec fn create_refusal(message: Seq<char>) -> u16 {
    if crate::text::occurs_in(message, "max_matches"@) {
        SERVICE_UNAVAILABLE
    } else {
        BAD_REQUEST
    }
}

/// Status of a refused join request.
pub open spec fn join_refusal(message: Seq<char>) -> u16 {
    if message == "match not found"@ {
        NOT_FOUND
    } else if message == "match is full"@ {
        CONFLICT
    } else {
        BAD_REQUEST
    }
}

/// The status code that a refused create request is answered with.
pub fn create_error_status(message: &str) -> (r: u16)
    ensures
        r == create_refusal(message@),
{
    if contains_text(message, "max_matches") {
        SERVICE_UNAVAILABLE
    } else {
        BAD_REQUEST
    }
}

/// The status code that a refused join request is answered with.
pub fn join_error_status(message: &str) -> (r: u16)
    ensures
        r == join_refusal(message@),
{
    if same_text(message, "match not found") {
        NOT_FOUND
    } else if same_text(message, "match is full") {
        CONFLICT
    } else {
        BAD_REQUEST
    }
}

/// The role of a connection to a match; `None` where there is no such match.
/// Without a token one is a spectator.
pub fn connect_role(manager: &MatchManager, id: &str, token: Option<&str>) -> (r: Option<Role>)
    requires
        manager.wf(),
    ensures
        r is Some <==> manager@.matches.dom().contains(id@),
        r matches Some(role) ==> role == (match token {
            Some(t) => manager@.matches[id@].role(t@),
            None => Role::Spectator,
        }),
{
    match manager.get(id) {
        Some(m) => Some(
            match token {
                Some(t) => m.role_for_token(t),
                None => Role::Spectator,
            },
        ),
        None => None,
    }
}

} // verus!
