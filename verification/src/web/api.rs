//! Requests to the controller: how they are signed, and what is said when they fail.

use vstd::prelude::*;

use crate::numbers::decimal;
use crate::numbers::decimal_u32;

verus! {

/// What became of a request: an answer with a status, or none, for the reason given.
pub enum Reply {
    Answer(u16),
    NoAnswer(String),
}

/// The status of an answer that grants what was asked for.
pub open spec fn is_ok(status: u16) -> bool {
    200 <= status <= 299
}

pub fn ok(status: u16) -> (r: bool)
    ensures
        r == is_ok(status),
{
    200 <= status && status <= 299
}

pub open spec fn http_failure(context: Seq<char>, status: nat) -> Seq<char> {
    context + ": HTTP "@ + decimal(status)
}

pub fn describe_http_failure(context: &str, status: u16) -> (r: String)
    ensures
        r@ == http_failure(context@, status as nat),
{
    let mut r: String = context.to_string();
    r.append(": HTTP ");
    r.append(&decimal_u32(status as u32));
    r
}

pub fn describe_request_failure(context: &str, error: &str) -> (r: String)
    ensures
        r@ == context@ + ": "@ + error@,
{
    let mut r: String = context.to_string();
    r.append(": ");
    r.append(error);
    r
}

/// What is said of a request that failed; of one that was granted, nothing.
pub open spec fn failure(context: Seq<char>, reply: Reply) -> Option<Seq<char>> {
    match reply {
        Reply::Answer(status) => if is_ok(status) {
            None
        } else {
            Some(http_failure(context, status as nat))
        },
        Reply::NoAnswer(error) => Some(context + ": "@ + error@),
    }
}

pub fn failure_text(context: &str, reply: &Reply) -> (r: Option<String>)
    ensures
        match failure(context@, *reply) {
            Some(text) => r is Some && r->0@ == text,
            None => r is None,
        },
{
    match reply {
        Reply::Answer(status) => if ok(*status) {
            None
        } else {
            Some(describe_http_failure(context, *status))
        },
        Reply::NoAnswer(error) => Some(describe_request_failure(context, error)),
    }
}

/// The header that signs a request, if a key is stored.
pub fn auth_header(key: &Option<String>) -> (r: Option<(&'static str, String)>)
    ensures
        r is Some <==> key is Some,
        r matches Some(header) ==> header.0@ == "X-API-KEY"@ && header.1@ == key->0@,
{
    match key {
        Some(key) => Some(("X-API-KEY", key.clone())),
        None => None,
    }
}

/// The ticket for a stream of events: what the controller sent, or the status that stood in its
/// way, which is zero if there was no answer.
pub open spec fn ticket_for(status: Option<u16>, ticket: Option<String>) -> Result<
    Seq<char>,
    u16,
> {
    match status {
        None => Err(0u16),
        Some(status) => if is_ok(status) && ticket is Some {
            Ok(ticket->0@)
        } else {
            Err(status)
        },
    }
}

pub fn ws_ticket(status: Option<u16>, ticket: Option<String>) -> (r: Result<String, u16>)
    ensures
        match ticket_for(status, ticket) {
            Ok(text) => r is Ok && r->Ok_0@ == text,
            Err(status) => r == Err::<String, u16>(status),
        },
{
    match status {
        None => Err(0),
        Some(status) => if ok(status) {
            match ticket {
                Some(ticket) => Ok(ticket),
                None => Err(status),
            }
        } else {
            Err(status)
        },
    }
}

/// A request is granted exactly if its answer has a status from 200 to 299; what is said of any other
/// names what was asked for and what came back.
pub proof fn law_failures_are_told(context: Seq<char>, status: u16, error: String)
    ensures
        failure(context, Reply::Answer(status)) is None <==> 200 <= status < 300,
        !(200 <= status < 300) ==> failure(context, Reply::Answer(status)) == Some(
            context + ": HTTP "@ + decimal(status as nat),
        ),
        failure(context, Reply::NoAnswer(error)) == Some(context + ": "@ + error@),
{
}

/// A ticket is had exactly if the controller grants it and sends one; else it is known which status
/// stood in the way, which is zero where nothing came back.
pub proof fn law_tickets_need_an_answer(status: u16, ticket: Option<String>)
    ensures
        200 <= status < 300 && ticket is Some ==> ticket_for(Some(status), ticket) == Ok::<
            Seq<char>,
            u16,
        >(ticket->0@),
        !(200 <= status < 300) || ticket is None ==> ticket_for(Some(status), ticket) == Err::<
            Seq<char>,
            u16,
        >(status),
        ticket_for(None, ticket) == Err::<Seq<char>, u16>(0u16),
{
}

} // verus!
