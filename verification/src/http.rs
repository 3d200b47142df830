//! Connection-manager decisions: redirect orchestration and the
//! keep-alive rule.  The stream work itself (sockets, TLS) lives with
//! the embedding application, which runs these decisions in its loop:
//! it performs the dial, write and read, and hands the parsed values
//! back.
use vstd::prelude::*;
use crate::bytes::spec_lower;
use crate::tokens::{Status, Connection, Parsable, ToHeader};
use crate::wire::{Headers, spec_store_get};
use crate::message::{Request, Response};

verus! {

/// The default redirect hop budget.
pub const REDIRECT_LIMIT: usize = 10;

/// What a client does with one response while following redirects.
pub enum RedirectAction {
    /// The response is the final answer: deliver it.
    Deliver,
    /// Re-resolve this `Location` text as the next URI and send again
    /// with a budget one smaller.
    Follow(Vec<u8>),
    /// The response redirects but the hop budget is spent: the
    /// distinct redirect-limit failure.
    LimitExceeded,
}

/// The normalized `location` header name.
pub open spec fn spec_location_key() -> Seq<u8> {
    seq![108u8, 111u8, 99u8, 97u8, 116u8, 105u8, 111u8, 110u8]
}

/// An embedding application's request handler: one parsed request in,
/// optionally one response out.  When no response comes back, no bytes
/// are written for that exchange.
pub trait Handler {
    /// Answers one request.
    fn handle(&self, request: &Request) -> (r: Option<Response>);
}

/// The client and server decision rules.
pub struct Http {}

impl Http {
    /// The redirect decision for one response under a remaining hop
    /// budget: only a moved-permanently status redirects; with no
    /// budget left that is the distinct redirect-limit failure; with
    /// budget and a `Location` header the location is followed; a
    /// redirect without `Location` is delivered as it stands.
    pub fn redirect(status: Status, headers: &Headers, limit: usize) -> (r: RedirectAction)
        ensures
            match r {
                RedirectAction::Deliver => status != Status::MovedPermanently
                    || (limit >= 1 && spec_store_get(headers@, spec_location_key()) is None),
                RedirectAction::LimitExceeded => status == Status::MovedPermanently && limit == 0,
                RedirectAction::Follow(loc) => status == Status::MovedPermanently
                    && limit >= 1
                    && spec_store_get(headers@, spec_location_key()) == Some(loc@),
            },
    {
        match status {
            Status::MovedPermanently => {
                if limit < 1 {
                    return RedirectAction::LimitExceeded;
                }
                let key: Vec<u8> = vec![108u8, 111u8, 99u8, 97u8, 116u8, 105u8, 111u8, 110u8];
                proof {
                    assert(key@ =~= spec_location_key());
                }
                match headers.get(&key) {
                    Some(loc) => RedirectAction::Follow(crate::bytes::subvec(loc, 0, loc.len())),
                    None => RedirectAction::Deliver,
                }
            },
            _ => RedirectAction::Deliver,
        }
    }

    /// Whether a request's `connection` header asks to keep the
    /// connection open for the next exchange.
    pub open spec fn spec_keep_alive(hs: Seq<crate::wire::HeaderPair>) -> bool {
        match spec_store_get(hs, Connection::spec_normalized()) {
            Some(v) => Connection::spec_parse(v) == Some(Connection::KeepAlive),
            None => false,
        }
    }

    /// The server's keep-alive decision after one exchange: loop for
    /// another request exactly when the just-parsed request carried a
    /// keep-alive `Connection` directive.
    pub fn keep_alive(headers: &Headers) -> (r: bool)
        ensures
            r == Http::spec_keep_alive(headers@),
    {
        let key = Connection::normalized();
        match headers.get(&key) {
            Some(v) => match Connection::parse(v) {
                Some(Connection::KeepAlive) => true,
                _ => false,
            },
            None => false,
        }
    }
}

} // verus!
