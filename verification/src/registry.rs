//! The board registration state machine: unregistered until one board
//! registers, then registered for the life of the process. Registration
//! never replaces an existing board; a second attempt is rejected so an
//! in-flight transport is never swapped out from under its users.

use vstd::prelude::*;
use crate::addr::Ipv4;
use crate::addr::parse_ipv4;
use crate::addr::spec_parse_ipv4;

verus! {

/// A registration request: the device tag the board announces and its
/// address, both as the client sent them.
#[derive(Debug, Clone, PartialEq)]
pub struct BoardDetails {
    pub device: String,
    pub ip: String,
}

/// The registered board: its address. Transport resources built from it
/// live outside the library.
#[derive(Debug, Clone, Copy, PartialEq, Eq, Structural)]
pub struct BoardHandle {
    pub ip: Ipv4,
}

/// Why a registration was refused.
#[derive(Debug, Clone, Copy, PartialEq, Eq, Structural)]
pub enum RegisterError {
    /// The request's device tag is not the board's.
    InvalidDevice,
    /// A board is already registered; it is kept, never replaced.
    AlreadyRegistered,
    /// The request's address is not a well-formed dotted quad.
    InvalidIp,
}

/// The device tag a genuine board announces.
pub open spec fn spec_device_tag() -> Seq<char> {
    "relayBoard"@
}

/// The registration transition: the state afterwards and the reply.
/// Checks run in this order: device tag, existing registration, address
/// syntax; only a request passing all three installs its address.
pub open spec fn spec_register(cur: Option<Ipv4>, device: Seq<char>, ip_text: Seq<char>) -> (
    Option<Ipv4>,
    Result<Ipv4, RegisterError>,
) {
    if device != spec_device_tag() {
        (cur, Err(RegisterError::InvalidDevice))
    } else if cur is Some {
        (cur, Err(RegisterError::AlreadyRegistered))
    } else {
        match spec_parse_ipv4(ip_text) {
            Some(ip) => (Some(ip), Ok(ip)),
            None => (cur, Err(RegisterError::InvalidIp)),
        }
    }
}

/// The lock-protected optional board handle. Its only transition is
/// `register`; nothing unregisters a board short of process exit.
#[derive(Debug)]
pub struct BoardRegistry {
    board: Option<BoardHandle>,
}

impl View for BoardRegistry {
    type V = Option<Ipv4>;

    closed spec fn view(&self) -> Option<Ipv4> {
        match self.board {
            Some(h) => Some(h.ip),
            None => None,
        }
    }
}

impl BoardRegistry {
    /// A registry with no board yet.
    pub fn new() -> (r: BoardRegistry)
        ensures
            r@ is None,
    {
        BoardRegistry { board: None }
    }

    /// The registered board's address, if any.
    pub fn current(&self) -> (r: Option<Ipv4>)
        ensures
            r == self@,
    {
        match self.board {
            Some(h) => Some(h.ip),
            None => None,
        }
    }

    /// Register a board, exactly as `spec_register` says.
    pub fn register(&mut self, details: &BoardDetails) -> (r: Result<BoardHandle, RegisterError>)
        ensures
            ({
                let (st, res) = spec_register(old(self)@, details.device@, details.ip@);
                &&& final(self)@ == st
                &&& match (r, res) {
                    (Ok(h), Ok(ip)) => h.ip == ip,
                    (Err(a), Err(b)) => a == b,
                    _ => false,
                }
            }),
    {
        let tag = String::from_str("relayBoard");
        if !(details.device == tag) {
            return Err(RegisterError::InvalidDevice);
        }
        if self.board.is_some() {
            return Err(RegisterError::AlreadyRegistered);
        }
        match parse_ipv4(details.ip.as_str()) {
            Some(ip) => {
                let handle = BoardHandle { ip };
                self.board = Some(handle);
                Ok(handle)
            },
            None => Err(RegisterError::InvalidIp),
        }
    }
}

/// Registration is conservative: once a registration has succeeded, any
/// further attempt leaves the registered address untouched, and a
/// well-formed attempt is answered `AlreadyRegistered`.
pub proof fn lemma_register_conflict(
    cur: Option<Ipv4>,
    d1: Seq<char>,
    ip1: Seq<char>,
    d2: Seq<char>,
    ip2: Seq<char>,
)
    requires
        spec_register(cur, d1, ip1).1 is Ok,
    ensures
        ({
            let (st1, r1) = spec_register(cur, d1, ip1);
            let (st2, r2) = spec_register(st1, d2, ip2);
            &&& st2 == st1
            &&& (d2 == spec_device_tag() ==> r2 == Err::<Ipv4, RegisterError>(
                RegisterError::AlreadyRegistered,
            ))
        }),
{
}

} // verus!
