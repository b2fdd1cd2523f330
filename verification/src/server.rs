//! The server lifecycle abstraction: a polymorphic contract over
//! {construct-from-endpoint, start, stop}, with one concrete transport
//! variant. A server owns a resolved endpoint (IP address and port) and a
//! lifecycle state, and moves `Unbound -> Running -> Stopped -> Running`
//! only through explicit `start` and `stop` calls.

use crate::ip::IpAddress;
use crate::ip::valid_ip;
use vstd::prelude::*;

verus! {

/// The lifecycle tri-state of a server instance.
#[derive(Clone, Copy, PartialEq, Eq, Structural, Debug)]
pub enum ServerState {
    Unbound,
    Running,
    Stopped,
}

/// A resolved network endpoint: an IP address and a 16-bit port.
#[derive(Clone, Copy, PartialEq, Eq, Structural, Debug)]
pub struct Endpoint {
    pub addr: IpAddress,
    pub port: u16,
}

/// Malformed address text at construction time.
#[derive(Clone, Copy, PartialEq, Eq, Structural, Debug)]
pub enum ParseError {
    InvalidAddress,
}

/// The endpoint could not be bound at `start` time. `AlreadyRunning` is
/// this crate's documented choice for `start` on a `Running` server: a
/// no-op error that leaves the state unchanged.
#[derive(Clone, Copy, PartialEq, Eq, Structural, Debug)]
pub enum BindError {
    AlreadyRunning,
}

/// Failure releasing the bound endpoint at `stop` time. Reserved for
/// transport variants whose release step can fail; `stop` on a server
/// that is not `Running` is a benign no-op, never an error.
#[derive(Clone, Copy, PartialEq, Eq, Structural, Debug)]
pub enum StopError {
    ReleaseFailed,
}

/// The lifecycle state after a successful `start`: always `Running`.
pub open spec fn state_after_start(s: ServerState) -> ServerState {
    ServerState::Running
}

/// The lifecycle state after `stop`: `Stopped` from `Running`, unchanged
/// otherwise (the benign no-op).
pub open spec fn state_after_stop(s: ServerState) -> ServerState {
    match s {
        ServerState::Running => ServerState::Stopped,
        _ => s,
    }
}

/// `start()` followed by `stop()` always transitions
/// `Unbound -> Running -> Stopped`, and a second `start()` after `stop()`
/// transitions back to `Running`; there is no direct transition from
/// `Unbound` to `Stopped`.
pub proof fn lemma_lifecycle_transitions()
    ensures
        state_after_start(ServerState::Unbound) == ServerState::Running,
        state_after_stop(state_after_start(ServerState::Unbound)) == ServerState::Stopped,
        state_after_start(state_after_stop(state_after_start(ServerState::Unbound)))
            == ServerState::Running,
        state_after_stop(ServerState::Unbound) != ServerState::Stopped,
{
}

/// The polymorphic server contract: construct from textual address and
/// port, start, stop. Additional transport variants implement this same
/// trait without changing callers.
pub trait Server: Sized {
    /// The endpoint this server was built from.
    spec fn endpoint(&self) -> Endpoint;

    /// The current lifecycle state.
    spec fn lifecycle(&self) -> ServerState;

    /// Parses `address_text` and builds an `Unbound` server on the combined
    /// endpoint. Fails with `ParseError` exactly when the text is not a
    /// syntactically valid IPv4 or IPv6 address; a syntactically valid but
    /// unreachable address is a concern of `start`, never of construction.
    fn construct(address_text: &str, port: u16) -> (r: Result<Self, ParseError>)
        ensures
            r is Ok <==> valid_ip(address_text@),
            r matches Ok(s) ==> s.lifecycle() == ServerState::Unbound && s.endpoint().port == port
                && s.endpoint().addr.denotes(address_text@),
            r matches Err(e) ==> e == ParseError::InvalidAddress,
    ;

    /// Attempts to bind and begin listening on the held endpoint. On
    /// success the server is `Running`. Calling `start` on a `Running`
    /// server is a no-op error (`AlreadyRunning`); a failed `start` leaves
    /// the previous state unchanged.
    fn start(&mut self) -> (r: Result<(), BindError>)
        ensures
            final(self).endpoint() == old(self).endpoint(),
            r is Ok ==> final(self).lifecycle() == state_after_start(old(self).lifecycle()),
            r is Err ==> final(self).lifecycle() == old(self).lifecycle(),
            old(self).lifecycle() == ServerState::Running <==> r == Err::<(), BindError>(
                BindError::AlreadyRunning,
            ),
    ;

    /// Releases the bound endpoint. From `Running` the server becomes
    /// `Stopped`; from any other state this is a benign no-op, not an
    /// error. A failed `stop` leaves the previous state unchanged.
    fn stop(&mut self) -> (r: Result<(), StopError>)
        ensures
            final(self).endpoint() == old(self).endpoint(),
            r is Ok ==> final(self).lifecycle() == state_after_stop(old(self).lifecycle()),
            r is Err ==> final(self).lifecycle() == old(self).lifecycle(),
            old(self).lifecycle() != ServerState::Running ==> r is Ok && final(self).lifecycle()
                == old(self).lifecycle(),
    ;
}

/// The HTTP transport variant. Its bind step always succeeds in this
/// scaffold, so `start` fails only on an already-`Running` server and
/// `stop` never fails.
#[derive(Debug)]
pub struct HttpServer {
    endpoint: Endpoint,
    state: ServerState,
}

impl HttpServer {
    /// The endpoint this server holds, as a value.
    pub fn bound_endpoint(&self) -> (e: Endpoint)
        ensures
            e == self.endpoint(),
    {
        self.endpoint
    }

    /// The current lifecycle state, as a value.
    pub fn current_state(&self) -> (s: ServerState)
        ensures
            s == self.lifecycle(),
    {
        self.state
    }
}

impl Server for HttpServer {
    closed spec fn endpoint(&self) -> Endpoint {
        self.endpoint
    }

    closed spec fn lifecycle(&self) -> ServerState {
        self.state
    }

    fn construct(address_text: &str, port: u16) -> (r: Result<Self, ParseError>) {
        match IpAddress::parse(address_text) {
            Some(addr) => Ok(HttpServer { endpoint: Endpoint { addr, port }, state: ServerState::Unbound }),
            None => Err(ParseError::InvalidAddress),
        }
    }

    fn start(&mut self) -> (r: Result<(), BindError>)
        ensures
            old(self).lifecycle() != ServerState::Running ==> r is Ok,
    {
        match self.state {
            ServerState::Running => Err(BindError::AlreadyRunning),
            _ => {
                self.state = ServerState::Running;
                Ok(())
            },
        }
    }

    fn stop(&mut self) -> (r: Result<(), StopError>)
        ensures
            r is Ok,
    {
        match self.state {
            ServerState::Running => {
                self.state = ServerState::Stopped;
                Ok(())
            },
            _ => Ok(()),
        }
    }
}

} // verus!
