//! The ping orchestrator: one status request as a state machine. The
//! driver performs each step's I/O (lookups, connect, writes, reads) and
//! reports what happened; every decision, every byte built and every
//! byte interpreted stands here. A failure at any step is terminal for
//! the whole operation: there are no retries at this level.

use vstd::prelude::*;

use crate::errors::{EncodingError, PingError};
use crate::json::{parse_json, spec_parse_json};
use crate::packet::{
    handshake_packet, handshake_payload, packet_bytes, parse_response_body, spec_parse_response,
    status_request_packet, validate_packet_id,
};
use crate::resolve::{apply_srv_outcome, ip_literal, plan_resolution, ResolvePlan, SrvOutcome};
use crate::status::{status_from_json, status_matches, status_parseable, ServerStatus};
use crate::strings::utf16_len;

verus! {

/// Where one ping stands.
pub enum SessionState {
    /// Waiting for the endpoint decision and lookups.
    Resolving,
    /// Waiting for the connection to this host and port.
    Connecting(String, u16),
    /// Connected; the handshake has not been sent yet. The resolved
    /// port is kept for the handshake payload.
    SendingHandshake(u16),
    /// Handshake sent; the status request has not been sent yet.
    SendingStatusRequest,
    /// Both requests sent; waiting for the response packet body.
    ReadingResponse,
    /// The status was delivered to the caller.
    Done,
    /// A step failed; the error was delivered to the caller.
    Failed,
}

/// One status request in progress.
pub struct PingSession {
    pub hostname: String,
    pub default_port: u16,
    pub protocol_version: i32,
    pub state: SessionState,
}

impl PingSession {
    /// The target's parameters stay what they were at the start.
    pub open spec fn same_target(self, other: PingSession) -> bool {
        &&& self.hostname == other.hostname
        &&& self.default_port == other.default_port
        &&& self.protocol_version == other.protocol_version
    }

    /// Starts a ping of `hostname`, with `default_port` to fall back on
    /// and the protocol version to announce.
    pub fn new(hostname: String, default_port: u16, protocol_version: i32) -> (s: Self)
        ensures
            s.hostname == hostname,
            s.default_port == default_port,
            s.protocol_version == protocol_version,
            s.state is Resolving,
    {
        PingSession { hostname, default_port, protocol_version, state: SessionState::Resolving }
    }

    /// Decides how to resolve the hostname. A literal IP address moves
    /// straight to connecting, bypassing every lookup; otherwise the
    /// returned service-record name must be queried and the outcome
    /// reported through `srv_outcome`.
    pub fn begin_resolution(&mut self) -> (r: Option<String>)
        requires
            old(self).state is Resolving,
        ensures
            final(self).same_target(*old(self)),
            match r {
                None => ip_literal(old(self).hostname@) && (final(self).state matches
                    SessionState::Connecting(host, port) && host@ == old(self).hostname@ && port
                    == old(self).default_port),
                Some(srv) => !ip_literal(old(self).hostname@) && srv@ == "_minecraft._tcp."@
                    + old(self).hostname@ && final(self).state is Resolving,
            },
    {
        match plan_resolution(self.hostname.as_str(), self.default_port) {
            ResolvePlan::Direct(host, port) => {
                self.state = SessionState::Connecting(host, port);
                None
            },
            ResolvePlan::QuerySrv(name) => Some(name),
        }
    }

    /// Folds the reported SRV outcome in: a record overrides host and
    /// port, an empty answer fails the ping, and a failed lookup falls
    /// back silently to the original hostname and default port.
    pub fn srv_outcome(&mut self, outcome: SrvOutcome) -> (r: Result<(), PingError>)
        requires
            old(self).state is Resolving,
        ensures
            final(self).same_target(*old(self)),
            match outcome {
                SrvOutcome::Found(h, p) => r == Ok::<(), PingError>(()) && (final(self).state
                    matches SessionState::Connecting(host, port) && host@ == h@ && port == p),
                SrvOutcome::NoRecords => r == Err::<(), PingError>(PingError::SrvResolutionFailed)
                    && final(self).state is Failed,
                SrvOutcome::LookupError => r == Ok::<(), PingError>(()) && (final(self).state
                    matches SessionState::Connecting(host, port) && host@ == old(self).hostname@
                    && port == old(self).default_port),
            },
    {
        match apply_srv_outcome(self.hostname.as_str(), self.default_port, outcome) {
            Ok((host, port)) => {
                self.state = SessionState::Connecting(host, port);
                Ok(())
            },
            Err(e) => {
                self.state = SessionState::Failed;
                Err(e)
            },
        }
    }

    /// The endpoint the driver must now connect to.
    pub fn connect_target(&self) -> (r: (String, u16))
        requires
            self.state matches SessionState::Connecting(_, _),
        ensures
            match self.state {
                SessionState::Connecting(host, port) => r.0@ == host@ && r.1 == port,
                _ => false,
            },
    {
        match &self.state {
            SessionState::Connecting(host, port) => (host.clone(), *port),
            _ => unreached(),
        }
    }

    /// The connection is open.
    pub fn connected(&mut self)
        requires
            old(self).state matches SessionState::Connecting(_, _),
        ensures
            final(self).same_target(*old(self)),
            match old(self).state {
                SessionState::Connecting(_, port) => final(self).state
                    == SessionState::SendingHandshake(port),
                _ => false,
            },
    {
        let port: u16 = match &self.state {
            SessionState::Connecting(_, port) => *port,
            _ => unreached(),
        };
        self.state = SessionState::SendingHandshake(port);
    }

    /// The connection attempt failed: within its time budget where
    /// `timed_out` is false, by exceeding it where true. The two stay
    /// distinct so the caller can tell unreachable from unresponsive.
    pub fn connect_failed(&mut self, timed_out: bool) -> (r: PingError)
        requires
            old(self).state matches SessionState::Connecting(_, _),
        ensures
            final(self).same_target(*old(self)),
            final(self).state is Failed,
            r == if timed_out {
                PingError::ConnectTimeout
            } else {
                PingError::ConnectFailed
            },
    {
        self.state = SessionState::Failed;
        if timed_out {
            PingError::ConnectTimeout
        } else {
            PingError::ConnectFailed
        }
    }

    /// The handshake packet to send: the original hostname, the resolved
    /// port and the announced protocol version, framed under packet ID
    /// zero. A hostname over the string codec's ceiling fails the ping
    /// instead of panicking.
    pub fn handshake_bytes(&mut self) -> (r: Result<Vec<u8>, PingError>)
        requires
            old(self).state matches SessionState::SendingHandshake(_),
        ensures
            final(self).same_target(*old(self)),
            match r {
                Ok(pkt) => (match old(self).state {
                    SessionState::SendingHandshake(port) => pkt@ == packet_bytes(
                        0,
                        handshake_payload(old(self).protocol_version, old(self).hostname@, port),
                    ),
                    _ => false,
                }) && final(self).state is SendingStatusRequest,
                Err(e) => e == PingError::Encoding(EncodingError::StringTooLong) && utf16_len(
                    old(self).hostname@,
                ) > 32767 && final(self).state is Failed,
            },
    {
        let port: u16 = match &self.state {
            SessionState::SendingHandshake(port) => *port,
            _ => unreached(),
        };
        match handshake_packet(self.protocol_version, self.hostname.as_str(), port) {
            Ok(pkt) => {
                self.state = SessionState::SendingStatusRequest;
                Ok(pkt)
            },
            Err(e) => {
                self.state = SessionState::Failed;
                Err(PingError::Encoding(e))
            },
        }
    }

    /// The status-request packet to send after the handshake.
    pub fn status_request_bytes(&mut self) -> (r: Vec<u8>)
        requires
            old(self).state is SendingStatusRequest,
        ensures
            final(self).same_target(*old(self)),
            r@ == packet_bytes(0, Seq::<u8>::empty()),
            final(self).state is ReadingResponse,
    {
        self.state = SessionState::ReadingResponse;
        status_request_packet()
    }

    /// Interprets the response body read from the stream: a VarInt
    /// packet ID, which must be zero, then the JSON status payload as a
    /// length-prefixed string. Delivers the parsed status or the typed
    /// error that ends the ping.
    pub fn response(&mut self, body: &[u8]) -> (r: Result<ServerStatus, PingError>)
        requires
            old(self).state is ReadingResponse,
        ensures
            final(self).same_target(*old(self)),
            r is Ok ==> final(self).state is Done,
            r is Err ==> final(self).state is Failed,
            match spec_parse_response(body@) {
                Err(e) => r matches Err(pe) && pe == PingError::Encoding(e),
                Ok((id, text)) => {
                    if id != 0 {
                        r == Err::<ServerStatus, PingError>(PingError::UnexpectedPacketId(id))
                    } else {
                        match spec_parse_json(text) {
                            None => r == Err::<ServerStatus, PingError>(PingError::JsonError),
                            Some(tree) => match r {
                                Ok(st) => status_matches(tree, st) && st.wf(),
                                Err(e) => e == PingError::JsonError && !status_parseable(tree),
                            },
                        }
                    }
                },
            },
    {
        let parsed: (i32, String) = match parse_response_body(body) {
            Ok(p) => p,
            Err(e) => {
                self.state = SessionState::Failed;
                return Err(PingError::Encoding(e));
            },
        };
        let (id, text) = parsed;
        match validate_packet_id(id) {
            Ok(()) => (),
            Err(e) => {
                self.state = SessionState::Failed;
                return Err(e);
            },
        }
        let tree = match parse_json(text.as_str()) {
            Some(t) => t,
            None => {
                self.state = SessionState::Failed;
                return Err(PingError::JsonError);
            },
        };
        match status_from_json(tree) {
            Ok(st) => {
                self.state = SessionState::Done;
                Ok(st)
            },
            Err(e) => {
                self.state = SessionState::Failed;
                Err(e)
            },
        }
    }
}

} // verus!
