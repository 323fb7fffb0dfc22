//! Session state machine for one remote-console connection.
//!
//! The machine decides every step of a session: which bytes to send,
//! how the two-packet authentication handshake is judged, and when an
//! operation must be refused because the session is no longer usable.
//! The I/O driver around it owns the socket; it sends the bytes a
//! request step hands out, decodes what arrives with the codec, and
//! feeds each packet back in.  One session means one connection, and at
//! most one request is in flight at a time.

use crate::codec::{
    spec_encode, valid_body, encode_packet, PacketKind, ProtocolError, RconPacket,
};
use vstd::prelude::*;

verus! {

/// Where a session stands in its lifecycle.
#[derive(Clone, Copy, Debug, PartialEq, Eq, Structural)]
pub enum SessionState {
    Disconnected,
    Connecting,
    Authenticating,
    Ready,
    Closed,
    Failed,
}

/// One remote-console session.  `next_id` tags outgoing packets and
/// only grows, so an id is never reused within a session; `auth_id`
/// remembers the id the handshake was sent under, `pending_id` the id
/// of the one command awaiting its response, and `handshake_discarded`
/// whether the throwaway packet that precedes the authentication
/// verdict has been seen.
pub struct RconSession {
    pub state: SessionState,
    pub next_id: i32,
    pub auth_id: i32,
    pub pending_id: Option<i32>,
    pub handshake_discarded: bool,
}

impl RconSession {
    /// Ids start positive and stay positive, so a fresh id can never be
    /// the `-1` the server uses to reject a handshake; while a
    /// handshake or a command is outstanding, its id is one that was
    /// minted earlier.
    pub open spec fn wf(self) -> bool {
        &&& 1 <= self.next_id
        &&& self.state is Authenticating ==> 1 <= self.auth_id < self.next_id
        &&& match self.pending_id {
            Some(id) => self.state is Ready && 1 <= id < self.next_id,
            None => true,
        }
    }

    /// A fresh, unconnected session.
    pub fn new() -> (session: Self)
        ensures
            session.wf(),
            session.state is Disconnected,
            session.pending_id is None,
            session.next_id == 1,
    {
        RconSession {
            state: SessionState::Disconnected,
            next_id: 1,
            auth_id: 1,
            pending_id: None,
            handshake_discarded: false,
        }
    }

    /// Marks the start of a connection attempt.  Only a session that
    /// has never connected may begin one; in every other state the call
    /// is refused with `SessionClosedError` and nothing changes.
    pub fn begin_connect(&mut self) -> (result: Result<(), ProtocolError>)
        requires
            old(self).wf(),
        ensures
            final(self).wf(),
            old(self).state is Disconnected ==> result is Ok && *final(self) == (RconSession {
                state: SessionState::Connecting,
                ..*old(self)
            }),
            !(old(self).state is Disconnected) ==> result == Err::<(), ProtocolError>(
                ProtocolError::SessionClosedError,
            ) && *final(self) == *old(self),
    {
        match self.state {
            SessionState::Disconnected => {
                self.state = SessionState::Connecting;
                Ok(())
            },
            _ => Err(ProtocolError::SessionClosedError),
        }
    }

    /// Once the transport is open, produces the AUTH packet that
    /// carries the shared secret, and moves to `Authenticating`.  A
    /// secret the wire format cannot carry fails the handshake: the
    /// session becomes `Failed` and `EncodingError` is returned.
    /// Refused with `SessionClosedError` outside `Connecting`.
    pub fn handshake_request(&mut self, secret: &[u8]) -> (result: Result<
        Vec<u8>,
        ProtocolError,
    >)
        requires
            old(self).wf(),
        ensures
            final(self).wf(),
            !(old(self).state is Connecting) ==> result == Err::<Vec<u8>, ProtocolError>(
                ProtocolError::SessionClosedError,
            ) && *final(self) == *old(self),
            old(self).state is Connecting && !valid_body(secret@) ==> result == Err::<
                Vec<u8>,
                ProtocolError,
            >(ProtocolError::EncodingError) && final(self).state is Failed,
            old(self).state is Connecting && valid_body(secret@) && old(self).next_id == i32::MAX
                ==> result == Err::<Vec<u8>, ProtocolError>(ProtocolError::SessionClosedError)
                && final(self).state is Failed,
            old(self).state is Connecting && valid_body(secret@) && old(self).next_id < i32::MAX
                ==> match result {
                Ok(bytes) => {
                    &&& bytes@ == spec_encode(old(self).next_id, PacketKind::Auth, secret@)
                    &&& final(self).state is Authenticating
                    &&& final(self).auth_id == old(self).next_id
                    &&& final(self).next_id == old(self).next_id + 1
                    &&& final(self).handshake_discarded == false
                    &&& final(self).pending_id is None
                },
                Err(_) => false,
            },
    {
        match self.state {
            SessionState::Connecting => {
                let id = self.next_id;
                let packet = RconPacket { id, kind: PacketKind::Auth, body: slice_to_vec(secret) };
                match encode_packet(&packet) {
                    Ok(bytes) => {
                        if self.next_id == i32::MAX {
                            // The id space is exhausted; treat the session as
                            // dead rather than reuse a correlation id.
                            self.state = SessionState::Failed;
                            self.pending_id = None;
                            return Err(ProtocolError::SessionClosedError);
                        }
                        self.next_id = id + 1;
                        self.auth_id = id;
                        self.handshake_discarded = false;
                        self.pending_id = None;
                        self.state = SessionState::Authenticating;
                        Ok(bytes)
                    },
                    Err(_) => {
                        self.state = SessionState::Failed;
                        self.pending_id = None;
                        Err(ProtocolError::EncodingError)
                    },
                }
            },
            _ => Err(ProtocolError::SessionClosedError),
        }
    }

    /// Feeds one handshake packet from the server.  The first packet
    /// after the AUTH request is the protocol's throwaway empty
    /// response: it is discarded, whatever it holds, and `Ok(false)`
    /// says the handshake is still open.  The second packet decides.
    /// When its id equals the id of the AUTH request, the session is
    /// authenticated: `Ok(true)`, state `Ready`.  Any other id, such
    /// as the `-1` a server uses to reject a secret, fails the
    /// session with `AuthenticationError`.  Refused with
    /// `SessionClosedError` outside `Authenticating`.
    pub fn handshake_reply(&mut self, packet: &RconPacket) -> (result: Result<
        bool,
        ProtocolError,
    >)
        requires
            old(self).wf(),
        ensures
            final(self).wf(),
            !(old(self).state is Authenticating) ==> result == Err::<bool, ProtocolError>(
                ProtocolError::SessionClosedError,
            ) && *final(self) == *old(self),
            old(self).state is Authenticating && !old(self).handshake_discarded ==> result
                == Ok::<bool, ProtocolError>(false) && *final(self) == (RconSession {
                handshake_discarded: true,
                ..*old(self)
            }),
            old(self).state is Authenticating && old(self).handshake_discarded && packet.id == old(
                self,
            ).auth_id ==> result == Ok::<bool, ProtocolError>(true) && final(self).state is Ready
                && final(self).next_id == old(self).next_id && final(self).pending_id is None,
            old(self).state is Authenticating && old(self).handshake_discarded && packet.id != old(
                self,
            ).auth_id ==> result == Err::<bool, ProtocolError>(ProtocolError::AuthenticationError)
                && final(self).state is Failed,
            old(self).state is Authenticating && old(self).handshake_discarded && packet.id == -1
                ==> result == Err::<bool, ProtocolError>(ProtocolError::AuthenticationError)
                && final(self).state is Failed,
    {
        match self.state {
            SessionState::Authenticating => {
                if !self.handshake_discarded {
                    self.handshake_discarded = true;
                    Ok(false)
                } else if packet.id == self.auth_id {
                    self.state = SessionState::Ready;
                    self.pending_id = None;
                    Ok(true)
                } else {
                    self.state = SessionState::Failed;
                    self.pending_id = None;
                    Err(ProtocolError::AuthenticationError)
                }
            },
            _ => Err(ProtocolError::SessionClosedError),
        }
    }

    /// Produces the EXEC_COMMAND packet for one command and records its
    /// id as the one awaiting a response.  The caller must have
    /// finished the previous exchange (`pending_id is None`): the
    /// protocol allows one request in flight.  On a dead or not-ready
    /// session the call returns `SessionClosedError` without touching
    /// anything; a command the wire cannot carry returns
    /// `EncodingError` and leaves the session usable.
    pub fn execute_request(&mut self, command: &[u8]) -> (result: Result<
        Vec<u8>,
        ProtocolError,
    >)
        requires
            old(self).wf(),
            old(self).pending_id is None,
        ensures
            final(self).wf(),
            !(old(self).state is Ready) ==> result == Err::<Vec<u8>, ProtocolError>(
                ProtocolError::SessionClosedError,
            ) && *final(self) == *old(self),
            old(self).state is Ready && !valid_body(command@) ==> result == Err::<
                Vec<u8>,
                ProtocolError,
            >(ProtocolError::EncodingError) && *final(self) == *old(self),
            old(self).state is Ready && valid_body(command@) && old(self).next_id == i32::MAX
                ==> result == Err::<Vec<u8>, ProtocolError>(ProtocolError::SessionClosedError)
                && final(self).state is Failed,
            old(self).state is Ready && valid_body(command@) && old(self).next_id < i32::MAX
                ==> match result {
                Ok(bytes) => {
                    &&& bytes@ == spec_encode(old(self).next_id, PacketKind::ExecCommand, command@)
                    &&& final(self).state is Ready
                    &&& final(self).pending_id == Some(old(self).next_id)
                    &&& final(self).next_id == old(self).next_id + 1
                },
                Err(_) => false,
            },
    {
        match self.state {
            SessionState::Ready => {
                let id = self.next_id;
                let packet = RconPacket {
                    id,
                    kind: PacketKind::ExecCommand,
                    body: slice_to_vec(command),
                };
                match encode_packet(&packet) {
                    Ok(bytes) => {
                        if self.next_id == i32::MAX {
                            // Id space exhausted: fail rather than reuse.
                            self.state = SessionState::Failed;
                            self.pending_id = None;
                            return Err(ProtocolError::SessionClosedError);
                        }
                        self.next_id = id + 1;
                        self.pending_id = Some(id);
                        Ok(bytes)
                    },
                    Err(_) => Err(ProtocolError::EncodingError),
                }
            },
            _ => Err(ProtocolError::SessionClosedError),
        }
    }

    /// Accepts the one response packet of the outstanding command and
    /// returns its body verbatim.  The minimal exchange reads exactly
    /// one packet; a server that fragments a very large response over
    /// several packets with the request's id is out of this session's
    /// scope, so the body of the first packet is the response.
    /// Refused with `SessionClosedError` when no command is
    /// outstanding or the session is not `Ready`.
    pub fn execute_reply(&mut self, packet: RconPacket) -> (result: Result<
        Vec<u8>,
        ProtocolError,
    >)
        requires
            old(self).wf(),
        ensures
            final(self).wf(),
            !(old(self).state is Ready && old(self).pending_id is Some) ==> result == Err::<
                Vec<u8>,
                ProtocolError,
            >(ProtocolError::SessionClosedError) && *final(self) == *old(self),
            old(self).state is Ready && old(self).pending_id is Some ==> match result {
                Ok(body) => {
                    &&& body@ == packet.body@
                    &&& final(self).state is Ready
                    &&& final(self).pending_id is None
                    &&& final(self).next_id == old(self).next_id
                },
                Err(_) => false,
            },
    {
        match self.state {
            SessionState::Ready => {
                match self.pending_id {
                    Some(_) => {
                        self.pending_id = None;
                        Ok(packet.body)
                    },
                    None => Err(ProtocolError::SessionClosedError),
                }
            },
            _ => Err(ProtocolError::SessionClosedError),
        }
    }

    /// Explicitly ends the session; after this every operation is
    /// refused.  The driver releases the connection.
    pub fn close(&mut self)
        requires
            old(self).wf(),
        ensures
            final(self).wf(),
            final(self).state is Closed,
            final(self).pending_id is None,
    {
        self.state = SessionState::Closed;
        self.pending_id = None;
    }

    /// Records an unrecoverable transport failure — a timeout, a reset,
    /// a malformed or truncated frame — reported by the I/O driver; the
    /// session becomes unusable.
    pub fn connection_lost(&mut self)
        requires
            old(self).wf(),
        ensures
            final(self).wf(),
            final(self).state is Failed,
            final(self).pending_id is None,
    {
        self.state = SessionState::Failed;
        self.pending_id = None;
    }
}

/// Copies a byte slice into an owned vector.
fn slice_to_vec(bytes: &[u8]) -> (result: Vec<u8>)
    ensures
        result@ == bytes@,
{
    let mut out: Vec<u8> = Vec::new();
    let mut i: usize = 0;
    while i < bytes.len()
        invariant
            i <= bytes@.len(),
            out@ == bytes@.take(i as int),
        decreases bytes@.len() - i,
    {
        out.push(bytes[i]);
        assert(bytes@.take(i as int + 1) =~= bytes@.take(i as int).push(bytes@[i as int]));
        i += 1;
    }
    assert(bytes@.take(bytes@.len() as int) =~= bytes@);
    out
}

} // verus!
