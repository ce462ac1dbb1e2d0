//! The life of one connection: `Connecting`, then `Active` once it is listed
//! in the directory, then `Closed`. The session turns each inbound frame into
//! at most one request to the directory; the caller carries it out.

use vstd::prelude::*;
use crate::command::{Command, CommandView, command_of, parse_frame, trim_of};
use crate::server::{ClientMessage, Disconnect, ListUsers};

verus! {

/// Where a connection stands.
#[derive(Clone, Copy, Debug, PartialEq, Eq, Structural)]
pub enum Phase {
    Connecting,
    Active,
    Closed,
}

/// One event read from the transport.
pub enum Frame {
    Text(String),
    Binary,
    Continuation,
    Ping,
    Pong,
    Close,
    Nop,
    /// The transport reported a protocol error.
    Error,
}

/// What the caller is to do after an event.
pub enum Action {
    Nothing,
    /// List the connection under this name.
    Join(String),
    /// Ask the directory for its list of users.
    List(ListUsers),
    /// Route a direct message.
    Send(ClientMessage),
    /// Take the connection's name out of the directory and stop.
    Leave(Disconnect),
    /// Stop without touching the directory.
    Stop,
}

/// One connection and the name it is listed under.
pub struct SocketSession {
    pub username: String,
    pub phase: Phase,
}

/// True for the frames that end a session.
pub open spec fn ends_session(f: &Frame) -> bool {
    match f {
        Frame::Close | Frame::Continuation | Frame::Error => true,
        _ => false,
    }
}

impl SocketSession {
    /// A session for a connection that the caller has authenticated as
    /// `username`; it is not listed yet.
    pub fn new(username: String) -> (r: SocketSession)
        ensures
            r.username == username,
            r.phase == Phase::Connecting,
    {
        SocketSession { username, phase: Phase::Connecting }
    }

    /// The request that lists a new session in the directory.
    pub fn started(&self) -> (r: Action)
        ensures
            self.phase == Phase::Connecting ==> (r matches Action::Join(name)
                && name@ == self.username@),
            self.phase != Phase::Connecting ==> r is Nothing,
    {
        match self.phase {
            Phase::Connecting => Action::Join(self.username.clone()),
            _ => Action::Nothing,
        }
    }

    /// The directory's answer to the join request: the name under which the
    /// session is listed, or `None` when the request could not be delivered.
    pub fn registered(&mut self, reply: Option<String>) -> (r: Action)
        ensures
            old(self).phase != Phase::Connecting ==> *final(self) == *old(self)
                && r is Nothing,
            old(self).phase == Phase::Connecting ==> match reply {
                Some(name) => {
                    &&& final(self).username == name
                    &&& final(self).phase == Phase::Active
                    &&& r is Nothing
                },
                None => {
                    &&& final(self).username == old(self).username
                    &&& final(self).phase == Phase::Closed
                    &&& r is Stop
                },
            },
    {
        match self.phase {
            Phase::Connecting => match reply {
                Some(name) => {
                    self.username = name;
                    self.phase = Phase::Active;
                    Action::Nothing
                },
                None => {
                    self.phase = Phase::Closed;
                    Action::Stop
                },
            },
            _ => Action::Nothing,
        }
    }

    /// Handles one inbound frame. Only an active session acts: a text frame
    /// becomes at most one request, and a close, a continuation or an error
    /// closes the session and takes its name out of the directory, which
    /// therefore happens once.
    pub fn handle(&mut self, frame: Frame) -> (r: Action)
        ensures
            old(self).phase != Phase::Active ==> *final(self) == *old(self) && r is Nothing,
            old(self).phase == Phase::Active && ends_session(&frame) ==> {
                &&& final(self).username == old(self).username
                &&& final(self).phase == Phase::Closed
                &&& (r matches Action::Leave(d) && d.username@ == old(self).username@)
            },
            old(self).phase == Phase::Active && !ends_session(&frame) ==> {
                &&& *final(self) == *old(self)
                &&& match frame {
                    Frame::Text(t) => match command_of(trim_of(t@)) {
                        Some(CommandView::ListUsers) => r is List,
                        Some(CommandView::DirectMessage { recipient, text }) => {
                            &&& r matches Action::Send(m)
                            &&& r->Send_0.resiver@ == recipient
                            &&& r->Send_0.text@ == text
                            &&& r->Send_0.sender@ == old(self).username@
                        },
                        None => r is Nothing,
                    },
                    _ => r is Nothing,
                }
            },
    {
        match self.phase {
            Phase::Active => {},
            _ => return Action::Nothing,
        }
        match frame {
            Frame::Text(t) => match parse_frame(t.as_str()) {
                Some(Command::ListUsers) => Action::List(ListUsers),
                Some(Command::DirectMessage { recipient, text }) => Action::Send(
                    ClientMessage { text, resiver: recipient, sender: self.username.clone() },
                ),
                None => Action::Nothing,
            },
            Frame::Close | Frame::Continuation | Frame::Error => {
                self.phase = Phase::Closed;
                Action::Leave(Disconnect { username: self.username.clone() })
            },
            _ => Action::Nothing,
        }
    }
}

} // verus!
