//! The accepting side of one connection.
//!
//! A session starts unauthenticated and becomes authenticated once the
//! handler accepts a password; it never goes back. The session itself does
//! no I/O and calls no handler: it says what is to be asked of the handler
//! for each message read from the peer, and what is to be sent back once
//! the handler has answered.

use crate::packet::{Packet, PacketError, PacketType, PacketView};
use vstd::prelude::*;

verus! {

/// The id of the reply that tells a peer its password was refused.
pub const AUTH_REFUSED_ID: i32 = -1;

/// What a session asks for after a read from its peer.
pub enum Request {
    /// Ask the handler whether the password is right.
    Authenticate { password: String, id: i32 },
    /// Ask the handler to run the command.
    Execute { command: String, id: i32 },
    /// Nothing to do; read on.
    Skip,
    /// The peer has closed the stream; the session is over.
    Stop,
}

/// A request as contracts speak of it.
pub enum RequestView {
    Authenticate { password: Seq<char>, id: i32 },
    Execute { command: Seq<char>, id: i32 },
    Skip,
    Stop,
}

impl View for Request {
    type V = RequestView;

    open spec fn view(&self) -> RequestView {
        match self {
            Request::Authenticate { password, id } => RequestView::Authenticate {
                password: password@,
                id: *id,
            },
            Request::Execute { command, id } => RequestView::Execute { command: command@, id: *id },
            Request::Skip => RequestView::Skip,
            Request::Stop => RequestView::Stop,
        }
    }
}

/// What a read from the peer calls for.
///
/// The end of the stream ends the session. A frame that failed to decode is
/// passed over and the session goes on. A password is looked at only before
/// authentication and a command only after it; every other frame is passed
/// over without a reply.
pub open spec fn request_for(
    authenticated: bool,
    msg: Option<Result<Packet, PacketError>>,
) -> RequestView {
    match msg {
        None => RequestView::Stop,
        Some(Err(_)) => RequestView::Skip,
        Some(Ok(p)) => if p.ptype == PacketType::ExecCommand && authenticated {
            RequestView::Execute { command: p.body@, id: p.id }
        } else if p.ptype == PacketType::Auth && !authenticated {
            RequestView::Authenticate { password: p.body@, id: p.id }
        } else {
            RequestView::Skip
        },
    }
}

/// The reply to a password: the request's id with an empty body when it was
/// accepted, the refusal id with an empty body when it was not.
pub open spec fn auth_reply_for(id: i32, accepted: bool) -> PacketView {
    PacketView {
        ptype: PacketType::ResponseValue,
        id: if accepted {
            id
        } else {
            AUTH_REFUSED_ID
        },
        body: Seq::empty(),
    }
}

/// The protocol state of one inbound connection.
pub struct ServerSession {
    authenticated: bool,
}

impl ServerSession {
    /// Whether the peer has authenticated.
    pub closed spec fn is_authenticated(&self) -> bool {
        self.authenticated
    }

    /// A session for a connection that was just accepted.
    pub fn new() -> (session: ServerSession)
        ensures
            !session.is_authenticated(),
    {
        ServerSession { authenticated: false }
    }

    /// Whether the peer has authenticated.
    pub fn authenticated(&self) -> (b: bool)
        ensures
            b == self.is_authenticated(),
    {
        self.authenticated
    }

    /// Decides what the outcome of one read from the peer calls for.
    pub fn on_message(&self, msg: Option<Result<Packet, PacketError>>) -> (r: Request)
        ensures
            r@ == request_for(self.is_authenticated(), msg),
    {
        match msg {
            None => Request::Stop,
            Some(Err(_)) => Request::Skip,
            Some(Ok(p)) => {
                if p.ptype == PacketType::ExecCommand && self.authenticated {
                    Request::Execute { command: p.body, id: p.id }
                } else if p.ptype == PacketType::Auth && !self.authenticated {
                    Request::Authenticate { password: p.body, id: p.id }
                } else {
                    Request::Skip
                }
            },
        }
    }

    /// Takes the handler's verdict on a password and builds the reply. An
    /// accepted password authenticates the session; a refused one leaves it
    /// as it was.
    pub fn auth_reply(&mut self, id: i32, accepted: bool) -> (reply: Packet)
        ensures
            final(self).is_authenticated() == (old(self).is_authenticated() || accepted),
            reply@ == auth_reply_for(id, accepted),
    {
        if accepted {
            self.authenticated = true;
            Packet { ptype: PacketType::ResponseValue, id, body: String::new() }
        } else {
            Packet { ptype: PacketType::ResponseValue, id: AUTH_REFUSED_ID, body: String::new() }
        }
    }

    /// Takes the handler's outcome for a command and builds the reply: the
    /// command's id with the handler's text. A handler that failed gets no
    /// reply made up for it: the result is `None` and the session is to be
    /// closed.
    pub fn command_reply(&self, id: i32, output: Option<String>) -> (reply: Option<Packet>)
        ensures
            match output {
                Some(text) => reply is Some && reply->Some_0@ == (PacketView {
                    ptype: PacketType::ResponseValue,
                    id,
                    body: text@,
                }),
                None => reply is None,
            },
    {
        match output {
            Some(text) => Some(Packet { ptype: PacketType::ResponseValue, id, body: text }),
            None => None,
        }
    }
}

} // verus!
