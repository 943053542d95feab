//! A client's side of the protocol: what each frame it sends leads to.

use vstd::prelude::*;
use crate::event::{parsed_event, GatewayEvent};
use crate::protocol::{
    heartbeat_ack, heartbeat_ack_text, invalid_session, invalid_session_text, HEARTBEAT, IDENTIFY,
    RESUME,
};
use crate::scan::same_bytes;

verus! {

/// The body of a client's IDENTIFY.
#[derive(Clone, Debug, PartialEq, Eq)]
pub struct IdentifyInfo {
    pub compress: bool,
    pub shard: [u64; 2],
    pub token: Vec<u8>,
}

/// A client's IDENTIFY, decoded.
#[derive(Clone, Debug, PartialEq, Eq)]
pub struct Identify {
    pub d: IdentifyInfo,
}

/// Where a client stands.
#[derive(Clone, Copy, Debug, PartialEq, Eq)]
pub enum SessionState {
    /// Connected, not yet identified.
    AwaitingFrame,
    /// Bound to a shard.
    Identified,
    /// To be disconnected.
    Closing,
}

/// What the engine does on a client's frame.
#[derive(Clone, Debug, PartialEq, Eq)]
pub enum ClientAction {
    /// Nothing.
    Ignore,
    /// Send this frame to the client.
    Reply(Vec<u8>),
    /// Decode the frame as an IDENTIFY and hand it to `identify`.
    Decode,
    /// The client is bound to this shard: start sending it that shard's
    /// events, compressed if `compress` asks for it.
    Bind { shard_id: u64, compress: bool },
    /// Send this text upstream on this shard.
    Forward { shard_id: u64, text: Vec<u8> },
    /// Disconnect the client.
    Close,
}

/// A `ClientAction` with the text it carries.
pub ghost enum Reaction {
    Ignore,
    Reply(Seq<u8>),
    Decode,
    Bind { shard_id: u64, compress: bool },
    Forward { shard_id: u64, text: Seq<u8> },
    Close,
}

/// What a `ClientSession` holds.
pub ghost struct SessionView {
    pub state: SessionState,
    pub shard_count: u64,
    pub shard: Option<u64>,
    pub use_zlib: bool,
}

impl View for ClientAction {
    type V = Reaction;

    open spec fn view(&self) -> Reaction {
        match *self {
            ClientAction::Ignore => Reaction::Ignore,
            ClientAction::Reply(text) => Reaction::Reply(text@),
            ClientAction::Decode => Reaction::Decode,
            ClientAction::Bind { shard_id, compress } => Reaction::Bind { shard_id, compress },
            ClientAction::Forward { shard_id, text } => Reaction::Forward { shard_id, text: text@ },
            ClientAction::Close => Reaction::Close,
        }
    }
}

/// One client's connection.
pub struct ClientSession {
    state: SessionState,
    shard_count: u64,
    shard: Option<u64>,
    use_zlib: bool,
}

impl View for ClientSession {
    type V = SessionView;

    closed spec fn view(&self) -> SessionView {
        SessionView {
            state: self.state,
            shard_count: self.shard_count,
            shard: self.shard,
            use_zlib: self.use_zlib,
        }
    }
}

impl SessionView {
    /// A session is bound to a shard exactly while it is identified, and to a
    /// shard that exists.
    pub open spec fn wf(self) -> bool {
        &&& self.state is Identified <==> self.shard is Some
        &&& self.shard matches Some(id) ==> id < self.shard_count
    }
}

/// What a frame from the client leads to. A frame without an opcode is
/// ignored. A heartbeat is acknowledged and a RESUME answered with
/// INVALID_SESSION, whatever the state. An IDENTIFY is to be decoded while the
/// client is not identified, and ignored afterwards. Anything else goes
/// upstream as it is once the client is bound, and is ignored before.
pub open spec fn reaction(session: SessionView, frame: Seq<u8>) -> Reaction {
    if session.state is Closing {
        Reaction::Close
    } else {
        match parsed_event(frame) {
            None => Reaction::Ignore,
            Some(event) => if event.op == HEARTBEAT {
                Reaction::Reply(heartbeat_ack_text())
            } else if event.op == IDENTIFY {
                if session.state is AwaitingFrame {
                    Reaction::Decode
                } else {
                    Reaction::Ignore
                }
            } else if event.op == RESUME {
                Reaction::Reply(invalid_session_text())
            } else {
                match session.shard {
                    Some(shard_id) => Reaction::Forward { shard_id, text: frame },
                    None => Reaction::Ignore,
                }
            },
        }
    }
}

/// Whether an IDENTIFY is accepted: it was decoded, it names the configured
/// number of shards and one of them, and its token is the shared secret.
pub open spec fn accepted(session: SessionView, decoded: Option<Identify>, secret: Seq<u8>) -> bool {
    &&& decoded matches Some(identify)
    &&& identify.d.shard@[1] == session.shard_count
    &&& identify.d.shard@[0] < identify.d.shard@[1]
    &&& identify.d.token@ == secret
}

/// The session after an IDENTIFY was handed in. While the client is not
/// identified, an accepted one binds it to its shard and may switch
/// compression on, and any other closes the session. Later ones change nothing.
pub open spec fn identified(session: SessionView, decoded: Option<Identify>, secret: Seq<u8>) -> SessionView {
    if !(session.state is AwaitingFrame) {
        session
    } else if accepted(session, decoded, secret) {
        SessionView {
            state: SessionState::Identified,
            shard_count: session.shard_count,
            shard: Some(decoded->0.d.shard@[0]),
            use_zlib: session.use_zlib || decoded->0.d.compress,
        }
    } else {
        SessionView {
            state: SessionState::Closing,
            shard_count: session.shard_count,
            shard: session.shard,
            use_zlib: session.use_zlib,
        }
    }
}

/// What handing in an IDENTIFY leads to.
pub open spec fn identify_reaction(session: SessionView, decoded: Option<Identify>, secret: Seq<u8>) -> Reaction {
    if session.state is Closing {
        Reaction::Close
    } else if session.state is Identified {
        Reaction::Ignore
    } else if accepted(session, decoded, secret) {
        Reaction::Bind { shard_id: decoded->0.d.shard@[0], compress: decoded->0.d.compress }
    } else {
        Reaction::Close
    }
}

impl ClientSession {
    /// A client that has just connected to a proxy of `shard_count` shards;
    /// `use_zlib` says whether it asked for compression when connecting.
    pub fn new(shard_count: u64, use_zlib: bool) -> (r: ClientSession)
        ensures
            r@ == (SessionView { state: SessionState::AwaitingFrame, shard_count, shard: None, use_zlib }),
            r@.wf(),
    {
        ClientSession { state: SessionState::AwaitingFrame, shard_count, shard: None, use_zlib }
    }

    /// Where the client stands.
    pub fn state(&self) -> (r: SessionState)
        ensures
            r == self@.state,
    {
        self.state
    }

    /// The shard that the client is bound to.
    pub fn shard(&self) -> (r: Option<u64>)
        ensures
            r == self@.shard,
    {
        self.shard
    }

    /// Whether frames to the client are compressed.
    pub fn use_zlib(&self) -> (r: bool)
        ensures
            r == self@.use_zlib,
    {
        self.use_zlib
    }

    /// Decides what a frame from the client leads to.
    pub fn receive(&self, frame: &[u8]) -> (action: ClientAction)
        ensures
            action@ == reaction(self@, frame@),
    {
        if let SessionState::Closing = self.state {
            return ClientAction::Close;
        }
        let event = match GatewayEvent::from_json(frame) {
            Some(event) => event,
            None => {
                return ClientAction::Ignore;
            },
        };
        let op = event.op();
        if op == HEARTBEAT {
            ClientAction::Reply(heartbeat_ack())
        } else if op == IDENTIFY {
            match self.state {
                SessionState::AwaitingFrame => ClientAction::Decode,
                _ => ClientAction::Ignore,
            }
        } else if op == RESUME {
            ClientAction::Reply(invalid_session())
        } else {
            match self.shard {
                Some(shard_id) => ClientAction::Forward {
                    shard_id,
                    text: vstd::slice::slice_to_vec(frame),
                },
                None => ClientAction::Ignore,
            }
        }
    }

    /// Takes the client's IDENTIFY as it was decoded, `None` where it could
    /// not be, and checks it against the shared `secret`.
    pub fn identify(&mut self, decoded: Option<Identify>, secret: &[u8]) -> (action: ClientAction)
        ensures
            final(self)@ == identified(old(self)@, decoded, secret@),
            action@ == identify_reaction(old(self)@, decoded, secret@),
            old(self)@.wf() ==> final(self)@.wf(),
    {
        match self.state {
            SessionState::Closing => {
                return ClientAction::Close;
            },
            SessionState::Identified => {
                return ClientAction::Ignore;
            },
            SessionState::AwaitingFrame => {},
        }
        let identify = match decoded {
            Some(identify) => identify,
            None => {
                self.state = SessionState::Closing;
                return ClientAction::Close;
            },
        };
        let shard_id = identify.d.shard[0];
        let shard_count = identify.d.shard[1];
        if shard_count != self.shard_count || shard_id >= shard_count || !same_bytes(
            identify.d.token.as_slice(),
            secret,
        ) {
            self.state = SessionState::Closing;
            return ClientAction::Close;
        }
        self.state = SessionState::Identified;
        self.shard = Some(shard_id);
        self.use_zlib = self.use_zlib || identify.d.compress;
        ClientAction::Bind { shard_id, compress: identify.d.compress }
    }
}

/// Until a client is bound to a shard, nothing it sends goes upstream.
pub proof fn lemma_unbound_forwards_nothing(session: SessionView, frame: Seq<u8>)
    requires
        session.shard is None,
    ensures
        !(reaction(session, frame) is Forward),
{
}

/// A client is bound once: an IDENTIFY handed in after the first accepted one
/// changes nothing and is ignored.
pub proof fn lemma_bound_once(
    session: SessionView,
    first: Option<Identify>,
    second: Option<Identify>,
    secret: Seq<u8>,
)
    requires
        session.state is AwaitingFrame,
        accepted(session, first, secret),
    ensures
        identified(identified(session, first, secret), second, secret) == identified(
            session,
            first,
            secret,
        ),
        identify_reaction(identified(session, first, secret), second, secret) == Reaction::Ignore,
{
}

/// Compression, once on, stays on.
pub proof fn lemma_compression_stays(session: SessionView, decoded: Option<Identify>, secret: Seq<u8>)
    requires
        session.use_zlib,
    ensures
        identified(session, decoded, secret).use_zlib,
{
}

} // verus!
