use tungstenite::http::{HeaderMap, HeaderValue};
use tungstenite::protocol::frame::Frame;
use tungstenite::protocol::CloseFrame;
use tungstenite::Bytes;
use vstd::prelude::*;

use crate::client::{lent, mode_set, WebSocketClientMode, WebSocketClients};
use crate::writer::WebSocketWriter;
use crate::peer::WebSocketPeer;

verus! {

// The payload, frame, close-frame and header types of `tungstenite` (the last
// two from its `http` re-export), declared so that events can carry them.
// They are opaque here: the library moves them through and never looks
// inside.
#[verifier::external_type_specification]
#[verifier::external_body]
pub struct ExBytes(Bytes);

#[verifier::external_type_specification]
#[verifier::external_body]
pub struct ExFrame(Frame);

#[verifier::external_type_specification]
#[verifier::external_body]
pub struct ExCloseFrame(CloseFrame);

#[verifier::external_type_specification]
#[verifier::external_body]
pub struct ExHeaderValue(HeaderValue);

#[verifier::external_type_specification]
#[verifier::external_body]
#[verifier::reject_recursive_types(T)]
pub struct ExHeaderMap<T>(HeaderMap<T>);

/// This event represents text messages.
#[derive(Debug)]
pub struct WebSocketMessageEvent {
    pub data: String,
    pub peer: WebSocketPeer,
}

/// This event represents binary data.
#[derive(Debug)]
pub struct WebSocketBinaryEvent {
    pub data: Bytes,
    pub peer: WebSocketPeer,
}

/// This event represents ping replies (pong).
#[derive(Debug)]
pub struct WebSocketPongEvent {
    pub data: Bytes,
    pub peer: WebSocketPeer,
}

/// This event represents raw frames.
#[derive(Debug)]
pub struct WebSocketRawEvent {
    pub data: Frame,
    pub peer: WebSocketPeer,
}

/// This event represents that a new conversation has been established.
#[derive(Debug)]
pub struct WebSocketOpenEvent {
    pub peer: WebSocketPeer,
    pub mode: WebSocketClientMode,
    pub headers: HeaderMap<HeaderValue>,
}

/// This event represents that a conversation has been closed.
#[derive(Debug)]
pub struct WebSocketCloseEvent {
    pub data: Option<CloseFrame>,
    pub peer: WebSocketPeer,
}

impl WebSocketMessageEvent {
    /// Write access to this event's peer, to reply; `None` if it is no longer
    /// registered.
    pub fn reply<'c, C>(&self, clients: &'c mut WebSocketClients<C>) -> (r: Option<
        WebSocketWriter<'c, C>,
    >)
        requires
            old(clients).wf(),
        ensures
            lent(*old(clients), *final(clients), self.peer, r),
            r matches Some(w) ==> final(clients).streams() == old(clients).streams().update(
                old(clients).index_of(self.peer),
                *final(w.stream),
            ),
    {
        self.peer.write(clients)
    }

    /// Sets the operation mode of this event's peer; `None` if it is no
    /// longer registered.
    pub fn set_mode<C>(&self, clients: &mut WebSocketClients<C>, mode: WebSocketClientMode) -> (r:
        Option<()>)
        requires
            old(clients).wf(),
        ensures
            mode_set(*old(clients), *final(clients), self.peer, mode, r),
    {
        self.peer.set_mode(clients, mode)
    }
}

impl WebSocketBinaryEvent {
    /// Write access to this event's peer, to reply; `None` if it is no longer
    /// registered.
    pub fn reply<'c, C>(&self, clients: &'c mut WebSocketClients<C>) -> (r: Option<
        WebSocketWriter<'c, C>,
    >)
        requires
            old(clients).wf(),
        ensures
            lent(*old(clients), *final(clients), self.peer, r),
            r matches Some(w) ==> final(clients).streams() == old(clients).streams().update(
                old(clients).index_of(self.peer),
                *final(w.stream),
            ),
    {
        self.peer.write(clients)
    }

    /// Sets the operation mode of this event's peer; `None` if it is no
    /// longer registered.
    pub fn set_mode<C>(&self, clients: &mut WebSocketClients<C>, mode: WebSocketClientMode) -> (r:
        Option<()>)
        requires
            old(clients).wf(),
        ensures
            mode_set(*old(clients), *final(clients), self.peer, mode, r),
    {
        self.peer.set_mode(clients, mode)
    }
}

impl WebSocketPongEvent {
    /// Write access to this event's peer, to reply; `None` if it is no longer
    /// registered.
    pub fn reply<'c, C>(&self, clients: &'c mut WebSocketClients<C>) -> (r: Option<
        WebSocketWriter<'c, C>,
    >)
        requires
            old(clients).wf(),
        ensures
            lent(*old(clients), *final(clients), self.peer, r),
            r matches Some(w) ==> final(clients).streams() == old(clients).streams().update(
                old(clients).index_of(self.peer),
                *final(w.stream),
            ),
    {
        self.peer.write(clients)
    }

    /// Sets the operation mode of this event's peer; `None` if it is no
    /// longer registered.
    pub fn set_mode<C>(&self, clients: &mut WebSocketClients<C>, mode: WebSocketClientMode) -> (r:
        Option<()>)
        requires
            old(clients).wf(),
        ensures
            mode_set(*old(clients), *final(clients), self.peer, mode, r),
    {
        self.peer.set_mode(clients, mode)
    }
}

impl WebSocketOpenEvent {
    /// Write access to this event's peer, to reply; `None` if it is no longer
    /// registered.
    pub fn reply<'c, C>(&self, clients: &'c mut WebSocketClients<C>) -> (r: Option<
        WebSocketWriter<'c, C>,
    >)
        requires
            old(clients).wf(),
        ensures
            lent(*old(clients), *final(clients), self.peer, r),
            r matches Some(w) ==> final(clients).streams() == old(clients).streams().update(
                old(clients).index_of(self.peer),
                *final(w.stream),
            ),
    {
        self.peer.write(clients)
    }

    /// Sets the operation mode of this event's peer; `None` if it is no
    /// longer registered.
    pub fn set_mode<C>(&self, clients: &mut WebSocketClients<C>, mode: WebSocketClientMode) -> (r:
        Option<()>)
        requires
            old(clients).wf(),
        ensures
            mode_set(*old(clients), *final(clients), self.peer, mode, r),
    {
        self.peer.set_mode(clients, mode)
    }
}

impl WebSocketRawEvent {
    /// Write access to this event's peer, to reply; `None` if it is no longer
    /// registered.
    pub fn reply<'c, C>(&self, clients: &'c mut WebSocketClients<C>) -> (r: Option<
        WebSocketWriter<'c, C>,
    >)
        requires
            old(clients).wf(),
        ensures
            lent(*old(clients), *final(clients), self.peer, r),
            r matches Some(w) ==> final(clients).streams() == old(clients).streams().update(
                old(clients).index_of(self.peer),
                *final(w.stream),
            ),
    {
        self.peer.write(clients)
    }

    /// Sets the operation mode of this event's peer; `None` if it is no
    /// longer registered.
    pub fn set_mode<C>(&self, clients: &mut WebSocketClients<C>, mode: WebSocketClientMode) -> (r:
        Option<()>)
        requires
            old(clients).wf(),
        ensures
            mode_set(*old(clients), *final(clients), self.peer, mode, r),
    {
        self.peer.set_mode(clients, mode)
    }
}

/// One event for the host, as produced by a tick.
#[derive(Debug)]
pub enum WebSocketEvent {
    Open(WebSocketOpenEvent),
    Message(WebSocketMessageEvent),
    Binary(WebSocketBinaryEvent),
    Pong(WebSocketPongEvent),
    Raw(WebSocketRawEvent),
    Close(WebSocketCloseEvent),
}

/// What one non-blocking read on a connection produced.
///
/// In parsed mode a read yields a decoded message; in raw mode it yields one
/// frame. A read that would block, failed, or produced nothing is `Nothing`.
#[derive(Debug)]
pub enum ReadOutcome {
    Text(String),
    Binary(Bytes),
    Ping(Bytes),
    Pong(Bytes),
    Close(Option<CloseFrame>),
    Frame(Frame),
    Nothing,
}

/// The event, if any, that a read with outcome `outcome` on a connection of
/// peer `peer` in mode `mode` gives the host.
pub open spec fn decoded_event(
    mode: WebSocketClientMode,
    peer: WebSocketPeer,
    outcome: ReadOutcome,
) -> Option<WebSocketEvent> {
    match mode {
        WebSocketClientMode::Parsed => match outcome {
            ReadOutcome::Text(data) => Some(
                WebSocketEvent::Message(WebSocketMessageEvent { data, peer }),
            ),
            ReadOutcome::Binary(data) => Some(
                WebSocketEvent::Binary(WebSocketBinaryEvent { data, peer }),
            ),
            ReadOutcome::Pong(data) => Some(WebSocketEvent::Pong(WebSocketPongEvent { data, peer })),
            ReadOutcome::Close(data) => Some(
                WebSocketEvent::Close(WebSocketCloseEvent { data, peer }),
            ),
            _ => None,
        },
        WebSocketClientMode::Raw => match outcome {
            ReadOutcome::Frame(data) => Some(WebSocketEvent::Raw(WebSocketRawEvent { data, peer })),
            _ => None,
        },
    }
}

/// The payload of the pong that answers a read with outcome `outcome` in mode
/// `mode`: a ping read in parsed mode is answered with its own payload.
pub open spec fn pong_reply(mode: WebSocketClientMode, outcome: ReadOutcome) -> Option<Bytes> {
    match (mode, outcome) {
        (WebSocketClientMode::Parsed, ReadOutcome::Ping(data)) => Some(data),
        _ => None,
    }
}

/// Whether a read with outcome `outcome` in mode `mode` ends the conversation.
pub open spec fn closes(mode: WebSocketClientMode, outcome: ReadOutcome) -> bool {
    mode == WebSocketClientMode::Parsed && outcome is Close
}

/// What the host is to do after one read: emit `event`, and send a pong with
/// payload `pong` on the same connection.
#[derive(Debug)]
pub struct Dispatch {
    pub event: Option<WebSocketEvent>,
    pub pong: Option<Bytes>,
}

impl Dispatch {
    /// Nothing to emit and nothing to send.
    pub fn none() -> (r: Dispatch)
        ensures
            r.event is None,
            r.pong is None,
    {
        Dispatch { event: None, pong: None }
    }
}

/// Decodes one read: the event for the host and the pong to send, if any.
pub fn decode(mode: WebSocketClientMode, peer: WebSocketPeer, outcome: ReadOutcome) -> (r: Dispatch)
    ensures
        r.event == decoded_event(mode, peer, outcome),
        r.pong == pong_reply(mode, outcome),
{
    match mode {
        WebSocketClientMode::Parsed => match outcome {
            ReadOutcome::Text(data) => Dispatch {
                event: Some(WebSocketEvent::Message(WebSocketMessageEvent { data, peer })),
                pong: None,
            },
            ReadOutcome::Binary(data) => Dispatch {
                event: Some(WebSocketEvent::Binary(WebSocketBinaryEvent { data, peer })),
                pong: None,
            },
            ReadOutcome::Ping(data) => Dispatch { event: None, pong: Some(data) },
            ReadOutcome::Pong(data) => Dispatch {
                event: Some(WebSocketEvent::Pong(WebSocketPongEvent { data, peer })),
                pong: None,
            },
            ReadOutcome::Close(data) => Dispatch {
                event: Some(WebSocketEvent::Close(WebSocketCloseEvent { data, peer })),
                pong: None,
            },
            _ => Dispatch::none(),
        },
        WebSocketClientMode::Raw => match outcome {
            ReadOutcome::Frame(data) => Dispatch {
                event: Some(WebSocketEvent::Raw(WebSocketRawEvent { data, peer })),
                pong: None,
            },
            _ => Dispatch::none(),
        },
    }
}

} // verus!
