use vstd::prelude::*;

use crate::client::{lent, mode_set, WebSocketClientMode, WebSocketClients};
use crate::writer::WebSocketWriter;

verus! {

/// The key under which a peer is registered: the address family tag (4 or 6),
/// the IP address as an integer, the port, the IPv6 flow information and the
/// IPv6 scope id. Two peers are the same connection exactly when their keys
/// are equal.
pub type PeerKey = (u8, u128, u16, u32, u32);

/// An IP socket address, held as plain integers.
#[allow(inconsistent_fields)]
#[derive(Debug, Clone, Copy, PartialEq, Eq, PartialOrd, Ord, Hash, Structural)]
pub enum SocketAddress {
    V4 { ip: u32, port: u16 },
    V6 { ip: u128, port: u16, flowinfo: u32, scope_id: u32 },
}

/// Used to identify clients in a registry: the remote socket address of the
/// connection.
#[derive(Debug, Clone, Copy, PartialEq, Eq, PartialOrd, Ord, Hash, Structural)]
pub struct WebSocketPeer(pub SocketAddress);

/// The key of a peer.
pub open spec fn key_of(peer: WebSocketPeer) -> PeerKey {
    match peer.0 {
        SocketAddress::V4 { ip, port } => (4u8, ip as u128, port, 0u32, 0u32),
        SocketAddress::V6 { ip, port, flowinfo, scope_id } => (6u8, ip, port, flowinfo, scope_id),
    }
}

/// Whether `key` is the key of some peer.
pub open spec fn is_peer_key(key: PeerKey) -> bool {
    ||| key.0 == 4 && key.1 <= u32::MAX && key.3 == 0 && key.4 == 0
    ||| key.0 == 6
}

/// The peer whose key is `key`.
pub open spec fn peer_of_key(key: PeerKey) -> WebSocketPeer {
    if key.0 == 4 {
        WebSocketPeer(SocketAddress::V4 { ip: key.1 as u32, port: key.2 })
    } else {
        WebSocketPeer(SocketAddress::V6 { ip: key.1, port: key.2, flowinfo: key.3, scope_id: key.4 })
    }
}

/// Keys and peers correspond one to one.
pub proof fn lemma_key_round_trip(peer: WebSocketPeer, key: PeerKey)
    ensures
        is_peer_key(key_of(peer)),
        peer_of_key(key_of(peer)) == peer,
        is_peer_key(key) ==> key_of(peer_of_key(key)) == key,
        key_of(peer) == key_of(peer_of_key(key)) && is_peer_key(key) ==> peer_of_key(key) == peer,
{
}

impl WebSocketPeer {
    /// The key under which this peer is registered.
    pub fn key(&self) -> (r: PeerKey)
        ensures
            r == key_of(*self),
    {
        match self.0 {
            SocketAddress::V4 { ip, port } => (4u8, ip as u128, port, 0u32, 0u32),
            SocketAddress::V6 { ip, port, flowinfo, scope_id } => (6u8, ip, port, flowinfo, scope_id),
        }
    }

    /// The peer registered under `key`.
    pub fn from_key(key: PeerKey) -> (r: WebSocketPeer)
        requires
            is_peer_key(key),
        ensures
            r == peer_of_key(key),
            key_of(r) == key,
    {
        if key.0 == 4 {
            WebSocketPeer(SocketAddress::V4 { ip: key.1 as u32, port: key.2 })
        } else {
            WebSocketPeer(
                SocketAddress::V6 { ip: key.1, port: key.2, flowinfo: key.3, scope_id: key.4 },
            )
        }
    }
}

impl WebSocketPeer {
    /// Creates a [`WebSocketWriter`] for the client corresponding to this
    /// peer.
    ///
    /// Returns `None` if a client with this peer does not exist.
    pub fn write<'c, C>(&self, clients: &'c mut WebSocketClients<C>) -> (r: Option<
        WebSocketWriter<'c, C>,
    >)
        requires
            old(clients).wf(),
        ensures
            lent(*old(clients), *final(clients), *self, r),
            r matches Some(w) ==> final(clients).streams() == old(clients).streams().update(
                old(clients).index_of(*self),
                *final(w.stream),
            ),
    {
        clients.write(self)
    }

    /// Sets the operation mode for the client corresponding to this peer.
    ///
    /// Returns `None` if a client with this peer does not exist.
    pub fn set_mode<C>(&self, clients: &mut WebSocketClients<C>, mode: WebSocketClientMode) -> (r:
        Option<()>)
        requires
            old(clients).wf(),
        ensures
            mode_set(*old(clients), *final(clients), *self, mode, r),
    {
        clients.set_mode(self, mode)
    }
}

} // verus!
