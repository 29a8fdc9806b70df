use std::collections::VecDeque;

use bevy_websocket::client::{WebSocketClientMode, WebSocketClients};
use bevy_websocket::peer::{SocketAddress, WebSocketPeer};
use bevy_websocket::server::PendingHandshake;
use tungstenite::http::{HeaderMap, HeaderValue};

fn peer(port: u16) -> WebSocketPeer {
    WebSocketPeer(SocketAddress::V4 { ip: 0x7f00_0001, port })
}

fn pending(port: u16, mode: WebSocketClientMode) -> PendingHandshake<u32> {
    let mut headers = HeaderMap::new();
    headers.insert("x-port", HeaderValue::from(port));
    PendingHandshake { peer: peer(port), mode, headers, stream: port as u32 }
}

#[test]
fn each_pending_connection_registered_once_within_n_ticks() {
    let mut clients: WebSocketClients<u32> = WebSocketClients::new();
    let mut queue: VecDeque<PendingHandshake<u32>> = VecDeque::new();
    let n: u16 = 5;
    for port in 0..n {
        queue.push_back(pending(port, WebSocketClientMode::Parsed));
    }
    for tick in 0..n {
        let open = clients.accept_pending(&mut queue).unwrap();
        assert_eq!(open.peer, peer(tick));
        assert_eq!(open.mode, WebSocketClientMode::Parsed);
        assert_eq!(open.headers.get("x-port").unwrap(), &HeaderValue::from(tick));
        assert_eq!(clients.len(), tick as usize + 1);
    }
    assert!(queue.is_empty());
    for port in 0..n {
        assert_eq!(clients.position(&peer(port)), Some(port as usize));
    }
    assert!(clients.accept_pending(&mut queue).is_none());
    assert_eq!(clients.len(), n as usize);
}

#[test]
fn drain_takes_at_most_one_per_tick_first_in_first_out() {
    let mut clients: WebSocketClients<u32> = WebSocketClients::new();
    let mut queue = VecDeque::new();
    queue.push_back(pending(7, WebSocketClientMode::Raw));
    queue.push_back(pending(8, WebSocketClientMode::Parsed));
    let open = clients.accept_pending(&mut queue).unwrap();
    assert_eq!(open.peer, peer(7));
    assert_eq!(open.mode, WebSocketClientMode::Raw);
    assert_eq!(queue.len(), 1);
    assert_eq!(clients.len(), 1);
    assert_eq!(clients.mode(&peer(7)), Some(WebSocketClientMode::Raw));
    assert!(!clients.contains(&peer(8)));
}

#[test]
fn empty_queue_registers_nothing() {
    let mut clients: WebSocketClients<u32> = WebSocketClients::new();
    let mut queue: VecDeque<PendingHandshake<u32>> = VecDeque::new();
    assert!(clients.accept_pending(&mut queue).is_none());
    assert!(clients.is_empty());
}
