use bevy_websocket::client::{WebSocketClientMode, WebSocketClients};
use bevy_websocket::peer::{SocketAddress, WebSocketPeer};

fn peer(port: u16) -> WebSocketPeer {
    WebSocketPeer(SocketAddress::V4 { ip: 0x7f00_0001, port })
}

fn registry(ports: &[u16]) -> WebSocketClients<u32> {
    let mut clients = WebSocketClients::new();
    for &port in ports {
        clients.insert(peer(port), port as u32, WebSocketClientMode::Parsed);
    }
    clients
}

#[test]
fn new_registry_is_empty() {
    let mut clients: WebSocketClients<u32> = WebSocketClients::new();
    assert_eq!(clients.len(), 0);
    assert!(clients.is_empty());
    assert!(clients.next().is_none());
    let default: WebSocketClients<u32> = WebSocketClients::default();
    assert!(default.is_empty());
}

#[test]
fn insert_keeps_order_and_positions() {
    let clients = registry(&[10, 20, 30]);
    assert_eq!(clients.len(), 3);
    assert_eq!(clients.position(&peer(10)), Some(0));
    assert_eq!(clients.position(&peer(20)), Some(1));
    assert_eq!(clients.position(&peer(30)), Some(2));
    assert_eq!(clients.position(&peer(40)), None);
    assert!(clients.contains(&peer(20)));
    assert!(!clients.contains(&peer(40)));
    assert_eq!(clients.mode(&peer(20)), Some(WebSocketClientMode::Parsed));
    assert_eq!(clients.mode(&peer(40)), None);
}

#[test]
fn insert_of_registered_peer_replaces_in_place() {
    let mut clients = registry(&[10, 20, 30]);
    clients.insert(peer(20), 99, WebSocketClientMode::Raw);
    assert_eq!(clients.len(), 3);
    assert_eq!(clients.position(&peer(20)), Some(1));
    assert_eq!(clients.mode(&peer(20)), Some(WebSocketClientMode::Raw));
    let writer = clients.write(&peer(20)).unwrap();
    assert_eq!(*writer.stream, 99);
}

#[test]
fn ipv4_and_ipv6_peers_are_distinct() {
    let mut clients: WebSocketClients<u32> = WebSocketClients::new();
    let v4 = WebSocketPeer(SocketAddress::V4 { ip: 1, port: 80 });
    let v6 = WebSocketPeer(SocketAddress::V6 { ip: 1, port: 80, flowinfo: 0, scope_id: 0 });
    let v6_scoped = WebSocketPeer(SocketAddress::V6 { ip: 1, port: 80, flowinfo: 0, scope_id: 3 });
    clients.insert(v4, 4, WebSocketClientMode::Parsed);
    clients.insert(v6, 6, WebSocketClientMode::Raw);
    clients.insert(v6_scoped, 7, WebSocketClientMode::Raw);
    assert_eq!(clients.len(), 3);
    assert_eq!(clients.mode(&v4), Some(WebSocketClientMode::Parsed));
    assert_eq!(clients.mode(&v6), Some(WebSocketClientMode::Raw));
    assert_eq!(*clients.write(&v6_scoped).unwrap().stream, 7);
    let turn = clients.next().unwrap();
    assert_eq!(turn.peer, v6);
}

#[test]
fn peer_keys_round_trip() {
    let v4 = WebSocketPeer(SocketAddress::V4 { ip: 0x0a00_0001, port: 8080 });
    assert_eq!(v4.key(), (4, 0x0a00_0001, 8080, 0, 0));
    assert_eq!(WebSocketPeer::from_key(v4.key()), v4);
    let v6 = WebSocketPeer(SocketAddress::V6 { ip: u128::MAX, port: 1, flowinfo: 2, scope_id: 3 });
    assert_eq!(v6.key(), (6, u128::MAX, 1, 2, 3));
    assert_eq!(WebSocketPeer::from_key(v6.key()), v6);
}

#[test]
fn remove_moves_last_entry_into_place() {
    let mut clients = registry(&[10, 20, 30, 40]);
    assert_eq!(clients.remove(&peer(20)), Some(20));
    assert_eq!(clients.len(), 3);
    assert_eq!(clients.position(&peer(10)), Some(0));
    assert_eq!(clients.position(&peer(40)), Some(1));
    assert_eq!(clients.position(&peer(30)), Some(2));
    assert!(!clients.contains(&peer(20)));
    assert_eq!(clients.remove(&peer(20)), None);
    assert_eq!(clients.len(), 3);
}

#[test]
fn write_gives_the_peers_connection() {
    let mut clients = registry(&[10, 20]);
    {
        let writer = clients.write(&peer(20)).unwrap();
        assert_eq!(*writer.stream, 20);
        *writer.stream = 21;
    }
    assert_eq!(*clients.write(&peer(20)).unwrap().stream, 21);
    assert_eq!(*clients.write(&peer(10)).unwrap().stream, 10);
    assert!(clients.write(&peer(30)).is_none());
    assert!(peer(30).write(&mut clients).is_none());
    assert_eq!(*peer(10).write(&mut clients).unwrap().stream, 10);
}

#[test]
fn set_mode_of_registered_and_missing_peer() {
    let mut clients = registry(&[10, 20]);
    assert_eq!(clients.set_mode(&peer(20), WebSocketClientMode::Raw), Some(()));
    assert_eq!(clients.mode(&peer(20)), Some(WebSocketClientMode::Raw));
    assert_eq!(clients.mode(&peer(10)), Some(WebSocketClientMode::Parsed));
    assert_eq!(clients.position(&peer(20)), Some(1));
    assert_eq!(clients.set_mode(&peer(30), WebSocketClientMode::Raw), None);
    assert_eq!(clients.len(), 2);
    assert_eq!(peer(10).set_mode(&mut clients, WebSocketClientMode::Raw), Some(()));
    assert_eq!(clients.mode(&peer(10)), Some(WebSocketClientMode::Raw));
}

#[test]
fn next_advances_before_reading() {
    let mut clients = registry(&[10, 20, 30]);
    let order: Vec<u16> = (0..7)
        .map(|_| {
            let turn = clients.next().unwrap();
            assert_eq!(*turn.stream as u16, match turn.peer.0 {
                SocketAddress::V4 { port, .. } => port,
                SocketAddress::V6 { port, .. } => port,
            });
            *turn.stream as u16
        })
        .collect();
    assert_eq!(order, vec![20, 30, 10, 20, 30, 10, 20]);
}

#[test]
fn next_gives_mutable_access_to_the_connection() {
    let mut clients = registry(&[10]);
    {
        let turn = clients.next().unwrap();
        assert_eq!(turn.mode, WebSocketClientMode::Parsed);
        *turn.stream = 11;
    }
    assert_eq!(*clients.write(&peer(10)).unwrap().stream, 11);
}

#[test]
fn cursor_wraps_after_registry_shrinks() {
    let mut clients = registry(&[10, 20, 30]);
    clients.next();
    clients.next();
    assert!(clients.remove(&peer(10)).is_some());
    assert!(clients.remove(&peer(20)).is_some());
    assert_eq!(*clients.next().unwrap().stream, 30);
    assert_eq!(*clients.next().unwrap().stream, 30);
}

#[test]
fn round_robin_is_fair_over_k_ticks() {
    for size in 1..6u16 {
        for ticks in 0..20usize {
            let ports: Vec<u16> = (0..size).collect();
            let mut clients = registry(&ports);
            let mut counts = vec![0usize; size as usize];
            for _ in 0..ticks {
                let turn = clients.next().unwrap();
                counts[*turn.stream as usize] += 1;
            }
            let s = size as usize;
            for c in counts {
                assert!(c >= ticks / s);
                assert!(c <= (ticks + s - 1) / s);
            }
        }
    }
}
