use bevy_websocket::client::WebSocketClientMode;
use bevy_websocket::peer::SocketAddress;
use bevy_websocket::server::{negotiate, WebSocketServerConfig};

fn config() -> WebSocketServerConfig {
    WebSocketServerConfig::default()
}

#[test]
fn default_config_values() {
    let c = config();
    assert_eq!(c.addr, SocketAddress::V4 { ip: 0x7f00_0001, port: 0 });
    assert_eq!(c.parsed_protocol, "bevy_websocket");
    assert_eq!(c.raw_protocol, "bevy_websocket_raw");
    assert_eq!(c.subprotocol(WebSocketClientMode::Parsed), "bevy_websocket");
    assert_eq!(c.subprotocol(WebSocketClientMode::Raw), "bevy_websocket_raw");
}

#[test]
fn parsed_protocol_selects_parsed() {
    assert_eq!(negotiate(Some(&b"bevy_websocket"[..]), &config()), Some(WebSocketClientMode::Parsed));
}

#[test]
fn raw_protocol_selects_raw() {
    assert_eq!(negotiate(Some(&b"bevy_websocket_raw"[..]), &config()), Some(WebSocketClientMode::Raw));
}

#[test]
fn parsed_wins_when_both_are_offered() {
    let header = b"bevy_websocket_raw, bevy_websocket";
    assert_eq!(negotiate(Some(&header[..]), &config()), Some(WebSocketClientMode::Parsed));
}

#[test]
fn items_are_trimmed() {
    let header = b"chat ,\t bevy_websocket_raw  ";
    assert_eq!(negotiate(Some(&header[..]), &config()), Some(WebSocketClientMode::Raw));
}

#[test]
fn neither_protocol_is_rejected() {
    assert_eq!(negotiate(Some(&b"chat, superchat"[..]), &config()), None);
    assert_eq!(negotiate(Some(&b"bevy_websocketx"[..]), &config()), None);
    assert_eq!(negotiate(Some(&b"bevy_web socket"[..]), &config()), None);
    assert_eq!(negotiate(Some(&b""[..]), &config()), None);
}

#[test]
fn missing_header_is_rejected() {
    assert_eq!(negotiate(None, &config()), None);
}

#[test]
fn header_that_is_not_text_is_rejected() {
    assert_eq!(negotiate(Some(&b"bevy_websocket,\x01"[..]), &config()), None);
    assert_eq!(negotiate(Some(&b"bevy_websocket\xff"[..]), &config()), None);
}

#[test]
fn custom_protocols_and_empty_items() {
    let c = WebSocketServerConfig {
        addr: SocketAddress::V6 { ip: 1, port: 9000, flowinfo: 0, scope_id: 0 },
        parsed_protocol: "p".to_string(),
        raw_protocol: "".to_string(),
    };
    assert_eq!(negotiate(Some(&b"q,p"[..]), &c), Some(WebSocketClientMode::Parsed));
    assert_eq!(negotiate(Some(&b"q,,r"[..]), &c), Some(WebSocketClientMode::Raw));
    assert_eq!(negotiate(Some(&b"q"[..]), &c), None);
    assert_eq!(negotiate(Some(&b"\x7f"[..]), &c), Some(WebSocketClientMode::Raw));
    assert_eq!(negotiate(None, &c), None);
}
