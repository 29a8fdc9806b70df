use std::collections::VecDeque;
use tungstenite::http::{HeaderMap, HeaderValue};
use vstd::prelude::*;
use vstd::utf8::encode_utf8;

use crate::client::{
    has_key, keys_unique, lemma_with_entry_keys, with_entry, with_stream, WebSocketClientMode,
    WebSocketClients,
};
use crate::events::WebSocketOpenEvent;
use crate::peer::{key_of, PeerKey, SocketAddress, WebSocketPeer};

verus! {

/// Where the server listens, and the two subprotocols that select a mode.
#[derive(Debug, Clone)]
pub struct WebSocketServerConfig {
    /// Address which the server will listen on.
    pub addr: SocketAddress,
    /// Protocol used for conversations that will be parsed inside this crate.
    /// (Message, Binary, Ping, Pong, Close)
    pub parsed_protocol: String,
    /// Protocol used for raw conversations.
    pub raw_protocol: String,
}

impl Default for WebSocketServerConfig {
    /// Listens on 127.0.0.1 at a port the system picks, with the subprotocols
    /// `bevy_websocket` (parsed) and `bevy_websocket_raw` (raw).
    fn default() -> (r: Self)
        ensures
            r.addr == (SocketAddress::V4 { ip: 0x7f00_0001, port: 0 }),
            r.parsed_protocol@ == "bevy_websocket"@,
            r.raw_protocol@ == "bevy_websocket_raw"@,
    {
        WebSocketServerConfig {
            addr: SocketAddress::V4 { ip: 0x7f00_0001, port: 0 },
            parsed_protocol: "bevy_websocket".to_owned(),
            raw_protocol: "bevy_websocket_raw".to_owned(),
        }
    }
}

impl WebSocketServerConfig {
    /// The subprotocol that selects `mode`, echoed back to the client.
    pub fn subprotocol(&self, mode: WebSocketClientMode) -> (r: &String)
        ensures
            mode == WebSocketClientMode::Parsed ==> r == &self.parsed_protocol,
            mode == WebSocketClientMode::Raw ==> r == &self.raw_protocol,
    {
        match mode {
            WebSocketClientMode::Parsed => &self.parsed_protocol,
            WebSocketClientMode::Raw => &self.raw_protocol,
        }
    }
}

/// Whether `b` may stand in a header value read as text: visible ASCII, or a
/// tab.
pub open spec fn is_text_byte(b: u8) -> bool {
    32 <= b < 127 || b == 9
}

/// A header value read as text: the value itself where every byte may stand
/// in text, else the empty text.
pub open spec fn header_text(v: Seq<u8>) -> Seq<u8> {
    if forall|i: int| 0 <= i < v.len() ==> is_text_byte(#[trigger] v[i]) {
        v
    } else {
        Seq::empty()
    }
}

/// The comma-separated items of `v`, left to right. Text without a comma is
/// one item, and the empty text is one empty item.
pub open spec fn comma_items(v: Seq<u8>) -> Seq<Seq<u8>>
    decreases v.len(),
{
    if v.len() == 0 {
        seq![Seq::empty()]
    } else {
        let items = comma_items(v.drop_last());
        if v.last() == 44 {
            items.push(Seq::empty())
        } else {
            items.update(items.len() - 1, items.last().push(v.last()))
        }
    }
}

/// Whether `b` is ASCII white space.
pub open spec fn is_space(b: u8) -> bool {
    b == 32 || 9 <= b <= 13
}

/// `t` without its leading white space.
pub open spec fn trim_start(t: Seq<u8>) -> Seq<u8>
    decreases t.len(),
{
    if t.len() > 0 && is_space(t[0]) {
        trim_start(t.drop_first())
    } else {
        t
    }
}

/// `t` without its trailing white space.
pub open spec fn trim_end(t: Seq<u8>) -> Seq<u8>
    decreases t.len(),
{
    if t.len() > 0 && is_space(t.last()) {
        trim_end(t.drop_last())
    } else {
        t
    }
}

/// `t` without its leading and trailing white space.
pub open spec fn trim(t: Seq<u8>) -> Seq<u8> {
    trim_end(trim_start(t))
}

/// The subprotocols that a client offers in its `Sec-WebSocket-Protocol`
/// header: the trimmed comma-separated items of its value read as text. None
/// without the header.
pub open spec fn offered_protocols(header: Option<Seq<u8>>) -> Seq<Seq<u8>> {
    match header {
        Some(v) => comma_items(header_text(v)).map_values(|t: Seq<u8>| trim(t)),
        None => Seq::empty(),
    }
}

/// The mode that a handshake offering `offered` selects: parsed where the
/// parsed protocol is offered, else raw where the raw protocol is offered;
/// `None` rejects the handshake.
pub open spec fn selected_mode(offered: Seq<Seq<u8>>, parsed: Seq<u8>, raw: Seq<u8>) -> Option<
    WebSocketClientMode,
> {
    if offered.contains(parsed) {
        Some(WebSocketClientMode::Parsed)
    } else if offered.contains(raw) {
        Some(WebSocketClientMode::Raw)
    } else {
        None
    }
}

/// The bytes of a header, where there is one.
pub open spec fn header_bytes(header: Option<&[u8]>) -> Option<Seq<u8>> {
    match header {
        Some(h) => Some(h@),
        None => None,
    }
}

/// The mode that a handshake with `Sec-WebSocket-Protocol` header `header`
/// selects under `config`.
pub open spec fn negotiated_mode(header: Option<&[u8]>, config: WebSocketServerConfig) -> Option<
    WebSocketClientMode,
> {
    selected_mode(
        offered_protocols(header_bytes(header)),
        encode_utf8(config.parsed_protocol@),
        encode_utf8(config.raw_protocol@),
    )
}

fn is_space_byte(b: u8) -> (r: bool)
    ensures
        r == is_space(b),
{
    b == 32 || (9 <= b && b <= 13)
}

/// Whether every byte of `v` may stand in text.
fn all_text(v: &[u8]) -> (r: bool)
    ensures
        r == (forall|i: int| 0 <= i < v@.len() ==> is_text_byte(#[trigger] v@[i])),
{
    let mut i: usize = 0;
    while i < v.len()
        invariant
            i <= v@.len(),
            forall|k: int| 0 <= k < i ==> is_text_byte(#[trigger] v@[k]),
        decreases v@.len() - i,
    {
        let b = v[i];
        if !((32 <= b && b < 127) || b == 9) {
            return false;
        }
        i += 1;
    }
    true
}

/// Whether `v[a..b]` equals `p`.
fn bytes_equal(v: &[u8], a: usize, b: usize, p: &[u8]) -> (r: bool)
    requires
        a <= b <= v@.len(),
    ensures
        r == (v@.subrange(a as int, b as int) == p@),
{
    if b - a != p.len() {
        return false;
    }
    let mut j: usize = 0;
    while j < p.len()
        invariant
            a <= b <= v@.len(),
            b - a == p@.len(),
            j <= p@.len(),
            forall|k: int| 0 <= k < j ==> v@[a + k] == p@[k],
        decreases p@.len() - j,
    {
        if v[a + j] != p[j] {
            assert(v@.subrange(a as int, b as int)[j as int] != p@[j as int]);
            return false;
        }
        j += 1;
    }
    assert(v@.subrange(a as int, b as int) =~= p@);
    true
}

/// Whether the item `v[start..end]`, trimmed, equals `p`.
fn item_matches(v: &[u8], start: usize, end: usize, p: &[u8]) -> (r: bool)
    requires
        start <= end <= v@.len(),
    ensures
        r == (trim(v@.subrange(start as int, end as int)) == p@),
{
    let mut a = start;
    while a < end && is_space_byte(v[a])
        invariant
            start <= a <= end <= v@.len(),
            trim_start(v@.subrange(start as int, end as int)) == trim_start(
                v@.subrange(a as int, end as int),
            ),
        decreases end - a,
    {
        assert(v@.subrange(a as int, end as int).drop_first() =~= v@.subrange(a + 1, end as int));
        a += 1;
    }
    let mut b = end;
    while b > a && is_space_byte(v[b - 1])
        invariant
            start <= a <= b <= end <= v@.len(),
            trim(v@.subrange(start as int, end as int)) == trim_end(v@.subrange(a as int, b as int)),
        decreases b - a,
    {
        assert(v@.subrange(a as int, b as int).drop_last() =~= v@.subrange(a as int, b - 1));
        b -= 1;
    }
    bytes_equal(v, a, b, p)
}

/// Whether some comma-separated item of `v`, trimmed, equals `p`.
fn offers(v: &[u8], p: &[u8]) -> (r: bool)
    ensures
        r == comma_items(v@).map_values(|t: Seq<u8>| trim(t)).contains(p@),
{
    let mut start: usize = 0;
    let mut i: usize = 0;
    let mut found = false;
    assert(v@.take(0) =~= Seq::<u8>::empty());
    while i < v.len()
        invariant
            start <= i <= v@.len(),
            comma_items(v@.take(i as int)).len() >= 1,
            comma_items(v@.take(i as int)).last() == v@.subrange(start as int, i as int),
            found == (exists|k: int|
                0 <= k < comma_items(v@.take(i as int)).len() - 1 && #[trigger] trim(
                    comma_items(v@.take(i as int))[k],
                ) == p@),
        decreases v@.len() - i,
    {
        let ghost items = comma_items(v@.take(i as int));
        assert(v@.take(i + 1).drop_last() =~= v@.take(i as int));
        assert(v@.take(i + 1).last() == v@[i as int]);
        let ghost next = comma_items(v@.take(i + 1));
        if v[i] == 44 {
            let matched = item_matches(v, start, i, p);
            proof {
                assert(next == items.push(Seq::empty()));
                if found {
                    let k = choose|k: int| 0 <= k < items.len() - 1 && #[trigger] trim(items[k]) == p@;
                    assert(next[k] == items[k]);
                }
                if matched {
                    assert(next[items.len() - 1] == items.last());
                }
                if !found && !matched {
                    assert forall|k: int| 0 <= k < next.len() - 1 implies #[trigger] trim(next[k])
                        != p@ by {
                        assert(next[k] == items[k]);
                    }
                }
            }
            found = found || matched;
            start = i + 1;
            proof {
                assert(v@.subrange(start as int, i + 1) =~= Seq::<u8>::empty());
            }
        } else {
            proof {
                assert(next == items.update(items.len() - 1, items.last().push(v@[i as int])));
                assert(next.last() =~= v@.subrange(start as int, i + 1));
                if found {
                    let k = choose|k: int| 0 <= k < items.len() - 1 && #[trigger] trim(items[k]) == p@;
                    assert(next[k] == items[k]);
                } else {
                    assert forall|k: int| 0 <= k < next.len() - 1 implies #[trigger] trim(next[k])
                        != p@ by {
                        assert(next[k] == items[k]);
                    }
                }
            }
        }
        i += 1;
    }
    let last = item_matches(v, start, v.len(), p);
    proof {
        let items = comma_items(v@);
        assert(v@.take(v@.len() as int) =~= v@);
        let offered = items.map_values(|t: Seq<u8>| trim(t));
        if found {
            let k = choose|k: int| 0 <= k < items.len() - 1 && #[trigger] trim(items[k]) == p@;
            assert(offered[k] == p@);
        }
        if last {
            assert(offered[items.len() - 1] == p@);
        }
        if offered.contains(p@) {
            let k = choose|k: int| 0 <= k < offered.len() && offered[k] == p@;
            assert(trim(items[k]) == p@);
        }
    }
    found || last
}

/// Whether the header value `v` offers protocol `p`, where `text` tells
/// whether `v` reads as text.
fn offers_in(v: &[u8], text: bool, p: &[u8]) -> (r: bool)
    requires
        text == (forall|i: int| 0 <= i < v@.len() ==> is_text_byte(#[trigger] v@[i])),
    ensures
        r == offered_protocols(Some(v@)).contains(p@),
{
    if text {
        offers(v, p)
    } else {
        proof {
            let offered = offered_protocols(Some(v@));
            assert(comma_items(Seq::<u8>::empty()) == seq![Seq::<u8>::empty()]);
            assert(trim(Seq::<u8>::empty()) == Seq::<u8>::empty());
            assert(offered =~= seq![Seq::<u8>::empty()]);
            if p@.len() == 0 {
                assert(p@ =~= Seq::<u8>::empty());
                assert(offered[0] == p@);
            }
        }
        p.len() == 0
    }
}

/// Selects the mode of a handshake from its `Sec-WebSocket-Protocol` header:
/// parsed if the parsed protocol is offered, else raw if the raw protocol is
/// offered; `None` rejects the handshake.
pub fn negotiate(header: Option<&[u8]>, config: &WebSocketServerConfig) -> (r: Option<
    WebSocketClientMode,
>)
    ensures
        r == negotiated_mode(header, *config),
{
    let value = match header {
        Some(v) => v,
        None => {
            return None;
        },
    };
    let text = all_text(value);
    let parsed = config.parsed_protocol.as_str().as_bytes();
    let raw = config.raw_protocol.as_str().as_bytes();
    if offers_in(value, text, parsed) {
        Some(WebSocketClientMode::Parsed)
    } else if offers_in(value, text, raw) {
        Some(WebSocketClientMode::Raw)
    } else {
        None
    }
}

/// A connection accepted and handshaken, waiting to be registered.
#[derive(Debug)]
pub struct PendingHandshake<C> {
    pub peer: WebSocketPeer,
    pub mode: WebSocketClientMode,
    pub headers: HeaderMap<HeaderValue>,
    pub stream: C,
}

impl<C> WebSocketClients<C> {
    /// The drain step of a tick: takes the first pending connection, if any,
    /// registers it, and gives its `Open` event.
    pub fn accept_pending(&mut self, queue: &mut VecDeque<PendingHandshake<C>>) -> (r: Option<
        WebSocketOpenEvent,
    >)
        requires
            old(self).wf(),
        ensures
            final(self).wf(),
            final(self).cursor() == old(self).cursor(),
            old(queue)@.len() == 0 ==> r is None && final(queue)@ == old(queue)@
                && final(self).entries() == old(self).entries()
                && final(self).streams() == old(self).streams(),
            old(queue)@.len() > 0 ==> {
                let p = old(queue)@[0];
                &&& final(queue)@ == old(queue)@.drop_first()
                &&& final(self).entries() == with_entry(
                    old(self).entries(),
                    key_of(p.peer),
                    p.mode,
                )
                &&& final(self).streams() == with_stream(
                    old(self).entries(),
                    old(self).streams(),
                    key_of(p.peer),
                    p.stream,
                )
                &&& r matches Some(e) && e.peer == p.peer && e.mode == p.mode && e.headers
                    == p.headers
            },
    {
        match queue.pop_front() {
            Some(p) => {
                let PendingHandshake { peer, mode, headers, stream } = p;
                self.insert(peer, stream, mode);
                Some(WebSocketOpenEvent { peer, mode, headers })
            },
            None => None,
        }
    }
}

/// The entries after registering each of `pending`, in order, one per tick.
pub open spec fn register_all(
    entries: Seq<(PeerKey, WebSocketClientMode)>,
    pending: Seq<(PeerKey, WebSocketClientMode)>,
) -> Seq<(PeerKey, WebSocketClientMode)>
    decreases pending.len(),
{
    if pending.len() == 0 {
        entries
    } else {
        register_all(with_entry(entries, pending[0].0, pending[0].1), pending.drop_first())
    }
}

proof fn lemma_register_all(
    entries: Seq<(PeerKey, WebSocketClientMode)>,
    pending: Seq<(PeerKey, WebSocketClientMode)>,
)
    requires
        keys_unique(entries),
    ensures
        keys_unique(register_all(entries, pending)),
        forall|j: int| 0 <= j < pending.len() ==> has_key(register_all(entries, pending), #[trigger] pending[j].0),
        forall|k: PeerKey| has_key(entries, k) ==> has_key(register_all(entries, pending), k),
    decreases pending.len(),
{
    if pending.len() > 0 {
        let next = with_entry(entries, pending[0].0, pending[0].1);
        lemma_with_entry_keys(entries, pending[0].0, pending[0].1);
        lemma_register_all(next, pending.drop_first());
        assert forall|j: int| 0 <= j < pending.len() implies has_key(
            register_all(entries, pending),
            #[trigger] pending[j].0,
        ) by {
            if j > 0 {
                assert(pending.drop_first()[j - 1] == pending[j]);
            }
        }
    }
}

/// With one pending connection drained per tick, the first `n` pending
/// connections (keys and modes, first accepted first) are each registered
/// exactly once after `n` ticks: the keys stay unique, and each is present.
pub proof fn lemma_pending_registered_within_n_ticks(
    entries: Seq<(PeerKey, WebSocketClientMode)>,
    pending: Seq<(PeerKey, WebSocketClientMode)>,
    n: int,
)
    requires
        keys_unique(entries),
        0 <= n <= pending.len(),
    ensures
        keys_unique(register_all(entries, pending.take(n))),
        forall|j: int| 0 <= j < n ==> has_key(register_all(entries, pending.take(n)), #[trigger] pending[j].0),
{
    lemma_register_all(entries, pending.take(n));
    assert forall|j: int| 0 <= j < n implies has_key(
        register_all(entries, pending.take(n)),
        #[trigger] pending[j].0,
    ) by {
        assert(pending.take(n)[j] == pending[j]);
    }
}

} // verus!
