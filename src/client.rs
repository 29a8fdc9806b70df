use indexmap::IndexMap;
use tungstenite::protocol::frame::Frame;
use tungstenite::protocol::CloseFrame;
use vstd::arithmetic::div_mod::lemma_small_mod;
use vstd::prelude::*;

use crate::events::{
    closes, decode, decoded_event, pong_reply, Dispatch, ReadOutcome, WebSocketCloseEvent,
    WebSocketEvent, WebSocketRawEvent,
};
use crate::peer::{is_peer_key, key_of, lemma_key_round_trip, peer_of_key, PeerKey, WebSocketPeer};
use crate::schedule::next_cursor;
use crate::writer::WebSocketWriter;

verus! {

/// `indexmap::IndexMap`, the insertion-ordered hash map that holds a
/// registry's slots. Opaque here: what it holds is `slot_entries`, and the
/// wrappers below state what each method that the registry calls does to it.
#[verifier::external_type_specification]
#[verifier::external_body]
#[verifier::reject_recursive_types(K)]
#[verifier::reject_recursive_types(V)]
#[verifier::reject_recursive_types(S)]
pub struct ExIndexMap<K, V, S>(IndexMap<K, V, S>);

/// A client can operate in either Parsed or Raw mode.
#[derive(Debug, PartialEq, Eq, PartialOrd, Ord, Clone, Copy, Structural)]
pub enum WebSocketClientMode {
    Parsed,
    Raw,
}

/// The slots of a registry: the mode of each registered peer, by key, in
/// registry order.
pub type Slots = IndexMap<PeerKey, WebSocketClientMode>;

/// The entries of a slot map, key and value, in index order.
pub uninterp spec fn slot_entries(m: Slots) -> Seq<(PeerKey, WebSocketClientMode)>;

/// Whether no two entries share a key.
pub open spec fn keys_unique(entries: Seq<(PeerKey, WebSocketClientMode)>) -> bool {
    forall|i: int, j: int|
        0 <= i < entries.len() && 0 <= j < entries.len() && i != j ==> #[trigger] entries[i].0
            != #[trigger] entries[j].0
}

/// Whether an entry is registered under `key`.
pub open spec fn has_key(entries: Seq<(PeerKey, WebSocketClientMode)>, key: PeerKey) -> bool {
    exists|i: int| 0 <= i < entries.len() && #[trigger] entries[i].0 == key
}

/// The position of the entry registered under `key`, where there is one.
pub open spec fn key_index(entries: Seq<(PeerKey, WebSocketClientMode)>, key: PeerKey) -> int {
    choose|i: int| 0 <= i < entries.len() && #[trigger] entries[i].0 == key
}

/// The entries after registering `key` in mode `mode`: an entry already
/// registered under `key` keeps its place and takes the new mode; otherwise
/// the new entry goes last.
pub open spec fn with_entry(
    entries: Seq<(PeerKey, WebSocketClientMode)>,
    key: PeerKey,
    mode: WebSocketClientMode,
) -> Seq<(PeerKey, WebSocketClientMode)> {
    if has_key(entries, key) {
        entries.update(key_index(entries, key), (key, mode))
    } else {
        entries.push((key, mode))
    }
}

/// The connections after registering `stream` under `key`, beside `entries`.
pub open spec fn with_stream<C>(
    entries: Seq<(PeerKey, WebSocketClientMode)>,
    streams: Seq<C>,
    key: PeerKey,
    stream: C,
) -> Seq<C> {
    if has_key(entries, key) {
        streams.update(key_index(entries, key), stream)
    } else {
        streams.push(stream)
    }
}

/// The cursor `c` brought back into a registry of `n` entries: `c` modulo
/// `n`, or 0 when the registry is empty. The next advance lands where it
/// would have from `c` itself.
pub open spec fn rewrapped(c: int, n: int) -> int {
    if n > 0 {
        c % n
    } else {
        0
    }
}

/// `s` without position `i`, whose place the last element takes.
pub open spec fn swap_removed<T>(s: Seq<T>, i: int) -> Seq<T> {
    s.update(i, s.last()).drop_last()
}

/// Under unique keys, the entry at `i` is the one registered under its key.
pub proof fn lemma_key_index(entries: Seq<(PeerKey, WebSocketClientMode)>, i: int)
    requires
        keys_unique(entries),
        0 <= i < entries.len(),
    ensures
        has_key(entries, entries[i].0),
        key_index(entries, entries[i].0) == i,
{
    let key = entries[i].0;
    assert(has_key(entries, key));
    let j = key_index(entries, key);
    assert(entries[j].0 == key);
}

/// Removing a position keeps the keys unique and drops exactly its key.
pub proof fn lemma_swap_removed_keys(entries: Seq<(PeerKey, WebSocketClientMode)>, i: int)
    requires
        keys_unique(entries),
        0 <= i < entries.len(),
    ensures
        keys_unique(swap_removed(entries, i)),
        !has_key(swap_removed(entries, i), entries[i].0),
        forall|k: PeerKey| k != entries[i].0 ==> has_key(swap_removed(entries, i), k) == has_key(entries, k),
{
    let r = swap_removed(entries, i);
    let last = entries.len() - 1;
    assert forall|a: int, b: int| 0 <= a < r.len() && 0 <= b < r.len() && a != b implies #[trigger] r[a].0
        != #[trigger] r[b].0 by {
        let oa = if a == i { last } else { a };
        let ob = if b == i { last } else { b };
        assert(r[a] == entries[oa]);
        assert(r[b] == entries[ob]);
    }
    if has_key(r, entries[i].0) {
        let a = choose|a: int| 0 <= a < r.len() && #[trigger] r[a].0 == entries[i].0;
        let oa = if a == i { last } else { a };
        assert(r[a] == entries[oa]);
    }
    assert forall|k: PeerKey| k != entries[i].0 implies has_key(r, k) == has_key(entries, k) by {
        if has_key(entries, k) {
            let b = choose|b: int| 0 <= b < entries.len() && #[trigger] entries[b].0 == k;
            let rb = if b == last { i } else { b };
            assert(r[rb] == entries[b]);
        }
        if has_key(r, k) {
            let a = choose|a: int| 0 <= a < r.len() && #[trigger] r[a].0 == k;
            let oa = if a == i { last } else { a };
            assert(r[a] == entries[oa]);
        }
    }
}

/// Registering a key keeps the keys unique and registers it.
pub proof fn lemma_with_entry_keys(
    entries: Seq<(PeerKey, WebSocketClientMode)>,
    key: PeerKey,
    mode: WebSocketClientMode,
)
    requires
        keys_unique(entries),
    ensures
        keys_unique(with_entry(entries, key, mode)),
        has_key(with_entry(entries, key, mode), key),
        forall|k: PeerKey| has_key(entries, k) ==> has_key(with_entry(entries, key, mode), k),
        with_entry(entries, key, mode).len() == if has_key(entries, key) {
            entries.len()
        } else {
            entries.len() + 1
        },
{
    let r = with_entry(entries, key, mode);
    if has_key(entries, key) {
        let i = key_index(entries, key);
        assert(r[i].0 == key);
        assert forall|k: PeerKey| has_key(entries, k) implies has_key(r, k) by {
            let b = choose|b: int| 0 <= b < entries.len() && #[trigger] entries[b].0 == k;
            assert(r[b].0 == k);
        }
    } else {
        assert(r[entries.len() as int].0 == key);
        assert forall|k: PeerKey| has_key(entries, k) implies has_key(r, k) by {
            let b = choose|b: int| 0 <= b < entries.len() && #[trigger] entries[b].0 == k;
            assert(r[b].0 == k);
        }
    }
}

/// Relies on `IndexMap::new`: a new map has no entries.
#[verifier::external_body]
fn slots_new() -> (r: Slots)
    ensures
        slot_entries(r) == Seq::<(PeerKey, WebSocketClientMode)>::empty(),
{
    IndexMap::new()
}

/// Relies on `IndexMap::len`: the number of entries.
#[verifier::external_body]
fn slots_len(m: &Slots) -> (r: usize)
    ensures
        r == slot_entries(*m).len(),
{
    m.len()
}

/// Relies on `IndexMap::get_index_of`: the position of the entry whose key
/// equals `key`, or `None` where no entry has it.
#[verifier::external_body]
fn slots_index_of(m: &Slots, key: &PeerKey) -> (r: Option<usize>)
    ensures
        match r {
            Some(i) => i < slot_entries(*m).len() && slot_entries(*m)[i as int].0 == *key,
            None => !has_key(slot_entries(*m), *key),
        },
{
    m.get_index_of(key)
}

/// Relies on `IndexMap::insert_full`: an entry with an equal key keeps its
/// place and takes the new value, the old value coming back with its index;
/// otherwise the pair goes last, and its index comes back with `None`.
#[verifier::external_body]
fn slots_insert(m: &mut Slots, key: PeerKey, mode: WebSocketClientMode) -> (r: (
    usize,
    Option<WebSocketClientMode>,
))
    ensures
        match r.1 {
            Some(prev) => {
                &&& r.0 < slot_entries(*old(m)).len()
                &&& slot_entries(*old(m))[r.0 as int] == (key, prev)
                &&& slot_entries(*final(m)) == slot_entries(*old(m)).update(r.0 as int, (key, mode))
            },
            None => {
                &&& !has_key(slot_entries(*old(m)), key)
                &&& r.0 == slot_entries(*old(m)).len()
                &&& slot_entries(*final(m)) == slot_entries(*old(m)).push((key, mode))
            },
        },
{
    m.insert_full(key, mode)
}

/// Relies on `IndexMap::swap_remove_full`: the entry whose key equals `key`
/// is removed and the last entry takes its place; it comes back with the
/// index it had. `None`, and no change, where no entry has the key.
#[verifier::external_body]
fn slots_swap_remove(m: &mut Slots, key: &PeerKey) -> (r: Option<
    (usize, PeerKey, WebSocketClientMode),
>)
    ensures
        match r {
            Some((i, k, v)) => {
                &&& i < slot_entries(*old(m)).len()
                &&& slot_entries(*old(m))[i as int] == (k, v)
                &&& k == *key
                &&& slot_entries(*final(m)) == swap_removed(slot_entries(*old(m)), i as int)
            },
            None => {
                &&& !has_key(slot_entries(*old(m)), *key)
                &&& slot_entries(*final(m)) == slot_entries(*old(m))
            },
        },
{
    m.swap_remove_full(key)
}

/// Relies on `IndexMap::get_index`: the entry at position `i`, or `None` past
/// the end.
#[verifier::external_body]
fn slots_get(m: &Slots, i: usize) -> (r: Option<(PeerKey, WebSocketClientMode)>)
    ensures
        i < slot_entries(*m).len() ==> r == Some(slot_entries(*m)[i as int]),
        i >= slot_entries(*m).len() ==> r is None,
{
    m.get_index(i).map(|(k, v)| (*k, *v))
}

/// A map of active web-socket clients, each with its connection of type `C`.
///
/// Entries keep the order in which they were registered, but for a removal,
/// whose place the last entry takes. The cursor names the entry advanced
/// last; each call of `next` moves it one place on, modulo the current size.
pub struct WebSocketClients<C> {
    iter_index: usize,
    slots: Slots,
    streams: Vec<C>,
}

/// The connection of the entry that a tick advances to.
pub struct ClientTurn<'a, C> {
    pub peer: WebSocketPeer,
    pub mode: WebSocketClientMode,
    pub stream: &'a mut C,
}

impl<C> Default for WebSocketClients<C> {
    /// An empty registry.
    fn default() -> (r: Self)
        ensures
            r.wf(),
            r.entries() == Seq::<(PeerKey, WebSocketClientMode)>::empty(),
            r.streams() == Seq::<C>::empty(),
            r.cursor() == 0,
    {
        Self::new()
    }
}

impl<C> WebSocketClients<C> {
    /// The registered peers' keys and modes, in registry order.
    pub closed spec fn entries(&self) -> Seq<(PeerKey, WebSocketClientMode)> {
        slot_entries(self.slots)
    }

    /// The connections, position for position with `entries`.
    pub closed spec fn streams(&self) -> Seq<C> {
        self.streams@
    }

    /// The round-robin cursor.
    pub closed spec fn cursor(&self) -> int {
        self.iter_index as int
    }

    /// Each entry has its connection, keys are unique and are peers' keys,
    /// and the cursor is a position of the registry (or 0 when it is empty).
    pub open spec fn wf(&self) -> bool {
        &&& self.entries().len() == self.streams().len()
        &&& keys_unique(self.entries())
        &&& forall|i: int| 0 <= i < self.entries().len() ==> is_peer_key(#[trigger] self.entries()[i].0)
        &&& 0 <= self.cursor() < usize::MAX
        &&& self.cursor() < self.entries().len() || self.cursor() == 0
    }

    /// Whether `peer` is registered.
    pub open spec fn registered(&self, peer: WebSocketPeer) -> bool {
        has_key(self.entries(), key_of(peer))
    }

    /// The position of registered `peer`.
    pub open spec fn index_of(&self, peer: WebSocketPeer) -> int {
        key_index(self.entries(), key_of(peer))
    }

    /// An empty registry.
    pub fn new() -> (r: Self)
        ensures
            r.wf(),
            r.entries() == Seq::<(PeerKey, WebSocketClientMode)>::empty(),
            r.streams() == Seq::<C>::empty(),
            r.cursor() == 0,
    {
        WebSocketClients { iter_index: 0, slots: slots_new(), streams: Vec::new() }
    }

    /// The number of registered clients.
    pub fn len(&self) -> (r: usize)
        requires
            self.wf(),
        ensures
            r == self.entries().len(),
    {
        slots_len(&self.slots)
    }

    /// Whether no client is registered.
    pub fn is_empty(&self) -> (r: bool)
        requires
            self.wf(),
        ensures
            r == (self.entries().len() == 0),
    {
        slots_len(&self.slots) == 0
    }

    /// The position of `peer` in the registry, or `None` if it is not
    /// registered.
    pub fn position(&self, peer: &WebSocketPeer) -> (r: Option<usize>)
        requires
            self.wf(),
        ensures
            r is Some == self.registered(*peer),
            r matches Some(i) ==> i == self.index_of(*peer) && i < self.entries().len(),
    {
        let key = peer.key();
        let r = slots_index_of(&self.slots, &key);
        if let Some(i) = r {
            proof {
                lemma_key_index(self.entries(), i as int);
            }
        }
        r
    }

    /// Whether `peer` is registered.
    pub fn contains(&self, peer: &WebSocketPeer) -> (r: bool)
        requires
            self.wf(),
        ensures
            r == self.registered(*peer),
    {
        self.position(peer).is_some()
    }

    /// The mode of `peer`, or `None` if it is not registered.
    pub fn mode(&self, peer: &WebSocketPeer) -> (r: Option<WebSocketClientMode>)
        requires
            self.wf(),
        ensures
            r is Some == self.registered(*peer),
            r matches Some(m) ==> m == self.entries()[self.index_of(*peer)].1,
    {
        match self.position(peer) {
            Some(i) => match slots_get(&self.slots, i) {
                Some((_, mode)) => Some(mode),
                None => None,
            },
            None => None,
        }
    }

    /// Registers `stream` for `peer` in mode `mode`. A peer that is already
    /// registered keeps its place and takes the new connection and mode.
    pub fn insert(&mut self, peer: WebSocketPeer, stream: C, mode: WebSocketClientMode)
        requires
            old(self).wf(),
        ensures
            final(self).wf(),
            final(self).entries() == with_entry(old(self).entries(), key_of(peer), mode),
            final(self).streams() == with_stream(
                old(self).entries(),
                old(self).streams(),
                key_of(peer),
                stream,
            ),
            final(self).cursor() == old(self).cursor(),
    {
        let key = peer.key();
        proof {
            lemma_key_round_trip(peer, key);
            lemma_with_entry_keys(self.entries(), key, mode);
        }
        let ghost old_entries = self.entries();
        let (i, prev) = slots_insert(&mut self.slots, key, mode);
        match prev {
            Some(_) => {
                proof {
                    lemma_key_index(old_entries, i as int);
                }
                self.streams[i] = stream;
            },
            None => {
                self.streams.push(stream);
            },
        }
        proof {
            assert forall|j: int| 0 <= j < self.entries().len() implies is_peer_key(
                #[trigger] self.entries()[j].0,
            ) by {
                if j < old_entries.len() && self.entries()[j] == old_entries[j] {
                } else {
                    assert(self.entries()[j].0 == key);
                }
            }
        }
    }

    /// Removes `peer` and returns its connection; the last entry takes its
    /// place, and the cursor is brought back into the smaller registry.
    /// `None`, and no change, if `peer` is not registered.
    pub fn remove(&mut self, peer: &WebSocketPeer) -> (r: Option<C>)
        requires
            old(self).wf(),
        ensures
            final(self).wf(),
            final(self).cursor() == rewrapped(old(self).cursor(), final(self).entries().len() as int),
            r is None ==> final(self).cursor() == old(self).cursor(),
            r is Some == old(self).registered(*peer),
            r matches Some(c) ==> {
                let i = old(self).index_of(*peer);
                &&& c == old(self).streams()[i]
                &&& final(self).entries() == swap_removed(old(self).entries(), i)
                &&& final(self).streams() == swap_removed(old(self).streams(), i)
            },
            r is None ==> final(self).entries() == old(self).entries() && final(self).streams()
                == old(self).streams(),
            !final(self).registered(*peer),
    {
        let key = peer.key();
        let ghost old_entries = self.entries();
        match slots_swap_remove(&mut self.slots, &key) {
            Some((i, _, _)) => {
                proof {
                    lemma_key_index(old_entries, i as int);
                    lemma_swap_removed_keys(old_entries, i as int);
                }
                let c = self.streams.swap_remove(i);
                let n = self.streams.len();
                self.iter_index = if n > 0 {
                    self.iter_index % n
                } else {
                    0
                };
                proof {
                    assert forall|j: int| 0 <= j < self.entries().len() implies is_peer_key(
                        #[trigger] self.entries()[j].0,
                    ) by {
                        if j == i {
                            assert(self.entries()[j] == old_entries[old_entries.len() - 1]);
                        } else {
                            assert(self.entries()[j] == old_entries[j]);
                        }
                    }
                }
                Some(c)
            },
            None => {
                proof {
                    if old_entries.len() > 0 {
                        lemma_small_mod(self.iter_index as nat, old_entries.len());
                    }
                }
                None
            },
        }
    }

    /// Write access to the connection of `peer`, or `None` if `peer` is not
    /// registered.
    pub fn write(&mut self, target: &WebSocketPeer) -> (r: Option<WebSocketWriter<'_, C>>)
        requires
            old(self).wf(),
        ensures
            lent(*old(self), *final(self), *target, r),
            r matches Some(w) ==> final(self).streams() == old(self).streams().update(
                old(self).index_of(*target),
                *final(w.stream),
            ),
    {
        match self.position(target) {
            Some(i) => Some(WebSocketWriter { stream: &mut self.streams[i] }),
            None => None,
        }
    }

    /// Sets the operation mode of `target`, from its next turn on.
    ///
    /// Returns `None` if `target` is not registered.
    pub fn set_mode(&mut self, target: &WebSocketPeer, mode: WebSocketClientMode) -> (r: Option<
        (),
    >)
        requires
            old(self).wf(),
        ensures
            mode_set(*old(self), *final(self), *target, mode, r),
    {
        match self.position(target) {
            Some(_) => {
                let key = target.key();
                let ghost old_entries = self.entries();
                let (i, prev) = slots_insert(&mut self.slots, key, mode);
                proof {
                    if prev is Some {
                        lemma_key_index(old_entries, i as int);
                    }
                    lemma_with_entry_keys(old_entries, key, mode);
                    assert forall|j: int| 0 <= j < self.entries().len() implies is_peer_key(
                        #[trigger] self.entries()[j].0,
                    ) by {
                        if j != i {
                            assert(self.entries()[j] == old_entries[j]);
                        }
                    }
                }
                Some(())
            },
            None => None,
        }
    }

    /// Advances the round-robin cursor one entry, modulo the current size,
    /// and gives that entry's peer, mode and connection. `None`, and no
    /// change, when nothing is registered.
    pub fn next(&mut self) -> (r: Option<ClientTurn<'_, C>>)
        requires
            old(self).wf(),
        ensures
            final(self).wf(),
            final(self).entries() == old(self).entries(),
            old(self).entries().len() == 0 ==> r is None && final(self).cursor() == old(self).cursor()
                && final(self).streams() == old(self).streams(),
            old(self).entries().len() > 0 ==> r is Some && final(self).cursor() == next_cursor(
                old(self).cursor(),
                old(self).entries().len() as int,
            ),
            r matches Some(t) ==> {
                let i = final(self).cursor();
                &&& t.peer == peer_of_key(old(self).entries()[i].0)
                &&& t.mode == old(self).entries()[i].1
                &&& *t.stream == old(self).streams()[i]
                &&& final(self).streams() == old(self).streams().update(i, *final(t.stream))
            },
    {
        let len = slots_len(&self.slots);
        if len == 0 {
            return None;
        }
        self.iter_index = (self.iter_index + 1) % len;
        let i = self.iter_index;
        match slots_get(&self.slots, i) {
            Some((key, mode)) => {
                let peer = WebSocketPeer::from_key(key);
                Some(ClientTurn { peer, mode, stream: &mut self.streams[i] })
            },
            None => None,
        }
    }

    /// Handles what one read on the connection of `peer` produced, in the
    /// peer's current mode: a Close read in parsed mode removes the peer.
    /// Nothing happens for a peer that is not registered.
    pub fn handle_read(&mut self, peer: WebSocketPeer, outcome: ReadOutcome) -> (r: Dispatch)
        requires
            old(self).wf(),
        ensures
            final(self).wf(),
            final(self).cursor() == rewrapped(old(self).cursor(), final(self).entries().len() as int),
            !old(self).registered(peer) ==> r.event is None && r.pong is None && final(self).entries()
                == old(self).entries() && final(self).streams() == old(self).streams(),
            old(self).registered(peer) ==> {
                let i = old(self).index_of(peer);
                let mode = old(self).entries()[i].1;
                &&& r.event == decoded_event(mode, peer, outcome)
                &&& r.pong == pong_reply(mode, outcome)
                &&& closes(mode, outcome) ==> final(self).entries() == swap_removed(
                    old(self).entries(),
                    i,
                ) && final(self).streams() == swap_removed(old(self).streams(), i)
                &&& !closes(mode, outcome) ==> final(self).entries() == old(self).entries()
                    && final(self).streams() == old(self).streams()
            },
    {
        proof {
            if self.entries().len() > 0 {
                lemma_small_mod(self.iter_index as nat, self.entries().len());
            }
        }
        let mode = match self.mode(&peer) {
            Some(m) => m,
            None => {
                return Dispatch::none();
            },
        };
        let is_close = matches!(outcome, ReadOutcome::Close(_));
        let r = decode(mode, peer, outcome);
        if is_close && mode == WebSocketClientMode::Parsed {
            self.remove(&peer);
        }
        r
    }
}

/// `after` is `before` once write access `r` to the connection of `peer`
/// was handed out: `r` exists exactly when `peer` is registered and then
/// borrows its connection; entries and cursor are kept, and without `r`
/// nothing changes.
pub open spec fn lent<'c, C>(
    before: WebSocketClients<C>,
    after: WebSocketClients<C>,
    peer: WebSocketPeer,
    r: Option<WebSocketWriter<'c, C>>,
) -> bool {
    &&& after.entries() == before.entries()
    &&& after.cursor() == before.cursor()
    &&& r is Some == before.registered(peer)
    &&& r matches Some(w) ==> *w.stream == before.streams()[before.index_of(peer)]
    &&& r is None ==> after.streams() == before.streams()
}

/// `after` is `before` once `peer`'s mode was set to `mode`, with result `r`:
/// `r` is `Some` exactly when `peer` is registered, and then its entry takes
/// the new mode in place; nothing else changes.
pub open spec fn mode_set<C>(
    before: WebSocketClients<C>,
    after: WebSocketClients<C>,
    peer: WebSocketPeer,
    mode: WebSocketClientMode,
    r: Option<()>,
) -> bool {
    &&& after.wf()
    &&& after.streams() == before.streams()
    &&& after.cursor() == before.cursor()
    &&& r is Some == before.registered(peer)
    &&& r is Some ==> after.entries() == before.entries().update(
        before.index_of(peer),
        (key_of(peer), mode),
    )
    &&& r is None ==> after.entries() == before.entries()
}

/// A Close read from a peer in parsed mode unregisters it: once its entry is
/// removed no entry holds its key, so a later write to it finds nothing; the
/// one event emitted is `Close` with the payload the client sent (or none),
/// and no pong is sent.
pub proof fn lemma_close_unregisters(
    entries: Seq<(PeerKey, WebSocketClientMode)>,
    i: int,
    peer: WebSocketPeer,
    data: Option<CloseFrame>,
)
    requires
        keys_unique(entries),
        0 <= i < entries.len(),
        entries[i] == (key_of(peer), WebSocketClientMode::Parsed),
    ensures
        key_index(entries, key_of(peer)) == i,
        closes(entries[i].1, ReadOutcome::Close(data)),
        !has_key(swap_removed(entries, i), key_of(peer)),
        keys_unique(swap_removed(entries, i)),
        decoded_event(entries[i].1, peer, ReadOutcome::Close(data)) == Some(
            WebSocketEvent::Close((WebSocketCloseEvent { data, peer })),
        ),
        pong_reply(entries[i].1, ReadOutcome::Close(data)) is None,
{
    lemma_key_index(entries, i);
    lemma_swap_removed_keys(entries, i);
}

/// Switching a registered peer to raw mode takes effect from its next turn:
/// the entry keeps its place and key, the turn that reaches it reports raw
/// mode, a frame read then gives exactly one `RawFrame` event carrying that
/// frame, and any other read gives no event.
pub proof fn lemma_raw_switch(
    entries: Seq<(PeerKey, WebSocketClientMode)>,
    i: int,
    peer: WebSocketPeer,
    frame: Frame,
)
    requires
        keys_unique(entries),
        0 <= i < entries.len(),
        entries[i].0 == key_of(peer),
    ensures
        ({
            let switched = entries.update(i, (key_of(peer), WebSocketClientMode::Raw));
            &&& keys_unique(switched)
            &&& key_index(switched, key_of(peer)) == i
            &&& switched[i].1 == WebSocketClientMode::Raw
            &&& decoded_event(switched[i].1, peer, ReadOutcome::Frame(frame)) == Some(
                WebSocketEvent::Raw((WebSocketRawEvent { data: frame, peer })),
            )
        }),
        forall|outcome: ReadOutcome|
            !(outcome is Frame) ==> #[trigger] decoded_event(WebSocketClientMode::Raw, peer, outcome)
                is None,
{
    let switched = entries.update(i, (key_of(peer), WebSocketClientMode::Raw));
    assert forall|a: int, b: int|
        0 <= a < switched.len() && 0 <= b < switched.len() && a != b implies #[trigger] switched[a].0
        != #[trigger] switched[b].0 by {
        assert(switched[a].0 == entries[a].0);
        assert(switched[b].0 == entries[b].0);
    }
    lemma_key_index(switched, i);
}

} // verus!
