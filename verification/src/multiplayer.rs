//! The decisions of a multiplayer session: lobby creation and search, the ping / pong handshake on
//! each P2P connection, which connections carry framed game traffic, and what the session reports.
//!
//! The session holds plain values only. The side that owns the Steam client performs each requested
//! action (create a lobby, connect, send, receive) and reports what came back through the `on_*`
//! methods; the session decides the next state.
use crate::framing::{prepend_length_prefix, spec_framed, spec_strip, strip_length_prefix};
use crate::payload::FramedPayload;
use crate::room_code::{is_drawn_room_code, is_room_code, is_valid_room_code, random_room_code, trim, trim_whitespace};
use crate::session::SteamSessionConfig;
use vstd::prelude::*;

verus! {

/// Virtual port of the P2P listen socket and of the client's connection.
pub const P2P_VIRTUAL_PORT: i32 = 0;

/// Messages received per call while waiting for a handshake message.
pub const HANDSHAKE_RECV_BATCH: usize = 16;

/// Number of lobbies asked for when searching for a room code.
pub const LOBBY_SEARCH_MAX_RESULTS: u64 = 16;

/// Who a connection's remote end is: its Steam id when it has one, and its printable identity.
#[derive(Debug)]
pub struct PeerIdentity {
    pub steam_id: Option<u64>,
    pub debug_name: String,
}

/// Two identities name the same peer when both have Steam ids and these are equal, or otherwise
/// when their printable identities are equal and not empty.
pub open spec fn is_same_peer(a: PeerIdentity, b: PeerIdentity) -> bool {
    match (a.steam_id, b.steam_id) {
        (Some(x), Some(y)) => x == y,
        _ => a.debug_name@ == b.debug_name@ && a.debug_name@.len() > 0,
    }
}

/// Whether `a` and `b` name the same peer.
pub fn same_peer(a: &PeerIdentity, b: &PeerIdentity) -> (res: bool)
    ensures
        res == is_same_peer(*a, *b),
{
    match (a.steam_id, b.steam_id) {
        (Some(x), Some(y)) => x == y,
        _ => a.debug_name == b.debug_name && !a.debug_name.as_str().is_empty(),
    }
}

/// A connection accepted by the host, and how far its handshake has got.
#[derive(Debug)]
pub struct PeerSlot {
    pub remote: PeerIdentity,
    pub ping_sent: bool,
    pub handshake_done: bool,
}

/// Where a session stands.
#[derive(Debug)]
pub enum MultiplayerState {
    Idle,
    /// A lobby creation is in flight; `created` holds the new lobby once Steam has made it, while
    /// its listen socket is being opened.
    PendingCreate { created: Option<u64> },
    /// Hosting `lobby_id`, listening for P2P connections.
    Hosting { lobby_id: u64, peers: Vec<PeerSlot> },
    /// A lobby search by room code is in flight.
    PendingLobbyList,
    /// A lobby join is in flight; `joined` holds the lobby once Steam has joined it, while the
    /// connection to its owner is being opened.
    PendingJoin { joined: Option<u64> },
    /// Joined `lobby_id` as a client; `connected` tells whether the connection to the host is open.
    ClientLobby { lobby_id: u64, connected: bool, handshake_done: bool, p2p_session_dead: bool },
    /// The last operation failed with this message.
    ErrorLine(String),
}

/// The lobby a state is in, if any.
pub open spec fn lobby_of(mp: MultiplayerState) -> Option<u64> {
    match mp {
        MultiplayerState::Hosting { lobby_id, .. } => Some(lobby_id),
        MultiplayerState::ClientLobby { lobby_id, .. } => Some(lobby_id),
        _ => None,
    }
}

/// The peers of a hosting state (empty for any other state).
pub open spec fn peers_of(mp: MultiplayerState) -> Seq<PeerSlot> {
    match mp {
        MultiplayerState::Hosting { peers, .. } => peers@,
        _ => Seq::empty(),
    }
}

/// The lobby Steam created while its listen socket is being opened, if any.
pub open spec fn created_lobby(mp: MultiplayerState) -> Option<u64> {
    match mp {
        MultiplayerState::PendingCreate { created } => created,
        _ => None,
    }
}

/// The lobby Steam joined while the connection to its owner is being opened, if any.
pub open spec fn joined_lobby(mp: MultiplayerState) -> Option<u64> {
    match mp {
        MultiplayerState::PendingJoin { joined } => joined,
        _ => None,
    }
}

/// The state is the error `msg`.
pub open spec fn is_error(mp: MultiplayerState, msg: Seq<char>) -> bool {
    mp matches MultiplayerState::ErrorLine(m) && m@ == msg
}

/// A client whose connection to the host is open and handshaken.
pub open spec fn client_ready(mp: MultiplayerState) -> bool {
    mp matches MultiplayerState::ClientLobby { connected, handshake_done, p2p_session_dead, .. }
        && connected && handshake_done && !p2p_session_dead
}

/// Number of peers whose handshake is done.
pub open spec fn handshaken_count(peers: Seq<PeerSlot>) -> nat
    decreases peers.len(),
{
    if peers.len() == 0 {
        0
    } else {
        handshaken_count(peers.drop_last()) + if peers.last().handshake_done {
            1nat
        } else {
            0nat
        }
    }
}

/// Indices, in order, of the peers whose handshake is done.
pub open spec fn handshaken_indices(peers: Seq<PeerSlot>) -> Seq<usize>
    decreases peers.len(),
{
    if peers.len() == 0 {
        Seq::empty()
    } else if peers.last().handshake_done {
        handshaken_indices(peers.drop_last()).push((peers.len() - 1) as usize)
    } else {
        handshaken_indices(peers.drop_last())
    }
}

/// What a session reports as the number of handshaken peers.
pub open spec fn spec_handshaken_peer_count(mp: MultiplayerState) -> nat {
    match mp {
        MultiplayerState::Hosting { peers, .. } => handshaken_count(peers@),
        _ => if client_ready(mp) {
            1
        } else {
            0
        },
    }
}

/// The host has at least one handshaken peer.
pub open spec fn host_ready(mp: MultiplayerState) -> bool {
    mp matches MultiplayerState::Hosting { peers, .. } && handshaken_count(peers@) > 0
}

/// A host handshake step: send the ping on this peer's connection first when `send_ping`, then
/// receive up to [`HANDSHAKE_RECV_BATCH`] messages from it and report them.
#[derive(Clone, Copy, Debug, PartialEq, Eq, Structural)]
pub struct HandshakeStep {
    pub peer_index: usize,
    pub send_ping: bool,
}

/// The handshake steps for `peers`: one per peer not yet handshaken, in order.
pub open spec fn handshake_steps(peers: Seq<PeerSlot>) -> Seq<HandshakeStep>
    decreases peers.len(),
{
    if peers.len() == 0 {
        Seq::empty()
    } else if !peers.last().handshake_done {
        handshake_steps(peers.drop_last()).push(
            HandshakeStep { peer_index: (peers.len() - 1) as usize, send_ping: !peers.last().ping_sent },
        )
    } else {
        handshake_steps(peers.drop_last())
    }
}

/// `peers` after a ping went to each peer not yet handshaken.
pub open spec fn after_pings(peers: Seq<PeerSlot>) -> Seq<PeerSlot> {
    Seq::new(
        peers.len(),
        |i: int|
            PeerSlot {
                remote: peers[i].remote,
                ping_sent: peers[i].ping_sent || !peers[i].handshake_done,
                handshake_done: peers[i].handshake_done,
            },
    )
}

/// Whether `expected` is among `messages`.
pub open spec fn has_message(messages: Seq<Vec<u8>>, expected: Seq<u8>) -> bool {
    exists|k: int| 0 <= k < messages.len() && #[trigger] messages[k]@ == expected
}

/// A lobby creation to request, after leaving `leave_lobby` if set.
#[derive(Debug, PartialEq, Eq, Structural)]
pub struct LobbyCreation {
    pub leave_lobby: Option<u64>,
    pub max_members: u32,
}

/// A lobby search to request by room code, after leaving `leave_lobby` if set.
#[derive(Debug)]
pub struct LobbySearch {
    pub leave_lobby: Option<u64>,
    pub room_code: String,
}

/// Set-up of a freshly created lobby: store `room_code` in its metadata under the room key, then
/// open a P2P listen socket and report whether that worked.
#[derive(Debug)]
pub struct HostSetup {
    pub lobby_id: u64,
    pub room_code: String,
}

/// What the listen socket of the host reported.
#[derive(Debug)]
pub enum ListenEvent {
    /// A peer asks to connect.
    Connecting,
    /// A peer's connection is established.
    Connected(PeerIdentity),
    /// A peer's connection went away.
    Disconnected(PeerIdentity),
}

/// What to do with the host's connections after a listen event.
#[derive(Debug)]
pub enum ListenReply {
    /// Not hosting: nothing to do.
    Ignore,
    /// Accept the connection request.
    Accept,
    /// Append the new connection after the existing ones.
    AddConnection,
    /// Keep the connections whose flag is `true`, in order; drop the others.
    KeepConnections(Vec<bool>),
}

/// State of a connection as the networking layer reports it.
#[derive(Clone, Copy, Debug, PartialEq, Eq, Structural)]
pub enum ConnectionState {
    NoConnection,
    Connecting,
    FindingRoute,
    Connected,
    ClosedByPeer,
    ProblemDetectedLocally,
}

/// Result of asking the networking layer about the client's connection.
#[derive(Clone, Copy, Debug, PartialEq, Eq, Structural)]
pub enum ConnectionStatus {
    /// The connection info could not be read.
    InfoUnavailable,
    /// The info was read but its state was not a known state.
    StateUnreadable,
    State(ConnectionState),
}

/// A connection counts as lost when its info cannot be read, or its state is closed by the peer,
/// a locally detected problem, or no connection.
pub open spec fn connection_lost(status: ConnectionStatus) -> bool {
    match status {
        ConnectionStatus::InfoUnavailable => true,
        ConnectionStatus::StateUnreadable => false,
        ConnectionStatus::State(s) => s == ConnectionState::ClosedByPeer || s
            == ConnectionState::ProblemDetectedLocally || s == ConnectionState::NoConnection,
    }
}

/// Where a framed send goes.
#[derive(Debug)]
pub enum SendTarget {
    /// To each of these peers of the host, in order.
    Peers(Vec<usize>),
    /// To the client's single connection to the host.
    Host,
}

/// A framed payload ready to go out.
#[derive(Debug)]
pub struct FramedSend {
    pub frame: Vec<u8>,
    pub target: SendTarget,
}

/// What one tick of a session looks after.
#[derive(Clone, Copy, Debug, PartialEq, Eq, Structural)]
pub enum TickWork {
    Nothing,
    /// Wait for the outcome of the lobby search.
    AwaitLobbySearch,
    /// Wait for the outcome of the lobby creation.
    AwaitLobbyCreation,
    /// Wait for the outcome of the lobby join.
    AwaitLobbyJoin,
    /// Process listen-socket events, then a host handshake round.
    HostRound,
    /// Probe the client's connection, then look for the host's ping.
    ClientRound,
}

/// The work of a tick in a given state: none without Steam.
pub open spec fn spec_tick_work(has_steam: bool, mp: MultiplayerState) -> TickWork {
    if !has_steam {
        TickWork::Nothing
    } else {
        match mp {
            MultiplayerState::PendingLobbyList => TickWork::AwaitLobbySearch,
            MultiplayerState::PendingCreate { .. } => TickWork::AwaitLobbyCreation,
            MultiplayerState::PendingJoin { .. } => TickWork::AwaitLobbyJoin,
            MultiplayerState::Hosting { .. } => TickWork::HostRound,
            MultiplayerState::ClientLobby { .. } => TickWork::ClientRound,
            _ => TickWork::Nothing,
        }
    }
}

/// A connection to drain for framed traffic: `connection` is the peer slot (`0` for a client's
/// host connection), `peer_index` the number its payloads carry.
#[derive(Clone, Copy, Debug, PartialEq, Eq, Structural)]
pub struct PollSource {
    pub connection: usize,
    pub peer_index: usize,
}

/// What a session drains: for a host, each handshaken slot numbered by its position among the
/// handshaken slots; for a ready client, the host connection numbered `0`; nothing otherwise.
pub open spec fn spec_poll_sources(mp: MultiplayerState) -> Seq<PollSource> {
    match mp {
        MultiplayerState::Hosting { peers, .. } => Seq::new(
            handshaken_indices(peers@).len(),
            |k: int| PollSource { connection: handshaken_indices(peers@)[k], peer_index: k as usize },
        ),
        _ => if client_ready(mp) {
            seq![PollSource { connection: 0, peer_index: 0 }]
        } else {
            Seq::empty()
        },
    }
}

/// The messages received in one call from one connection, with the peer number (as in
/// [`FramedPayload`]) of the source they came from.
#[derive(Debug)]
pub struct PeerMessages {
    pub peer_index: usize,
    pub messages: Vec<Vec<u8>>,
}

/// The framed payloads in `messages`, in order, each as `(peer, inner bytes)`; messages that are
/// not validly framed within `max_inner` are dropped.
pub open spec fn framed_in(messages: Seq<Vec<u8>>, peer: usize, max_inner: nat) -> Seq<(usize, Seq<u8>)>
    decreases messages.len(),
{
    if messages.len() == 0 {
        Seq::empty()
    } else {
        let rest = framed_in(messages.drop_last(), peer, max_inner);
        match spec_strip(messages.last()@, max_inner) {
            Some(inner) => rest.push((peer, inner)),
            None => rest,
        }
    }
}

/// The framed payloads of all batches, batch after batch.
pub open spec fn framed_in_batches(batches: Seq<PeerMessages>, max_inner: nat) -> Seq<(usize, Seq<u8>)>
    decreases batches.len(),
{
    if batches.len() == 0 {
        Seq::empty()
    } else {
        framed_in_batches(batches.drop_last(), max_inner) + framed_in(
            batches.last().messages@,
            batches.last().peer_index,
            max_inner,
        )
    }
}

/// Holds of the peers that are not `lost`.
pub open spec fn other_than(lost: PeerIdentity) -> spec_fn(PeerSlot) -> bool {
    |p: PeerSlot| !is_same_peer(p.remote, lost)
}

/// One step of a host session, as it changes the peer list.
pub enum HostEvent {
    /// A connection was established with this peer (`on_listen_event` with `Connected`).
    Connect(PeerIdentity),
    /// A connection with this peer went away (`on_listen_event` with `Disconnected`).
    Disconnect(PeerIdentity),
    /// A handshake round began (`begin_host_handshakes`).
    HandshakeRound,
    /// A peer's handshake messages were recorded, the pong among them or not
    /// (`record_host_handshake`).
    Reply { peer_index: usize, pong_seen: bool },
}

/// The peer list after one step.
pub open spec fn host_next(peers: Seq<PeerSlot>, ev: HostEvent) -> Seq<PeerSlot> {
    match ev {
        HostEvent::Connect(remote) => peers.push(
            PeerSlot { remote, ping_sent: false, handshake_done: false },
        ),
        HostEvent::Disconnect(lost) => peers.filter(other_than(lost)),
        HostEvent::HandshakeRound => after_pings(peers),
        HostEvent::Reply { peer_index, pong_seen } => if peer_index < peers.len() && pong_seen {
            peers.update(peer_index as int, PeerSlot { handshake_done: true, ..peers[peer_index as int] })
        } else {
            peers
        },
    }
}

/// Number of peers neither pinged nor handshaken.
pub open spec fn awaiting_ping(peers: Seq<PeerSlot>) -> nat
    decreases peers.len(),
{
    if peers.len() == 0 {
        0
    } else {
        awaiting_ping(peers.drop_last()) + if !peers.last().ping_sent && !peers.last().handshake_done {
            1nat
        } else {
            0nat
        }
    }
}

/// Number of handshake steps that ask for a ping.
pub open spec fn ping_requests(steps: Seq<HandshakeStep>) -> nat
    decreases steps.len(),
{
    if steps.len() == 0 {
        0
    } else {
        ping_requests(steps.drop_last()) + if steps.last().send_ping {
            1nat
        } else {
            0nat
        }
    }
}

/// Pings a step sends: those of the handshake round, none for other steps.
pub open spec fn pings_of(peers: Seq<PeerSlot>, ev: HostEvent) -> nat {
    match ev {
        HostEvent::HandshakeRound => ping_requests(handshake_steps(peers)),
        _ => 0,
    }
}

/// The peer list after a run of steps.
pub open spec fn host_run(peers: Seq<PeerSlot>, evs: Seq<HostEvent>) -> Seq<PeerSlot>
    decreases evs.len(),
{
    if evs.len() == 0 {
        peers
    } else {
        host_next(host_run(peers, evs.drop_last()), evs.last())
    }
}

/// Pings sent over a run of steps.
pub open spec fn run_pings(peers: Seq<PeerSlot>, evs: Seq<HostEvent>) -> nat
    decreases evs.len(),
{
    if evs.len() == 0 {
        0
    } else {
        run_pings(peers, evs.drop_last()) + pings_of(host_run(peers, evs.drop_last()), evs.last())
    }
}

/// Connections established over a run of steps.
pub open spec fn run_connects(evs: Seq<HostEvent>) -> nat
    decreases evs.len(),
{
    if evs.len() == 0 {
        0
    } else {
        run_connects(evs.drop_last()) + if evs.last() is Connect {
            1nat
        } else {
            0nat
        }
    }
}

/// No step of the run is a disconnect.
pub open spec fn no_disconnect(evs: Seq<HostEvent>) -> bool {
    forall|k: int| 0 <= k < evs.len() ==> !(#[trigger] evs[k] is Disconnect)
}

/// One step of a client session, as it changes the session.
pub enum ClientEvent {
    /// The connection was probed (`check_client_connection`).
    Probe(ConnectionStatus),
    /// Messages were recorded while waiting for the ping, the ping among them or not
    /// (`record_client_handshake`).
    Messages { ping_seen: bool },
}

/// The client waits for the ping on an open connection.
pub open spec fn client_waiting(mp: MultiplayerState) -> bool {
    mp matches MultiplayerState::ClientLobby { connected, handshake_done, .. } && connected
        && !handshake_done
}

/// Whether a client step sends the pong.
pub open spec fn pong_of(mp: MultiplayerState, ev: ClientEvent) -> bool {
    ev matches ClientEvent::Messages { ping_seen } && ping_seen && client_waiting(mp)
}

/// The session after one client step.
pub open spec fn client_next(mp: MultiplayerState, ev: ClientEvent) -> MultiplayerState {
    match mp {
        MultiplayerState::ClientLobby { lobby_id, connected, handshake_done, p2p_session_dead } => match ev {
            ClientEvent::Probe(status) => if connected && connection_lost(status) {
                MultiplayerState::ClientLobby {
                    lobby_id,
                    connected: false,
                    handshake_done: false,
                    p2p_session_dead: true,
                }
            } else {
                mp
            },
            ClientEvent::Messages { ping_seen } => if connected && !handshake_done && ping_seen {
                MultiplayerState::ClientLobby {
                    lobby_id,
                    connected,
                    handshake_done: true,
                    p2p_session_dead,
                }
            } else {
                mp
            },
        },
        _ => mp,
    }
}

/// The session after a run of client steps.
pub open spec fn client_run(mp: MultiplayerState, evs: Seq<ClientEvent>) -> MultiplayerState
    decreases evs.len(),
{
    if evs.len() == 0 {
        mp
    } else {
        client_next(client_run(mp, evs.drop_last()), evs.last())
    }
}

/// Pongs sent over a run of client steps.
pub open spec fn run_pongs(mp: MultiplayerState, evs: Seq<ClientEvent>) -> nat
    decreases evs.len(),
{
    if evs.len() == 0 {
        0
    } else {
        run_pongs(mp, evs.drop_last()) + if pong_of(client_run(mp, evs.drop_last()), evs.last()) {
            1nat
        } else {
            0nat
        }
    }
}

/// Drop from `peers` each peer that is the same peer as `lost`, keeping the order of the others;
/// returns which of the original peers were kept.
fn retain_other_peers(peers: &mut Vec<PeerSlot>, lost: &PeerIdentity) -> (keep: Vec<bool>)
    ensures
        final(peers)@ == old(peers)@.filter(other_than(*lost)),
        keep@.len() == old(peers)@.len(),
        forall|i: int|
            0 <= i < keep@.len() ==> #[trigger] keep@[i] == !is_same_peer(old(peers)@[i].remote, *lost),
{
    broadcast use vstd::std_specs::vec::axiom_spec_into_iter;

    let ghost pred = other_than(*lost);
    let mut old_peers: Vec<PeerSlot> = Vec::new();
    std::mem::swap(&mut old_peers, peers);
    let ghost original = old_peers@;
    let mut keep: Vec<bool> = Vec::new();
    for p in iter: old_peers.into_iter()
        invariant
            iter.seq() == original,
            pred == other_than(*lost),
            keep@.len() == iter.index(),
            forall|i: int|
                0 <= i < keep@.len() ==> #[trigger] keep@[i] == !is_same_peer(original[i].remote, *lost),
            peers@ == original.take(iter.index() as int).filter(pred),
    {
        let ghost k = iter.index() as int;
        assert(p == original[k]);
        let same = same_peer(&p.remote, lost);
        keep.push(!same);
        proof {
            assert(original.take(k + 1).drop_last() =~= original.take(k));
            assert(original.take(k + 1).last() == p);
            reveal_with_fuel(Seq::<_>::filter, 1);
            assert(original.take(k + 1).filter(pred) == original.take(k).filter(pred) + (if pred(
                p,
            ) {
                seq![p]
            } else {
                Seq::empty()
            }));
        }
        if !same {
            peers.push(p);
        }
    }
    assert(original.take(original.len() as int) =~= original);
    keep
}

/// Whether `message` equals `expected`, byte for byte.
fn bytes_equal(message: &Vec<u8>, expected: &[u8]) -> (res: bool)
    ensures
        res == (message@ == expected@),
{
    if message.len() != expected.len() {
        return false;
    }
    let mut i: usize = 0;
    while i < message.len()
        invariant
            message@.len() == expected@.len(),
            i <= message@.len(),
            forall|j: int| 0 <= j < i ==> message@[j] == expected@[j],
        decreases message@.len() - i,
    {
        if message[i] != expected[i] {
            return false;
        }
        i = i + 1;
    }
    assert(message@ =~= expected@);
    true
}

/// Whether `expected` is among `messages`.
fn contains_message(messages: &Vec<Vec<u8>>, expected: &[u8]) -> (res: bool)
    ensures
        res == has_message(messages@, expected@),
{
    let mut k: usize = 0;
    while k < messages.len()
        invariant
            k <= messages@.len(),
            forall|j: int| 0 <= j < k ==> messages@[j]@ != expected@,
        decreases messages@.len() - k,
    {
        if bytes_equal(&messages[k], expected) {
            return true;
        }
        k = k + 1;
    }
    false
}

/// Indices, in order, of the handshaken peers.
fn ready_peer_indices(peers: &Vec<PeerSlot>) -> (idx: Vec<usize>)
    ensures
        idx@ == handshaken_indices(peers@),
{
    let mut idx: Vec<usize> = Vec::new();
    let mut i: usize = 0;
    while i < peers.len()
        invariant
            i <= peers@.len(),
            idx@ == handshaken_indices(peers@.take(i as int)),
        decreases peers@.len() - i,
    {
        proof {
            assert(peers@.take(i + 1).drop_last() =~= peers@.take(i as int));
        }
        if peers[i].handshake_done {
            idx.push(i);
        }
        i = i + 1;
    }
    proof {
        assert(peers@.take(peers@.len() as int) =~= peers@);
    }
    idx
}

/// There are as many handshaken indices as handshaken peers.
pub proof fn lemma_handshaken_indices_len(peers: Seq<PeerSlot>)
    ensures
        handshaken_indices(peers).len() == handshaken_count(peers),
    decreases peers.len(),
{
    if peers.len() > 0 {
        lemma_handshaken_indices_len(peers.drop_last());
    }
}

/// The handshaken indices are exactly the handshaken peers, each once and in increasing order:
/// framed traffic is exchanged with every handshaken connection and with no other.
pub proof fn lemma_handshaken_indices_exact(peers: Seq<PeerSlot>)
    requires
        peers.len() <= usize::MAX,
    ensures
        forall|k: int|
            0 <= k < handshaken_indices(peers).len() ==> {
                let i = #[trigger] handshaken_indices(peers)[k];
                &&& i < peers.len()
                &&& peers[i as int].handshake_done
            },
        forall|k: int, l: int|
            0 <= k < l < handshaken_indices(peers).len() ==> #[trigger] handshaken_indices(peers)[k]
                < #[trigger] handshaken_indices(peers)[l],
        forall|i: int|
            0 <= i < peers.len() && #[trigger] peers[i].handshake_done ==> handshaken_indices(
                peers,
            ).contains(i as usize),
    decreases peers.len(),
{
    if peers.len() > 0 {
        let rest = peers.drop_last();
        let ri = handshaken_indices(rest);
        let pi = handshaken_indices(peers);
        lemma_handshaken_indices_exact(rest);
        lemma_handshaken_indices_below(rest);
        if peers.last().handshake_done {
            assert(pi == ri.push((peers.len() - 1) as usize));
            assert forall|k: int| 0 <= k < pi.len() implies {
                let i = #[trigger] pi[k];
                &&& i < peers.len()
                &&& peers[i as int].handshake_done
            } by {
                if k < ri.len() {
                    assert(pi[k] == ri[k]);
                    assert(rest[ri[k] as int] == peers[ri[k] as int]);
                }
            }
            assert forall|k: int, l: int| 0 <= k < l < pi.len() implies #[trigger] pi[k]
                < #[trigger] pi[l] by {
                assert(pi[k] == ri[k]);
                assert(ri[k] < rest.len());
                if l < ri.len() {
                    assert(pi[l] == ri[l]);
                }
            }
            assert forall|i: int| 0 <= i < peers.len() && #[trigger] peers[i].handshake_done implies pi.contains(
                i as usize,
            ) by {
                if i < peers.len() - 1 {
                    assert(rest[i].handshake_done);
                    assert(ri.contains(i as usize));
                    let k = choose|k: int| 0 <= k < ri.len() && ri[k] == i as usize;
                    assert(pi[k] == i as usize);
                } else {
                    assert(pi[pi.len() - 1] == i as usize);
                }
            }
        } else {
            assert(pi == ri);
            assert forall|k: int| 0 <= k < pi.len() implies {
                let i = #[trigger] pi[k];
                &&& i < peers.len()
                &&& peers[i as int].handshake_done
            } by {
                assert(rest[ri[k] as int] == peers[ri[k] as int]);
            }
            assert forall|i: int| 0 <= i < peers.len() && #[trigger] peers[i].handshake_done implies pi.contains(
                i as usize,
            ) by {
                assert(i < peers.len() - 1);
                assert(rest[i].handshake_done);
            }
        }
    }
}

/// Every handshaken index lies below the number of peers.
proof fn lemma_handshaken_indices_below(peers: Seq<PeerSlot>)
    requires
        peers.len() <= usize::MAX,
    ensures
        forall|k: int|
            0 <= k < handshaken_indices(peers).len() ==> #[trigger] handshaken_indices(peers)[k]
                < peers.len(),
    decreases peers.len(),
{
    if peers.len() > 0 {
        let rest = peers.drop_last();
        lemma_handshaken_indices_below(rest);
        let pi = handshaken_indices(peers);
        let ri = handshaken_indices(rest);
        assert forall|k: int| 0 <= k < pi.len() implies #[trigger] pi[k] < peers.len() by {
            if k < ri.len() {
                assert(pi[k] == ri[k]);
            }
        }
    }
}

/// A session is ready for framed traffic exactly when it counts at least one handshaken
/// connection.
pub proof fn lemma_ready_iff_handshaken(mp: MultiplayerState)
    ensures
        (host_ready(mp) || client_ready(mp)) <==> spec_handshaken_peer_count(mp) > 0,
{
}

/// The handshake ping goes out at most once per connection: after a handshake round every peer
/// still waiting has its ping sent, so the next round asks for no ping.
pub proof fn lemma_ping_sent_once(peers: Seq<PeerSlot>)
    ensures
        forall|k: int|
            0 <= k < handshake_steps(after_pings(peers)).len() ==> !(#[trigger] handshake_steps(
                after_pings(peers),
            )[k]).send_ping,
    decreases peers.len(),
{
    if peers.len() > 0 {
        lemma_ping_sent_once(peers.drop_last());
        let ap = after_pings(peers);
        assert(ap.drop_last() =~= after_pings(peers.drop_last()));
        assert(ap.last().ping_sent || ap.last().handshake_done);
        let prev = handshake_steps(after_pings(peers.drop_last()));
        if !ap.last().handshake_done {
            let st = handshake_steps(ap);
            assert(st == prev.push(
                HandshakeStep { peer_index: (ap.len() - 1) as usize, send_ping: !ap.last().ping_sent },
            ));
            assert forall|k: int| 0 <= k < st.len() implies !(#[trigger] st[k]).send_ping by {
                if k < prev.len() {
                    assert(st[k] == prev[k]);
                }
            }
        }
    }
}

/// A payload framed for sending is collected back unchanged, tagged with its sender, when it is
/// within the limit and its length fits the 32-bit prefix.
pub proof fn lemma_framed_payload_delivered(
    message: Vec<u8>,
    payload: Seq<u8>,
    peer: usize,
    max_inner: nat,
)
    requires
        message@ == spec_framed(payload),
        payload.len() <= max_inner,
        payload.len() < 0x1_0000_0000,
    ensures
        framed_in(seq![message], peer, max_inner) == seq![(peer, payload)],
{
    crate::framing::lemma_strip_of_framed(payload, max_inner);
    assert(seq![message].drop_last() =~= Seq::<Vec<u8>>::empty());
    assert(framed_in(seq![message].drop_last(), peer, max_inner) =~= Seq::empty());
}

/// The decisions of one multiplayer session.
pub struct MultiplayerSession {
    steam_available: bool,
    mp: MultiplayerState,
    config: SteamSessionConfig,
}

impl MultiplayerSession {
    /// Where the session stands.
    pub closed spec fn phase(&self) -> MultiplayerState {
        self.mp
    }

    /// Whether the Steam client is up.
    pub closed spec fn has_steam(&self) -> bool {
        self.steam_available
    }

    /// The session's parameters.
    pub closed spec fn spec_config(&self) -> SteamSessionConfig {
        self.config
    }

    /// Validity: without Steam the session never leaves `Idle` or an error, and a client is never
    /// handshaken on a closed connection, nor marked dead with an open one.
    pub closed spec fn wf(&self) -> bool {
        &&& (!self.steam_available ==> (self.mp is Idle || self.mp is ErrorLine))
        &&& (self.mp matches MultiplayerState::ClientLobby {
            connected,
            handshake_done,
            p2p_session_dead,
            ..
        } ==> (handshake_done ==> connected) && (p2p_session_dead ==> !connected))
    }

    /// Without Steam the session is in no lobby and no connection is ready: sends are refused
    /// and polls find nothing.
    pub proof fn lemma_offline_session_inert(&self)
        requires
            self.wf(),
            !self.has_steam(),
        ensures
            lobby_of(self.phase()) is None,
            !host_ready(self.phase()),
            !client_ready(self.phase()),
            spec_handshaken_peer_count(self.phase()) == 0,
    {
    }

    /// A new idle session; `steam_available` tells whether the Steam client came up.
    pub fn new(config: SteamSessionConfig, steam_available: bool) -> (s: Self)
        ensures
            s.wf(),
            s.phase() is Idle,
            s.has_steam() == steam_available,
            s.spec_config() == config,
    {
        MultiplayerSession { steam_available, mp: MultiplayerState::Idle, config }
    }

    /// The session's parameters.
    pub fn config(&self) -> (c: &SteamSessionConfig)
        ensures
            *c == self.spec_config(),
    {
        &self.config
    }

    /// Whether the Steam client is up.
    pub fn steam_available(&self) -> (b: bool)
        ensures
            b == self.has_steam(),
    {
        self.steam_available
    }

    fn clear_error_to_idle(&mut self)
        requires
            old(self).wf(),
        ensures
            final(self).wf(),
            final(self).has_steam() == old(self).has_steam(),
            final(self).spec_config() == old(self).spec_config(),
            old(self).phase() is ErrorLine ==> final(self).phase() is Idle,
            !(old(self).phase() is ErrorLine) ==> final(self).phase() == old(self).phase(),
    {
        if let MultiplayerState::ErrorLine(_) = self.mp {
            self.mp = MultiplayerState::Idle;
        }
    }

    fn set_error(&mut self, msg: &str)
        requires
            old(self).wf(),
        ensures
            final(self).wf(),
            final(self).has_steam() == old(self).has_steam(),
            final(self).spec_config() == old(self).spec_config(),
            is_error(final(self).phase(), msg@),
    {
        self.mp = MultiplayerState::ErrorLine(String::from_str(msg));
    }

    /// Leave any lobby: returns the lobby to leave on Steam, and the session is idle.
    pub fn leave_multiplayer(&mut self) -> (leave: Option<u64>)
        requires
            old(self).wf(),
        ensures
            final(self).wf(),
            final(self).has_steam() == old(self).has_steam(),
            final(self).spec_config() == old(self).spec_config(),
            final(self).phase() is Idle,
            leave == lobby_of(old(self).phase()),
    {
        let leave = match &self.mp {
            MultiplayerState::Hosting { lobby_id, .. } => Some(*lobby_id),
            MultiplayerState::ClientLobby { lobby_id, .. } => Some(*lobby_id),
            _ => None,
        };
        self.mp = MultiplayerState::Idle;
        leave
    }

    /// Start hosting: without Steam the session reports "Steam not available."; otherwise it leaves
    /// any lobby and asks for a public lobby of `lobby_max_members`.
    pub fn host_lobby(&mut self) -> (req: Option<LobbyCreation>)
        requires
            old(self).wf(),
        ensures
            final(self).wf(),
            final(self).has_steam() == old(self).has_steam(),
            final(self).spec_config() == old(self).spec_config(),
            !old(self).has_steam() ==> req.is_none() && is_error(
                final(self).phase(),
                "Steam not available."@,
            ),
            old(self).has_steam() ==> req == Some(
                LobbyCreation {
                    leave_lobby: lobby_of(old(self).phase()),
                    max_members: old(self).spec_config().lobby_max_members,
                },
            ) && final(self).phase() == (MultiplayerState::PendingCreate { created: None }),
    {
        self.clear_error_to_idle();
        if !self.steam_available {
            self.set_error("Steam not available.");
            return None;
        }
        let leave_lobby = self.leave_multiplayer();
        self.mp = MultiplayerState::PendingCreate { created: None };
        Some(LobbyCreation { leave_lobby, max_members: self.config.lobby_max_members })
    }

    /// Join by room code: the text is trimmed; without Steam, or when the trimmed text is not a
    /// room code, the session reports the error; otherwise it leaves any lobby and asks for a
    /// lobby search by that code.
    pub fn join_lobby(&mut self, lobby_id_text: &str) -> (req: Option<LobbySearch>)
        requires
            old(self).wf(),
        ensures
            final(self).wf(),
            final(self).has_steam() == old(self).has_steam(),
            final(self).spec_config() == old(self).spec_config(),
            !old(self).has_steam() ==> req.is_none() && is_error(
                final(self).phase(),
                "Steam not available."@,
            ),
            old(self).has_steam() && !is_room_code(trim(lobby_id_text@)) ==> req.is_none()
                && is_error(
                final(self).phase(),
                "Enter the 6-character room code (a-z, A-Z, 0-9)."@,
            ),
            old(self).has_steam() && is_room_code(trim(lobby_id_text@)) ==> req.is_some()
                && req.unwrap().leave_lobby == lobby_of(old(self).phase())
                && req.unwrap().room_code@ == trim(lobby_id_text@)
                && final(self).phase() is PendingLobbyList,
    {
        self.clear_error_to_idle();
        if !self.steam_available {
            self.set_error("Steam not available.");
            return None;
        }
        let trimmed = trim_whitespace(lobby_id_text);
        if !is_valid_room_code(trimmed) {
            self.set_error("Enter the 6-character room code (a-z, A-Z, 0-9).");
            return None;
        }
        let leave_lobby = self.leave_multiplayer();
        self.mp = MultiplayerState::PendingLobbyList;
        Some(LobbySearch { leave_lobby, room_code: String::from_str(trimmed) })
    }

    /// The lobby search finished: with a lobby, join it; with none, or on failure, report it.
    /// Ignored unless a search is in flight.
    pub fn on_lobby_list(&mut self, found: Result<Option<u64>, ()>) -> (join: Option<u64>)
        requires
            old(self).wf(),
        ensures
            final(self).wf(),
            final(self).has_steam() == old(self).has_steam(),
            final(self).spec_config() == old(self).spec_config(),
            !(old(self).phase() is PendingLobbyList) ==> join.is_none() && final(self).phase()
                == old(self).phase(),
            old(self).phase() is PendingLobbyList ==> match found {
                Ok(Some(lid)) => join == Some(lid) && final(self).phase() == (MultiplayerState::PendingJoin { joined: None }),
                Ok(None) => join.is_none() && is_error(
                    final(self).phase(),
                    "No lobby found with that room code."@,
                ),
                Err(_) => join.is_none() && is_error(
                    final(self).phase(),
                    "Could not search lobbies (Steam)."@,
                ),
            },
    {
        if !matches!(self.mp, MultiplayerState::PendingLobbyList) {
            return None;
        }
        match found {
            Ok(Some(lid)) => {
                self.mp = MultiplayerState::PendingJoin { joined: None };
                Some(lid)
            },
            Ok(None) => {
                self.set_error("No lobby found with that room code.");
                None
            },
            Err(()) => {
                self.set_error("Could not search lobbies (Steam).");
                None
            },
        }
    }

    /// The lobby creation finished: on success, remember the new lobby and hand back its set-up
    /// with a fresh room code drawn at random (the session waits for the listen socket); on
    /// failure report "Create lobby failed: " and the error's text. Ignored unless a creation is
    /// in flight and not yet answered.
    pub fn on_lobby_created(&mut self, created: Result<u64, String>) -> (setup: Option<HostSetup>)
        requires
            old(self).wf(),
        ensures
            final(self).wf(),
            final(self).has_steam() == old(self).has_steam(),
            final(self).spec_config() == old(self).spec_config(),
            old(self).phase() != (MultiplayerState::PendingCreate { created: None }) ==> setup.is_none()
                && final(self).phase() == old(self).phase(),
            old(self).phase() == (MultiplayerState::PendingCreate { created: None }) ==> match created {
                Ok(lid) => setup.is_some() && setup.unwrap().lobby_id == lid && is_room_code(
                    setup.unwrap().room_code@,
                ) && is_drawn_room_code(setup.unwrap().room_code@) && final(self).phase() == (
                MultiplayerState::PendingCreate { created: Some(lid) }),
                Err(e) => setup.is_none() && is_error(
                    final(self).phase(),
                    "Create lobby failed: "@ + e@,
                ),
            },
    {
        if !matches!(self.mp, MultiplayerState::PendingCreate { created: None }) {
            return None;
        }
        match created {
            Ok(lobby_id) => {
                self.mp = MultiplayerState::PendingCreate { created: Some(lobby_id) };
                Some(HostSetup { lobby_id, room_code: random_room_code() })
            },
            Err(e) => {
                let mut msg = String::from_str("Create lobby failed: ");
                msg.append(e.as_str());
                self.mp = MultiplayerState::ErrorLine(msg);
                None
            },
        }
    }

    /// The listen socket of the created lobby opened or failed: host that lobby with no peers
    /// yet, or report "create_listen_socket_p2p failed.". Ignored unless a created lobby waits for
    /// its listen socket.
    pub fn on_listen_socket(&mut self, opened: bool)
        requires
            old(self).wf(),
        ensures
            final(self).wf(),
            final(self).has_steam() == old(self).has_steam(),
            final(self).spec_config() == old(self).spec_config(),
            created_lobby(old(self).phase()) is None ==> final(self).phase() == old(self).phase(),
            created_lobby(old(self).phase()) is Some && opened ==> final(self).phase() is Hosting
                && lobby_of(final(self).phase()) == created_lobby(old(self).phase()) && peers_of(
                final(self).phase(),
            ).len() == 0,
            created_lobby(old(self).phase()) is Some && !opened ==> is_error(
                final(self).phase(),
                "create_listen_socket_p2p failed."@,
            ),
    {
        let lobby_id = match self.mp {
            MultiplayerState::PendingCreate { created: Some(lid) } => lid,
            _ => return ,
        };
        if opened {
            self.mp = MultiplayerState::Hosting { lobby_id, peers: Vec::new() };
        } else {
            self.set_error("create_listen_socket_p2p failed.");
        }
    }

    /// A listen-socket event while hosting: accept connection requests; append a connected peer
    /// (no ping sent, not handshaken); on a disconnect, drop every peer that is the same peer as
    /// the lost one, keeping the others in order. Ignored unless hosting.
    pub fn on_listen_event(&mut self, event: ListenEvent) -> (reply: ListenReply)
        requires
            old(self).wf(),
        ensures
            old(self).phase() is Hosting ==> match event {
                ListenEvent::Connecting => peers_of(final(self).phase()) == peers_of(old(self).phase()),
                ListenEvent::Connected(remote) => peers_of(final(self).phase()) == host_next(
                    peers_of(old(self).phase()),
                    HostEvent::Connect(remote),
                ),
                ListenEvent::Disconnected(lost) => peers_of(final(self).phase()) == host_next(
                    peers_of(old(self).phase()),
                    HostEvent::Disconnect(lost),
                ),
            },
            final(self).wf(),
            final(self).has_steam() == old(self).has_steam(),
            final(self).spec_config() == old(self).spec_config(),
            !(old(self).phase() is Hosting) ==> reply is Ignore && final(self).phase() == old(
                self,
            ).phase(),
            old(self).phase() is Hosting ==> match event {
                ListenEvent::Connecting => reply is Accept && final(self).phase() == old(self).phase(),
                ListenEvent::Connected(remote) => reply is AddConnection && final(self).phase()
                    is Hosting && lobby_of(final(self).phase()) == lobby_of(old(self).phase())
                    && peers_of(final(self).phase()) == peers_of(old(self).phase()).push(
                    PeerSlot { remote, ping_sent: false, handshake_done: false },
                ),
                ListenEvent::Disconnected(lost) => {
                    &&& reply is KeepConnections
                    &&& reply->KeepConnections_0@.len() == peers_of(old(self).phase()).len()
                    &&& forall|i: int|
                        0 <= i < reply->KeepConnections_0@.len()
                            ==> #[trigger] reply->KeepConnections_0@[i] == !is_same_peer(
                            peers_of(old(self).phase())[i].remote,
                            lost,
                        )
                    &&& final(self).phase() is Hosting
                    &&& lobby_of(final(self).phase()) == lobby_of(old(self).phase())
                    &&& peers_of(final(self).phase()) == peers_of(old(self).phase()).filter(
                        other_than(lost),
                    )
                },
            },
    {
        match &mut self.mp {
            MultiplayerState::Hosting { peers, .. } => match event {
                ListenEvent::Connecting => ListenReply::Accept,
                ListenEvent::Connected(remote) => {
                    peers.push(PeerSlot { remote, ping_sent: false, handshake_done: false });
                    ListenReply::AddConnection
                },
                ListenEvent::Disconnected(lost) => {
                    let keep = retain_other_peers(peers, &lost);
                    ListenReply::KeepConnections(keep)
                },
            },
            _ => ListenReply::Ignore,
        }
    }


    /// Start a host handshake round: one step per peer not yet handshaken, in order, asking for
    /// the ping where none was sent yet; every such peer counts as pinged from now on. Nothing
    /// unless hosting.
    pub fn begin_host_handshakes(&mut self) -> (steps: Vec<HandshakeStep>)
        requires
            old(self).wf(),
        ensures
            old(self).phase() is Hosting ==> peers_of(final(self).phase()) == host_next(
                peers_of(old(self).phase()),
                HostEvent::HandshakeRound,
            ) && ping_requests(steps@) == pings_of(
                peers_of(old(self).phase()),
                HostEvent::HandshakeRound,
            ),
            final(self).wf(),
            final(self).has_steam() == old(self).has_steam(),
            final(self).spec_config() == old(self).spec_config(),
            !(old(self).phase() is Hosting) ==> steps@.len() == 0 && final(self).phase() == old(
                self,
            ).phase(),
            old(self).phase() is Hosting ==> {
                &&& steps@ == handshake_steps(peers_of(old(self).phase()))
                &&& final(self).phase() is Hosting
                &&& lobby_of(final(self).phase()) == lobby_of(old(self).phase())
                &&& peers_of(final(self).phase()) == after_pings(peers_of(old(self).phase()))
            },
    {
        let mut steps: Vec<HandshakeStep> = Vec::new();
        match &mut self.mp {
            MultiplayerState::Hosting { peers, .. } => {
                let ghost original = peers@;
                let n = peers.len();
                let mut i: usize = 0;
                while i < n
                    invariant
                        n == original.len(),
                        peers@.len() == n,
                        i <= n,
                        steps@ == handshake_steps(original.take(i as int)),
                        forall|j: int| 0 <= j < i ==> #[trigger] peers@[j] == after_pings(original)[j],
                        forall|j: int| i <= j < n ==> #[trigger] peers@[j] == original[j],
                    decreases n - i,
                {
                    proof {
                        assert(original.take(i + 1).drop_last() =~= original.take(i as int));
                    }
                    if !peers[i].handshake_done {
                        steps.push(HandshakeStep { peer_index: i, send_ping: !peers[i].ping_sent });
                        peers[i].ping_sent = true;
                    }
                    i = i + 1;
                }
                proof {
                    assert(original.take(n as int) =~= original);
                    assert(peers@ =~= after_pings(original));
                }
            },
            _ => {},
        }
        steps
    }

    /// What a peer's connection delivered during its handshake step (`None` when receiving
    /// failed): the peer is handshaken once the pong is among the messages. Nothing unless hosting
    /// and `peer_index` names a peer.
    pub fn record_host_handshake(&mut self, peer_index: usize, messages: &Option<Vec<Vec<u8>>>)
        requires
            old(self).wf(),
        ensures
            old(self).phase() is Hosting ==> peers_of(final(self).phase()) == host_next(
                peers_of(old(self).phase()),
                HostEvent::Reply {
                    peer_index,
                    pong_seen: messages matches Some(m) && has_message(
                        m@,
                        old(self).spec_config().handshake_pong@,
                    ),
                },
            ),
            final(self).wf(),
            final(self).has_steam() == old(self).has_steam(),
            final(self).spec_config() == old(self).spec_config(),
            ({
                let pong_seen = messages matches Some(m) && has_message(
                    m@,
                    old(self).spec_config().handshake_pong@,
                );
                if old(self).phase() is Hosting && peer_index < peers_of(old(self).phase()).len()
                    && pong_seen {
                    &&& final(self).phase() is Hosting
                    &&& lobby_of(final(self).phase()) == lobby_of(old(self).phase())
                    &&& peers_of(final(self).phase()) == peers_of(old(self).phase()).update(
                        peer_index as int,
                        PeerSlot {
                            handshake_done: true,
                            ..peers_of(old(self).phase())[peer_index as int]
                        },
                    )
                } else {
                    final(self).phase() == old(self).phase()
                }
            }),
    {
        let pong = self.config.handshake_pong;
        match &mut self.mp {
            MultiplayerState::Hosting { peers, .. } => {
                if peer_index < peers.len() {
                    if let Some(m) = messages {
                        if contains_message(m, pong) {
                            peers[peer_index].handshake_done = true;
                            proof {
                                assert(peers@ =~= old(self).phase()->Hosting_peers@.update(
                                    peer_index as int,
                                    PeerSlot {
                                        handshake_done: true,
                                        ..old(self).phase()->Hosting_peers@[peer_index as int]
                                    },
                                ));
                            }
                        }
                    }
                }
            },
            _ => {},
        }
    }

    /// The client's connection was probed: when the session is a client with an open connection
    /// and the probe shows the connection lost, the connection is dropped (returns `true`), the
    /// handshake undone, and the session marked dead. Otherwise nothing changes.
    pub fn check_client_connection(&mut self, status: ConnectionStatus) -> (drop_connection: bool)
        requires
            old(self).wf(),
        ensures
            final(self).phase() == client_next(old(self).phase(), ClientEvent::Probe(status)),
            final(self).wf(),
            final(self).has_steam() == old(self).has_steam(),
            final(self).spec_config() == old(self).spec_config(),
            drop_connection == (old(self).phase() matches MultiplayerState::ClientLobby {
                connected,
                ..
            } && connected && connection_lost(status)),
            drop_connection ==> final(self).phase() == (MultiplayerState::ClientLobby {
                lobby_id: lobby_of(old(self).phase()).unwrap(),
                connected: false,
                handshake_done: false,
                p2p_session_dead: true,
            }),
            !drop_connection ==> final(self).phase() == old(self).phase(),
    {
        let lost = match status {
            ConnectionStatus::InfoUnavailable => true,
            ConnectionStatus::StateUnreadable => false,
            ConnectionStatus::State(s) => match s {
                ConnectionState::ClosedByPeer => true,
                ConnectionState::ProblemDetectedLocally => true,
                ConnectionState::NoConnection => true,
                _ => false,
            },
        };
        match &mut self.mp {
            MultiplayerState::ClientLobby { connected, handshake_done, p2p_session_dead, .. } => {
                if *connected && lost {
                    *connected = false;
                    *handshake_done = false;
                    *p2p_session_dead = true;
                    true
                } else {
                    false
                }
            },
            _ => false,
        }
    }

    /// The client has an open connection and waits for the host's ping.
    pub fn client_awaiting_ping(&self) -> (b: bool)
        requires
            self.wf(),
        ensures
            b == (self.phase() matches MultiplayerState::ClientLobby {
                connected,
                handshake_done,
                ..
            } && connected && !handshake_done),
    {
        match &self.mp {
            MultiplayerState::ClientLobby { connected, handshake_done, .. } => *connected
                && !*handshake_done,
            _ => false,
        }
    }

    /// What the client's connection delivered while waiting for the ping (`None` when receiving
    /// failed): once the ping is among the messages, the client is handshaken and replies with the
    /// pong (returns `true`). Otherwise nothing changes.
    pub fn record_client_handshake(&mut self, messages: &Option<Vec<Vec<u8>>>) -> (send_pong: bool)
        requires
            old(self).wf(),
        ensures
            ({
                let ev = ClientEvent::Messages {
                    ping_seen: messages matches Some(m) && has_message(
                        m@,
                        old(self).spec_config().handshake_ping@,
                    ),
                };
                &&& final(self).phase() == client_next(old(self).phase(), ev)
                &&& send_pong == pong_of(old(self).phase(), ev)
            }),
            final(self).wf(),
            final(self).has_steam() == old(self).has_steam(),
            final(self).spec_config() == old(self).spec_config(),
            send_pong == ((old(self).phase() matches MultiplayerState::ClientLobby {
                connected,
                handshake_done,
                ..
            } && connected && !handshake_done) && (messages matches Some(m) && has_message(
                m@,
                old(self).spec_config().handshake_ping@,
            ))),
            send_pong ==> final(self).phase() == (MultiplayerState::ClientLobby {
                lobby_id: lobby_of(old(self).phase()).unwrap(),
                connected: true,
                handshake_done: true,
                p2p_session_dead: old(self).phase()->ClientLobby_p2p_session_dead,
            }),
            !send_pong ==> final(self).phase() == old(self).phase(),
    {
        let ping = self.config.handshake_ping;
        match &mut self.mp {
            MultiplayerState::ClientLobby { connected, handshake_done, .. } => {
                if *connected && !*handshake_done {
                    if let Some(m) = messages {
                        if contains_message(m, ping) {
                            *handshake_done = true;
                            return true;
                        }
                    }
                }
                false
            },
            _ => false,
        }
    }


    /// Frame `payload` for sending and say where it goes: to every handshaken peer when hosting,
    /// to the host when a ready client. `None` (nothing is sent) when the payload exceeds
    /// `max_game_payload_bytes` or no connection is ready.
    pub fn plan_framed_send(&self, payload: &[u8]) -> (plan: Option<FramedSend>)
        requires
            self.wf(),
        ensures
            plan.is_some() <==> (payload@.len() <= self.spec_config().max_game_payload_bytes && (
            host_ready(self.phase()) || client_ready(self.phase()))),
            payload@.len() > self.spec_config().max_game_payload_bytes ==> plan.is_none(),
            payload@.len() <= self.spec_config().max_game_payload_bytes ==> {
                if host_ready(self.phase()) {
                    &&& plan.is_some()
                    &&& plan.unwrap().frame@ == spec_framed(payload@)
                    &&& plan.unwrap().target matches SendTarget::Peers(targets)
                    &&& targets@ == handshaken_indices(peers_of(self.phase()))
                } else if client_ready(self.phase()) {
                    &&& plan.is_some()
                    &&& plan.unwrap().frame@ == spec_framed(payload@)
                    &&& plan.unwrap().target is Host
                } else {
                    plan.is_none()
                }
            },
    {
        let max = self.config.max_game_payload_bytes;
        if payload.len() > max {
            return None;
        }
        let frame = match prepend_length_prefix(payload, max) {
            Some(f) => f,
            None => return None,
        };
        match &self.mp {
            MultiplayerState::Hosting { peers, .. } => {
                let targets = ready_peer_indices(peers);
                proof {
                    lemma_handshaken_indices_len(peers@);
                }
                if targets.len() == 0 {
                    None
                } else {
                    Some(FramedSend { frame, target: SendTarget::Peers(targets) })
                }
            },
            MultiplayerState::ClientLobby { connected, handshake_done, p2p_session_dead, .. } => {
                if *connected && *handshake_done && !*p2p_session_dead {
                    Some(FramedSend { frame, target: SendTarget::Host })
                } else {
                    None
                }
            },
            _ => None,
        }
    }

    /// The connections to drain for framed traffic, each with the peer number its payloads get:
    /// every handshaken peer when hosting, numbered by its position among the handshaken peers;
    /// the host connection, numbered `0`, when a ready client; none otherwise.
    pub fn poll_sources(&self) -> (sources: Vec<PollSource>)
        requires
            self.wf(),
        ensures
            sources@ == spec_poll_sources(self.phase()),
    {
        match &self.mp {
            MultiplayerState::Hosting { peers, .. } => {
                let idx = ready_peer_indices(peers);
                let mut v: Vec<PollSource> = Vec::new();
                let mut k: usize = 0;
                while k < idx.len()
                    invariant
                        k <= idx@.len(),
                        idx@ == handshaken_indices(peers@),
                        v@ =~= Seq::new(
                            k as nat,
                            |j: int| PollSource { connection: idx@[j], peer_index: j as usize },
                        ),
                    decreases idx@.len() - k,
                {
                    v.push(PollSource { connection: idx[k], peer_index: k });
                    k = k + 1;
                }
                v
            },
            MultiplayerState::ClientLobby { connected, handshake_done, p2p_session_dead, .. } => {
                let mut v: Vec<PollSource> = Vec::new();
                if *connected && *handshake_done && !*p2p_session_dead {
                    v.push(PollSource { connection: 0, peer_index: 0 });
                }
                assert(v@ =~= spec_poll_sources(self.phase()));
                v
            },
            _ => Vec::new(),
        }
    }

    /// The framed payloads among drained messages, batch after batch and in message order, with
    /// their length prefix stripped; messages not validly framed within `max_game_payload_bytes`
    /// are dropped.
    pub fn collect_framed_payloads(&self, batches: &Vec<PeerMessages>) -> (out: Vec<FramedPayload>)
        ensures
            out@.len() == framed_in_batches(
                batches@,
                self.spec_config().max_game_payload_bytes as nat,
            ).len(),
            forall|i: int|
                0 <= i < out@.len() ==> {
                    let e = framed_in_batches(
                        batches@,
                        self.spec_config().max_game_payload_bytes as nat,
                    )[i];
                    &&& (#[trigger] out@[i]).peer_index == e.0
                    &&& out@[i].bytes@ == e.1
                },
    {
        let max = self.config.max_game_payload_bytes;
        let ghost m = max as nat;
        let mut out: Vec<FramedPayload> = Vec::new();
        let mut b: usize = 0;
        while b < batches.len()
            invariant
                m == max as nat,
                b <= batches@.len(),
                out@.len() == framed_in_batches(batches@.take(b as int), m).len(),
                forall|i: int|
                    0 <= i < out@.len() ==> {
                        let e = framed_in_batches(batches@.take(b as int), m)[i];
                        &&& (#[trigger] out@[i]).peer_index == e.0
                        &&& out@[i].bytes@ == e.1
                    },
            decreases batches@.len() - b,
        {
            let batch = &batches[b];
            let ghost prefix = framed_in_batches(batches@.take(b as int), m);
            let mut k: usize = 0;
            while k < batch.messages.len()
                invariant
                    m == max as nat,
                    k <= batch.messages@.len(),
                    out@.len() == prefix.len() + framed_in(
                        batch.messages@.take(k as int),
                        batch.peer_index,
                        m,
                    ).len(),
                    forall|i: int|
                        0 <= i < out@.len() ==> {
                            let e = (prefix + framed_in(
                                batch.messages@.take(k as int),
                                batch.peer_index,
                                m,
                            ))[i];
                            &&& (#[trigger] out@[i]).peer_index == e.0
                            &&& out@[i].bytes@ == e.1
                        },
                decreases batch.messages@.len() - k,
            {
                proof {
                    assert(batch.messages@.take(k + 1).drop_last() =~= batch.messages@.take(
                        k as int,
                    ));
                }
                let ghost prev = framed_in(batch.messages@.take(k as int), batch.peer_index, m);
                if let Some(inner) = strip_length_prefix(batch.messages[k].as_slice(), max) {
                    out.push(FramedPayload { peer_index: batch.peer_index, bytes: vstd::slice::slice_to_vec(inner) });
                    proof {
                        assert(framed_in(batch.messages@.take(k + 1), batch.peer_index, m) == prev.push(
                            (batch.peer_index, inner@),
                        ));
                        assert(prefix + prev.push((batch.peer_index, inner@)) =~= (prefix + prev).push(
                            (batch.peer_index, inner@),
                        ));
                    }
                }
                k = k + 1;
            }
            proof {
                assert(batch.messages@.take(batch.messages@.len() as int) =~= batch.messages@);
                assert(batches@.take(b + 1).drop_last() =~= batches@.take(b as int));
            }
            b = b + 1;
        }
        proof {
            assert(batches@.take(batches@.len() as int) =~= batches@);
        }
        out
    }


    /// What a tick has to look after: the lobby request in flight, the host's connections, or
    /// the client's connection; nothing when idle, after an error, or without Steam.
    pub fn tick_work(&self) -> (work: TickWork)
        requires
            self.wf(),
        ensures
            work == spec_tick_work(self.has_steam(), self.phase()),
    {
        if !self.steam_available {
            return TickWork::Nothing;
        }
        match &self.mp {
            MultiplayerState::PendingLobbyList => TickWork::AwaitLobbySearch,
            MultiplayerState::PendingCreate { .. } => TickWork::AwaitLobbyCreation,
            MultiplayerState::PendingJoin { .. } => TickWork::AwaitLobbyJoin,
            MultiplayerState::Hosting { .. } => TickWork::HostRound,
            MultiplayerState::ClientLobby { .. } => TickWork::ClientRound,
            _ => TickWork::Nothing,
        }
    }

    /// Where the session stands.
    pub fn state(&self) -> (st: &MultiplayerState)
        ensures
            *st == self.phase(),
    {
        &self.mp
    }

    /// The error message, when the last operation failed.
    pub fn multiplayer_error(&self) -> (err: Option<&str>)
        ensures
            err.is_some() <==> self.phase() is ErrorLine,
            err.is_some() ==> is_error(self.phase(), err.unwrap()@),
    {
        match &self.mp {
            MultiplayerState::ErrorLine(s) => Some(s.as_str()),
            _ => None,
        }
    }

    /// Whether an invite can be offered: the session hosts a lobby.
    pub fn overlay_invite_available(&self) -> (b: bool)
        ensures
            b == self.phase() is Hosting,
    {
        matches!(self.mp, MultiplayerState::Hosting { .. })
    }

    /// The lobby to open the invite dialog for: the hosted lobby, when Steam is up.
    pub fn overlay_invite_lobby(&self) -> (lobby: Option<u64>)
        ensures
            lobby == (if self.has_steam() && self.phase() is Hosting {
                lobby_of(self.phase())
            } else {
                None
            }),
    {
        match &self.mp {
            MultiplayerState::Hosting { lobby_id, .. } => if self.steam_available {
                Some(*lobby_id)
            } else {
                None
            },
            _ => None,
        }
    }

    /// The lobby the session is in, hosting or as a client.
    pub fn current_lobby(&self) -> (lobby: Option<u64>)
        ensures
            lobby == lobby_of(self.phase()),
    {
        match &self.mp {
            MultiplayerState::Hosting { lobby_id, .. } => Some(*lobby_id),
            MultiplayerState::ClientLobby { lobby_id, .. } => Some(*lobby_id),
            _ => None,
        }
    }

    /// Number of handshaken connections: the handshaken peers when hosting, `1` for a ready
    /// client, `0` otherwise.
    pub fn handshaken_peer_count(&self) -> (n: usize)
        ensures
            n == spec_handshaken_peer_count(self.phase()),
    {
        match &self.mp {
            MultiplayerState::Hosting { peers, .. } => {
                let idx = ready_peer_indices(peers);
                proof {
                    lemma_handshaken_indices_len(peers@);
                }
                idx.len()
            },
            MultiplayerState::ClientLobby { connected, handshake_done, p2p_session_dead, .. } => {
                if *connected && *handshake_done && !*p2p_session_dead {
                    1
                } else {
                    0
                }
            },
            _ => 0,
        }
    }

    /// Whether framed game traffic can flow: a host with a handshaken peer, or a ready client.
    pub fn p2p_session_ready(&self) -> (b: bool)
        ensures
            b == (host_ready(self.phase()) || client_ready(self.phase())),
    {
        let host = self.p2p_is_host();
        let client = match &self.mp {
            MultiplayerState::ClientLobby { connected, handshake_done, p2p_session_dead, .. } => *connected
                && *handshake_done && !*p2p_session_dead,
            _ => false,
        };
        host || client
    }

    /// Whether the session hosts a lobby with at least one handshaken peer.
    pub fn p2p_is_host(&self) -> (b: bool)
        ensures
            b == host_ready(self.phase()),
    {
        match &self.mp {
            MultiplayerState::Hosting { peers, .. } => {
                let mut any = false;
                let mut i: usize = 0;
                while i < peers.len()
                    invariant
                        i <= peers@.len(),
                        any == (handshaken_count(peers@.take(i as int)) > 0),
                    decreases peers@.len() - i,
                {
                    proof {
                        assert(peers@.take(i + 1).drop_last() =~= peers@.take(i as int));
                    }
                    if peers[i].handshake_done {
                        any = true;
                    }
                    i = i + 1;
                }
                proof {
                    assert(peers@.take(peers@.len() as int) =~= peers@);
                }
                any
            },
            _ => false,
        }
    }

    /// The lobby join finished: on success, remember the lobby and connect to its owner (the
    /// session waits for the connection); on failure report "Could not join that lobby.".
    /// Ignored unless a join is in flight and not yet answered.
    pub fn on_lobby_joined(&mut self, joined: Result<u64, ()>) -> (connect_to_owner_of: Option<u64>)
        requires
            old(self).wf(),
        ensures
            final(self).wf(),
            final(self).has_steam() == old(self).has_steam(),
            final(self).spec_config() == old(self).spec_config(),
            old(self).phase() != (MultiplayerState::PendingJoin { joined: None })
                ==> connect_to_owner_of.is_none() && final(self).phase() == old(self).phase(),
            old(self).phase() == (MultiplayerState::PendingJoin { joined: None }) ==> match joined {
                Ok(lid) => connect_to_owner_of == Some(lid) && final(self).phase() == (
                MultiplayerState::PendingJoin { joined: Some(lid) }),
                Err(_) => connect_to_owner_of.is_none() && is_error(
                    final(self).phase(),
                    "Could not join that lobby."@,
                ),
            },
    {
        if !matches!(self.mp, MultiplayerState::PendingJoin { joined: None }) {
            return None;
        }
        match joined {
            Ok(lid) => {
                self.mp = MultiplayerState::PendingJoin { joined: Some(lid) };
                Some(lid)
            },
            Err(()) => {
                self.set_error("Could not join that lobby.");
                None
            },
        }
    }

    /// The P2P connection to the owner of the joined lobby opened or failed: become a client of
    /// that lobby, not yet handshaken; or report "connect_p2p failed." and hand back the lobby to
    /// leave. Ignored unless a joined lobby waits for its connection.
    pub fn on_p2p_connect(&mut self, connected: bool) -> (leave: Option<u64>)
        requires
            old(self).wf(),
        ensures
            final(self).wf(),
            final(self).has_steam() == old(self).has_steam(),
            final(self).spec_config() == old(self).spec_config(),
            joined_lobby(old(self).phase()) is None ==> leave.is_none() && final(self).phase()
                == old(self).phase(),
            joined_lobby(old(self).phase()) is Some && connected ==> leave.is_none()
                && final(self).phase() == (MultiplayerState::ClientLobby {
                lobby_id: joined_lobby(old(self).phase()).unwrap(),
                connected: true,
                handshake_done: false,
                p2p_session_dead: false,
            }),
            joined_lobby(old(self).phase()) is Some && !connected ==> leave == joined_lobby(
                old(self).phase(),
            ) && is_error(final(self).phase(), "connect_p2p failed."@),
    {
        let lobby_id = match self.mp {
            MultiplayerState::PendingJoin { joined: Some(lid) } => lid,
            _ => return None,
        };
        if connected {
            self.mp = MultiplayerState::ClientLobby {
                lobby_id,
                connected: true,
                handshake_done: false,
                p2p_session_dead: false,
            };
            None
        } else {
            self.set_error("connect_p2p failed.");
            Some(lobby_id)
        }
    }
}

} // verus!
