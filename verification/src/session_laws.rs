//! Laws of a session over many steps: pings and pongs sent at most once per connection, handshakes
//! lost only through disconnects, a dropped client staying dead, and what polling hands out.
use crate::framing::{lemma_framed_of_strip, spec_framed, spec_strip};
use crate::multiplayer::{
    after_pings, awaiting_ping, client_next, client_ready, client_run, client_waiting,
    framed_in, framed_in_batches, handshake_steps, handshaken_count, handshaken_indices, host_next,
    host_ready, host_run, lemma_handshaken_indices_len, no_disconnect, ping_requests, pings_of,
    pong_of, run_connects, run_pings, run_pongs, spec_handshaken_peer_count, spec_poll_sources,
    is_same_peer, other_than, peers_of, connection_lost, spec_tick_work, ConnectionStatus,
    TickWork, ClientEvent, HandshakeStep, HostEvent, MultiplayerState,
    PeerIdentity, PeerMessages, PeerSlot,
};
use vstd::prelude::*;

verus! {

/// A handshake round asks for as many pings as there are peers neither pinged nor handshaken.
proof fn lemma_ping_requests_of_round(peers: Seq<PeerSlot>)
    ensures
        ping_requests(handshake_steps(peers)) == awaiting_ping(peers),
    decreases peers.len(),
{
    if peers.len() > 0 {
        lemma_ping_requests_of_round(peers.drop_last());
        let prev = handshake_steps(peers.drop_last());
        if !peers.last().handshake_done {
            let st = handshake_steps(peers);
            assert(st.drop_last() =~= prev);
        }
    }
}

/// After a round no peer waits for its ping.
proof fn lemma_round_pings_all(peers: Seq<PeerSlot>)
    ensures
        awaiting_ping(after_pings(peers)) == 0,
        handshaken_count(after_pings(peers)) == handshaken_count(peers),
    decreases peers.len(),
{
    if peers.len() > 0 {
        lemma_round_pings_all(peers.drop_last());
        assert(after_pings(peers).drop_last() =~= after_pings(peers.drop_last()));
    }
}

/// Dropping peers never adds one that waits for its ping.
proof fn lemma_filter_awaiting(peers: Seq<PeerSlot>, pred: spec_fn(PeerSlot) -> bool)
    ensures
        awaiting_ping(peers.filter(pred)) <= awaiting_ping(peers),
    decreases peers.len(),
{
    reveal_with_fuel(Seq::<_>::filter, 1);
    if peers.len() > 0 {
        lemma_filter_awaiting(peers.drop_last(), pred);
        let sub = peers.drop_last().filter(pred);
        if pred(peers.last()) {
            assert(sub.push(peers.last()).drop_last() =~= sub);
        }
    }
}

/// Marking a peer handshaken never adds one that waits for its ping, nor loses a handshake.
proof fn lemma_mark_done(peers: Seq<PeerSlot>, i: int)
    requires
        0 <= i < peers.len(),
    ensures
        awaiting_ping(peers.update(i, PeerSlot { handshake_done: true, ..peers[i] })) <= awaiting_ping(
            peers,
        ),
        handshaken_count(peers.update(i, PeerSlot { handshake_done: true, ..peers[i] }))
            >= handshaken_count(peers),
    decreases peers.len(),
{
    let u = peers.update(i, PeerSlot { handshake_done: true, ..peers[i] });
    if i == peers.len() - 1 {
        assert(u.drop_last() =~= peers.drop_last());
    } else {
        lemma_mark_done(peers.drop_last(), i);
        assert(u.drop_last() =~= peers.drop_last().update(
            i,
            PeerSlot { handshake_done: true, ..peers.drop_last()[i] },
        ));
    }
}

/// Accounting of one host step: the pings it sends, plus the peers still waiting for one after
/// it, are at most the peers waiting before it plus the one connection it may add.
pub proof fn lemma_host_step_pings(peers: Seq<PeerSlot>, ev: HostEvent)
    ensures
        pings_of(peers, ev) + awaiting_ping(host_next(peers, ev)) <= awaiting_ping(peers) + if ev is Connect {
            1nat
        } else {
            0nat
        },
{
    match ev {
        HostEvent::Connect(remote) => {
            let n = host_next(peers, ev);
            assert(n.drop_last() =~= peers);
        },
        HostEvent::Disconnect(lost) => {
            lemma_filter_awaiting(peers, crate::multiplayer::other_than(lost));
        },
        HostEvent::HandshakeRound => {
            lemma_ping_requests_of_round(peers);
            lemma_round_pings_all(peers);
        },
        HostEvent::Reply { peer_index, pong_seen } => {
            if peer_index < peers.len() && pong_seen {
                lemma_mark_done(peers, peer_index as int);
            }
        },
    }
}

/// The ping goes out at most once per connection: over any run of host steps, the pings sent
/// plus the peers still waiting for one are at most the peers waiting at the start plus the
/// connections established; from a fresh host (no peers), at most one ping per connection.
pub proof fn lemma_host_pings_per_connection(peers: Seq<PeerSlot>, evs: Seq<HostEvent>)
    ensures
        run_pings(peers, evs) + awaiting_ping(host_run(peers, evs)) <= awaiting_ping(peers)
            + run_connects(evs),
        peers.len() == 0 ==> run_pings(peers, evs) <= run_connects(evs),
    decreases evs.len(),
{
    if evs.len() > 0 {
        lemma_host_pings_per_connection(peers, evs.drop_last());
        lemma_host_step_pings(host_run(peers, evs.drop_last()), evs.last());
    }
}

/// A host step other than a disconnect never lowers the number of handshaken peers; a reply
/// with the pong marks its peer handshaken, and a reply without it changes nothing.
pub proof fn lemma_host_step_handshakes(peers: Seq<PeerSlot>, ev: HostEvent)
    ensures
        !(ev is Disconnect) ==> handshaken_count(host_next(peers, ev)) >= handshaken_count(peers),
        ev matches HostEvent::Reply { peer_index, pong_seen } ==> (pong_seen && peer_index
            < peers.len() ==> host_next(peers, ev)[peer_index as int].handshake_done) && (!pong_seen
            ==> host_next(peers, ev) == peers),
{
    match ev {
        HostEvent::Connect(remote) => {
            let n = host_next(peers, ev);
            assert(n.drop_last() =~= peers);
        },
        HostEvent::Disconnect(lost) => {},
        HostEvent::HandshakeRound => {
            lemma_round_pings_all(peers);
        },
        HostEvent::Reply { peer_index, pong_seen } => {
            if peer_index < peers.len() && pong_seen {
                lemma_mark_done(peers, peer_index as int);
            }
        },
    }
}

/// Handshakes are lost only through disconnects: over a run with no disconnect the number of
/// handshaken peers never falls.
pub proof fn lemma_handshakes_lost_only_by_disconnect(peers: Seq<PeerSlot>, evs: Seq<HostEvent>)
    requires
        no_disconnect(evs),
    ensures
        handshaken_count(host_run(peers, evs)) >= handshaken_count(peers),
    decreases evs.len(),
{
    if evs.len() > 0 {
        assert(no_disconnect(evs.drop_last())) by {
            assert forall|k: int| 0 <= k < evs.drop_last().len() implies !(
            #[trigger] evs.drop_last()[k] is Disconnect) by {
                assert(evs.drop_last()[k] == evs[k]);
            }
        }
        lemma_handshakes_lost_only_by_disconnect(peers, evs.drop_last());
        assert(!(evs[evs.len() - 1] is Disconnect));
        lemma_host_step_handshakes(host_run(peers, evs.drop_last()), evs.last());
    }
}

/// A handshake round reads only peers not yet handshaken, each named by a valid index.
pub proof fn lemma_round_skips_handshaken(peers: Seq<PeerSlot>)
    requires
        peers.len() <= usize::MAX,
    ensures
        forall|k: int|
            0 <= k < handshake_steps(peers).len() ==> {
                let st = #[trigger] handshake_steps(peers)[k];
                &&& st.peer_index < peers.len()
                &&& !peers[st.peer_index as int].handshake_done
                &&& st.send_ping == !peers[st.peer_index as int].ping_sent
            },
    decreases peers.len(),
{
    if peers.len() > 0 {
        let rest = peers.drop_last();
        lemma_round_skips_handshaken(rest);
        let st = handshake_steps(peers);
        let rs = handshake_steps(rest);
        assert forall|k: int| 0 <= k < st.len() implies {
            let s = #[trigger] st[k];
            &&& s.peer_index < peers.len()
            &&& !peers[s.peer_index as int].handshake_done
            &&& s.send_ping == !peers[s.peer_index as int].ping_sent
        } by {
            if k < rs.len() {
                assert(st[k] == rs[k]);
                assert(rest[rs[k].peer_index as int] == peers[rs[k].peer_index as int]);
            }
        }
    }
}

/// A client whose connection was dropped stays as it is through any later probes and messages:
/// not ready, no handshaken connection, and no pong sent.
pub proof fn lemma_dropped_client_stays_dead(mp: MultiplayerState, evs: Seq<ClientEvent>)
    requires
        mp matches MultiplayerState::ClientLobby { connected, p2p_session_dead, .. } && !connected
            && p2p_session_dead,
    ensures
        client_run(mp, evs) == mp,
        run_pongs(mp, evs) == 0,
        !client_ready(client_run(mp, evs)),
        spec_handshaken_peer_count(client_run(mp, evs)) == 0,
    decreases evs.len(),
{
    if evs.len() > 0 {
        lemma_dropped_client_stays_dead(mp, evs.drop_last());
    }
}

/// Whether a client waits for the ping, as a count.
pub open spec fn waiting_count(mp: MultiplayerState) -> nat {
    if client_waiting(mp) {
        1
    } else {
        0
    }
}

/// One pong per connection: over any run of client probes and messages, the pongs sent plus
/// whether the client still waits for the ping are at most whether it waited at the start; so
/// at most one pong, and none from a client already handshaken or without a connection.
pub proof fn lemma_one_pong_per_connection(mp: MultiplayerState, evs: Seq<ClientEvent>)
    ensures
        run_pongs(mp, evs) + waiting_count(client_run(mp, evs)) <= waiting_count(mp),
        run_pongs(mp, evs) <= 1,
        !client_waiting(mp) ==> run_pongs(mp, evs) == 0,
    decreases evs.len(),
{
    if evs.len() > 0 {
        lemma_one_pong_per_connection(mp, evs.drop_last());
    }
}

/// Polling finds no connection to drain exactly when no connection is ready, so a session that
/// is not ready hands out no payload.
pub proof fn lemma_poll_only_when_ready(mp: MultiplayerState)
    ensures
        spec_poll_sources(mp).len() == 0 <==> !(host_ready(mp) || client_ready(mp)),
        framed_in_batches(Seq::<PeerMessages>::empty(), 0).len() == 0,
{
    if let MultiplayerState::Hosting { peers, .. } = mp {
        lemma_handshaken_indices_len(peers@);
    }
}

/// Every payload taken from one connection's messages is a received message with its prefix
/// removed: its length is within the limit and equals the declared length; there is at most one
/// payload per message.
pub proof fn lemma_framed_in_sound(messages: Seq<Vec<u8>>, peer: usize, max_inner: nat)
    ensures
        framed_in(messages, peer, max_inner).len() <= messages.len(),
        forall|k: int|
            0 <= k < framed_in(messages, peer, max_inner).len() ==> {
                let e = #[trigger] framed_in(messages, peer, max_inner)[k];
                &&& e.0 == peer
                &&& e.1.len() <= max_inner
                &&& exists|i: int| 0 <= i < messages.len() && #[trigger] messages[i]@ == spec_framed(e.1)
            },
    decreases messages.len(),
{
    if messages.len() > 0 {
        let rest = messages.drop_last();
        lemma_framed_in_sound(rest, peer, max_inner);
        let prev = framed_in(rest, peer, max_inner);
        let cur = framed_in(messages, peer, max_inner);
        assert forall|k: int| 0 <= k < cur.len() implies {
            let e = #[trigger] cur[k];
            &&& e.0 == peer
            &&& e.1.len() <= max_inner
            &&& exists|i: int| 0 <= i < messages.len() && #[trigger] messages[i]@ == spec_framed(e.1)
        } by {
            if k < prev.len() {
                assert(cur[k] == prev[k]);
                let i = choose|i: int| 0 <= i < rest.len() && #[trigger] rest[i]@ == spec_framed(prev[k].1);
                assert(messages[i] == rest[i]);
            } else {
                let last = messages.last();
                lemma_framed_of_strip(last@, max_inner);
                assert(messages[messages.len() - 1]@ == spec_framed(cur[k].1));
            }
        }
    }
}

/// Number of messages over all batches.
pub open spec fn total_messages(batches: Seq<PeerMessages>) -> nat
    decreases batches.len(),
{
    if batches.len() == 0 {
        0
    } else {
        total_messages(batches.drop_last()) + batches.last().messages@.len()
    }
}

/// What polling hands out: each payload is a message received from the source that carries its
/// peer number, with the prefix removed, within the limit and of the declared length; there are
/// at most as many payloads as messages received.
pub proof fn lemma_collected_payloads_sound(batches: Seq<PeerMessages>, max_inner: nat)
    ensures
        framed_in_batches(batches, max_inner).len() <= total_messages(batches),
        forall|k: int|
            0 <= k < framed_in_batches(batches, max_inner).len() ==> {
                let e = #[trigger] framed_in_batches(batches, max_inner)[k];
                &&& e.1.len() <= max_inner
                &&& exists|j: int, i: int|
                    0 <= j < batches.len() && 0 <= i < batches[j].messages@.len()
                        && batches[j].peer_index == e.0 && #[trigger] batches[j].messages@[i]@
                        == spec_framed(e.1)
            },
    decreases batches.len(),
{
    if batches.len() > 0 {
        let rest = batches.drop_last();
        let b = batches.last();
        lemma_collected_payloads_sound(rest, max_inner);
        lemma_framed_in_sound(b.messages@, b.peer_index, max_inner);
        let prev = framed_in_batches(rest, max_inner);
        let tail = framed_in(b.messages@, b.peer_index, max_inner);
        let cur = framed_in_batches(batches, max_inner);
        assert(cur == prev + tail);
        assert forall|k: int| 0 <= k < cur.len() implies {
            let e = #[trigger] cur[k];
            &&& e.1.len() <= max_inner
            &&& exists|j: int, i: int|
                0 <= j < batches.len() && 0 <= i < batches[j].messages@.len() && batches[j].peer_index
                    == e.0 && #[trigger] batches[j].messages@[i]@ == spec_framed(e.1)
        } by {
            if k < prev.len() {
                assert(cur[k] == prev[k]);
                let (j, i) = choose|j: int, i: int|
                    0 <= j < rest.len() && 0 <= i < rest[j].messages@.len() && rest[j].peer_index
                        == prev[k].0 && #[trigger] rest[j].messages@[i]@ == spec_framed(prev[k].1);
                assert(batches[j] == rest[j]);
            } else {
                let k2 = k - prev.len();
                assert(cur[k] == tail[k2]);
                let e = tail[k2];
                let i = choose|i: int| 0 <= i < b.messages@.len() && #[trigger] b.messages@[i]@ == spec_framed(e.1);
                assert(batches[batches.len() - 1] == b);
                assert(batches[batches.len() - 1].messages@[i]@ == spec_framed(e.1));
            }
        }
    }
}

/// The slots of a peer list whose connections carry names: each entry is a slot and the name its
/// connection was given when it was added.
pub open spec fn untag(tp: Seq<(PeerSlot, nat)>) -> Seq<PeerSlot> {
    tp.map_values(|t: (PeerSlot, nat)| t.0)
}

/// Holds of the named slots whose peer is not `lost`.
pub open spec fn named_other_than(lost: PeerIdentity) -> spec_fn((PeerSlot, nat)) -> bool {
    |t: (PeerSlot, nat)| !is_same_peer(t.0.remote, lost)
}

/// A host step on named slots; a connection added by the step is named `name`.
pub open spec fn named_next(tp: Seq<(PeerSlot, nat)>, ev: HostEvent, name: nat) -> Seq<(PeerSlot, nat)> {
    match ev {
        HostEvent::Connect(remote) => tp.push(
            (PeerSlot { remote, ping_sent: false, handshake_done: false }, name),
        ),
        HostEvent::Disconnect(lost) => tp.filter(named_other_than(lost)),
        HostEvent::HandshakeRound => Seq::new(tp.len(), |i: int| (after_pings(untag(tp))[i], tp[i].1)),
        HostEvent::Reply { peer_index, pong_seen } => if peer_index < tp.len() && pong_seen {
            tp.update(
                peer_index as int,
                (PeerSlot { handshake_done: true, ..tp[peer_index as int].0 }, tp[peer_index as int].1),
            )
        } else {
            tp
        },
    }
}

/// Named slots of connection `name` waiting for their ping.
pub open spec fn awaiting_ping_named(tp: Seq<(PeerSlot, nat)>, name: nat) -> nat
    decreases tp.len(),
{
    if tp.len() == 0 {
        0
    } else {
        awaiting_ping_named(tp.drop_last(), name) + if tp.last().1 == name && !tp.last().0.ping_sent
            && !tp.last().0.handshake_done {
            1nat
        } else {
            0nat
        }
    }
}

/// Pings a step sends on connection `name`: a handshake round pings exactly the slots waiting for
/// their ping (`lemma_round_pings_exactly_waiting`), other steps send none.
pub open spec fn pings_named(tp: Seq<(PeerSlot, nat)>, ev: HostEvent, name: nat) -> nat {
    match ev {
        HostEvent::HandshakeRound => awaiting_ping_named(tp, name),
        _ => 0,
    }
}

/// Named slots after a run of steps; `names[k]` names the connection step `k` may add.
pub open spec fn named_run(tp: Seq<(PeerSlot, nat)>, evs: Seq<HostEvent>, names: Seq<nat>) -> Seq<
    (PeerSlot, nat),
>
    decreases evs.len(),
{
    if evs.len() == 0 || names.len() != evs.len() {
        tp
    } else {
        named_next(named_run(tp, evs.drop_last(), names.drop_last()), evs.last(), names.last())
    }
}

/// Pings sent on connection `name` over a run.
pub open spec fn run_pings_named(
    tp: Seq<(PeerSlot, nat)>,
    evs: Seq<HostEvent>,
    names: Seq<nat>,
    name: nat,
) -> nat
    decreases evs.len(),
{
    if evs.len() == 0 || names.len() != evs.len() {
        0
    } else {
        run_pings_named(tp, evs.drop_last(), names.drop_last(), name) + pings_named(
            named_run(tp, evs.drop_last(), names.drop_last()),
            evs.last(),
            name,
        )
    }
}

/// Steps of a run that add a connection named `name`.
pub open spec fn connects_named(evs: Seq<HostEvent>, names: Seq<nat>, name: nat) -> nat
    decreases evs.len(),
{
    if evs.len() == 0 || names.len() != evs.len() {
        0
    } else {
        connects_named(evs.drop_last(), names.drop_last(), name) + if evs.last() is Connect
            && names.last() == name {
            1nat
        } else {
            0nat
        }
    }
}

/// A handshake round sends a ping on a slot exactly when the slot is neither pinged nor
/// handshaken.
pub proof fn lemma_round_pings_exactly_waiting(peers: Seq<PeerSlot>, i: int)
    requires
        peers.len() <= usize::MAX,
        0 <= i < peers.len(),
    ensures
        (!peers[i].ping_sent && !peers[i].handshake_done) <==> exists|k: int|
            0 <= k < handshake_steps(peers).len() && #[trigger] handshake_steps(peers)[k].peer_index
                == i && handshake_steps(peers)[k].send_ping,
    decreases peers.len(),
{
    lemma_round_skips_handshaken(peers);
    let st = handshake_steps(peers);
    let rest = peers.drop_last();
    let rs = handshake_steps(rest);
    if i < peers.len() - 1 {
        lemma_round_pings_exactly_waiting(rest, i);
        assert(rest[i] == peers[i]);
        if !peers[i].ping_sent && !peers[i].handshake_done {
            let k = choose|k: int| 0 <= k < rs.len() && #[trigger] rs[k].peer_index == i && rs[k].send_ping;
            assert(st[k] == rs[k]);
        }
    } else {
        if !peers[i].ping_sent && !peers[i].handshake_done {
            assert(st[st.len() - 1].peer_index == i);
        }
    }
}

/// Naming the connections changes nothing in what a step does to the slots.
pub proof fn lemma_named_next_untag(tp: Seq<(PeerSlot, nat)>, ev: HostEvent, name: nat)
    ensures
        untag(named_next(tp, ev, name)) == host_next(untag(tp), ev),
    decreases tp.len(),
{
    match ev {
        HostEvent::Connect(remote) => {
            assert(untag(named_next(tp, ev, name)) =~= host_next(untag(tp), ev));
        },
        HostEvent::Disconnect(lost) => {
            lemma_untag_filter(tp, lost);
        },
        HostEvent::HandshakeRound => {
            assert(untag(named_next(tp, ev, name)) =~= host_next(untag(tp), ev));
        },
        HostEvent::Reply { peer_index, pong_seen } => {
            assert(untag(named_next(tp, ev, name)) =~= host_next(untag(tp), ev));
        },
    }
}

proof fn lemma_untag_filter(tp: Seq<(PeerSlot, nat)>, lost: PeerIdentity)
    ensures
        untag(tp.filter(named_other_than(lost))) == untag(tp).filter(other_than(lost)),
    decreases tp.len(),
{
    reveal_with_fuel(Seq::<_>::filter, 1);
    if tp.len() > 0 {
        lemma_untag_filter(tp.drop_last(), lost);
        assert(untag(tp).drop_last() =~= untag(tp.drop_last()));
        let sub = tp.drop_last().filter(named_other_than(lost));
        if named_other_than(lost)(tp.last()) {
            assert(untag(sub.push(tp.last())) =~= untag(sub).push(tp.last().0));
        }
    }
}

proof fn lemma_filter_awaiting_named(tp: Seq<(PeerSlot, nat)>, lost: PeerIdentity, name: nat)
    ensures
        awaiting_ping_named(tp.filter(named_other_than(lost)), name) <= awaiting_ping_named(tp, name),
    decreases tp.len(),
{
    reveal_with_fuel(Seq::<_>::filter, 1);
    if tp.len() > 0 {
        lemma_filter_awaiting_named(tp.drop_last(), lost, name);
        let sub = tp.drop_last().filter(named_other_than(lost));
        if named_other_than(lost)(tp.last()) {
            assert(sub.push(tp.last()).drop_last() =~= sub);
        }
    }
}

proof fn lemma_round_awaiting_named(tp: Seq<(PeerSlot, nat)>, name: nat)
    ensures
        awaiting_ping_named(named_next(tp, HostEvent::HandshakeRound, name), name) == 0,
    decreases tp.len(),
{
    if tp.len() > 0 {
        lemma_round_awaiting_named(tp.drop_last(), name);
        assert(untag(tp).drop_last() =~= untag(tp.drop_last()));
        assert(after_pings(untag(tp)).drop_last() =~= after_pings(untag(tp.drop_last())));
        assert(named_next(tp, HostEvent::HandshakeRound, name).drop_last() =~= named_next(
            tp.drop_last(),
            HostEvent::HandshakeRound,
            name,
        ));
    }
}

proof fn lemma_mark_done_named(tp: Seq<(PeerSlot, nat)>, i: int, name: nat)
    requires
        0 <= i < tp.len(),
    ensures
        awaiting_ping_named(
            tp.update(i, (PeerSlot { handshake_done: true, ..tp[i].0 }, tp[i].1)),
            name,
        ) <= awaiting_ping_named(tp, name),
    decreases tp.len(),
{
    let u = tp.update(i, (PeerSlot { handshake_done: true, ..tp[i].0 }, tp[i].1));
    if i == tp.len() - 1 {
        assert(u.drop_last() =~= tp.drop_last());
    } else {
        lemma_mark_done_named(tp.drop_last(), i, name);
        assert(u.drop_last() =~= tp.drop_last().update(
            i,
            (PeerSlot { handshake_done: true, ..tp.drop_last()[i].0 }, tp.drop_last()[i].1),
        ));
    }
}

/// Accounting of one host step for connection `name`: the pings it sends on that connection,
/// plus its slots still waiting after the step, are at most its slots waiting before plus one if
/// the step adds a connection of that name.
pub proof fn lemma_named_step_pings(tp: Seq<(PeerSlot, nat)>, ev: HostEvent, added: nat, name: nat)
    ensures
        pings_named(tp, ev, name) + awaiting_ping_named(named_next(tp, ev, added), name)
            <= awaiting_ping_named(tp, name) + if ev is Connect && added == name {
            1nat
        } else {
            0nat
        },
{
    match ev {
        HostEvent::Connect(remote) => {
            assert(named_next(tp, ev, added).drop_last() =~= tp);
        },
        HostEvent::Disconnect(lost) => {
            lemma_filter_awaiting_named(tp, lost, name);
        },
        HostEvent::HandshakeRound => {
            lemma_round_awaiting_named(tp, name);
        },
        HostEvent::Reply { peer_index, pong_seen } => {
            if peer_index < tp.len() && pong_seen {
                lemma_mark_done_named(tp, peer_index as int, name);
            }
        },
    }
}

/// Each connection gets at most one ping over its lifetime: name the connections as the run adds
/// them; the pings sent on connection `name` over the run, plus its slots still waiting at the
/// end, are at most its slots waiting at the start plus the steps that add it. So a connection
/// that was not waiting at the start and is added at most once gets at most one ping.
pub proof fn lemma_one_ping_per_connection(
    tp: Seq<(PeerSlot, nat)>,
    evs: Seq<HostEvent>,
    names: Seq<nat>,
    name: nat,
)
    requires
        names.len() == evs.len(),
    ensures
        run_pings_named(tp, evs, names, name) + awaiting_ping_named(named_run(tp, evs, names), name)
            <= awaiting_ping_named(tp, name) + connects_named(evs, names, name),
        awaiting_ping_named(tp, name) == 0 && connects_named(evs, names, name) <= 1
            ==> run_pings_named(tp, evs, names, name) <= 1,
        untag(named_run(tp, evs, names)) == host_run(untag(tp), evs),
    decreases evs.len(),
{
    if evs.len() > 0 {
        lemma_one_ping_per_connection(tp, evs.drop_last(), names.drop_last(), name);
        let before = named_run(tp, evs.drop_last(), names.drop_last());
        lemma_named_step_pings(before, evs.last(), names.last(), name);
        lemma_named_next_untag(before, evs.last(), names.last());
    }
}

/// A connection is pinged in the tick that adds it: after it is appended, the handshake round
/// asks for a ping on its slot, and after the round the slot counts as pinged.
pub proof fn lemma_new_connection_pinged_in_next_round(peers: Seq<PeerSlot>, remote: PeerIdentity)
    ensures
        ({
            let added = host_next(peers, HostEvent::Connect(remote));
            let st = handshake_steps(added);
            &&& st.len() > 0
            &&& st.last() == HandshakeStep { peer_index: peers.len() as usize, send_ping: true }
            &&& host_next(added, HostEvent::HandshakeRound)[peers.len() as int].ping_sent
        }),
{
    let added = host_next(peers, HostEvent::Connect(remote));
    assert(added.drop_last() =~= peers);
}

/// Number of payloads carrying peer number `k`.
pub open spec fn count_peer(out: Seq<(usize, Seq<u8>)>, k: usize) -> nat
    decreases out.len(),
{
    if out.len() == 0 {
        0
    } else {
        count_peer(out.drop_last(), k) + if out.last().0 == k {
            1nat
        } else {
            0nat
        }
    }
}

/// Number of messages received from the source numbered `k`.
pub open spec fn messages_of_peer(batches: Seq<PeerMessages>, k: usize) -> nat
    decreases batches.len(),
{
    if batches.len() == 0 {
        0
    } else {
        messages_of_peer(batches.drop_last(), k) + if batches.last().peer_index == k {
            batches.last().messages@.len()
        } else {
            0nat
        }
    }
}

proof fn lemma_count_peer_concat(a: Seq<(usize, Seq<u8>)>, b: Seq<(usize, Seq<u8>)>, k: usize)
    ensures
        count_peer(a + b, k) == count_peer(a, k) + count_peer(b, k),
    decreases b.len(),
{
    if b.len() > 0 {
        lemma_count_peer_concat(a, b.drop_last(), k);
        assert((a + b).drop_last() =~= a + b.drop_last());
    }
}

proof fn lemma_count_peer_framed_in(messages: Seq<Vec<u8>>, peer: usize, max_inner: nat, k: usize)
    ensures
        count_peer(framed_in(messages, peer, max_inner), k) <= if peer == k {
            messages.len()
        } else {
            0
        },
    decreases messages.len(),
{
    if messages.len() > 0 {
        lemma_count_peer_framed_in(messages.drop_last(), peer, max_inner, k);
        let prev = framed_in(messages.drop_last(), peer, max_inner);
        if spec_strip(messages.last()@, max_inner) is Some {
            assert(framed_in(messages, peer, max_inner).drop_last() =~= prev);
        }
    }
}

/// Polling hands out at most as many payloads of a source as messages were received from it.
pub proof fn lemma_payloads_per_peer(batches: Seq<PeerMessages>, max_inner: nat, k: usize)
    ensures
        count_peer(framed_in_batches(batches, max_inner), k) <= messages_of_peer(batches, k),
    decreases batches.len(),
{
    if batches.len() > 0 {
        let b = batches.last();
        lemma_payloads_per_peer(batches.drop_last(), max_inner, k);
        lemma_count_peer_concat(
            framed_in_batches(batches.drop_last(), max_inner),
            framed_in(b.messages@, b.peer_index, max_inner),
            k,
        );
        lemma_count_peer_framed_in(b.messages@, b.peer_index, max_inner, k);
    }
}

proof fn lemma_messages_of_absent_peer(batches: Seq<PeerMessages>, k: usize)
    requires
        forall|j: int| 0 <= j < batches.len() ==> #[trigger] batches[j].peer_index != k,
    ensures
        messages_of_peer(batches, k) == 0,
    decreases batches.len(),
{
    if batches.len() > 0 {
        lemma_messages_of_absent_peer(batches.drop_last(), k);
        assert(batches[batches.len() - 1].peer_index != k);
    }
}

proof fn lemma_messages_of_single_peer(batches: Seq<PeerMessages>, k: usize, bound: nat)
    requires
        forall|j: int| 0 <= j < batches.len() ==> #[trigger] batches[j].messages@.len() <= bound,
        forall|a: int, b: int|
            0 <= a < b < batches.len() ==> #[trigger] batches[a].peer_index
                != #[trigger] batches[b].peer_index,
    ensures
        messages_of_peer(batches, k) <= bound,
    decreases batches.len(),
{
    if batches.len() > 0 {
        let rest = batches.drop_last();
        let n = batches.len() - 1;
        assert(batches[n].messages@.len() <= bound);
        if batches[n].peer_index == k {
            assert forall|j: int| 0 <= j < rest.len() implies #[trigger] rest[j].peer_index != k by {
                assert(rest[j] == batches[j]);
                assert(batches[j].peer_index != batches[n].peer_index);
            }
            lemma_messages_of_absent_peer(rest, k);
        } else {
            assert forall|j: int| 0 <= j < rest.len() implies #[trigger] rest[j].messages@.len()
                <= bound by {
                assert(rest[j] == batches[j]);
            }
            assert forall|a: int, b: int| 0 <= a < b < rest.len() implies #[trigger] rest[a].peer_index
                != #[trigger] rest[b].peer_index by {
                assert(rest[a] == batches[a]);
                assert(rest[b] == batches[b]);
            }
            lemma_messages_of_single_peer(rest, k, bound);
        }
    }
}

proof fn lemma_total_messages_bound(batches: Seq<PeerMessages>, bound: nat)
    requires
        forall|j: int| 0 <= j < batches.len() ==> #[trigger] batches[j].messages@.len() <= bound,
    ensures
        total_messages(batches) <= bound * batches.len(),
    decreases batches.len(),
{
    if batches.len() > 0 {
        let rest = batches.drop_last();
        assert forall|j: int| 0 <= j < rest.len() implies #[trigger] rest[j].messages@.len() <= bound by {
            assert(rest[j] == batches[j]);
        }
        lemma_total_messages_bound(rest, bound);
        assert(batches[batches.len() - 1].messages@.len() <= bound);
        let n = rest.len();
        assert(bound * n + bound == bound * (n + 1)) by (nonlinear_arith);
    }
}

/// The batch bound: when each source is read once (distinct peer numbers) and each read yields at
/// most `bound` messages, polling hands out at most `bound` payloads per peer number and at most
/// `bound` times the number of sources in all.
pub proof fn lemma_poll_batch_bound(batches: Seq<PeerMessages>, max_inner: nat, bound: nat)
    requires
        forall|j: int| 0 <= j < batches.len() ==> #[trigger] batches[j].messages@.len() <= bound,
        forall|a: int, b: int|
            0 <= a < b < batches.len() ==> #[trigger] batches[a].peer_index
                != #[trigger] batches[b].peer_index,
    ensures
        forall|k: usize| #[trigger] count_peer(framed_in_batches(batches, max_inner), k) <= bound,
        framed_in_batches(batches, max_inner).len() <= bound * batches.len(),
{
    assert forall|k: usize| #[trigger] count_peer(framed_in_batches(batches, max_inner), k) <= bound by {
        lemma_payloads_per_peer(batches, max_inner, k);
        lemma_messages_of_single_peer(batches, k, bound);
    }
    lemma_collected_payloads_sound(batches, max_inner);
    lemma_total_messages_bound(batches, bound);
}

/// The sources a session drains carry distinct peer numbers, so each is read once.
pub proof fn lemma_poll_sources_distinct(mp: MultiplayerState)
    requires
        peers_of(mp).len() <= usize::MAX,
    ensures
        forall|a: int, b: int|
            0 <= a < b < spec_poll_sources(mp).len() ==> #[trigger] spec_poll_sources(mp)[a].peer_index
                != #[trigger] spec_poll_sources(mp)[b].peer_index,
{
    if let MultiplayerState::Hosting { peers, .. } = mp {
        lemma_handshaken_indices_len(peers@);
        lemma_handshaken_count_bound(peers@);
    }
}

proof fn lemma_handshaken_count_bound(peers: Seq<PeerSlot>)
    ensures
        handshaken_count(peers) <= peers.len(),
    decreases peers.len(),
{
    if peers.len() > 0 {
        lemma_handshaken_count_bound(peers.drop_last());
    }
}

/// The messages of a batch that are validly framed within `max_inner`.
pub open spec fn is_valid_frame(max_inner: nat) -> spec_fn(Vec<u8>) -> bool {
    |m: Vec<u8>| spec_strip(m@, max_inner) is Some
}

/// Polling is complete: the payloads taken from one connection's messages are exactly its
/// validly framed messages, every one of them, in order, each with its prefix removed and tagged
/// with the source's peer number. None is dropped, however many arrive in one batch.
pub proof fn lemma_framed_in_complete(messages: Seq<Vec<u8>>, peer: usize, max_inner: nat)
    ensures
        framed_in(messages, peer, max_inner) == messages.filter(is_valid_frame(max_inner)).map_values(
            |m: Vec<u8>| (peer, spec_strip(m@, max_inner).unwrap()),
        ),
        framed_in(messages, peer, max_inner).len() == messages.filter(is_valid_frame(max_inner)).len(),
    decreases messages.len(),
{
    reveal_with_fuel(Seq::<_>::filter, 1);
    let f = |m: Vec<u8>| (peer, spec_strip(m@, max_inner).unwrap());
    if messages.len() > 0 {
        lemma_framed_in_complete(messages.drop_last(), peer, max_inner);
        let sub = messages.drop_last().filter(is_valid_frame(max_inner));
        if is_valid_frame(max_inner)(messages.last()) {
            assert(sub.push(messages.last()).map_values(f) =~= sub.map_values(f).push(
                f(messages.last()),
            ));
        }
    } else {
        assert(messages.filter(is_valid_frame(max_inner)).map_values(f) =~= Seq::empty());
    }
}

/// Polling several connections hands out, batch after batch, every validly framed message of
/// each batch: the count of payloads is the count of valid frames over all batches.
pub proof fn lemma_framed_in_batches_complete(batches: Seq<PeerMessages>, max_inner: nat)
    ensures
        framed_in_batches(batches, max_inner).len() == valid_frames(batches, max_inner),
    decreases batches.len(),
{
    if batches.len() > 0 {
        lemma_framed_in_batches_complete(batches.drop_last(), max_inner);
        let b = batches.last();
        lemma_framed_in_complete(b.messages@, b.peer_index, max_inner);
    }
}

/// Number of validly framed messages over all batches.
pub open spec fn valid_frames(batches: Seq<PeerMessages>, max_inner: nat) -> nat
    decreases batches.len(),
{
    if batches.len() == 0 {
        0
    } else {
        valid_frames(batches.drop_last(), max_inner) + batches.last().messages@.filter(
            is_valid_frame(max_inner),
        ).len()
    }
}

/// A tick looks after everything a session waits on: a client with an open connection is probed
/// on every tick, whether or not its handshake is done, so a lost host is always noticed (a probe
/// that shows the loss ends readiness); a host runs its round on every tick; a tick does nothing
/// exactly when the session is idle or in error, and nothing at all without Steam.
pub proof fn lemma_tick_work_covers_session(mp: MultiplayerState, status: ConnectionStatus)
    ensures
        client_connected(mp) ==> spec_tick_work(true, mp) == TickWork::ClientRound,
        client_connected(mp) && connection_lost(status) ==> !client_ready(
            client_next(mp, ClientEvent::Probe(status)),
        ),
        mp is Hosting ==> spec_tick_work(true, mp) == TickWork::HostRound,
        (spec_tick_work(true, mp) == TickWork::Nothing) <==> (mp is Idle || mp is ErrorLine),
        spec_tick_work(false, mp) == TickWork::Nothing,
{
}

/// A client with an open connection to the host.
pub open spec fn client_connected(mp: MultiplayerState) -> bool {
    mp matches MultiplayerState::ClientLobby { connected, .. } && connected
}

} // verus!
