use game_net::framing::prepend_length_prefix;
use game_net::multiplayer::{
    same_peer, ConnectionState, ConnectionStatus, HandshakeStep, ListenEvent, ListenReply,
    MultiplayerSession, MultiplayerState, PeerIdentity, PeerMessages, PollSource, SendTarget,
    TickWork,
};
use game_net::room_code::is_valid_room_code;
use game_net::SteamSessionConfig;

fn cfg() -> SteamSessionConfig {
    SteamSessionConfig {
        app_id: 480,
        handshake_ping: b"MYGAME_PING",
        handshake_pong: b"MYGAME_PONG",
        recv_batch_max: 32,
        max_game_payload_bytes: 64,
        lobby_max_members: 8,
        init_failed_log_prefix: "my_game",
    }
}

fn id(n: u64) -> PeerIdentity {
    PeerIdentity { steam_id: Some(n), debug_name: format!("steamid:{n}") }
}

fn hosting(lobby: u64) -> MultiplayerSession {
    let mut s = MultiplayerSession::new(cfg(), true);
    let req = s.host_lobby().unwrap();
    assert_eq!(req.leave_lobby, None);
    assert_eq!(req.max_members, 8);
    let setup = s.on_lobby_created(Ok(lobby)).unwrap();
    assert_eq!(setup.lobby_id, lobby);
    s.on_listen_socket(true);
    s
}

fn handshake_all(s: &mut MultiplayerSession) {
    let steps = s.begin_host_handshakes();
    for st in steps {
        s.record_host_handshake(st.peer_index, &Some(vec![b"MYGAME_PONG".to_vec()]));
    }
}

fn client(lobby: u64) -> MultiplayerSession {
    let mut s = MultiplayerSession::new(cfg(), true);
    let search = s.join_lobby(" aB3xYz ").unwrap();
    assert_eq!(search.room_code, "aB3xYz");
    assert_eq!(s.on_lobby_list(Ok(Some(lobby))), Some(lobby));
    assert_eq!(s.on_lobby_joined(Ok(lobby)), Some(lobby));
    assert_eq!(s.on_p2p_connect(true), None);
    s
}

#[test]
fn new_session_is_idle() {
    let s = MultiplayerSession::new(cfg(), true);
    assert!(matches!(s.state(), MultiplayerState::Idle));
    assert!(s.steam_available());
    assert_eq!(s.config().app_id, 480);
    assert!(!s.p2p_session_ready());
    assert_eq!(s.handshaken_peer_count(), 0);
    assert_eq!(s.multiplayer_error(), None);
}

#[test]
fn host_without_steam_reports_error() {
    let mut s = MultiplayerSession::new(cfg(), false);
    assert!(s.host_lobby().is_none());
    assert_eq!(s.multiplayer_error(), Some("Steam not available."));
    assert!(s.join_lobby("aB3xYz").is_none());
    assert_eq!(s.multiplayer_error(), Some("Steam not available."));
}

#[test]
fn host_lobby_flow() {
    let mut s = MultiplayerSession::new(cfg(), true);
    let req = s.host_lobby().unwrap();
    assert_eq!(req.max_members, 8);
    assert!(matches!(s.state(), MultiplayerState::PendingCreate { .. }));
    let setup = s.on_lobby_created(Ok(77)).unwrap();
    assert!(is_valid_room_code(&setup.room_code));
    assert!(matches!(s.state(), MultiplayerState::PendingCreate { .. }));
    s.on_listen_socket(true);
    assert_eq!(s.current_lobby(), Some(77));
    assert!(s.overlay_invite_available());
    assert_eq!(s.overlay_invite_lobby(), Some(77));
    assert!(!s.p2p_session_ready());
    assert!(!s.p2p_is_host());
}

#[test]
fn create_lobby_failure_message() {
    let mut s = MultiplayerSession::new(cfg(), true);
    s.host_lobby();
    assert!(s.on_lobby_created(Err("Timeout".to_string())).is_none());
    assert_eq!(s.multiplayer_error(), Some("Create lobby failed: Timeout"));
}

#[test]
fn listen_socket_failure_message() {
    let mut s = MultiplayerSession::new(cfg(), true);
    s.host_lobby();
    s.on_lobby_created(Ok(5));
    s.on_listen_socket(false);
    assert_eq!(s.multiplayer_error(), Some("create_listen_socket_p2p failed."));
}

#[test]
fn events_ignored_in_wrong_phase() {
    let mut s = MultiplayerSession::new(cfg(), true);
    assert_eq!(s.on_lobby_list(Ok(Some(3))), None);
    assert!(s.on_lobby_created(Ok(3)).is_none());
    s.on_listen_socket(true);
    assert_eq!(s.on_lobby_joined(Ok(3)), None);
    assert_eq!(s.on_p2p_connect(true), None);
    assert!(matches!(s.on_listen_event(ListenEvent::Connecting), ListenReply::Ignore));
    assert!(s.begin_host_handshakes().is_empty());
    assert!(matches!(s.state(), MultiplayerState::Idle));
}

#[test]
fn host_accepts_and_tracks_peers() {
    let mut s = hosting(10);
    assert!(matches!(s.on_listen_event(ListenEvent::Connecting), ListenReply::Accept));
    assert!(matches!(s.on_listen_event(ListenEvent::Connected(id(1))), ListenReply::AddConnection));
    assert!(matches!(s.on_listen_event(ListenEvent::Connected(id(2))), ListenReply::AddConnection));
    assert!(matches!(s.on_listen_event(ListenEvent::Connected(id(3))), ListenReply::AddConnection));
    match s.on_listen_event(ListenEvent::Disconnected(id(2))) {
        ListenReply::KeepConnections(keep) => assert_eq!(keep, vec![true, false, true]),
        other => panic!("unexpected reply {other:?}"),
    }
    match s.state() {
        MultiplayerState::Hosting { peers, lobby_id } => {
            assert_eq!(*lobby_id, 10);
            let ids: Vec<Option<u64>> = peers.iter().map(|p| p.remote.steam_id).collect();
            assert_eq!(ids, vec![Some(1), Some(3)]);
        }
        other => panic!("unexpected state {other:?}"),
    }
}

#[test]
fn same_peer_rules() {
    assert!(same_peer(&id(4), &id(4)));
    assert!(!same_peer(&id(4), &id(5)));
    let a = PeerIdentity { steam_id: None, debug_name: "ip:1.2.3.4".to_string() };
    let b = PeerIdentity { steam_id: None, debug_name: "ip:1.2.3.4".to_string() };
    let c = PeerIdentity { steam_id: None, debug_name: String::new() };
    assert!(same_peer(&a, &b));
    assert!(!same_peer(&c, &c));
    let d = PeerIdentity { steam_id: Some(4), debug_name: "ip:1.2.3.4".to_string() };
    assert!(same_peer(&d, &a));
}

#[test]
fn host_handshake_pings_once_then_waits_for_pong() {
    let mut s = hosting(10);
    s.on_listen_event(ListenEvent::Connected(id(1)));
    s.on_listen_event(ListenEvent::Connected(id(2)));
    let steps = s.begin_host_handshakes();
    assert_eq!(
        steps,
        vec![
            HandshakeStep { peer_index: 0, send_ping: true },
            HandshakeStep { peer_index: 1, send_ping: true }
        ]
    );
    s.record_host_handshake(0, &Some(vec![b"other".to_vec()]));
    s.record_host_handshake(1, &None);
    assert_eq!(s.handshaken_peer_count(), 0);
    let steps = s.begin_host_handshakes();
    assert_eq!(
        steps,
        vec![
            HandshakeStep { peer_index: 0, send_ping: false },
            HandshakeStep { peer_index: 1, send_ping: false }
        ]
    );
    s.record_host_handshake(1, &Some(vec![b"x".to_vec(), b"MYGAME_PONG".to_vec()]));
    assert_eq!(s.handshaken_peer_count(), 1);
    assert!(s.p2p_session_ready());
    assert!(s.p2p_is_host());
    let steps = s.begin_host_handshakes();
    assert_eq!(steps, vec![HandshakeStep { peer_index: 0, send_ping: false }]);
}

#[test]
fn host_ping_is_not_a_pong() {
    let mut s = hosting(10);
    s.on_listen_event(ListenEvent::Connected(id(1)));
    s.begin_host_handshakes();
    s.record_host_handshake(0, &Some(vec![b"MYGAME_PING".to_vec(), b"MYGAME_PON".to_vec()]));
    assert_eq!(s.handshaken_peer_count(), 0);
    s.record_host_handshake(7, &Some(vec![b"MYGAME_PONG".to_vec()]));
    assert_eq!(s.handshaken_peer_count(), 0);
}

#[test]
fn host_send_goes_to_handshaken_peers() {
    let mut s = hosting(10);
    s.on_listen_event(ListenEvent::Connected(id(1)));
    assert!(s.plan_framed_send(b"data").is_none());
    s.on_listen_event(ListenEvent::Connected(id(2)));
    s.on_listen_event(ListenEvent::Connected(id(3)));
    s.begin_host_handshakes();
    s.record_host_handshake(0, &Some(vec![b"MYGAME_PONG".to_vec()]));
    s.record_host_handshake(2, &Some(vec![b"MYGAME_PONG".to_vec()]));
    let plan = s.plan_framed_send(b"data").unwrap();
    assert_eq!(plan.frame, vec![4, 0, 0, 0, b'd', b'a', b't', b'a']);
    match plan.target {
        SendTarget::Peers(t) => assert_eq!(t, vec![0, 2]),
        SendTarget::Host => panic!("host target while hosting"),
    }
    assert_eq!(
        s.poll_sources(),
        vec![PollSource { connection: 0, peer_index: 0 }, PollSource { connection: 2, peer_index: 1 }]
    );
    assert!(s.plan_framed_send(&[0u8; 65]).is_none());
    assert!(s.plan_framed_send(&[0u8; 64]).is_some());
}

#[test]
fn collect_drops_bad_frames_and_keeps_order() {
    let s = hosting(10);
    let good_a = prepend_length_prefix(b"aa", 64).unwrap();
    let good_b = prepend_length_prefix(b"b", 64).unwrap();
    let too_big = prepend_length_prefix(&[1u8; 65], 100).unwrap();
    let batches = vec![
        PeerMessages { peer_index: 2, messages: vec![good_a.clone(), vec![1, 2, 3], good_b.clone()] },
        PeerMessages { peer_index: 0, messages: vec![too_big, good_b.clone()] },
    ];
    let out = s.collect_framed_payloads(&batches);
    let got: Vec<(usize, Vec<u8>)> = out.into_iter().map(|p| (p.peer_index, p.bytes)).collect();
    assert_eq!(got, vec![(2, b"aa".to_vec()), (2, b"b".to_vec()), (0, b"b".to_vec())]);
}

#[test]
fn host_peer_disconnect_removes_it_from_traffic() {
    let mut s = hosting(10);
    s.on_listen_event(ListenEvent::Connected(id(1)));
    s.on_listen_event(ListenEvent::Connected(id(2)));
    handshake_all(&mut s);
    assert_eq!(s.handshaken_peer_count(), 2);
    s.on_listen_event(ListenEvent::Disconnected(id(1)));
    assert_eq!(s.handshaken_peer_count(), 1);
    assert_eq!(s.poll_sources(), vec![PollSource { connection: 0, peer_index: 0 }]);
    s.on_listen_event(ListenEvent::Disconnected(id(2)));
    assert!(!s.p2p_session_ready());
    assert!(s.plan_framed_send(b"x").is_none());
}

#[test]
fn join_rejects_invalid_code() {
    let mut s = MultiplayerSession::new(cfg(), true);
    assert!(s.join_lobby("abc").is_none());
    assert_eq!(s.multiplayer_error(), Some("Enter the 6-character room code (a-z, A-Z, 0-9)."));
    assert!(s.join_lobby("aB3x!z").is_none());
    let req = s.join_lobby("\taB3xYz\n").unwrap();
    assert_eq!(req.room_code, "aB3xYz");
    assert_eq!(req.leave_lobby, None);
    assert_eq!(s.multiplayer_error(), None);
}

#[test]
fn join_lobby_list_outcomes() {
    let mut s = MultiplayerSession::new(cfg(), true);
    s.join_lobby("aB3xYz");
    assert_eq!(s.on_lobby_list(Ok(None)), None);
    assert_eq!(s.multiplayer_error(), Some("No lobby found with that room code."));
    s.join_lobby("aB3xYz");
    assert_eq!(s.on_lobby_list(Err(())), None);
    assert_eq!(s.multiplayer_error(), Some("Could not search lobbies (Steam)."));
    s.join_lobby("aB3xYz");
    assert_eq!(s.on_lobby_list(Ok(Some(9))), Some(9));
    assert_eq!(s.on_lobby_joined(Err(())), None);
    assert_eq!(s.multiplayer_error(), Some("Could not join that lobby."));
}

#[test]
fn connect_failure_leaves_lobby() {
    let mut s = MultiplayerSession::new(cfg(), true);
    s.join_lobby("aB3xYz");
    s.on_lobby_list(Ok(Some(9)));
    s.on_lobby_joined(Ok(9));
    assert_eq!(s.on_p2p_connect(false), Some(9));
    assert_eq!(s.multiplayer_error(), Some("connect_p2p failed."));
}

#[test]
fn client_handshake_and_traffic() {
    let mut s = client(9);
    assert_eq!(s.current_lobby(), Some(9));
    assert!(s.client_awaiting_ping());
    assert!(!s.p2p_session_ready());
    assert!(s.plan_framed_send(b"hi").is_none());
    assert!(!s.record_client_handshake(&Some(vec![b"MYGAME_PONG".to_vec()])));
    assert!(!s.record_client_handshake(&None));
    assert!(s.record_client_handshake(&Some(vec![b"junk".to_vec(), b"MYGAME_PING".to_vec()])));
    assert!(!s.client_awaiting_ping());
    assert!(s.p2p_session_ready());
    assert!(!s.p2p_is_host());
    assert_eq!(s.handshaken_peer_count(), 1);
    let plan = s.plan_framed_send(b"hi").unwrap();
    assert_eq!(plan.frame, vec![2, 0, 0, 0, b'h', b'i']);
    assert!(matches!(plan.target, SendTarget::Host));
    assert_eq!(s.poll_sources(), vec![PollSource { connection: 0, peer_index: 0 }]);
    assert!(!s.record_client_handshake(&Some(vec![b"MYGAME_PING".to_vec()])));
}

#[test]
fn client_connection_loss() {
    let mut s = client(9);
    s.record_client_handshake(&Some(vec![b"MYGAME_PING".to_vec()]));
    assert!(!s.check_client_connection(ConnectionStatus::State(ConnectionState::Connected)));
    assert!(!s.check_client_connection(ConnectionStatus::StateUnreadable));
    assert!(s.p2p_session_ready());
    assert!(s.check_client_connection(ConnectionStatus::State(ConnectionState::ClosedByPeer)));
    assert!(!s.p2p_session_ready());
    assert_eq!(s.handshaken_peer_count(), 0);
    assert!(s.poll_sources().is_empty());
    assert!(!s.client_awaiting_ping());
    match s.state() {
        MultiplayerState::ClientLobby { lobby_id, connected, handshake_done, p2p_session_dead } => {
            assert_eq!((*lobby_id, *connected, *handshake_done, *p2p_session_dead), (9, false, false, true));
        }
        other => panic!("unexpected state {other:?}"),
    }
    assert!(!s.check_client_connection(ConnectionStatus::InfoUnavailable));
}

#[test]
fn client_connection_loss_by_each_status() {
    for status in [
        ConnectionStatus::InfoUnavailable,
        ConnectionStatus::State(ConnectionState::NoConnection),
        ConnectionStatus::State(ConnectionState::ProblemDetectedLocally),
    ] {
        let mut s = client(9);
        assert!(s.check_client_connection(status));
    }
    for status in [
        ConnectionStatus::State(ConnectionState::Connecting),
        ConnectionStatus::State(ConnectionState::FindingRoute),
    ] {
        let mut s = client(9);
        assert!(!s.check_client_connection(status));
    }
}

#[test]
fn leave_returns_lobby_and_goes_idle() {
    let mut s = client(9);
    assert_eq!(s.leave_multiplayer(), Some(9));
    assert!(matches!(s.state(), MultiplayerState::Idle));
    assert_eq!(s.leave_multiplayer(), None);
    let mut h = hosting(4);
    let req = h.join_lobby("aB3xYz").unwrap();
    assert_eq!(req.leave_lobby, Some(4));
}

#[test]
fn host_again_leaves_previous_lobby() {
    let mut s = hosting(4);
    let req = s.host_lobby().unwrap();
    assert_eq!(req.leave_lobby, Some(4));
}

#[test]
fn error_cleared_by_next_request() {
    let mut s = MultiplayerSession::new(cfg(), true);
    s.join_lobby("bad");
    assert!(s.multiplayer_error().is_some());
    s.host_lobby();
    assert_eq!(s.multiplayer_error(), None);
}

#[test]
fn generated_code_is_accepted_by_join() {
    let mut host = MultiplayerSession::new(cfg(), true);
    host.host_lobby();
    let setup = host.on_lobby_created(Ok(1)).unwrap();
    let mut joiner = MultiplayerSession::new(cfg(), true);
    let search = joiner.join_lobby(&setup.room_code).unwrap();
    assert_eq!(search.room_code, setup.room_code);
}

#[test]
fn framed_payload_sent_by_client_reaches_host() {
    let mut c = client(9);
    c.record_client_handshake(&Some(vec![b"MYGAME_PING".to_vec()]));
    let plan = c.plan_framed_send(b"state").unwrap();
    let mut h = hosting(9);
    h.on_listen_event(ListenEvent::Connected(id(1)));
    handshake_all(&mut h);
    let src = h.poll_sources();
    let batches = vec![PeerMessages { peer_index: src[0].peer_index, messages: vec![plan.frame] }];
    let out = h.collect_framed_payloads(&batches);
    assert_eq!(out.len(), 1);
    assert_eq!(out[0].peer_index, 0);
    assert_eq!(out[0].bytes, b"state".to_vec());
}

#[test]
fn host_payloads_numbered_among_handshaken_peers() {
    let mut s = hosting(10);
    s.on_listen_event(ListenEvent::Connected(id(1)));
    s.on_listen_event(ListenEvent::Connected(id(2)));
    s.begin_host_handshakes();
    s.record_host_handshake(1, &Some(vec![b"MYGAME_PONG".to_vec()]));
    let src = s.poll_sources();
    assert_eq!(src, vec![PollSource { connection: 1, peer_index: 0 }]);
    let frame = prepend_length_prefix(b"x", 64).unwrap();
    let out = s.collect_framed_payloads(&vec![PeerMessages { peer_index: src[0].peer_index, messages: vec![frame] }]);
    assert_eq!(out[0].peer_index, 0);
}

#[test]
fn tick_work_follows_phase() {
    let mut s = MultiplayerSession::new(cfg(), true);
    assert_eq!(s.tick_work(), TickWork::Nothing);
    s.join_lobby("aB3xYz");
    assert_eq!(s.tick_work(), TickWork::AwaitLobbySearch);
    s.on_lobby_list(Ok(Some(2)));
    assert_eq!(s.tick_work(), TickWork::AwaitLobbyJoin);
    s.on_lobby_joined(Ok(2));
    s.on_p2p_connect(true);
    assert_eq!(s.tick_work(), TickWork::ClientRound);
    s.host_lobby();
    assert_eq!(s.tick_work(), TickWork::AwaitLobbyCreation);
    s.on_lobby_created(Ok(3));
    s.on_listen_socket(true);
    assert_eq!(s.tick_work(), TickWork::HostRound);
    s.leave_multiplayer();
    assert_eq!(s.tick_work(), TickWork::Nothing);
    let mut off = MultiplayerSession::new(cfg(), false);
    off.host_lobby();
    assert_eq!(off.tick_work(), TickWork::Nothing);
}

#[test]
fn ping_requested_once_per_connection_over_many_rounds() {
    let mut s = hosting(10);
    let mut pings = 0;
    for round in 0..5u64 {
        if round < 3 {
            s.on_listen_event(ListenEvent::Connected(id(round)));
        }
        pings += s.begin_host_handshakes().iter().filter(|st| st.send_ping).count();
    }
    assert_eq!(pings, 3);
}

#[test]
fn client_pongs_once_and_dead_client_stays_dead() {
    let mut s = client(9);
    let ping = Some(vec![b"MYGAME_PING".to_vec()]);
    let pongs = (0..4).filter(|_| s.record_client_handshake(&ping)).count();
    assert_eq!(pongs, 1);
    assert!(s.check_client_connection(ConnectionStatus::InfoUnavailable));
    for _ in 0..3 {
        assert!(!s.record_client_handshake(&ping));
        assert!(!s.check_client_connection(ConnectionStatus::InfoUnavailable));
        assert!(!s.p2p_session_ready());
        assert_eq!(s.handshaken_peer_count(), 0);
    }
}

#[test]
fn send_plan_exists_iff_ready_and_within_limit() {
    let mut s = client(9);
    assert!(s.plan_framed_send(b"a").is_none());
    s.record_client_handshake(&Some(vec![b"MYGAME_PING".to_vec()]));
    assert!(s.plan_framed_send(&[0u8; 64]).is_some());
    assert!(s.plan_framed_send(&[0u8; 65]).is_none());
}

#[test]
fn creation_and_join_answers_apply_to_their_lobby() {
    let mut s = MultiplayerSession::new(cfg(), true);
    s.host_lobby();
    s.on_listen_socket(true);
    assert!(matches!(s.state(), MultiplayerState::PendingCreate { created: None }));
    s.on_lobby_created(Ok(41));
    assert!(s.on_lobby_created(Ok(42)).is_none());
    s.on_listen_socket(true);
    assert_eq!(s.current_lobby(), Some(41));

    let mut c = MultiplayerSession::new(cfg(), true);
    c.join_lobby("aB3xYz");
    c.on_lobby_list(Ok(Some(7)));
    assert_eq!(c.on_p2p_connect(true), None);
    assert!(matches!(c.state(), MultiplayerState::PendingJoin { joined: None }));
    c.on_lobby_joined(Ok(7));
    assert_eq!(c.on_lobby_joined(Ok(8)), None);
    c.on_p2p_connect(true);
    assert_eq!(c.current_lobby(), Some(7));
}

#[test]
fn new_connection_is_pinged_in_the_round_that_follows() {
    let mut s = hosting(10);
    s.on_listen_event(ListenEvent::Connected(id(1)));
    s.begin_host_handshakes();
    s.on_listen_event(ListenEvent::Connected(id(2)));
    let steps = s.begin_host_handshakes();
    assert_eq!(steps.last(), Some(&HandshakeStep { peer_index: 1, send_ping: true }));
    assert_eq!(steps.iter().filter(|st| st.send_ping).count(), 1);
}

#[test]
fn poll_batches_bounded_per_peer() {
    let s = hosting(10);
    let f = prepend_length_prefix(b"z", 64).unwrap();
    let batches = vec![
        PeerMessages { peer_index: 0, messages: vec![f.clone(), f.clone()] },
        PeerMessages { peer_index: 1, messages: vec![f.clone()] },
    ];
    let out = s.collect_framed_payloads(&batches);
    assert_eq!(out.iter().filter(|p| p.peer_index == 0).count(), 2);
    assert_eq!(out.len(), 3);
}
