use game_net::{NetSendReliability, SteamMultiplayer, SteamSessionConfig};

fn cfg() -> SteamSessionConfig {
    SteamSessionConfig {
        app_id: 480,
        handshake_ping: b"PING",
        handshake_pong: b"PONG",
        recv_batch_max: 16,
        max_game_payload_bytes: 8,
        lobby_max_members: 4,
        init_failed_log_prefix: "my_game",
    }
}

#[test]
fn stub_session_is_inert() {
    let mut s = SteamMultiplayer::new(cfg());
    s.run_callbacks();
    s.tick_multiplayer();
    let hint = "game_net: built without `steam` feature; enable `steam` or default features on the depending crate.";
    assert_eq!(s.host_lobby(), hint);
    assert_eq!(s.join_lobby("aB3xYz"), hint);
    s.leave_multiplayer();
    s.open_overlay_invite();
    assert!(!s.overlay_invite_available());
    assert_eq!(s.status_banner(), "Steam: disabled in this build (`steam` feature off).");
    assert!(s.multiplayer_detail_lines().is_empty());
    assert!(s.connection_panel_lines().is_empty());
    assert_eq!(s.multiplayer_error(), None);
    assert_eq!(s.handshaken_peer_count(), 0);
    assert!(!s.p2p_session_ready());
    assert!(!s.p2p_is_host());
}

#[test]
fn stub_sends_fail_and_polls_empty() {
    let mut s = SteamMultiplayer::new(cfg());
    assert_eq!(s.try_send_framed_payload(b"abc"), Err(()));
    assert_eq!(s.try_send_framed_payload(&[0u8; 9]), Err(()));
    assert_eq!(s.try_send_framed_payload_reliability(b"abc", NetSendReliability::Unreliable), Err(()));
    assert!(s.poll_framed_payloads().is_empty());
}

#[test]
fn reliability_values() {
    assert_ne!(NetSendReliability::Reliable, NetSendReliability::Unreliable);
    let r = NetSendReliability::Unreliable;
    let copy = r;
    assert_eq!(r, copy);
}
