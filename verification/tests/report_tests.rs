use game_net::multiplayer::{ListenEvent, MultiplayerSession, PeerIdentity};
use game_net::report::{LobbyMember, LobbySnapshot};
use game_net::SteamSessionConfig;

fn cfg() -> SteamSessionConfig {
    SteamSessionConfig {
        app_id: 480,
        handshake_ping: b"PING",
        handshake_pong: b"PONG",
        recv_batch_max: 16,
        max_game_payload_bytes: 1024,
        lobby_max_members: 4,
        init_failed_log_prefix: "my_game",
    }
}

fn snapshot() -> LobbySnapshot {
    LobbySnapshot {
        room_code_data: Some("aB3xYz".to_string()),
        member_count: 12,
        owner_steam_id: 76561198000000001,
        members: vec![
            LobbyMember { steam_id: 76561198000000001, name: "Ann".to_string() },
            LobbyMember { steam_id: 76561198000000002, name: "Bob".to_string() },
            LobbyMember { steam_id: 5, name: "Cy".to_string() },
        ],
        self_steam_id: 76561198000000002,
    }
}

fn empty_snapshot() -> LobbySnapshot {
    LobbySnapshot { room_code_data: None, member_count: 0, owner_steam_id: 0, members: vec![], self_steam_id: 0 }
}

#[test]
fn banner_texts() {
    let on = MultiplayerSession::new(cfg(), true);
    assert_eq!(on.status_banner("Ann"), "Steam: signed in as Ann");
    let off = MultiplayerSession::new(cfg(), false);
    assert_eq!(off.status_banner("Ann"), "Steam: offline (API not initialized).");
}

#[test]
fn init_failed_line_text() {
    assert_eq!(
        cfg().init_failed_line("no steam"),
        "my_game: Steam API init failed (offline mode): no steam"
    );
}

#[test]
fn detail_lines_pending_phases() {
    let mut s = MultiplayerSession::new(cfg(), true);
    assert!(s.multiplayer_detail_lines(&empty_snapshot()).is_empty());
    s.host_lobby();
    assert_eq!(s.multiplayer_detail_lines(&empty_snapshot()), vec!["Creating lobby…".to_string()]);
    let mut j = MultiplayerSession::new(cfg(), true);
    j.join_lobby("aB3xYz");
    assert_eq!(j.multiplayer_detail_lines(&empty_snapshot()), vec!["Looking up room code…".to_string()]);
    j.on_lobby_list(Ok(Some(3)));
    assert_eq!(j.multiplayer_detail_lines(&empty_snapshot()), vec!["Joining lobby…".to_string()]);
    j.on_lobby_joined(Ok(3));
    j.on_p2p_connect(true);
    let lines = j.multiplayer_detail_lines(&snapshot());
    assert_eq!(lines.last().unwrap(), "P2P: connecting…");
    j.record_client_handshake(&Some(vec![b"PING".to_vec()]));
    let lines = j.multiplayer_detail_lines(&snapshot());
    assert_eq!(lines.last().unwrap(), "P2P: handshake OK (SteamNetworkingSockets).");
}

#[test]
fn detail_lines_without_steam() {
    let s = MultiplayerSession::new(cfg(), false);
    assert!(s.multiplayer_detail_lines(&snapshot()).is_empty());
}

#[test]
fn detail_lines_hosting() {
    let mut s = MultiplayerSession::new(cfg(), true);
    s.host_lobby();
    s.on_lobby_created(Ok(1));
    s.on_listen_socket(true);
    let lines = s.multiplayer_detail_lines(&snapshot());
    assert_eq!(
        lines,
        vec![
            "Room code: aB3xYz".to_string(),
            "Members: 12".to_string(),
            "Lobby owner SteamID64: 76561198000000001".to_string(),
            "  • Ann (76561198000000001)".to_string(),
            "  • Bob (76561198000000002)".to_string(),
            "  • Cy (5)".to_string(),
            "P2P: waiting for peer / handshake…".to_string(),
        ]
    );
    for n in 1..=3u64 {
        s.on_listen_event(ListenEvent::Connected(PeerIdentity { steam_id: Some(n), debug_name: String::new() }));
    }
    s.begin_host_handshakes();
    s.record_host_handshake(1, &Some(vec![b"PONG".to_vec()]));
    let lines = s.multiplayer_detail_lines(&snapshot());
    assert_eq!(lines.last().unwrap(), "P2P: 1/3 peer(s) handshook (SteamNetworkingSockets).");
}

#[test]
fn detail_room_code_loading() {
    let mut s = MultiplayerSession::new(cfg(), true);
    s.host_lobby();
    s.on_lobby_created(Ok(1));
    s.on_listen_socket(true);
    let mut snap = snapshot();
    snap.room_code_data = Some("bad".to_string());
    assert_eq!(s.multiplayer_detail_lines(&snap)[0], "Room code: (loading…)");
    snap.room_code_data = None;
    assert_eq!(s.multiplayer_detail_lines(&snap)[0], "Room code: (loading…)");
    snap.member_count = 0;
    assert_eq!(s.multiplayer_detail_lines(&snap)[1], "Members: 0");
}

#[test]
fn panel_lines() {
    let off = MultiplayerSession::new(cfg(), false);
    assert_eq!(off.connection_panel_lines(&snapshot()), vec!["Steam offline.".to_string()]);
    let mut s = MultiplayerSession::new(cfg(), true);
    assert_eq!(s.connection_panel_lines(&snapshot()), vec!["Not in a Steam lobby.".to_string()]);
    s.host_lobby();
    s.on_lobby_created(Ok(1));
    s.on_listen_socket(true);
    assert_eq!(
        s.connection_panel_lines(&snapshot()),
        vec!["Peer 1: Ann".to_string(), "You: Bob".to_string(), "Peer 2: Cy".to_string()]
    );
    assert_eq!(
        s.connection_panel_lines(&empty_snapshot()),
        vec!["No lobby members listed.".to_string()]
    );
}

#[test]
fn decimal_numbers_in_lines() {
    let mut s = MultiplayerSession::new(cfg(), true);
    s.host_lobby();
    s.on_lobby_created(Ok(1));
    s.on_listen_socket(true);
    let mut snap = snapshot();
    snap.owner_steam_id = u64::MAX;
    snap.member_count = 10;
    let lines = s.multiplayer_detail_lines(&snap);
    assert_eq!(lines[1], "Members: 10");
    assert_eq!(lines[2], "Lobby owner SteamID64: 18446744073709551615");
}
