//! The text a session shows: the status banner, the multiplayer detail lines and the connection
//! panel. Lobby facts that only Steam knows (metadata, members, names) come in a [`LobbySnapshot`].
use crate::multiplayer::{
    handshaken_count, lobby_of, peers_of, spec_handshaken_peer_count, MultiplayerSession,
    MultiplayerState, PeerSlot,
};
use crate::room_code::{is_room_code, is_valid_room_code};
use crate::session::SteamSessionConfig;
use vstd::prelude::*;

verus! {

/// The character of decimal digit `d` (`d < 10`).
pub open spec fn digit_char(d: nat) -> char {
    seq!['0', '1', '2', '3', '4', '5', '6', '7', '8', '9'][d as int]
}

/// The decimal representation of `n`, without leading zeros.
pub open spec fn decimal(n: nat) -> Seq<char>
    decreases n,
{
    if n < 10 {
        seq![digit_char(n)]
    } else {
        decimal(n / 10).push(digit_char(n % 10))
    }
}

/// The one-character string of decimal digit `d`.
fn digit_str(d: u64) -> (s: &'static str)
    requires
        d < 10,
    ensures
        s@ == seq![digit_char(d as nat)],
{
    proof {
        reveal_strlit("0");
        reveal_strlit("1");
        reveal_strlit("2");
        reveal_strlit("3");
        reveal_strlit("4");
        reveal_strlit("5");
        reveal_strlit("6");
        reveal_strlit("7");
        reveal_strlit("8");
        reveal_strlit("9");
    }
    if d == 0 {
        "0"
    } else if d == 1 {
        "1"
    } else if d == 2 {
        "2"
    } else if d == 3 {
        "3"
    } else if d == 4 {
        "4"
    } else if d == 5 {
        "5"
    } else if d == 6 {
        "6"
    } else if d == 7 {
        "7"
    } else if d == 8 {
        "8"
    } else {
        "9"
    }
}

/// The decimal representation of `n`, as `u64`'s `Display` writes it.
fn decimal_string(n: u64) -> (s: String)
    ensures
        s@ == decimal(n as nat),
    decreases n,
{
    if n < 10 {
        String::from_str(digit_str(n))
    } else {
        let mut s = decimal_string(n / 10);
        s.append(digit_str(n % 10));
        s
    }
}

/// A lobby member: Steam id and persona name.
#[derive(Debug)]
pub struct LobbyMember {
    pub steam_id: u64,
    pub name: String,
}

/// What Steam reports about the current lobby.
#[derive(Debug)]
pub struct LobbySnapshot {
    /// The lobby's room-code metadata, if set.
    pub room_code_data: Option<String>,
    /// The member count Steam reports.
    pub member_count: usize,
    /// Steam id of the lobby owner.
    pub owner_steam_id: u64,
    /// The members, in Steam's order.
    pub members: Vec<LobbyMember>,
    /// Steam id of the local user.
    pub self_steam_id: u64,
}

/// "Room code: <code>" when the metadata holds a valid room code, else the loading line.
pub open spec fn room_code_line(data: Option<String>) -> Seq<char> {
    if data is Some && is_room_code(data->0@) {
        "Room code: "@ + data->0@
    } else {
        "Room code: (loading…)"@
    }
}

/// "  • <name> (<steam id>)".
pub open spec fn member_line(m: LobbyMember) -> Seq<char> {
    "  • "@ + m.name@ + " ("@ + decimal(m.steam_id as nat) + ")"@
}

/// The lines about a lobby: room code, member count, owner, then one line per member.
pub open spec fn lobby_common_lines(lobby: LobbySnapshot) -> Seq<Seq<char>> {
    seq![
        room_code_line(lobby.room_code_data),
        "Members: "@ + decimal(lobby.member_count as nat),
        "Lobby owner SteamID64: "@ + decimal(lobby.owner_steam_id as nat),
    ] + Seq::new(lobby.members@.len(), |i: int| member_line(lobby.members@[i]))
}

/// The P2P line of a host with `peers`.
pub open spec fn host_p2p_line(peers: Seq<PeerSlot>) -> Seq<char> {
    if peers.len() == 0 {
        "P2P: waiting for peer / handshake…"@
    } else {
        "P2P: "@ + decimal(handshaken_count(peers)) + "/"@ + decimal(peers.len())
            + " peer(s) handshook (SteamNetworkingSockets)."@
    }
}

/// The P2P line of a client.
pub open spec fn client_p2p_line(handshake_done: bool) -> Seq<char> {
    if handshake_done {
        "P2P: handshake OK (SteamNetworkingSockets)."@
    } else {
        "P2P: connecting…"@
    }
}

/// The multiplayer detail lines: nothing without Steam; for a lobby its common lines and the P2P
/// line; a progress line while a creation, search or join is in flight; nothing otherwise.
pub open spec fn detail_lines(has_steam: bool, mp: MultiplayerState, lobby: LobbySnapshot) -> Seq<
    Seq<char>,
> {
    if !has_steam {
        Seq::empty()
    } else {
        match mp {
            MultiplayerState::Hosting { peers, .. } => lobby_common_lines(lobby).push(
                host_p2p_line(peers@),
            ),
            MultiplayerState::ClientLobby { handshake_done, .. } => lobby_common_lines(lobby).push(
                client_p2p_line(handshake_done),
            ),
            MultiplayerState::PendingCreate { .. } => seq!["Creating lobby…"@],
            MultiplayerState::PendingLobbyList => seq!["Looking up room code…"@],
            MultiplayerState::PendingJoin { .. } => seq!["Joining lobby…"@],
            _ => Seq::empty(),
        }
    }
}

/// Number of members other than the local user.
pub open spec fn others_count(members: Seq<LobbyMember>, self_id: u64) -> nat
    decreases members.len(),
{
    if members.len() == 0 {
        0
    } else {
        others_count(members.drop_last(), self_id) + if members.last().steam_id == self_id {
            0nat
        } else {
            1nat
        }
    }
}

/// One line per member: "You: <name>" for the local user, "Peer <k>: <name>" for the k-th other
/// member.
pub open spec fn member_tag_lines(members: Seq<LobbyMember>, self_id: u64) -> Seq<Seq<char>>
    decreases members.len(),
{
    if members.len() == 0 {
        Seq::empty()
    } else {
        let last = members.last();
        member_tag_lines(members.drop_last(), self_id).push(
            if last.steam_id == self_id {
                "You: "@ + last.name@
            } else {
                "Peer "@ + decimal(others_count(members, self_id)) + ": "@ + last.name@
            },
        )
    }
}

/// The connection panel: "Steam offline." without Steam; the member lines (or "No lobby members
/// listed.") in a lobby; "Not in a Steam lobby." otherwise.
pub open spec fn panel_lines(has_steam: bool, mp: MultiplayerState, lobby: LobbySnapshot) -> Seq<
    Seq<char>,
> {
    if !has_steam {
        seq!["Steam offline."@]
    } else if lobby_of(mp) is Some {
        if lobby.members@.len() == 0 {
            seq!["No lobby members listed."@]
        } else {
            member_tag_lines(lobby.members@, lobby.self_steam_id)
        }
    } else {
        seq!["Not in a Steam lobby."@]
    }
}

/// The lines, as character sequences.
pub open spec fn texts(lines: Seq<String>) -> Seq<Seq<char>> {
    lines.map_values(|s: String| s@)
}

/// `a` followed by `b`.
fn concat(a: &str, b: &str) -> (s: String)
    ensures
        s@ == a@ + b@,
{
    let mut s = String::from_str(a);
    s.append(b);
    s
}

/// The lines about a lobby (room code, member count, owner, members).
pub fn lobby_common_lines_text(lobby: &LobbySnapshot) -> (lines: Vec<String>)
    ensures
        texts(lines@) == lobby_common_lines(*lobby),
{
    let mut lines: Vec<String> = Vec::new();
    let room = match &lobby.room_code_data {
        Some(c) => if is_valid_room_code(c.as_str()) {
            concat("Room code: ", c.as_str())
        } else {
            String::from_str("Room code: (loading…)")
        },
        None => String::from_str("Room code: (loading…)"),
    };
    lines.push(room);
    lines.push(concat("Members: ", decimal_string(lobby.member_count as u64).as_str()));
    lines.push(
        concat("Lobby owner SteamID64: ", decimal_string(lobby.owner_steam_id).as_str()),
    );
    let ghost head = lines@;
    let mut i: usize = 0;
    while i < lobby.members.len()
        invariant
            i <= lobby.members@.len(),
            lines@.len() == 3 + i,
            texts(head) == seq![
                room_code_line(lobby.room_code_data),
                "Members: "@ + decimal(lobby.member_count as nat),
                "Lobby owner SteamID64: "@ + decimal(lobby.owner_steam_id as nat),
            ],
            forall|j: int| 0 <= j < 3 ==> #[trigger] lines@[j] == head[j],
            forall|j: int| 0 <= j < i ==> (#[trigger] lines@[3 + j])@ == member_line(lobby.members@[j]),
        decreases lobby.members@.len() - i,
    {
        let m = &lobby.members[i];
        let mut line = concat("  • ", m.name.as_str());
        line.append(" (");
        line.append(decimal_string(m.steam_id).as_str());
        line.append(")");
        lines.push(line);
        i = i + 1;
    }
    proof {
        let spec_lines = lobby_common_lines(*lobby);
        assert forall|j: int| 0 <= j < lines@.len() implies texts(lines@)[j] == spec_lines[j] by {
            if j < 3 {
                assert(texts(head)[j] == head[j]@);
            } else {
                assert(lines@[3 + (j - 3)]@ == member_line(lobby.members@[j - 3]));
            }
        }
        assert(texts(lines@) =~= spec_lines);
    }
    lines
}

impl MultiplayerSession {
    /// The status banner: offline without Steam, else "Steam: signed in as <persona_name>".
    pub fn status_banner(&self, persona_name: &str) -> (banner: String)
        ensures
            !self.has_steam() ==> banner@ == "Steam: offline (API not initialized)."@,
            self.has_steam() ==> banner@ == "Steam: signed in as "@ + persona_name@,
    {
        if self.steam_available() {
            concat("Steam: signed in as ", persona_name)
        } else {
            String::from_str("Steam: offline (API not initialized).")
        }
    }

    /// The multiplayer detail lines; `lobby` describes the current lobby and is read only while
    /// the session is in one.
    pub fn multiplayer_detail_lines(&self, lobby: &LobbySnapshot) -> (lines: Vec<String>)
        ensures
            texts(lines@) == detail_lines(self.has_steam(), self.phase(), *lobby),
    {
        if !self.steam_available() {
            let v: Vec<String> = Vec::new();
            assert(texts(v@) =~= Seq::<Seq<char>>::empty());
            return v;
        }
        match self.state() {
            MultiplayerState::Hosting { peers, .. } => {
                let mut lines = lobby_common_lines_text(lobby);
                let total = peers.len();
                let ready = self.handshaken_peer_count();
                let line = if total == 0 {
                    String::from_str("P2P: waiting for peer / handshake…")
                } else {
                    let mut l = concat("P2P: ", decimal_string(ready as u64).as_str());
                    l.append("/");
                    l.append(decimal_string(total as u64).as_str());
                    l.append(" peer(s) handshook (SteamNetworkingSockets).");
                    l
                };
                let ghost before = lines@;
                lines.push(line);
                assert(texts(lines@) =~= texts(before).push(host_p2p_line(peers@)));
                lines
            },
            MultiplayerState::ClientLobby { handshake_done, .. } => {
                let mut lines = lobby_common_lines_text(lobby);
                let line = if *handshake_done {
                    String::from_str("P2P: handshake OK (SteamNetworkingSockets).")
                } else {
                    String::from_str("P2P: connecting…")
                };
                let ghost before = lines@;
                lines.push(line);
                assert(texts(lines@) =~= texts(before).push(client_p2p_line(*handshake_done)));
                lines
            },
            MultiplayerState::PendingCreate { .. } => {
                let v = vec![String::from_str("Creating lobby…")];
                assert(texts(v@) =~= seq!["Creating lobby…"@]);
                v
            },
            MultiplayerState::PendingLobbyList => {
                let v = vec![String::from_str("Looking up room code…")];
                assert(texts(v@) =~= seq!["Looking up room code…"@]);
                v
            },
            MultiplayerState::PendingJoin { .. } => {
                let v = vec![String::from_str("Joining lobby…")];
                assert(texts(v@) =~= seq!["Joining lobby…"@]);
                v
            },
            _ => {
                let v: Vec<String> = Vec::new();
                assert(texts(v@) =~= Seq::<Seq<char>>::empty());
                v
            },
        }
    }

    /// The connection panel lines; `lobby` describes the current lobby and is read only while the
    /// session is in one.
    pub fn connection_panel_lines(&self, lobby: &LobbySnapshot) -> (lines: Vec<String>)
        ensures
            texts(lines@) == panel_lines(self.has_steam(), self.phase(), *lobby),
    {
        if !self.steam_available() {
            let v = vec![String::from_str("Steam offline.")];
            assert(texts(v@) =~= seq!["Steam offline."@]);
            return v;
        }
        if self.current_lobby().is_none() {
            let v = vec![String::from_str("Not in a Steam lobby.")];
            assert(texts(v@) =~= seq!["Not in a Steam lobby."@]);
            return v;
        }
        let self_id = lobby.self_steam_id;
        let mut lines: Vec<String> = Vec::new();
        let mut peer_idx: u64 = 0;
        let mut i: usize = 0;
        while i < lobby.members.len()
            invariant
                i <= lobby.members@.len(),
                self_id == lobby.self_steam_id,
                peer_idx as nat == others_count(lobby.members@.take(i as int), self_id),
                peer_idx <= i,
                texts(lines@) == member_tag_lines(lobby.members@.take(i as int), self_id),
            decreases lobby.members@.len() - i,
        {
            proof {
                assert(lobby.members@.take(i + 1).drop_last() =~= lobby.members@.take(i as int));
            }
            let m = &lobby.members[i];
            let line = if m.steam_id == self_id {
                concat("You: ", m.name.as_str())
            } else {
                peer_idx = peer_idx + 1;
                let mut l = concat("Peer ", decimal_string(peer_idx).as_str());
                l.append(": ");
                l.append(m.name.as_str());
                l
            };
            let ghost before = lines@;
            lines.push(line);
            assert(texts(lines@) =~= texts(before).push(line@));
            i = i + 1;
        }
        proof {
            assert(lobby.members@.take(lobby.members@.len() as int) =~= lobby.members@);
        }
        if lines.len() == 0 {
            let v = vec![String::from_str("No lobby members listed.")];
            assert(texts(v@) =~= seq!["No lobby members listed."@]);
            return v;
        }
        lines
    }
}

impl SteamSessionConfig {
    /// The log line for a failed Steam client initialization:
    /// "<init_failed_log_prefix>: Steam API init failed (offline mode): <error>".
    pub fn init_failed_line(&self, error_text: &str) -> (line: String)
        ensures
            line@ == self.init_failed_log_prefix@ + ": Steam API init failed (offline mode): "@
                + error_text@,
    {
        let mut line = concat(self.init_failed_log_prefix, ": Steam API init failed (offline mode): ");
        line.append(error_text);
        line
    }
}

/// The peers whose handshake is done.
pub open spec fn is_handshaken() -> spec_fn(PeerSlot) -> bool {
    |p: PeerSlot| p.handshake_done
}

proof fn lemma_handshaken_count_is_filter(peers: Seq<PeerSlot>)
    ensures
        handshaken_count(peers) == peers.filter(is_handshaken()).len(),
    decreases peers.len(),
{
    reveal_with_fuel(Seq::<_>::filter, 1);
    if peers.len() > 0 {
        lemma_handshaken_count_is_filter(peers.drop_last());
    }
}

/// The host's detail lines end with its handshake progress: the number of its peers whose
/// handshake is done (the count `handshaken_peer_count` reports) out of all its peers; there is
/// one line per lobby member after the three lobby lines.
pub proof fn lemma_host_progress_line(mp: MultiplayerState, lobby: LobbySnapshot)
    requires
        mp is Hosting,
        peers_of(mp).len() > 0,
    ensures
        peers_of(mp).filter(is_handshaken()).len() == spec_handshaken_peer_count(mp),
        detail_lines(true, mp, lobby).len() == 4 + lobby.members@.len(),
        detail_lines(true, mp, lobby).last() == "P2P: "@ + decimal(
            peers_of(mp).filter(is_handshaken()).len(),
        ) + "/"@ + decimal(peers_of(mp).len()) + " peer(s) handshook (SteamNetworkingSockets)."@,
{
    lemma_handshaken_count_is_filter(peers_of(mp));
}

/// The members other than the local user.
pub open spec fn is_other_member(self_id: u64) -> spec_fn(LobbyMember) -> bool {
    |m: LobbyMember| m.steam_id != self_id
}

proof fn lemma_others_count_is_filter(members: Seq<LobbyMember>, self_id: u64)
    ensures
        others_count(members, self_id) == members.filter(is_other_member(self_id)).len(),
    decreases members.len(),
{
    reveal_with_fuel(Seq::<_>::filter, 1);
    if members.len() > 0 {
        lemma_others_count_is_filter(members.drop_last(), self_id);
    }
}

proof fn lemma_member_tag_lines(members: Seq<LobbyMember>, self_id: u64)
    ensures
        member_tag_lines(members, self_id).len() == members.len(),
        forall|i: int|
            0 <= i < members.len() ==> #[trigger] member_tag_lines(members, self_id)[i] == if members[i].steam_id
                == self_id {
                "You: "@ + members[i].name@
            } else {
                "Peer "@ + decimal(members.take(i + 1).filter(is_other_member(self_id)).len()) + ": "@
                    + members[i].name@
            },
    decreases members.len(),
{
    if members.len() > 0 {
        let rest = members.drop_last();
        lemma_member_tag_lines(rest, self_id);
        let lines = member_tag_lines(members, self_id);
        assert forall|i: int| 0 <= i < members.len() implies #[trigger] lines[i] == if members[i].steam_id
            == self_id {
            "You: "@ + members[i].name@
        } else {
            "Peer "@ + decimal(members.take(i + 1).filter(is_other_member(self_id)).len()) + ": "@
                + members[i].name@
        } by {
            if i < members.len() - 1 {
                assert(lines[i] == member_tag_lines(rest, self_id)[i]);
                assert(rest[i] == members[i]);
                assert(rest.take(i + 1) =~= members.take(i + 1));
            } else {
                assert(members.take(i + 1) =~= members);
                lemma_others_count_is_filter(members, self_id);
            }
        }
    }
}

/// In a lobby with members the connection panel has exactly one line per member, in order: the
/// local user's line is "You: <name>", and the k-th other member's is "Peer <k>: <name>"; the
/// "No lobby members listed." line appears only when the member list is empty.
pub proof fn lemma_panel_one_line_per_member(mp: MultiplayerState, lobby: LobbySnapshot)
    requires
        lobby_of(mp) is Some,
    ensures
        lobby.members@.len() > 0 ==> panel_lines(true, mp, lobby).len() == lobby.members@.len(),
        lobby.members@.len() > 0 ==> forall|i: int|
            0 <= i < lobby.members@.len() ==> #[trigger] panel_lines(true, mp, lobby)[i] == if lobby.members@[i].steam_id
                == lobby.self_steam_id {
                "You: "@ + lobby.members@[i].name@
            } else {
                "Peer "@ + decimal(
                    lobby.members@.take(i + 1).filter(is_other_member(lobby.self_steam_id)).len(),
                ) + ": "@ + lobby.members@[i].name@
            },
        lobby.members@.len() == 0 ==> panel_lines(true, mp, lobby) == seq![
            "No lobby members listed."@,
        ],
{
    lemma_member_tag_lines(lobby.members@, lobby.self_steam_id);
}

/// The value of a string of decimal digits.
pub open spec fn digits_value(s: Seq<char>) -> int
    decreases s.len(),
{
    if s.len() == 0 {
        0
    } else {
        10 * digits_value(s.drop_last()) + (s.last() as int - '0' as int)
    }
}

proof fn lemma_digit_chars()
    ensures
        forall|d: nat|
            d < 10 ==> '0' <= #[trigger] digit_char(d) <= '9' && digit_char(d) as int - '0' as int
                == d,
{
    assert forall|d: nat| d < 10 implies '0' <= #[trigger] digit_char(d) <= '9' && digit_char(d) as int
        - '0' as int == d by {
        if d == 0 {
        } else if d == 1 {
        } else if d == 2 {
        } else if d == 3 {
        } else if d == 4 {
        } else if d == 5 {
        } else if d == 6 {
        } else if d == 7 {
        } else if d == 8 {
        } else {
        }
    }
}

/// The decimal text of `n` is a string of digits `0-9`, without a leading zero unless it is
/// "0", whose value is `n`.
pub proof fn lemma_decimal_digits(n: nat)
    ensures
        decimal(n).len() > 0,
        forall|i: int| 0 <= i < decimal(n).len() ==> '0' <= #[trigger] decimal(n)[i] <= '9',
        decimal(n)[0] == '0' ==> n == 0,
        digits_value(decimal(n)) == n,
    decreases n,
{
    lemma_digit_chars();
    if n < 10 {
        assert(decimal(n).drop_last() =~= Seq::<char>::empty());
        assert(digit_char(n) as int - '0' as int == n);
        assert(digits_value(decimal(n)) == 10 * digits_value(Seq::<char>::empty()) + (
        digit_char(n) as int - '0' as int));
    } else {
        lemma_decimal_digits(n / 10);
        let d = decimal(n);
        assert(d.drop_last() =~= decimal(n / 10));
        let r = (n % 10) as nat;
        assert(digit_char(r) as int - '0' as int == r);
        assert(d.last() == digit_char(r));
        assert(digits_value(d) == 10 * digits_value(decimal(n / 10)) + r);
        assert(10 * (n / 10) + n % 10 == n);
        assert(d.drop_last() =~= decimal(n / 10));
        assert(d[0] == decimal(n / 10)[0]);
        assert forall|i: int| 0 <= i < d.len() implies '0' <= #[trigger] d[i] <= '9' by {
            if i < d.len() - 1 {
                assert(d[i] == decimal(n / 10)[i]);
            }
        }
    }
}

} // verus!
