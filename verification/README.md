# game_net

Session layer for Steam lobbies and SteamNetworkingSockets P2P traffic, verified with Verus.

Every framed game datagram is `[ u32 LE inner_len ][ inner_len bytes ]`; an optional 15-byte
header `[ u16 version ][ u8 kind ][ u64 tick ][ u32 payload_len ]` may lead the inner bytes.
Before any framed traffic flows on a connection, the host sends the configured ping as a raw
message and waits for the client's pong.

## Layout

- `src/` — the verified library.
  - `framing.rs`: length prefix framing, with the laws that framing and stripping are inverse.
  - `wire_header.rs`: the 15-byte header, with the parse / build laws.
  - `room_code.rs`: room codes (six ASCII letters or digits), `str::trim` semantics, random codes.
  - `multiplayer.rs`: the session's state machine — lobby creation and search, the ping / pong
    handshake, which connections carry framed traffic, and the laws about them.
  - `session_laws.rs`: laws over runs of session steps — one ping and one pong per connection,
    handshakes lost only through disconnects, a dropped client staying dead, what polling hands out.
  - `report.rs`: the status banner, detail lines and connection panel text.
  - `steam_stub.rs`: the session of a build without Steam.
  - `session.rs`, `payload.rs`, `reliability.rs`: configuration and plain data types.
- `app/` — the Steam-backed `SteamMultiplayer`: it owns the `steamworks` client, lobby callbacks
  and sockets, performs what the session asks for and reports the outcome back.
- `tests/` — tests of the library on concrete values.
