# minecraft_motd

Server List Ping answers and login messages for Minecraft Java Edition
servers that are not running, for the Calagopus panel: a panel extension
decides what each server's state is, and a node agent intercepts connections
to servers that are not running, answers them and asks the panel to start a
server when a player logs in.

The library under `src/` holds the decisions of both parts, verified with
Verus; the panel routes' database work and the agent's sockets, commands and
HTTP calls stand around it:

- `text` — character-sequence helpers (trimming, searching, replacing,
  decimal parsing) with their specifications.
- `agent::protocol` — VarInt, string and handshake encoding and decoding,
  packet framing; round-trip laws.
- `agent::presentation` — colour codes, placeholders, line swapping,
  where a gradient places its colour codes, the status document and the
  login message.
- `agent::config` — configuration rules and environment overrides.
- `agent::address` — the text forms of IPv4 and IPv6 addresses.
- `agent::firewall` — the set of redirected allocations, backend choice and
  the nftables and iptables rule sets.
- `agent::session` — the agent's decisions: which allocations to redirect,
  how stale snapshots are presented, and what to do with a connection.
- `backend::state` — the fixed priority of server states.
- `backend::settings` — extension settings, their defaults and validation.
- `backend::auth` — token hashing and the bearer header.
- `backend::routes` — what the snapshot and wake routes decide, the wake
  gates in the route's order.

Two collections are held differently from a map or an ordered set: the
presentation settings per state are a vector of key and value pairs whose
keys are unique (`keys_unique`, which the defaults ensure and the key lookups
rely on), and the redirected allocations are `AllocationSet`, a vector kept
strictly sorted by a type invariant, so that equal sets have one layout.

`app/` is the agent program around the library: command line, configuration
file, HTTP calls to the panel, sockets, running `nft` and `iptables`, and the
gradient's colour blending, which is done in single-precision floating point.
