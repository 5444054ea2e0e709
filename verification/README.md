# sovright_p2p_ingress

A node that listens to the Zcash peer-to-peer network, reports what it hears and feeds
blocks into a relay. The library under `src/` holds every decision the node makes, as
Verus code with proved contracts. The code under `app/` holds the sockets, clocks, files
and locks around it.

| module | what it decides |
| --- | --- |
| `crawler`, `crawler_laws` | which peer to dial next, when a peer may be dialled again |
| `session`, `session_laws` | what to do about each message of a peer |
| `peer` | version, ping and inventory handling, what identifies a block or transaction |
| `forward`, `relay_bridge`, `recent` | how a block goes into the relay, and that it goes once |
| `coinbase`, `transaction`, `tx_inventory` | miner script and tag, transaction identities |
| `event` | the event log, one JSON object for each event |
| `wire`, `addr`, `bytes`, `hash`, `text` | formats |
| `config`, `error` | settings and errors |

Time is passed in as nanoseconds on a monotonic clock. Work that needs the outside world
is asked for by an action and answered by an event, so that a session and a forward are
state machines whose next step is a function of plain values.

Public proof functions whose names start with `law_` state what holds over several calls.
