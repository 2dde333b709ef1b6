# ce-protocol-ws

A protocol adapter that carries the link traffic between two nodes over plain WebSocket
connections, so that the nodes reach each other where their mesh does not. Both machines run it;
the applications on the nodes notice nothing.

- The adapter registers with its node as a transport, over the node's lane socket.
- It accepts WebSocket connections, dials them, or both. Each side of a connection first sends
  the thirty-two bytes of its node's identity. Only the peers that `CE_WS_PEERS` names are let in.
- It tells the node which peers are up and which are down. Frames pass through it unread: the
  nodes sign them and check them themselves.

The hello is a claim that nothing proves: who claims the identity of a peer that is let in can
keep frames for that peer from it, or see them, until signatures give the claim away. Frames are
signed, not encrypted; where the network is not trusted, use `wss://`.

## Settings

Settings come from the environment and, where the environment says nothing, from
`<ce data dir>/protocol-ws.env` (`NAME=VALUE` lines, `#` comments).

| Name | Meaning |
|---|---|
| `CE_WS_LISTEN` | accept links here, e.g. `0.0.0.0:4820` |
| `CE_WS_DIAL` | comma-separated URLs to dial, e.g. `ws://relay.example:4820` |
| `CE_WS_PEERS` | comma-separated identities, in hexadecimal, of the peers to let in (required) |
| `CE_TRANSPORT_NAME` | the name to register under (`ce-protocol-ws`) |
| `CE_LANE_SOCK` | the node's lane socket (`<data dir>/lane.sock`) |
| `CE_API_TOKEN` | the node's token (read from `<data dir>/api.token`) |
| `CE_TRANSPORT_CAPS` | a capability chain, in hexadecimal |
| `CE_WS_CONFIG` | another path for the file |

## Layout

`src/` is the library: everything that the adapter decides, written and proved in Verus. Each
function says in its `ensures` what it returns or changes; the `law_` functions state what holds
of the adapter as a whole.

| Module | What it decides |
|---|---|
| `text`, `vars`, `settings` | what the settings are |
| `hex_text`, `node_id` | what an identity is; hexadecimal is read and written by the `hex` crate |
| `conns`, `session` | who is let in, what passes over a connection, what its end leaves behind |
| `links`, `accepting` | when a link is dialed again, what a listener does and what a failing connection leaves alone |
| `messages`, `flow` | what is said to the node, what is heard from it |
| `transport` | what a configuration has the transport serve, from its start to its end |

`app/` is the program around it: the threads, sockets and timers. It needs the `ce_lane` crate of
the node, which encodes and decodes the messages of the lane.

`tests/` runs the library.
