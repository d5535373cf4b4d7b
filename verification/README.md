# switchyard

The core of a message broker for queues, topics, subscriptions and sessions, with
its AMQP 1.0 engine and its shared-access authorization. The library is written
in Verus: every function states what it returns or changes, and that is proved.

## Layout

| Path | What it holds |
| --- | --- |
| `src/domain` | Identifiers, commands, stored records and keys, and the state machine that applies commands to a store |
| `src/storage.rs` | The contract of a store, and a store in memory |
| `src/amqp` | Values, frames and messages; sessions, links and credit; the serving and the requesting end of a connection, as steps from state and event to state and actions |
| `src/auth` | Permissions, resource scopes, shared-access rules and tokens |
| `src/cluster.rs`, `src/admin.rs` | The shape of a cluster, and what administration defines |
| `src/bytes.rs`, `src/text.rs`, `src/uri.rs` | Octets, text and URIs |
| `tests` | Tests on concrete values |
| `app` | Connections over asynchronous streams, which carry out what the engine decides; errors in words; forms for configuration |

## What is proved

Contracts speak of mathematical views of the data. Beside them, public proof
functions state what holds across calls:

- `domain::machine::lifecycle`: what becomes of a message from the moment it is
  sent, and who may settle it.
- `domain::machine::history`: refused commands and reads change nothing, the
  clock never goes back, and a snapshot stands for the commands before it.
- `domain::machine::refusals`: only a command from the past is told so.
- `domain::machine::orderly`, `places` and `numbering`: what holds of a store at
  any time. Every message stands in the index of its state, every entry of an
  index leads to its message, and no number stands for two messages.
- `domain::machine::progress`: what is ready is handed out, what was sent is what
  is received, and what is overdue is dealt with.
- `domain::machine::isolation`: a command changes nothing outside its namespace,
  and no entity gives out a number or a lock token again.
- `domain::order` and `storage`: keys sort as the state machine needs them to,
  and a walk that stops can be resumed.
- `domain::codec` and `domain::message`: what is stored is read back.
- `amqp::encoding`, `amqp::message` and `amqp::frame`: what is written is read
  back, and `amqp::shape`: an encoded value tells its own length.
- `amqp::laws`: credit, reservations and drains; the order of deliveries; what a
  detach answers; how handshakes end.
- `auth`: what scopes, rules and tokens allow.

What the library takes from other crates stands behind small wrappers, whose
contracts are believed: base64, HMAC-SHA-256, percent decoding, URI parsing, the
AMQP value encoding, the variable-length integers of stored records, and the
reading of UTF-8.
