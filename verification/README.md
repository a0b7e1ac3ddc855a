# sood

SOOD (Service-Oriented Object Discovery) is the UDP discovery protocol that Roon
uses to find its Core and audio endpoints on the local network. This crate is a
Verus-verified library for it, with an asynchronous client around it.

## Layout

- `src/` — the verified library.
  - `protocol.rs`: the message format (`parse_message`, `serialize_message`,
    `serialize_query`, `serialize_response`) with its wire-level specification and
    the proof that serialized messages read back unchanged.
  - `properties.rs`: the property list of a message (keys unique, insertion order).
    It is a list rather than a `HashMap<String, Option<String>>`: with `String`
    keys, Verus proves nothing about what a `HashMap` holds after an insert, so
    the contracts of parsing and serializing could not be stated over one. The
    list's order is one of the orders a map would iterate in.
  - `address.rs`: IPv4 and socket addresses, and the dotted-quad reader used for
    `_replyaddr`.
  - `text.rs`: UTF-8 decoding, string comparison and the decimal reader used for
    `_replyport`.
  - `transaction.rs`: transaction ids (UUIDs) through the `uuid` crate.
  - `network.rs`: interfaces and broadcast addresses.
  - `registry.rs`, `discovery.rs`: the state of a discovery client — devices found
    (deduplicated), open queries, interfaces in use — and the decision taken on each
    received message.
- `app/` — the client: sockets, tasks and channels (tokio, socket2, if-addrs). It
  hands every packet to the library and carries out what the library decides.
- `tests/` — tests of the library.
