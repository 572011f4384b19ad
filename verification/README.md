# rocketmq

A message broker's core, written in Verus: exchanges and routing, queues
with priorities, delays, length limits and dead-lettering, consumers and
consumer groups, transactions, a write-ahead log and segment streams, the
AMQP 0-9-1 wire format and connection handshake, the broker's native text
protocol, and protobuf schemas that payloads are checked against at
publish time.

- `src/` is the verified library. Each operation states in its contract
  what it does to the broker's state and what it answers; the laws that
  span operations are public proof functions beside them.
- `app/` is the unverified edge: files, sockets, compiling proto sources
  (protox reads them from disk), and the JSON shape of error replies.
- `tests/` runs the library on concrete values.

Calls into outside crates (serde_json, crc32fast, prost-reflect, std's
UTF-8 functions) go through small trusted wrappers whose doc comments say
what is claimed of them.
