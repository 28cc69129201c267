# autobahn

A decentralized publish-subscribe server for websocket clients. Servers find
each other on the local network with mDNS, connect to one another, and relay
each publish to the servers whose clients hold its topic.

## Layout

- `src/` is the library, verified with Verus:
  - `message.rs`, `message/wire.rs`: the server's messages and their
    protobuf wire format, with proofs that encoding reads back.
  - `server.rs`, `server/`: the registry of topics and subscribers, the
    registry of peer servers, and the decision taken on each message; a
    handler changes the server's state and returns the sends to perform.
  - `util.rs`, `util/`: addresses, decimal text, lists of names, typed bytes.
  - `discovery.rs`: the local address, and what an mDNS announcement holds.
  - `config.rs`, `router.rs`, `websocket.rs`: settings, routing by kind.
- `app/` is the program around it: sockets, timers, mDNS, the configuration
  file, and the loops that perform the sends the library decides on.
- `tests/` runs the library on concrete values.
