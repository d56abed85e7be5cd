# p2p_node

A peer-to-peer node for a small distributed system in which nodes talk through
message queues (Amazon SQS), verified with Verus.

- `src/` is the verified library:
  - `algorithms/gossip.rs`: peer discovery by gossip, with time-to-live aging;
  - `algorithms/heartbeat.rs`: PING/PONG liveness detection (ALIVE, SUSPECT,
    DEAD);
  - `algorithms/choking.rs`: BitTorrent-style choking rounds;
  - `algorithms/reputation.rs`: per-peer evidence and trust ranking;
  - `algorithms/election.rs`: leader election (terms, candidates, the
    COORDINATOR rule), given which nodes outrank which;
  - `algorithms/content.rs`, `hashcash.rs`: data types;
  - `protocol.rs`: the messages nodes exchange;
  - `node.rs`: the node itself, whose handlers and periodic tasks return the
    actions (sends, queue URLs to remember) that the transport carries out;
  - `text.rs`: building the text of log lines.
- `app/` is the program around it: the SQS transport, the JSON form of the
  messages, console logging, the main loop and its timers, and the
  floating-point trust scores, vote weights and reputation comparisons.
- `tests/` exercises the library.
