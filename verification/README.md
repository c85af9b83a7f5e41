# min_mq

A minimal message-queue node. Nodes find each other by UDP broadcast,
ping each other until every peer has acknowledged, then exchange their
subscriptions. Timers publish a topic message at a fixed interval.

`src/` is the library, verified with Verus:

- `lexical`: byte-wise lexicographic order, the order of `str`.
- `timer`: a timer and the total order in which due timers are served.
- `timer_queue`: a priority queue of timers.
- `scheduler`: the timer thread's decisions: fire the timer due first, or
  sleep until it is due.
- `message`: the messages nodes exchange, as plain values.
- `dynamic_discovery`: discovery endpoints, the announcement, and the
  address message an announcement becomes.
- `names`: lists of names and the sets they stand for.
- `address_map`: known peers, their addresses and connection flags.
- `node`: a node's state and its decision on every received message.

`app/` is the runtime: nng sockets, UDP discovery, threads, the clock, and
the flatbuffers encoding of messages through the tables generated into
`mq_message_base`.
