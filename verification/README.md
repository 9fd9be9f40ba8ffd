# rtipc

Message queues in memory that two processes share, without locks and without copies, verified
with Verus.

- `src/` is the library. `attr`, `host` and `shm` lay out shared memory; `queue` is a queue with one
  producer and one consumer; `channel` and `group` put queues and events together; `protocol`,
  `header` and `handshake` hand a group over to the other end.
- `queue_spec` says what each call does with the values it sees in shared memory. `interleaving`
  cuts the calls into single atomic accesses, `consistency` says what holds between any two of
  them, and `queue_laws`, `call_laws`, `whole_call_laws` and `content_laws` what follows: the ends
  never have the same slot, messages come out in order and as they were written, and a push that
  discards takes the oldest message. `event_laws` says that the event of a channel counts its
  unread messages. `group_laws` and `protocol_laws` are about groups and requests.
- `tests/` runs the library.
- `app/` is the part that talks to the system: it maps memory, makes events and sends messages
  over Unix sockets.
