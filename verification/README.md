# microps

A small IPv4 network protocol stack — Ethernet, ARP, IPv4, ICMP, UDP and
TCP, with the device, interface, route and socket bookkeeping around them —
written in Verus. Every function of the library states its behaviour in
`requires` / `ensures` and is proved against it.

## Layout

- `src/` — the verified library.
  - `device/`, `driver/` — devices, their state and backends (dummy and
    loopback), the registry and the queue of received frames. A backend
    keeps a record of the calls it answered, with its answers; the device
    and registry contracts are stated over those records.
  - `interface/` — IPv4 interfaces and their registry.
  - `protocol/` — wire formats (parsing and building, with round-trip
    lemmas), ARP cache and resolution, IPv4 input/output and routing, ICMP,
    UDP and TCP (control blocks, the segment state machine, retransmission,
    registries) and sockets.
  - `stack.rs` — the state of the whole stack and the handling of received
    frames.
  - `slots.rs` — the slot map that the registries keep their entries in,
    specified over the numbers of its keys.
- `app/` — what runs around the library: platform traits (locks, interrupt
  lines, console output), the error types with their messages, and a
  runtime that keeps the stack behind a lock and turns the library's
  non-blocking steps into blocking socket calls.
- `tests/` — tests of the library on concrete values.

The stack never blocks: an operation that would wait (accept, connect,
receive) reports that nothing is ready yet, and the caller waits for input
or the timer and tries again.
