# detguest

The guest side and the host side of a deterministic-execution channel:
a 2 MiB shared page holding four single-producer/single-consumer byte
rings, a region manifest under a seqlock, and a small port-I/O protocol,
plus the in-guest PID 1 agent that owns the page.

The library (`src/`) is verified with Verus. Every function states its
result in `ensures` over mathematical models (`Seq`, `Map`, `int`), and
the properties that span several functions are public proof functions.

- `wire`: the byte formats shared by both sides: record headers, events
  and commands with their round trips, the channel header, the region
  manifest and its seqlock, the region IPC datagrams, the port protocol,
  and the ring index arithmetic with the guest-side producer and consumer
  (a pushed record pops back whole).
- `host`: the hypervisor's view over guest memory: attaching, pushing
  commands, draining events, reporting every memory mutation for replay,
  the fault-injection plan, manifest reads and capture hand-off.
- `agent`: the in-guest agent's decisions: the boot manifest and its
  TOML-subset parser, the control leg of the reference workload, the
  region ledger and manifest writer, the READY condition, the quiesce
  relay onto ring I, workload log framing, pagemap decoding, and the
  pv-blk device read with its stream checksum.
- `sdk`: the workload SDK's deterministic parts: region publication
  checks, beacon counters, the stats region layout, the pv-pad latch, and
  the channel attach checks.
- `text`: character-level helpers the messages are built with.

`app/` is the agent program around the library: mounts, the hugetlbfs
mapping, port instructions, sockets, fork/exec, epoll and files.
`tests/` runs the library on concrete values.
