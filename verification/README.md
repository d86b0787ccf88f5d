# cfc_daemon

The decisions of the Colony Firewall daemon, written in Rust and verified with
Verus: which rule decides a flow, what becomes of each packet, who may call the
control socket, what goes into the kernel's maps, and how the kernel-side layer
comes up and degrades.

`src/` is the library. It does no I/O: it takes what was read and says what is to
be done. Times are passed in, as Unix milliseconds or as nanoseconds on a clock
that does not go back.

| module | what it decides |
| --- | --- |
| `model` | rules, scopes, flows and processes, and when a rule matches |
| `decision` | precedence, process-wide answers, hit counts |
| `config` | profiles, defaults and explicit values |
| `dns`, `dns_wire` | names for addresses, how far each is trusted, and the responses that carry them |
| `packet`, `nfqueue` | the packet pipeline, the waiting packets, the receive loop |
| `prompts` | the prompts that are out |
| `proto`, `convert` | the control protocol, in both directions |
| `ipc` | authorization, prompt ownership, pausing, the event log |
| `ebpf` | the report of the kernel-side layer |
| `ebpf::loader` | vetting, loading and attaching |
| `ebpf::enforce` | refusals, grants, pins and counters |
| `ebpf::nft_set` | the mark in the nftables set |
| `ebpf::btf`, `tracefs`, `cgroup`, `proc_table` | what the kernel says of itself and of processes |
| `run` | the main loop |
| `stats`, `storage`, `text`, `collections` | what the others share |
| `outside` | the calls into other crates, each with its contract |

Public proof functions state what holds across several functions; their doc
comments say it in words.

`app/` is the daemon around the library: arguments, sockets, `/proc`, the packet
queue, the BPF object and the `nft` child. `tests/` runs the library.
