# lnx

Linux VMs that wake up with their memory, disk and system state intact. Between commands
no VM runs: when an instance goes idle, its owner takes a snapshot and exits, and the next
command restores from it.

This project is a Verus library with the rules of that program, and a thin shell around it.

- `src/` decides. Who owns an instance, which snapshot may be restored, in which order a
  snapshot is made and published, how the broker counts its clients, what each message
  means, how an instance is pushed as blocks and put together again: each of these is a
  function with a contract, proved by Verus. Properties that span several functions are
  public proof functions beside them.
- `app/` acts. It reads and writes files and sockets, runs the hypervisor and the HTTP
  server, and asks the library at every step what to do next. Its `Host` trait is what it
  needs from the hypervisor and from the parts of the program that manage checkpoints,
  descriptors and ingress.
- `tests/` runs the library on concrete values.

## Modules

| Module | What it holds |
| --- | --- |
| `run`, `start`, `config`, `settings` | how a command gets its VM, and what the VM is started with |
| `broker`, `protocol`, `session`, `terminal` | clients, channels, messages |
| `locks`, `instances`, `outcome` | who owns an instance, and how it ends |
| `snapshots`, `capture`, `publish`, `launch`, `stamps` | what a snapshot is, how it is made, when it fits |
| `deterministic`, `trace`, `logs` | runs that repeat, and what is recorded |
| `cas`, `bundle`, `push`, `imports`, `digest`, `compress`, `sparse` | moving instances between hosts |
| `forwards`, `network`, `vmnet`, `shares` | ports, networks, shared directories |
| `names`, `paths`, `text`, `bytes` | the words that the others are written in |

What the library has from elsewhere, SHA-256, zstd, JSON and URLs, it calls through small
functions whose contracts name the result; each says so in its comment.
