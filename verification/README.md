# rustyrouter

A small NATting router for Linux that runs as the first process of a container
or a virtual machine. What it decides and computes is a library that is verified
with Verus; the program around it does the talking to the kernel and the network.

- `src/` is the library. Each function states in its contract what it returns or
  changes; what holds of several functions together is stated in the proof
  functions whose names begin with `law_`.
  - `addr`, `subnet`, `time`, `text`, `path`: addresses, networks, clock readings,
    text and paths as plain values
  - `config`: the configuration from the environment and the kernel's command line
  - `kmod`, `search`, `xz`, `zst`, `system`: kernel modules and their files, mounts, what
    happens after a panic, the power button
  - `netfilter`, `network`: firewall rules and interfaces
  - `packet`: Ethernet frames with UDP datagrams
  - `services`: DHCP messages, server and client, the DNS cache, the schedule by
    which the clock is set
- `tests/` runs the library, together with the crates that it calls.
- `app/` is the program: system calls, sockets, netlink, the clock and the loops
  of the services.

A function marked `#[verifier::external_body]` is a call into another crate. Its
contract is taken on trust, and its comment says what it claims of that crate.
