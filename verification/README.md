# atlas_sdk

The verified core of the Atlas LAN networking SDK.

- `src/` — the library, verified with Verus:
  - `ip`: IP and socket addresses as plain integers.
  - `subnet`: CIDR arithmetic (through `ipnet`), the scannable host list,
    and the network of the active interface.
  - `text`: words, lines and searching over chars.
  - `arp`: parsing `/proc/net/arp` and `arp -a`, MAC normalisation,
    vendor lookup.
  - `clock`: seconds since the Unix epoch.
  - `registry`: the peer registry discovery keeps.
  - `discovery`: announcements, broadcast targets, and what the listener
    does with an announcement.
  - `identity`: the persistent device ID (through `uuid`).
  - `scanner`: the device model and probing rules.
  - `transport`: messages and the server's reply rule.
- `app/` — the I/O around it: interface detection (`default-net`), the ARP
  file and command, TCP probing (`tokio`, `dns-lookup`), UDP sockets
  (`socket2`, `serde_json`), the transport sockets and the device-ID file.
- `tests/` — tests of the library on concrete values.
