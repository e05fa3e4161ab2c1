# mapscan-route

Reads the routing table of macOS and Windows: read-only, synchronous, and
verified with [Verus](https://github.com/verus-lang/verus).

- `src/` is the verified library. It makes no system call.
  - `addr`, `bytes`, `route`: addresses, little-endian fields, route entries and
    parse errors.
  - `sockaddr`: macOS socket addresses and netmasks.
  - `parse`: the parser for a `NET_RT_DUMP` buffer, `parse_route_messages`.
  - `fetch`: what to do after each `sysctl` call, as the table may outgrow its
    buffer between two of them.
  - `names`: interface names in UTF-8 and UTF-16.
  - `forward_table`: rows of the Windows forwarding table.
  - `laws`: what holds of the library as a whole.
- `app/` makes the system calls: `list_routes` on macOS and Windows, and what
  prints its routes. It also converts addresses to those of `std::net`.
- `tests/` runs the library on concrete values.

## Robustness

No input makes the parser panic. An entry with addresses that cannot be used is
skipped, or loses its gateway, and leaves the other entries alone. An error of
the framing fails the table: a message of another version, or a header or a
message that is cut short.

## Trust

Verus takes four things on trust: the values of `AF_INET` and `AF_INET6` in
`windows-sys`, and what `String::from_utf8` and `String::from_utf16_lossy` do.
