# proxy_protocol

Proxy Protocol (v1 text and v2 binary) headers: parsing, building, TLV
extensions (ALPN, authority, CRC32c, unique ID, SSL metadata, network
namespace, AWS/Azure/GCP vendor TLVs), connection policies, and the decisions
a listener takes while it accepts connections. The library is written in
Verus: every function in `src/` carries a contract that Verus proves, except
the few trusted wrappers (marked `#[verifier::external_body]`) that call
outside code: `crc32c` and `crc32c_append` in `src/crc.rs` (the `crc32c`
crate), `ipnet_contains` in `src/policy.rs` (the `ipnet` crate), and
`str_from_utf8`, `utf8_lossy` and `debug_string` in `src/text.rs` (std). Their
contracts are believed, not proved; each one's doc comment says what it claims.

Layout:

- `src/parse/` reads headers from bytes (`parse`, v1, v2, TLVs);
  `src/builder.rs` writes them (`HeaderBuilder`).
- `src/laws.rs` proves what holds across the two: a built header parses back
  to what was built (v1 and v2, with TLVs, SSL metadata and checksum), a
  changed checksum is refused, TLVs read back in order with the last of each
  type winning, and more; `src/framing.rs` proves that every strict prefix of
  a header asks for more bytes and that bytes after a header are never read.
- `src/iptext.rs` and `src/textfacts.rs` read and write IP addresses and ports
  as text, and prove that what is written reads back.
- `src/policy.rs` holds the connection policies and IP networks (membership
  is decided by the `ipnet` crate); `src/connection.rs` the listener's
  decisions; `src/vendor.rs` the vendor TLVs.
- `app/` is the Tokio listener, the accepted stream, the configuration and the
  axum integration around the library.
