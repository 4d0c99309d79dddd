# rustnfssvc

A user-space NFS server for Windows (NFSv3, NFSv4.0/4.1/4.2, MOUNT, PORTMAP)
whose protocol core is verified with Verus.

## Layout

- `src/` — the verified library. Every request a client can send is decoded,
  checked and answered here, byte for byte, under contracts stated over
  `Seq<u8>` models of the wire format:
  - `xdr`, `rpc` — XDR primitives, ONC-RPC replies, TCP record marking and
    routing of calls on the NFS port;
  - `portmap`, `mount` — the PORTMAP and MOUNT services;
  - `config`, `paths`, `path_ext` — configuration defaults and Windows path
    rules (joining, parents, containment, `\\?\` extended-length paths);
  - `exports` — export options, client networks, and HMAC-signed file
    handles (the key signs every handle; a handle resolves back to the path
    it was issued for);
  - `net` — connection admission: per-address rate limit, the slots of
    the connection cap, datagram and buffer size limits;
  - `service_state` — the Windows-service life cycle: the status reported
    to the service control manager at each step;
  - `tls` — the server's TLS identity from PEM text (the certificate chain,
    and a PKCS#8 or else PKCS#1 RSA key, read with `rustls-pemfile`);
  - `nfs3` — the NFSv3 procedures;
  - `nfs4_compound`, `nfs4_ops`, `nfs4_fs`, `nfs4_attrs`, `nfs4_state`,
    `dirlist` — the NFSv4 COMPOUND walk, the operations, `fattr4`, and the
    client / session / open / lock state.

  Operations that touch the file system come in two halves: a `plan_*`
  function decodes the arguments and says what to do, the caller does the
  file system work, and a `finish_*` function builds the answer from what
  happened.
- `app/` — the program: sockets (tokio, rustls), file system access,
  configuration file parsing (serde, toml), logging (tracing) and the
  Windows service glue. It runs the library's plans and hands back results.
- `tests/` — tests of the library through its public API.

Paths follow Windows rules (`\` and `/` separate components, `C:` drives,
`\\server\share`), as on the platform the server is built for.
