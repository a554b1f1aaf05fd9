# psfsp

The Pretty Simple File Sharing Protocol, with its logic verified by Verus.

- `src/protocol.rs`: the message bytes and buffer sizes.
- `src/wire.rs`: the layout of every packet, the encoders and decoders both
  ends use, and the laws that each decoder reads back what its encoder wrote.
- `src/text.rs`, `src/digest.rs`: reading received bytes as text, and the
  BLAKE3 content hash both ends compare after a download.
- `src/index.rs`: the set of shared files.
- `src/identity.rs`: the server's TLS identity, read from PEM files or newly
  made self-signed.
- `src/session.rs`: the server's session as a state machine (login, listing,
  download in hashed one-megabyte chunks with retries), with its laws:
  nothing is served before a correct login, only shared files are read, a
  listing names every shared file with its size, a download offers the file
  and then sends its chunks, which make up the file, and the file's hash.
- `src/client.rs`: the client's decisions (menu, login replies, listing
  entries, chunk checks and download progress, the final hash check).
- `app/`: the two programs (`server SHARED_DIRECTORY USERNAME PASSWORD`,
  `client IP DOWNLOAD_DIRECTORY`): TLS, sockets, files, the terminal, and the
  display of sizes.
