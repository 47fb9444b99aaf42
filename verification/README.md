# audioipc

The verified core of an inter-process audio RPC transport over Unix sockets.

- `src/` is the library, checked by Verus: the framing of outgoing messages
  (`frame`, `fd_passing`), the decoder state of the receiving side, the
  received descriptor store and the parsing and building of the control
  messages that pass descriptors, in the layout of the platform's `cmsghdr`
  (`cmsg`), the RPC driver and the first-in first-out queue of responses in
  flight (`rpc`), the connect future and the meaning of
  nonblocking call results (`uds`), and the names the server starts with
  (`context_params`). Byte buffers come from the `bytes` crate (`buf`).
- `app/` is the I/O around it: sockets on the tokio reactor, `sendmsg` and
  `recvmsg`, the platform's control message layout read off `libc`, the `Stream`, `Sink` and `Future` faces, and the C entry points
  of the server.
- `tests/` runs the library on concrete values.
