//! Verified core of an inter-process audio RPC transport: the framing of
//! outgoing messages, the decoder state machine of the receiving side, the
//! RPC driver and the in-flight response queue of the server.

pub mod buf;
pub mod rpc;
pub mod frame;
pub mod fd_passing;
pub mod uds;
pub mod context_params;
pub mod cmsg;
