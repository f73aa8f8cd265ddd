//! Forwards the control and SSH sockets of a GnuPG agent to clients that reach
//! it over loop-back TCP (authenticated by a descriptor file) or over the
//! shared-memory window-message convention of Pageant.
//!
//! The library holds the logic: descriptor parsing, the per-connection
//! decisions of the stream bridge, the byte pump, and the framing and slot
//! accounting of the shared-memory bridge. Sockets, files, processes and
//! system calls are driven by the caller.

pub mod descriptor;
pub mod error;
pub mod ipc;
pub mod listen;
pub mod stream;
pub mod text;

pub use crate::descriptor::{load_port_nounce, DescriptorError, SocketDescriptor};
pub use crate::error::{other_error, report_data_err, BridgeError, ErrorKind};
pub use crate::ipc::{find_available_token, release_token, Handler, SlotPool};

use vstd::prelude::*;

verus! {

/// The two sockets of the agent that can be bridged.
#[derive(Clone, Copy, Debug, PartialEq, Eq, Structural)]
pub enum SocketType {
    Ssh,
    Extra,
}

impl SocketType {
    /// The keyword under which the agent's directory query reports this socket.
    pub open spec fn spec_name(self) -> Seq<char> {
        match self {
            SocketType::Ssh => "agent-ssh-socket"@,
            SocketType::Extra => "agent-extra-socket"@,
        }
    }

    pub fn name(&self) -> (r: &'static str)
        ensures
            r@ == self.spec_name(),
    {
        match self {
            SocketType::Ssh => "agent-ssh-socket",
            SocketType::Extra => "agent-extra-socket",
        }
    }
}

} // verus!
