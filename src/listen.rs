//! Decisions made once per listener: which transport an address names,
//! which bridge a socket type uses, and the path that the agent's directory
//! query printed.
use crate::text::{all_spaces, is_space, space_run};
use crate::SocketType;
use vstd::prelude::*;

verus! {

/// `\\.\pipe\`, the prefix of a local named-pipe address.
pub open spec fn pipe_prefix() -> Seq<u8> {
    seq![92u8, 92, 46, 92, 112, 105, 112, 101, 92]
}

pub open spec fn names_pipe(addr: Seq<u8>) -> bool {
    addr.len() >= 9 && addr.subrange(0, 9) == pipe_prefix()
}

/// Whether a listen address names a local named pipe; any other address is
/// taken as a TCP address.
pub fn is_named_pipe_addr(addr: &[u8]) -> (r: bool)
    ensures
        r == names_pipe(addr@),
{
    if addr.len() < 9 {
        return false;
    }
    let r = addr[0] == 92 && addr[1] == 92 && addr[2] == 46 && addr[3] == 92 && addr[4] == 112
        && addr[5] == 105 && addr[6] == 112 && addr[7] == 101 && addr[8] == 92;
    assert(r ==> addr@.subrange(0, 9) =~= pipe_prefix());
    assert(addr@.subrange(0, 9) == pipe_prefix() ==> r) by {
        if addr@.subrange(0, 9) == pipe_prefix() {
            assert(addr@.subrange(0, 9)[8] == 92);
            assert(addr@.subrange(0, 9)[7] == 101);
        }
    }
    r
}

/// How a socket type is forwarded.
#[derive(Clone, Copy, Debug, PartialEq, Eq, Structural)]
pub enum BridgeKind {
    /// Over loop-back TCP, authenticated by the descriptor's nonce.
    Stream,
    /// Over shared memory and a window message.
    Message,
}

pub open spec fn kind_of(ty: SocketType) -> BridgeKind {
    match ty {
        SocketType::Extra => BridgeKind::Stream,
        SocketType::Ssh => BridgeKind::Message,
    }
}

pub fn bridge_kind(ty: SocketType) -> (r: BridgeKind)
    ensures
        r == kind_of(ty),
{
    match ty {
        SocketType::Extra => BridgeKind::Stream,
        SocketType::Ssh => BridgeKind::Message,
    }
}

/// The bounds `(start, end)` of `out` without its leading and trailing
/// white space: the path that the directory query printed.
pub fn trimmed_bounds(out: &[u8]) -> (r: (usize, usize))
    ensures
        r.0 <= r.1 <= out@.len(),
        r.0 == space_run(out@),
        all_spaces(out@.subrange(0, r.0 as int)),
        all_spaces(out@.subrange(r.1 as int, out@.len() as int)),
        r.0 < r.1 ==> !is_space(out@[r.0 as int]) && !is_space(out@[r.1 - 1]),
{
    let n = out.len();
    let mut s: usize = 0;
    while s < n && (out[s] == 32 || (out[s] >= 9 && out[s] <= 13))
        invariant
            s <= n == out@.len(),
            all_spaces(out@.subrange(0, s as int)),
        decreases n - s,
    {
        assert(out@.subrange(0, s + 1) =~= out@.subrange(0, s as int).push(out@[s as int]));
        s = s + 1;
    }
    proof {
        assert(out@.subrange(0, s as int) == out@.subrange(0, s as int));
        crate::text::lemma_space_run_exact(out@, s as int);
    }
    let mut e: usize = n;
    while e > s && (out[e - 1] == 32 || (out[e - 1] >= 9 && out[e - 1] <= 13))
        invariant
            s <= e <= n == out@.len(),
            all_spaces(out@.subrange(e as int, n as int)),
        decreases e,
    {
        assert(out@.subrange(e - 1, n as int) =~= seq![out@[e - 1]] + out@.subrange(e as int, n as int));
        e = e - 1;
    }
    if s == e {
        assert(out@.subrange(s as int, n as int) =~= out@.subrange(e as int, n as int));
    }
    (s, e)
}

} // verus!
