//! The shared-memory bridge to a Pageant-compatible agent: the pool of slot
//! identities, the framing of one request and its reply in a slot, and the
//! accounting of one connection's handler.
use crate::error::{other_error, BridgeError};
use crate::text::decimal;
use vstd::prelude::*;

verus! {

/// Capacity of one shared-memory slot, in bytes.
pub const PUTTY_IPC_MAXLEN: usize = 16384;

/// How many slots may be mapped at once.
pub const SLOT_COUNT: usize = 4;

/// The bit of the pool's token that stands for slot `i`.
pub open spec fn slot_mask(i: int) -> u8 {
    if i == 0 {
        1
    } else if i == 1 {
        2
    } else if i == 2 {
        4
    } else {
        8
    }
}

pub open spec fn is_slot_mask(m: u8) -> bool {
    m == 1 || m == 2 || m == 4 || m == 8
}

pub open spec fn slot_taken(token: u8, i: int) -> bool {
    token & slot_mask(i) != 0
}

pub open spec fn pool_full(token: u8) -> bool {
    slot_taken(token, 0) && slot_taken(token, 1) && slot_taken(token, 2) && slot_taken(token, 3)
}

/// The lowest slot that is free in `token`.
pub open spec fn lowest_free(token: u8) -> int {
    if !slot_taken(token, 0) {
        0
    } else if !slot_taken(token, 1) {
        1
    } else if !slot_taken(token, 2) {
        2
    } else {
        3
    }
}

/// Claims the lowest free slot of `token` and returns its bit.
pub fn find_available_token(token: &mut u8) -> (mask: u8)
    requires
        !pool_full(*old(token)),
    ensures
        mask == slot_mask(lowest_free(*old(token))),
        *final(token) == *old(token) | mask,
{
    let t = *token;
    let mask: u8 = if t & 1 == 0 {
        1
    } else if t & 2 == 0 {
        2
    } else if t & 4 == 0 {
        4
    } else {
        8
    };
    *token = t | mask;
    mask
}

/// Gives back the slot whose bit is `mask`.
pub fn release_token(token: &mut u8, mask: u8)
    ensures
        *final(token) == *old(token) & !mask,
{
    *token = *token & !mask;
}

/// What claiming a slot does to the token, and the slot it yields.
pub open spec fn acquire_spec(token: u8) -> (u8, Option<u8>) {
    if pool_full(token) {
        (token, None)
    } else {
        (token | slot_mask(lowest_free(token)), Some(slot_mask(lowest_free(token))))
    }
}

/// The identities of the slots that can be mapped at once, one bit each.
#[derive(Debug)]
pub struct SlotPool {
    token: u8,
}

impl SlotPool {
    pub closed spec fn view(&self) -> u8 {
        self.token
    }

    pub open spec fn wf(&self) -> bool {
        self.view() < 16
    }

    pub fn new() -> (r: SlotPool)
        ensures
            r.view() == 0,
            r.wf(),
    {
        SlotPool { token: 0 }
    }

    /// Claims the lowest free slot, or returns `None` when all are taken.
    pub fn try_acquire(&mut self) -> (r: Option<u8>)
        requires
            old(self).wf(),
        ensures
            final(self).wf(),
            (final(self).view(), r) == acquire_spec(old(self).view()),
    {
        let ghost t = self.token;
        if self.token & 15 == 15 {
            assert(pool_full(t)) by (bit_vector)
                requires
                    t & 15 == 15,
            ;
            None
        } else {
            assert(!pool_full(t)) by (bit_vector)
                requires
                    t & 15 != 15,
            ;
            let m = find_available_token(&mut self.token);
            assert((t | m) < 16) by (bit_vector)
                requires
                    t < 16,
                    m == 1 || m == 2 || m == 4 || m == 8,
            ;
            Some(m)
        }
    }

    /// Releases the slot whose bit is `mask`.
    pub fn release(&mut self, mask: u8)
        requires
            old(self).wf(),
        ensures
            final(self).wf(),
            final(self).view() == old(self).view() & !mask,
    {
        let ghost t = self.token;
        release_token(&mut self.token, mask);
        assert((t & !mask) < 16) by (bit_vector)
            requires
                t < 16,
        ;
    }

    pub fn token(&self) -> (r: u8)
        ensures
            r == self.view(),
    {
        self.token
    }
}

/// With four slots, four sessions claim the four slots in turn and a fifth
/// finds none; once any one of them is released, the next claim gets it.
pub proof fn lemma_slot_bound()
    ensures
        acquire_spec(0) == (1u8, Some(1u8)),
        acquire_spec(1) == (3u8, Some(2u8)),
        acquire_spec(3) == (7u8, Some(4u8)),
        acquire_spec(7) == (15u8, Some(8u8)),
        acquire_spec(15) == (15u8, None::<u8>),
        forall|i: int|
            0 <= i < 4 ==> acquire_spec(#[trigger] (15u8 & !slot_mask(i))) == (15u8, Some(slot_mask(i))),
{
    assert(0u8 & 1 == 0 && 0u8 | 1 == 1) by (bit_vector);
    assert(1u8 & 1 != 0 && 1u8 & 2 == 0 && 1u8 | 2 == 3) by (bit_vector);
    assert(3u8 & 1 != 0 && 3u8 & 2 != 0 && 3u8 & 4 == 0 && 3u8 | 4 == 7) by (bit_vector);
    assert(7u8 & 1 != 0 && 7u8 & 2 != 0 && 7u8 & 4 != 0 && 7u8 & 8 == 0 && 7u8 | 8 == 15) by (bit_vector);
    assert(15u8 & 1 != 0 && 15u8 & 2 != 0 && 15u8 & 4 != 0 && 15u8 & 8 != 0) by (bit_vector);
    assert(15u8 & !1u8 == 14 && 14u8 & 1 == 0 && 14u8 | 1 == 15) by (bit_vector);
    assert(15u8 & !2u8 == 13 && 13u8 & 1 != 0 && 13u8 & 2 == 0 && 13u8 | 2 == 15) by (bit_vector);
    assert(15u8 & !4u8 == 11 && 11u8 & 1 != 0 && 11u8 & 2 != 0 && 11u8 & 4 == 0 && 11u8 | 4 == 15) by (bit_vector);
    assert(15u8 & !8u8 == 7 && 7u8 & 1 != 0 && 7u8 & 2 != 0 && 7u8 & 4 != 0 && 7u8 & 8 == 0 && 7u8 | 8 == 15) by (bit_vector);
}

/// The big-endian value of the first four bytes of `b`.
pub open spec fn be_value(b: Seq<u8>) -> nat {
    (b[0] as nat) * 16777216 + (b[1] as nat) * 65536 + (b[2] as nat) * 256 + (b[3] as nat)
}

/// Reads the big-endian length prefix at the start of a slot.
pub fn read_len_prefix(b: &[u8]) -> (r: u32)
    requires
        b@.len() >= 4,
    ensures
        r == be_value(b@),
{
    let v: u64 = (b[0] as u64) * 16777216 + (b[1] as u64) * 65536 + (b[2] as u64) * 256 + (b[3] as u64);
    v as u32
}

/// Why a frame was refused.
#[derive(Clone, Copy, Debug, PartialEq, Eq, Structural)]
pub enum FrameError {
    /// A request whose length and prefix would fill the slot or more.
    RequestTooLarge,
    /// A reply whose length and prefix would not fit the slot.
    ResponseTooLarge,
    /// The handler is not at the step that this call belongs to.
    OutOfOrder,
}

impl FrameError {
    pub open spec fn spec_message(self) -> Seq<char> {
        match self {
            FrameError::RequestTooLarge => "message too large"@,
            FrameError::ResponseTooLarge => "response too large"@,
            FrameError::OutOfOrder => "frame out of order"@,
        }
    }

    pub fn to_error(self) -> (r: BridgeError)
        ensures
            r.kind == crate::error::ErrorKind::Other,
            r.details@ == self.spec_message(),
    {
        let msg = match self {
            FrameError::RequestTooLarge => "message too large",
            FrameError::ResponseTooLarge => "response too large",
            FrameError::OutOfOrder => "frame out of order",
        };
        other_error(String::from_str(msg))
    }
}

/// Where a handler stands in the exchange of one frame.
#[derive(Clone, Copy, Debug, PartialEq, Eq, Structural)]
pub enum IpcPhase {
    /// Ready to take the length prefix of the next request.
    AwaitRequest,
    /// A request is in the slot: it may be delivered to the agent.
    AwaitReply,
    /// A frame was refused: the session ends.
    Failed,
}

/// A request prefix of value `len` in a slot of `limit` bytes: the payload
/// length to read, or the refusal.
pub open spec fn request_next(phase: IpcPhase, limit: nat, len: nat) -> (IpcPhase, Result<usize, FrameError>) {
    if phase != IpcPhase::AwaitRequest {
        (phase, Err(FrameError::OutOfOrder))
    } else if len + 4 >= limit {
        (IpcPhase::Failed, Err(FrameError::RequestTooLarge))
    } else {
        (IpcPhase::AwaitReply, Ok(len as usize))
    }
}

/// A reply prefix of value `len` in a slot of `limit` bytes: how many bytes
/// of the slot, prefix included, make the reply, or the refusal.
pub open spec fn reply_next(phase: IpcPhase, limit: nat, len: nat) -> (IpcPhase, Result<usize, FrameError>) {
    if phase != IpcPhase::AwaitReply {
        (phase, Err(FrameError::OutOfOrder))
    } else if len + 4 > limit {
        (IpcPhase::Failed, Err(FrameError::ResponseTooLarge))
    } else {
        (IpcPhase::AwaitRequest, Ok((len + 4) as usize))
    }
}

pub open spec fn add_sat(a: nat, b: nat) -> nat {
    if a + b <= usize::MAX {
        a + b
    } else {
        usize::MAX as nat
    }
}

/// `gpg_bridge-<n>\0`, the name of the segment of the slot whose bit is
/// `mask`.
pub open spec fn segment_name_spec(mask: u8) -> Seq<u8> {
    seq![103u8, 112, 103, 95, 98, 114, 105, 100, 103, 101, 45] + decimal(mask as nat).push(0u8)
}

/// The side of one connection's exchange with the agent that does not
/// touch the system: its slot, its frame steps and its byte counts.
#[derive(Debug)]
pub struct Handler {
    pub mask: u8,
    pub limit: usize,
    pub phase: IpcPhase,
    pub received: usize,
    pub replied: usize,
}

impl Handler {
    pub open spec fn spec_received(&self) -> nat {
        self.received as nat
    }

    pub open spec fn spec_replied(&self) -> nat {
        self.replied as nat
    }

    /// A handler for the slot whose bit is `mask`.
    pub fn new(mask: u8) -> (r: Handler)
        requires
            is_slot_mask(mask),
        ensures
            r.mask == mask,
            r.limit == PUTTY_IPC_MAXLEN,
            r.phase == IpcPhase::AwaitRequest,
            r.spec_received() == 0,
            r.spec_replied() == 0,
    {
        Handler { mask, limit: PUTTY_IPC_MAXLEN, phase: IpcPhase::AwaitRequest, received: 0, replied: 0 }
    }

    /// The name of this handler's segment, terminated by a zero byte.
    pub fn segment_name(&self) -> (r: Vec<u8>)
        requires
            is_slot_mask(self.mask),
        ensures
            r@ == segment_name_spec(self.mask),
    {
        let mut v: Vec<u8> = vec![103u8, 112, 103, 95, 98, 114, 105, 100, 103, 101, 45];
        v.push(48 + self.mask);
        v.push(0u8);
        proof {
            reveal_with_fuel(decimal, 2);
        }
        assert(v@ =~= segment_name_spec(self.mask));
        v
    }

    /// Takes the length prefix of a request, read into the start of the
    /// slot: the number of payload bytes to read after it, or a refusal when
    /// the frame would fill the slot.
    pub fn begin_request(&mut self, slot: &[u8]) -> (r: Result<usize, FrameError>)
        requires
            slot@.len() >= 4,
        ensures
            (final(self).phase, r) == request_next(old(self).phase, old(self).limit as nat, be_value(slot@)),
            final(self).mask == old(self).mask,
            final(self).limit == old(self).limit,
            final(self).spec_replied() == old(self).spec_replied(),
            final(self).spec_received() == (if r is Ok {
                add_sat(old(self).spec_received(), be_value(slot@) + 4)
            } else {
                old(self).spec_received()
            }),
    {
        if self.phase != IpcPhase::AwaitRequest {
            return Err(FrameError::OutOfOrder);
        }
        let len = read_len_prefix(slot) as usize;
        if len >= self.limit || self.limit - len <= 4 {
            self.phase = IpcPhase::Failed;
            return Err(FrameError::RequestTooLarge);
        }
        let total = len + 4;
        self.received = if self.received <= usize::MAX - total {
            self.received + total
        } else {
            usize::MAX
        };
        self.phase = IpcPhase::AwaitReply;
        Ok(len)
    }

    /// Whether the request in the slot may now be delivered to the agent.
    pub fn may_deliver(&self) -> (r: bool)
        ensures
            r == (self.phase == IpcPhase::AwaitReply),
    {
        self.phase == IpcPhase::AwaitReply
    }

    /// Takes the length prefix that the agent wrote over the request: how
    /// many bytes from the start of the slot make the reply, or a refusal
    /// when they would not fit it.
    pub fn finish_reply(&mut self, slot: &[u8]) -> (r: Result<usize, FrameError>)
        requires
            slot@.len() >= 4,
        ensures
            (final(self).phase, r) == reply_next(old(self).phase, old(self).limit as nat, be_value(slot@)),
            final(self).mask == old(self).mask,
            final(self).limit == old(self).limit,
            final(self).spec_received() == old(self).spec_received(),
            final(self).spec_replied() == (if r is Ok {
                add_sat(old(self).spec_replied(), be_value(slot@) + 4)
            } else {
                old(self).spec_replied()
            }),
    {
        if self.phase != IpcPhase::AwaitReply {
            return Err(FrameError::OutOfOrder);
        }
        let len = read_len_prefix(slot) as usize;
        if len > self.limit || self.limit - len < 4 {
            self.phase = IpcPhase::Failed;
            return Err(FrameError::ResponseTooLarge);
        }
        let total = len + 4;
        self.replied = if self.replied <= usize::MAX - total {
            self.replied + total
        } else {
            usize::MAX
        };
        self.phase = IpcPhase::AwaitRequest;
        Ok(total)
    }

    /// Bytes of requests taken so far, prefixes included.
    pub fn received(&self) -> (r: usize)
        ensures
            r == self.spec_received(),
    {
        self.received
    }

    /// Bytes of replies handed back so far, prefixes included.
    pub fn replied(&self) -> (r: usize)
        ensures
            r == self.spec_replied(),
    {
        self.replied
    }
}

/// A request whose length and prefix would meet or exceed the slot is
/// refused at its prefix, and the handler never reaches the step at which a
/// request is delivered.
pub proof fn lemma_frame_bound(limit: nat, len: nat)
    requires
        len + 4 >= limit,
    ensures
        request_next(IpcPhase::AwaitRequest, limit, len) == (
            IpcPhase::Failed,
            Err::<usize, FrameError>(FrameError::RequestTooLarge),
        ),
        forall|l: nat| reply_next(IpcPhase::Failed, limit, l).0 == IpcPhase::Failed,
        forall|l: nat| request_next(IpcPhase::Failed, limit, l).0 == IpcPhase::Failed,
{
}

/// Whether the agent must be woken before the next connection of the
/// message bridge is handled: set by a failed session, cleared once the
/// agent has been woken.
#[derive(Clone, Copy, Debug, PartialEq, Eq, Structural)]
pub struct AgentWake {
    pub pending: bool,
}

impl AgentWake {
    pub fn new() -> (r: AgentWake)
        ensures
            !r.pending,
    {
        AgentWake { pending: false }
    }

    /// Records that a session ended with an error.
    pub fn session_failed(&mut self)
        ensures
            final(self).pending,
    {
        self.pending = true;
    }

    /// Whether the next connection must wait for the agent to be woken.
    pub fn needs_wake(&self) -> (r: bool)
        ensures
            r == self.pending,
    {
        self.pending
    }

    /// Records that the agent was woken.
    pub fn woken(&mut self)
        ensures
            !final(self).pending,
    {
        self.pending = false;
    }
}

/// Overwrites a slot with zeros before it is unmapped.
pub fn wipe(buf: &mut [u8])
    ensures
        final(buf)@.len() == old(buf)@.len(),
        forall|i: int| 0 <= i < final(buf)@.len() ==> final(buf)@[i] == 0,
{
    let n = buf.len();
    let mut i: usize = 0;
    while i < n
        invariant
            0 <= i <= n,
            n == buf@.len(),
            forall|j: int| 0 <= j < i ==> buf@[j] == 0,
        decreases n - i,
    {
        buf[i] = 0;
        i = i + 1;
    }
}

} // verus!
