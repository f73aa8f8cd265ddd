//! The decisions of the stream bridge: the shared cache of the agent's
//! endpoint, the life of one forwarded connection, and the byte pump that runs
//! each direction of it.
use crate::descriptor::SocketDescriptor;
use vstd::prelude::*;

verus! {

/// What a new connection needs before it can be forwarded.
#[derive(Debug)]
pub enum Resolution {
    /// A descriptor is cached: use it.
    Ready(SocketDescriptor),
    /// The descriptor file is known: read and parse it, then cache it.
    Load(String),
    /// Neither is known: ask the agent where its socket is, then load it.
    Discover,
}

/// The agent's endpoint, shared by all connections of one bridge.
///
/// The path is set at most once; the descriptor is set on first use and
/// cleared whenever a forwarding attempt that used it fails.
#[derive(Debug)]
pub struct AgentEndpointCache {
    pub path: Option<String>,
    pub descriptor: Option<SocketDescriptor>,
}

impl AgentEndpointCache {
    pub open spec fn spec_resolve(&self) -> Resolution {
        match self.descriptor {
            Some(d) => Resolution::Ready(d),
            None => match self.path {
                Some(p) => Resolution::Load(p),
                None => Resolution::Discover,
            },
        }
    }

    pub fn new(path: Option<String>) -> (r: AgentEndpointCache)
        ensures
            r.path == path,
            r.descriptor is None,
    {
        AgentEndpointCache { path, descriptor: None }
    }

    /// Decides, under the cache's lock, how a new connection gets its
    /// descriptor.
    pub fn resolve(&self) -> (r: Resolution)
        ensures
            r == self.spec_resolve(),
    {
        match self.descriptor {
            Some(d) => Resolution::Ready(d),
            None => match &self.path {
                Some(p) => Resolution::Load(p.clone()),
                None => Resolution::Discover,
            },
        }
    }

    /// Records the path that the agent reported.
    pub fn set_path(&mut self, path: String)
        requires
            old(self).path is None,
        ensures
            final(self).path == Some(path),
            final(self).descriptor == old(self).descriptor,
    {
        self.path = Some(path);
    }

    /// Caches a freshly loaded descriptor.
    pub fn set_descriptor(&mut self, d: SocketDescriptor)
        ensures
            final(self).descriptor == Some(d),
            final(self).path == old(self).path,
    {
        self.descriptor = Some(d);
    }

    /// Forgets the descriptor after a failed forwarding attempt, so that the
    /// next connection loads it again.
    pub fn invalidate(&mut self)
        ensures
            final(self).descriptor is None,
            final(self).path == old(self).path,
    {
        self.descriptor = None;
    }
}

/// Where one forwarded connection stands.
#[derive(Clone, Copy, Debug, PartialEq, Eq, Structural)]
pub enum StreamState {
    Connecting,
    Handshaking,
    Forwarding,
    Closed,
    Errored,
}

/// What the outside world reports back to a forwarded connection.
#[derive(Clone, Copy, Debug, PartialEq, Eq, Structural)]
pub enum StreamEvent {
    Connected,
    ConnectFailed,
    NonceSent,
    HandshakeFailed,
    PumpsFinished,
    PumpFailed,
}

/// What the driver of a forwarded connection does next.
#[derive(Clone, Copy, Debug, PartialEq, Eq, Structural)]
pub enum StreamAction {
    /// Write the 16-byte nonce to the loop-back connection and flush it.
    SendNonce,
    /// Run both pumps until both end.
    StartPumps,
    /// Wake the agent, ignoring the outcome, then fail as `Fail` does.
    WakeAgentAndFail,
    /// Invalidate the shared cache and end the session with its error.
    Fail,
    /// End the session successfully.
    Finish,
    /// The event does not apply in this state: nothing to do.
    Ignore,
}

pub open spec fn stream_next(s: StreamState, e: StreamEvent) -> (StreamState, StreamAction) {
    match (s, e) {
        (StreamState::Connecting, StreamEvent::Connected) => (StreamState::Handshaking, StreamAction::SendNonce),
        (StreamState::Connecting, StreamEvent::ConnectFailed) => (StreamState::Errored, StreamAction::WakeAgentAndFail),
        (StreamState::Handshaking, StreamEvent::NonceSent) => (StreamState::Forwarding, StreamAction::StartPumps),
        (StreamState::Handshaking, StreamEvent::HandshakeFailed) => (StreamState::Errored, StreamAction::Fail),
        (StreamState::Forwarding, StreamEvent::PumpsFinished) => (StreamState::Closed, StreamAction::Finish),
        (StreamState::Forwarding, StreamEvent::PumpFailed) => (StreamState::Errored, StreamAction::Fail),
        _ => (s, StreamAction::Ignore),
    }
}

/// Whether the driver clears the shared cache on this action.
pub open spec fn invalidates_cache(a: StreamAction) -> bool {
    a == StreamAction::Fail || a == StreamAction::WakeAgentAndFail
}

/// One forwarded connection, from the loop-back connect to its end.
#[derive(Debug)]
pub struct StreamSession {
    pub descriptor: SocketDescriptor,
    pub state: StreamState,
}

impl StreamSession {
    /// A session for a resolved descriptor: the driver connects to
    /// `127.0.0.1:descriptor.port` and reports the outcome.
    pub fn new(descriptor: SocketDescriptor) -> (r: StreamSession)
        ensures
            r.descriptor == descriptor,
            r.state == StreamState::Connecting,
    {
        StreamSession { descriptor, state: StreamState::Connecting }
    }

    pub fn step(&mut self, e: StreamEvent) -> (a: StreamAction)
        ensures
            (final(self).state, a) == stream_next(old(self).state, e),
            final(self).descriptor == old(self).descriptor,
    {
        let (s, a) = match (self.state, e) {
            (StreamState::Connecting, StreamEvent::Connected) => (StreamState::Handshaking, StreamAction::SendNonce),
            (StreamState::Connecting, StreamEvent::ConnectFailed) => (StreamState::Errored, StreamAction::WakeAgentAndFail),
            (StreamState::Handshaking, StreamEvent::NonceSent) => (StreamState::Forwarding, StreamAction::StartPumps),
            (StreamState::Handshaking, StreamEvent::HandshakeFailed) => (StreamState::Errored, StreamAction::Fail),
            (StreamState::Forwarding, StreamEvent::PumpsFinished) => (StreamState::Closed, StreamAction::Finish),
            (StreamState::Forwarding, StreamEvent::PumpFailed) => (StreamState::Errored, StreamAction::Fail),
            _ => (self.state, StreamAction::Ignore),
        };
        self.state = s;
        a
    }

    pub fn is_finished(&self) -> (r: bool)
        ensures
            r == (self.state == StreamState::Closed || self.state == StreamState::Errored),
    {
        self.state == StreamState::Closed || self.state == StreamState::Errored
    }
}

/// After a connection fails to reach the agent, the next connection loads
/// the descriptor again; a descriptor once loaded is reused by every later
/// connection without loading it again. Every failure of a session, at any
/// step, clears the cache.
pub proof fn lemma_cache_invalidation(c: AgentEndpointCache, d: SocketDescriptor, s: StreamState, e: StreamEvent)
    ensures
        ({
            let cached = AgentEndpointCache { path: c.path, descriptor: Some(d) };
            cached.spec_resolve() == Resolution::Ready(d)
        }),
        stream_next(StreamState::Connecting, StreamEvent::ConnectFailed)
            == (StreamState::Errored, StreamAction::WakeAgentAndFail),
        invalidates_cache(StreamAction::WakeAgentAndFail),
        ({
            let cleared = AgentEndpointCache { path: c.path, descriptor: None };
            &&& !(cleared.spec_resolve() is Ready)
            &&& c.path is Some ==> cleared.spec_resolve() == Resolution::Load(c.path->Some_0)
        }),
        s != StreamState::Errored && stream_next(s, e).0 == StreamState::Errored ==> invalidates_cache(
            stream_next(s, e).1,
        ),
{
}

/// Size of the buffer that one pump reads into.
pub const CHUNK_SIZE: usize = 4096;

/// What a pump does with what it has just read.
#[derive(Clone, Copy, Debug, PartialEq, Eq, Structural)]
pub enum PumpAction {
    /// Write the chunk, unchanged, to the destination.
    Forward,
    /// The source has ended: shut down the destination's write side.
    Shutdown,
}

/// One pump step on the bytes forwarded so far and the chunk just read:
/// the bytes forwarded afterwards, and whether the pump has ended.
pub open spec fn pump_step(sent: Seq<u8>, chunk: Seq<u8>) -> (Seq<u8>, bool) {
    if chunk.len() == 0 {
        (sent, true)
    } else {
        (sent + chunk, false)
    }
}

/// The bytes forwarded, and whether the pump has ended, after it reads each
/// of `reads` in turn; reads after the end are never made.
pub open spec fn pump_feed(sent: Seq<u8>, done: bool, reads: Seq<Seq<u8>>) -> (Seq<u8>, bool)
    decreases reads.len(),
{
    if done || reads.len() == 0 {
        (sent, done)
    } else {
        let (s, d) = pump_step(sent, reads[0]);
        pump_feed(s, d, reads.drop_first())
    }
}

/// One direction of a forwarded connection: it forwards each chunk it reads
/// and shuts the destination down once the source ends.
pub struct Pump {
    pub total: u64,
    pub done: bool,
    pub sent: Ghost<Seq<u8>>,
}

impl Pump {
    pub open spec fn wf(&self) -> bool {
        self.total == if self.sent@.len() <= u64::MAX {
            self.sent@.len()
        } else {
            u64::MAX as nat
        }
    }

    pub fn new() -> (r: Pump)
        ensures
            r.wf(),
            r.sent@ == Seq::<u8>::empty(),
            !r.done,
    {
        Pump { total: 0, done: false, sent: Ghost(Seq::empty()) }
    }

    /// Decides what to do with the chunk just read from the source.
    pub fn on_read(&mut self, chunk: &[u8]) -> (a: PumpAction)
        requires
            old(self).wf(),
            !old(self).done,
        ensures
            final(self).wf(),
            (final(self).sent@, final(self).done) == pump_step(old(self).sent@, chunk@),
            a == (if chunk@.len() == 0 {
                PumpAction::Shutdown
            } else {
                PumpAction::Forward
            }),
    {
        let n = chunk.len();
        if n == 0 {
            self.done = true;
            PumpAction::Shutdown
        } else {
            let n64 = n as u64;
            if self.total <= u64::MAX - n64 {
                self.total = self.total + n64;
            } else {
                self.total = u64::MAX;
            }
            self.sent = Ghost(self.sent@ + chunk@);
            PumpAction::Forward
        }
    }

    /// The number of bytes forwarded, saturated at `u64::MAX`.
    pub fn total(&self) -> (r: u64)
        ensures
            r == self.total,
    {
        self.total
    }
}

proof fn lemma_pump_feed_chunks(sent: Seq<u8>, chunks: Seq<Seq<u8>>, rest: Seq<Seq<u8>>)
    requires
        forall|i: int| 0 <= i < chunks.len() ==> (#[trigger] chunks[i]).len() > 0,
        rest.len() > 0,
        rest[0].len() == 0,
    ensures
        pump_feed(sent, false, chunks + rest) == (sent + chunks.flatten(), true),
    decreases chunks.len(),
{
    if chunks.len() == 0 {
        assert(chunks + rest =~= rest);
        assert(rest.drop_first() =~= rest.drop_first());
        assert(sent + chunks.flatten() =~= sent);
        let r = rest.drop_first();
        assert(pump_feed(sent, true, r) == (sent, true));
    } else {
        let all = chunks + rest;
        assert(all[0] == chunks[0]);
        assert(all.drop_first() =~= chunks.drop_first() + rest);
        assert forall|i: int| 0 <= i < chunks.drop_first().len() implies (#[trigger] chunks.drop_first()[i]).len() > 0 by {
            assert(chunks.drop_first()[i] == chunks[i + 1]);
        }
        lemma_pump_feed_chunks(sent + chunks[0], chunks.drop_first(), rest);
        assert(sent + chunks[0] + chunks.drop_first().flatten() =~= sent + chunks.flatten());
    }
}

/// A source that sends some bytes, in any chunks, and then closes has
/// exactly those bytes forwarded, after which the destination is shut down
/// and nothing more is read.
pub proof fn lemma_pump_forwards_all(chunks: Seq<Seq<u8>>, after: Seq<Seq<u8>>)
    requires
        forall|i: int| 0 <= i < chunks.len() ==> (#[trigger] chunks[i]).len() > 0,
    ensures
        pump_feed(Seq::empty(), false, chunks.push(Seq::empty()) + after) == (chunks.flatten(), true),
{
    let rest = seq![Seq::<u8>::empty()] + after;
    assert(chunks.push(Seq::empty()) + after =~= chunks + rest);
    lemma_pump_feed_chunks(Seq::empty(), chunks, rest);
    assert(Seq::<u8>::empty() + chunks.flatten() =~= chunks.flatten());
}

} // verus!
