use gpg_bridge::stream::{
    AgentEndpointCache, Pump, PumpAction, Resolution, StreamAction, StreamEvent, StreamSession,
    StreamState, CHUNK_SIZE,
};
use gpg_bridge::{load_port_nounce, SocketDescriptor};

fn descriptor(port: u16) -> SocketDescriptor {
    SocketDescriptor { port, nonce: [7u8; 16] }
}

/// Feeds `reads` to a pump that writes into `dest`; returns the actions and
/// whether the destination was shut down.
fn run_pump(reads: &[&[u8]], dest: &mut Vec<u8>) -> (Vec<PumpAction>, bool, Pump) {
    let mut pump = Pump::new();
    let mut actions = Vec::new();
    let mut shut = false;
    for chunk in reads {
        if pump.done {
            break;
        }
        let a = pump.on_read(chunk);
        match a {
            PumpAction::Forward => {
                assert!(!shut);
                dest.extend_from_slice(chunk);
            }
            PumpAction::Shutdown => shut = true,
        }
        actions.push(a);
    }
    (actions, shut, pump)
}

#[test]
fn cache_discovers_then_loads_then_reuses() {
    let mut cache = AgentEndpointCache::new(None);
    assert!(matches!(cache.resolve(), Resolution::Discover));
    cache.set_path("C:/gnupg/S.gpg-agent.extra".to_string());
    match cache.resolve() {
        Resolution::Load(p) => assert_eq!(p, "C:/gnupg/S.gpg-agent.extra"),
        other => panic!("unexpected {:?}", other),
    }
    cache.set_descriptor(descriptor(7001));
    for _ in 0..3 {
        match cache.resolve() {
            Resolution::Ready(d) => assert_eq!(d, descriptor(7001)),
            other => panic!("unexpected {:?}", other),
        }
    }
}

#[test]
fn connect_failure_invalidates_cache_for_next_connection() {
    let mut cache = AgentEndpointCache::new(Some("path".to_string()));
    let mut locator_calls = 0;
    let mut resolve = |cache: &mut AgentEndpointCache| match cache.resolve() {
        Resolution::Ready(d) => d,
        Resolution::Load(_) | Resolution::Discover => {
            locator_calls += 1;
            cache.set_descriptor(descriptor(7001));
            descriptor(7001)
        }
    };
    let d = resolve(&mut cache);
    let d2 = resolve(&mut cache);
    assert_eq!(d, d2);
    let mut session = StreamSession::new(d);
    assert_eq!(session.state, StreamState::Connecting);
    assert_eq!(session.step(StreamEvent::ConnectFailed), StreamAction::WakeAgentAndFail);
    assert_eq!(session.state, StreamState::Errored);
    cache.invalidate();
    assert_eq!(cache.path.as_deref(), Some("path"));
    resolve(&mut cache);
    resolve(&mut cache);
    drop(resolve);
    assert_eq!(locator_calls, 2);
}

#[test]
fn session_walks_through_its_states() {
    let mut s = StreamSession::new(descriptor(1));
    assert_eq!(s.step(StreamEvent::Connected), StreamAction::SendNonce);
    assert_eq!(s.state, StreamState::Handshaking);
    assert_eq!(s.step(StreamEvent::NonceSent), StreamAction::StartPumps);
    assert_eq!(s.state, StreamState::Forwarding);
    assert!(!s.is_finished());
    assert_eq!(s.step(StreamEvent::PumpsFinished), StreamAction::Finish);
    assert_eq!(s.state, StreamState::Closed);
    assert!(s.is_finished());
    assert_eq!(s.step(StreamEvent::Connected), StreamAction::Ignore);
    assert_eq!(s.state, StreamState::Closed);
}

#[test]
fn session_failures_ask_for_invalidation() {
    let mut s = StreamSession::new(descriptor(1));
    s.step(StreamEvent::Connected);
    assert_eq!(s.step(StreamEvent::HandshakeFailed), StreamAction::Fail);
    assert_eq!(s.state, StreamState::Errored);

    let mut s = StreamSession::new(descriptor(1));
    s.step(StreamEvent::Connected);
    s.step(StreamEvent::NonceSent);
    assert_eq!(s.step(StreamEvent::PumpFailed), StreamAction::Fail);
    assert!(s.is_finished());

    let mut s = StreamSession::new(descriptor(1));
    assert_eq!(s.step(StreamEvent::PumpsFinished), StreamAction::Ignore);
    assert_eq!(s.state, StreamState::Connecting);
}

#[test]
fn pump_forwards_exactly_the_bytes_then_shuts_down() {
    let mut dest = Vec::new();
    let (actions, shut, pump) = run_pump(&[b"hel", b"lo, ", b"world", b"", b"late"], &mut dest);
    assert_eq!(dest, b"hello, world");
    assert!(shut);
    assert_eq!(pump.total(), 12);
    assert_eq!(
        actions,
        vec![PumpAction::Forward, PumpAction::Forward, PumpAction::Forward, PumpAction::Shutdown]
    );
}

#[test]
fn pump_of_empty_source_only_shuts_down() {
    let mut dest = Vec::new();
    let (actions, shut, pump) = run_pump(&[b""], &mut dest);
    assert!(dest.is_empty());
    assert!(shut);
    assert_eq!(pump.total(), 0);
    assert_eq!(actions, vec![PumpAction::Shutdown]);
}

#[test]
fn pump_handles_full_chunks() {
    let big = vec![0xabu8; CHUNK_SIZE];
    let mut dest = Vec::new();
    let (_, shut, pump) = run_pump(&[&big, &big, &big[..10], b""], &mut dest);
    assert_eq!(dest.len(), 2 * CHUNK_SIZE + 10);
    assert!(shut);
    assert_eq!(pump.total(), (2 * CHUNK_SIZE + 10) as u64);
}

#[test]
fn end_to_end_echo_through_descriptor_session_and_pumps() {
    // The descriptor names the stub agent on 7001 with nonce 01..10.
    let mut file = b"7001\n".to_vec();
    file.extend(1u8..=16);
    let d = load_port_nounce(&file).unwrap();
    assert_eq!(d.port, 7001);
    let mut cache = AgentEndpointCache::new(Some("extra".to_string()));
    assert!(matches!(cache.resolve(), Resolution::Load(_)));
    cache.set_descriptor(d);
    let d = match cache.resolve() {
        Resolution::Ready(d) => d,
        other => panic!("unexpected {:?}", other),
    };

    let mut session = StreamSession::new(d);
    assert_eq!(session.step(StreamEvent::Connected), StreamAction::SendNonce);
    // The stub agent reads the nonce first.
    let mut agent_in: Vec<u8> = session.descriptor.nonce.to_vec();
    assert_eq!(agent_in, (1u8..=16).collect::<Vec<u8>>());
    assert_eq!(session.step(StreamEvent::NonceSent), StreamAction::StartPumps);

    // Client to agent: "hello", then the client closes.
    let mut upstream = Vec::new();
    let (_, up_shut, _) = run_pump(&[b"hello", b""], &mut upstream);
    agent_in.extend_from_slice(&upstream);
    assert_eq!(&agent_in[16..], b"hello");
    // The stub echoes what followed the nonce, then sees end-of-stream.
    assert!(up_shut);
    let echo = agent_in[16..].to_vec();
    let mut downstream = Vec::new();
    let (_, down_shut, _) = run_pump(&[&echo, b""], &mut downstream);
    assert_eq!(downstream, b"hello");
    assert!(down_shut);
    assert_eq!(session.step(StreamEvent::PumpsFinished), StreamAction::Finish);
}
