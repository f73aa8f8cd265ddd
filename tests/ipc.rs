use gpg_bridge::ipc::{
    read_len_prefix, wipe, AgentWake, FrameError, IpcPhase, PUTTY_IPC_MAXLEN, SLOT_COUNT,
};
use gpg_bridge::{find_available_token, release_token, ErrorKind, Handler, SlotPool};

fn prefixed(len: u32) -> Vec<u8> {
    let mut v = len.to_be_bytes().to_vec();
    v.resize(8, 0);
    v
}

#[test]
fn tokens_are_claimed_lowest_first() {
    let mut token = 0u8;
    assert_eq!(find_available_token(&mut token), 1);
    assert_eq!(find_available_token(&mut token), 2);
    assert_eq!(find_available_token(&mut token), 4);
    assert_eq!(find_available_token(&mut token), 8);
    assert_eq!(token, 15);
    release_token(&mut token, 2);
    assert_eq!(token, 13);
    assert_eq!(find_available_token(&mut token), 2);
    assert_eq!(token, 15);
}

#[test]
fn five_sessions_against_four_slots() {
    let mut pool = SlotPool::new();
    let held: Vec<u8> = (0..SLOT_COUNT).map(|_| pool.try_acquire().unwrap()).collect();
    assert_eq!(held, vec![1, 2, 4, 8]);
    assert_eq!(pool.try_acquire(), None);
    assert_eq!(pool.token(), 15);
    pool.release(4);
    assert_eq!(pool.try_acquire(), Some(4));
    assert_eq!(pool.try_acquire(), None);
}

#[test]
fn length_prefix_is_big_endian() {
    assert_eq!(read_len_prefix(&[0, 0, 1, 2]), 258);
    assert_eq!(read_len_prefix(&[0x12, 0x34, 0x56, 0x78, 0xff]), 0x12345678);
    assert_eq!(read_len_prefix(&[0xff, 0xff, 0xff, 0xff]), u32::MAX);
}

#[test]
fn segment_names_follow_slot_bit() {
    assert_eq!(Handler::new(1).segment_name(), b"gpg_bridge-1\0".to_vec());
    assert_eq!(Handler::new(8).segment_name(), b"gpg_bridge-8\0".to_vec());
}

#[test]
fn request_filling_slot_is_refused_before_delivery() {
    let mut h = Handler::new(1);
    let limit = PUTTY_IPC_MAXLEN as u32;
    assert_eq!(h.begin_request(&prefixed(limit - 4)), Err(FrameError::RequestTooLarge));
    assert_eq!(h.phase, IpcPhase::Failed);
    assert!(!h.may_deliver());
    assert_eq!(h.received(), 0);

    let mut h = Handler::new(1);
    assert_eq!(h.begin_request(&prefixed(u32::MAX)), Err(FrameError::RequestTooLarge));
    assert!(!h.may_deliver());
}

#[test]
fn request_and_reply_within_slot_are_counted() {
    let mut h = Handler::new(2);
    let limit = PUTTY_IPC_MAXLEN as u32;
    assert_eq!(h.begin_request(&prefixed(limit - 5)), Ok((limit - 5) as usize));
    assert!(h.may_deliver());
    assert_eq!(h.received(), PUTTY_IPC_MAXLEN - 1);
    assert_eq!(h.finish_reply(&prefixed(limit - 4)), Ok(PUTTY_IPC_MAXLEN));
    assert_eq!(h.replied(), PUTTY_IPC_MAXLEN);
    assert_eq!(h.phase, IpcPhase::AwaitRequest);
    assert_eq!(h.begin_request(&prefixed(5)), Ok(5));
    assert_eq!(h.received(), PUTTY_IPC_MAXLEN - 1 + 9);
    assert_eq!(h.finish_reply(&prefixed(1)), Ok(5));
    assert_eq!(h.replied(), PUTTY_IPC_MAXLEN + 5);
}

#[test]
fn reply_larger_than_slot_is_refused() {
    let mut h = Handler::new(4);
    assert_eq!(h.begin_request(&prefixed(1)), Ok(1));
    assert_eq!(
        h.finish_reply(&prefixed(PUTTY_IPC_MAXLEN as u32 - 3)),
        Err(FrameError::ResponseTooLarge)
    );
    assert_eq!(h.phase, IpcPhase::Failed);
    assert_eq!(h.replied(), 0);
}

#[test]
fn frame_steps_out_of_order_are_refused() {
    let mut h = Handler::new(1);
    assert_eq!(h.finish_reply(&prefixed(1)), Err(FrameError::OutOfOrder));
    assert_eq!(h.begin_request(&prefixed(1)), Ok(1));
    assert_eq!(h.begin_request(&prefixed(1)), Err(FrameError::OutOfOrder));
    assert_eq!(FrameError::RequestTooLarge.to_error().kind, ErrorKind::Other);
    assert_eq!(FrameError::ResponseTooLarge.to_error().details, "response too large");
}

#[test]
fn wipe_zeroes_whole_slot() {
    let mut slot = vec![0x5au8; PUTTY_IPC_MAXLEN];
    wipe(&mut slot);
    assert_eq!(slot.len(), PUTTY_IPC_MAXLEN);
    assert!(slot.iter().all(|b| *b == 0));
}

#[test]
fn failed_session_wakes_agent_before_next_connection() {
    let mut w = AgentWake::new();
    assert!(!w.needs_wake());
    w.session_failed();
    assert!(w.needs_wake());
    w.woken();
    assert!(!w.needs_wake());
}
