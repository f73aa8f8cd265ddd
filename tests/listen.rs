use gpg_bridge::listen::{bridge_kind, is_named_pipe_addr, trimmed_bounds, BridgeKind};
use gpg_bridge::{other_error, report_data_err, ErrorKind, SocketType};

#[test]
fn socket_type_names() {
    assert_eq!(SocketType::Ssh.name(), "agent-ssh-socket");
    assert_eq!(SocketType::Extra.name(), "agent-extra-socket");
}

#[test]
fn socket_type_selects_bridge() {
    assert_eq!(bridge_kind(SocketType::Ssh), BridgeKind::Message);
    assert_eq!(bridge_kind(SocketType::Extra), BridgeKind::Stream);
}

#[test]
fn errors_carry_kind_and_details() {
    let e = other_error("boom".to_string());
    assert_eq!(e.kind, ErrorKind::Other);
    assert_eq!(e.details, "boom");
    let e = report_data_err("bad".to_string());
    assert_eq!(e.kind, ErrorKind::InvalidData);
    assert_eq!(e.details, "bad");
}

#[test]
fn pipe_addresses_are_recognized() {
    assert!(is_named_pipe_addr(br"\\.\pipe\gpg-bridge-ssh"));
    assert!(is_named_pipe_addr(br"\\.\pipe\"));
    assert!(!is_named_pipe_addr(b"127.0.0.1:4321"));
    assert!(!is_named_pipe_addr(br"\\.\pipe"));
    assert!(!is_named_pipe_addr(br"\\server\pipe\x"));
    assert!(!is_named_pipe_addr(b""));
}

#[test]
fn discovered_path_is_trimmed() {
    let out = b"  C:/Users/me/gnupg/S.gpg-agent.extra\r\n";
    let (s, e) = trimmed_bounds(out);
    assert_eq!(&out[s..e], b"C:/Users/me/gnupg/S.gpg-agent.extra");
    let (s, e) = trimmed_bounds(b" \n\t ");
    assert_eq!(s, e);
    let (s, e) = trimmed_bounds(b"");
    assert_eq!((s, e), (0, 0));
    let (s, e) = trimmed_bounds(b"a b");
    assert_eq!((s, e), (0, 3));
}
