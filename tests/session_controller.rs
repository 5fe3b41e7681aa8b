use sshx::access::Permission;
use sshx::controller::{Controller, ControllerError, Inbound, SessionConfig};
use sshx::crypto::{Key, INBOUND, OUTBOUND, RESEND};
use sshx::frame::{Frame, FrameKind};
use sshx::pane::PaneError;
use sshx::transport::{ConnState, LinkAction, LinkEvent};

fn controller(secret: &str, protected: bool, password: &str) -> Controller {
    let cfg = SessionConfig::new("https://relay.example", "me@host", "", secret, protected, password);
    Controller::new(cfg, "sid42", "")
}

fn viewer_frame(key: &str, kind: FrameKind, seq: u64, plain: &[u8]) -> Frame {
    let k = Key::derive(key);
    let payload = k.encrypt(INBOUND, 1, seq, plain).unwrap();
    Frame { pane_id: 1, seq, kind, payload }
}

#[test]
fn empty_secret_generates_key_in_url_only() {
    let c = controller("", true, "");
    let key = c.encryption_key().to_string();
    assert_eq!(key.chars().count(), 14);
    assert_eq!(c.link(), "https://relay.example/s/sid42");
    assert_eq!(c.url(), format!("https://relay.example/s/sid42#{}", key));
    assert!(c.url().ends_with(&format!("#{}", key)));
    assert!(!c.link().contains(&key));
}

#[test]
fn given_secret_is_kept() {
    let c = controller("mysecret", true, "");
    assert_eq!(c.encryption_key(), "mysecret");
    assert_eq!(c.url(), "https://relay.example/s/sid42#mysecret");
}

#[test]
fn write_protection_generates_distinct_password() {
    let c = controller("", true, "");
    let pw = c.write_password().unwrap();
    assert!(!pw.is_empty());
    assert_ne!(pw, c.encryption_key());
    let open = controller("", false, "");
    assert!(open.write_password().is_none());
    let given = controller("", true, "letmein");
    assert_eq!(given.write_password(), Some("letmein"));
}

#[test]
fn output_is_sealed_with_its_sequence() {
    let mut c = controller("k1", true, "");
    let f1 = c.pump_output(1, b"ab").unwrap();
    let f2 = c.pump_output(1, b"cd").unwrap();
    assert_eq!((f1.seq, f2.seq), (0, 2));
    assert_eq!(f2.kind, FrameKind::Output);
    let k = Key::derive("k1");
    assert_eq!(k.decrypt(OUTBOUND, 1, 2, &f2.payload).unwrap(), b"cd".to_vec());
    assert_eq!(c.panes.snapshot_from(1, 2).unwrap(), b"cd".to_vec());
    assert_eq!(c.pump_output(9, b"x").err(), Some(ControllerError::Pane(PaneError::NoSuchPane)));
}

#[test]
fn viewer_input_needs_write_permission() {
    let mut c = controller("k1", true, "");
    let f = viewer_frame("k1", FrameKind::Input, 0, b"ls\n");
    assert_eq!(c.handle_inbound(&f, Permission::ReadOnly), Inbound::Dropped(PaneError::PermissionDenied));
    assert_eq!(c.panes.take_input(1).unwrap(), Vec::<u8>::new());
    assert_eq!(c.handle_inbound(&f, Permission::Write), Inbound::Applied);
    assert_eq!(c.panes.take_input(1).unwrap(), b"ls\n".to_vec());
}

#[test]
fn viewer_resize_applies_for_writers() {
    let mut c = controller("k1", true, "");
    let f = viewer_frame("k1", FrameKind::Resize, 0, &[40, 0, 120, 0]);
    assert_eq!(c.handle_inbound(&f, Permission::ReadOnly), Inbound::Dropped(PaneError::PermissionDenied));
    assert_eq!((c.panes.panes[0].rows, c.panes.panes[0].cols), (24, 80));
    assert_eq!(c.handle_inbound(&f, Permission::Write), Inbound::Applied);
    assert_eq!((c.panes.panes[0].rows, c.panes.panes[0].cols), (40, 120));
}

#[test]
fn repeated_auth_failures_are_fatal() {
    let mut c = controller("k1", true, "");
    let bad = viewer_frame("other", FrameKind::Input, 0, b"x");
    assert_eq!(c.handle_inbound(&bad, Permission::Write), Inbound::AuthFailed);
    assert_eq!(c.handle_inbound(&bad, Permission::Write), Inbound::AuthFailed);
    let good = viewer_frame("k1", FrameKind::Input, 1, b"y");
    assert_eq!(c.handle_inbound(&good, Permission::Write), Inbound::Applied);
    assert_eq!(c.auth_failures, 0);
    for _ in 0..2 {
        assert_eq!(c.handle_inbound(&bad, Permission::Write), Inbound::AuthFailed);
    }
    assert_eq!(c.handle_inbound(&bad, Permission::Write), Inbound::Fatal);
}

#[test]
fn server_close_and_heartbeat() {
    let mut c = controller("k1", true, "");
    let close = Frame { pane_id: 0, seq: 0, kind: FrameKind::Close, payload: vec![] };
    assert_eq!(c.handle_inbound(&close, Permission::ReadOnly), Inbound::ServerClosed);
    let hb = Frame { pane_id: 0, seq: 0, kind: FrameKind::Heartbeat, payload: vec![] };
    assert_eq!(c.handle_inbound(&hb, Permission::ReadOnly), Inbound::Applied);
}

#[test]
fn resume_resends_from_acknowledged() {
    let mut c = controller("k1", true, "");
    c.pump_output(1, b"ab").unwrap();
    c.pump_output(1, b"cd").unwrap();
    c.pump_output(1, b"ef").unwrap();
    let f = c.resume(1, 2).unwrap();
    assert_eq!(f.kind, FrameKind::Resend);
    assert_eq!(f.seq, 2);
    assert_eq!(&f.payload[..8], &[0u8; 8]);
    let k = Key::derive("k1");
    assert_eq!(k.decrypt(RESEND, 1, 0, &f.payload[8..]).unwrap(), b"cdef".to_vec());
    let g = c.resume(1, 4).unwrap();
    assert_eq!(g.payload[0], 1);
    assert_eq!(k.decrypt(RESEND, 1, 1, &g.payload[8..]).unwrap(), b"ef".to_vec());
}

#[test]
fn link_events_and_idempotent_close() {
    let mut c = controller("k1", true, "");
    assert_eq!(c.on_link_event(LinkEvent::Start, 0), LinkAction::Connect);
    assert_eq!(c.on_link_event(LinkEvent::ConnectOk, 0), LinkAction::Resume);
    assert_eq!(c.close(), LinkAction::SendClose);
    assert_eq!(c.link.state, ConnState::Closing);
    assert_eq!(c.close(), LinkAction::Nothing);
    assert_eq!(c.pump_output(1, b"late").err(), Some(ControllerError::Closed));
}

#[test]
fn last_runner_exit_ends_session() {
    let mut c = controller("k1", true, "");
    assert_eq!(c.runner_exited(1), Ok(true));
    assert_eq!(c.runner_exited(5), Err(ControllerError::Pane(PaneError::NoSuchPane)));
}

#[test]
fn registration_frame_carries_no_secret() {
    let cfg = SessionConfig::new("https://relay.example", "me@host", "team", "topsecret", true, "pw");
    let f = sshx::controller::register_frame(&cfg);
    assert_eq!(f.kind, FrameKind::Register);
    assert_eq!(f.payload, b"\x01me@host\nteam".to_vec());
    let open = SessionConfig::new("https://relay.example", "n", "", "k", false, "");
    assert_eq!(sshx::controller::register_frame(&open).payload, b"\x00n\n".to_vec());
}

#[test]
fn registration_reply_is_split_at_newline() {
    let (id, base) = sshx::controller::split_reply(&b"abc\nteam\nx".to_vec());
    assert_eq!((id, base), (b"abc".to_vec(), b"team\nx".to_vec()));
    let (id, base) = sshx::controller::split_reply(&b"only".to_vec());
    assert_eq!((id, base), (b"only".to_vec(), Vec::new()));
}

#[test]
fn malformed_resize_is_ignored() {
    let mut c = controller("k1", true, "");
    let f = viewer_frame("k1", FrameKind::Resize, 0, &[1, 2, 3]);
    assert_eq!(c.handle_inbound(&f, Permission::Write), Inbound::Ignored);
    assert_eq!((c.panes.panes[0].rows, c.panes.panes[0].cols), (24, 80));
}
