use sshx::frame::{decode, DecodeError, Frame, FrameKind};

#[test]
fn encode_layout() {
    let f = Frame { pane_id: 2, seq: 258, kind: FrameKind::Input, payload: vec![9, 8] };
    assert_eq!(
        f.encode(),
        vec![15, 0, 0, 0, 2, 0, 0, 0, 2, 1, 0, 0, 0, 0, 0, 0, 1, 9, 8]
    );
}

#[test]
fn decode_reads_back_and_reports_use() {
    let f = Frame { pane_id: 77, seq: 123456789, kind: FrameKind::Resend, payload: b"xyz".to_vec() };
    let mut wire = f.encode();
    wire.extend_from_slice(&[1, 2, 3]);
    let (g, used) = decode(&wire).unwrap();
    assert_eq!(used, 20);
    assert_eq!((g.pane_id, g.seq, g.kind), (77, 123456789, FrameKind::Resend));
    assert_eq!(g.payload, b"xyz".to_vec());
}

#[test]
fn decode_needs_whole_frame() {
    let f = Frame { pane_id: 1, seq: 0, kind: FrameKind::Heartbeat, payload: vec![] };
    let wire = f.encode();
    assert_eq!(decode(&wire[..3].to_vec()).err(), Some(DecodeError::Incomplete));
    assert_eq!(decode(&wire[..16].to_vec()).err(), Some(DecodeError::Incomplete));
    assert!(decode(&wire).is_ok());
}

#[test]
fn decode_rejects_bad_length_and_kind() {
    assert_eq!(decode(&vec![3, 0, 0, 0, 0, 0]).err(), Some(DecodeError::BadLength));
    assert_eq!(decode(&vec![255, 255, 255, 255]).err(), Some(DecodeError::BadLength));
    let mut wire = Frame { pane_id: 1, seq: 0, kind: FrameKind::Close, payload: vec![] }.encode();
    wire[16] = 200;
    assert_eq!(decode(&wire).err(), Some(DecodeError::BadKind));
}
