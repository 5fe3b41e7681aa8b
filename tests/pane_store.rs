use sshx::access::Permission;
use sshx::pane::{PaneError, PaneStore, RETAIN_BYTES};

fn store_with_pane() -> (PaneStore, u32) {
    let mut s = PaneStore::new();
    let id = s.create_pane(24, 80).unwrap();
    (s, id)
}

#[test]
fn chunks_give_byte_sequence_numbers() {
    let (mut s, id) = store_with_pane();
    assert_eq!(s.append_output(id, b"ab"), Ok(2));
    assert_eq!(s.append_output(id, b"cd"), Ok(4));
    assert_eq!(s.append_output(id, b"ef"), Ok(6));
    assert_eq!(s.snapshot_from(id, 4).unwrap(), b"ef".to_vec());
}

#[test]
fn sequence_numbers_strictly_increase() {
    let (mut s, id) = store_with_pane();
    let mut last = 0u64;
    for chunk in [&b"x"[..], b"hello", b"12", b"\x1b[0m"] {
        let n = s.append_output(id, chunk).unwrap();
        assert_eq!(n, last + chunk.len() as u64);
        assert!(n > last);
        last = n;
    }
    assert_eq!(s.sequence(id), Some(last));
}

#[test]
fn snapshot_from_zero_is_whole_log() {
    let (mut s, id) = store_with_pane();
    s.append_output(id, b"abc").unwrap();
    s.append_output(id, b"def").unwrap();
    assert_eq!(s.snapshot_from(id, 0).unwrap(), b"abcdef".to_vec());
    assert_eq!(s.snapshot_from(id, 6).unwrap(), Vec::<u8>::new());
    assert_eq!(s.snapshot_from(id, 99).unwrap(), Vec::<u8>::new());
}

#[test]
fn sequential_snapshots_do_not_overlap() {
    let (mut s, id) = store_with_pane();
    s.append_output(id, b"hello ").unwrap();
    let first = s.snapshot_from(id, 2).unwrap();
    assert_eq!(first, b"llo ".to_vec());
    let next = 2 + first.len() as u64;
    assert_eq!(s.snapshot_from(id, next).unwrap(), Vec::<u8>::new());
    s.append_output(id, b"world").unwrap();
    assert_eq!(s.snapshot_from(id, next).unwrap(), b"world".to_vec());
}

#[test]
fn read_only_cannot_type_or_resize() {
    let (mut s, id) = store_with_pane();
    s.append_output(id, b"prompt$ ").unwrap();
    assert_eq!(s.apply_input(id, b"rm -rf /\n", Permission::ReadOnly), Err(PaneError::PermissionDenied));
    assert_eq!(s.resize(id, 50, 200, Permission::ReadOnly), Err(PaneError::PermissionDenied));
    assert_eq!(s.apply_input(999, b"x", Permission::ReadOnly), Err(PaneError::PermissionDenied));
    let p = &s.panes[0];
    assert_eq!((p.rows, p.cols), (24, 80));
    assert!(p.input.is_empty());
    assert_eq!(s.take_input(id).unwrap(), Vec::<u8>::new());
}

#[test]
fn writer_input_and_resize_apply() {
    let (mut s, id) = store_with_pane();
    assert_eq!(s.apply_input(id, b"ls", Permission::Write), Ok(()));
    assert_eq!(s.apply_input(id, b"\n", Permission::Write), Ok(()));
    assert_eq!(s.resize(id, 30, 100, Permission::Write), Ok(()));
    assert_eq!((s.panes[0].rows, s.panes[0].cols), (30, 100));
    assert_eq!(s.take_input(id).unwrap(), b"ls\n".to_vec());
    assert_eq!(s.take_input(id).unwrap(), Vec::<u8>::new());
}

#[test]
fn closed_pane_refuses_output_and_input() {
    let (mut s, id) = store_with_pane();
    s.append_output(id, b"bye").unwrap();
    assert_eq!(s.close_pane(id), Ok(()));
    assert_eq!(s.append_output(id, b"more"), Err(PaneError::PaneClosed));
    assert_eq!(s.apply_input(id, b"x", Permission::Write), Err(PaneError::PaneClosed));
    assert_eq!(s.resize(id, 1, 1, Permission::Write), Err(PaneError::PaneClosed));
    assert_eq!(s.snapshot_from(id, 0).unwrap(), b"bye".to_vec());
    assert!(!s.any_open());
}

#[test]
fn unknown_pane_is_reported() {
    let (mut s, _) = store_with_pane();
    assert_eq!(s.append_output(7, b"a"), Err(PaneError::NoSuchPane));
    assert_eq!(s.snapshot_from(7, 0), Err(PaneError::NoSuchPane));
    assert_eq!(s.close_pane(7), Err(PaneError::NoSuchPane));
    assert_eq!(s.acknowledge(7, 0), Err(PaneError::NoSuchPane));
}

#[test]
fn pane_ids_increase() {
    let mut s = PaneStore::new();
    let a = s.create_pane(24, 80).unwrap();
    let b = s.create_pane(24, 80).unwrap();
    assert_eq!((a, b), (1, 2));
}

#[test]
fn resume_after_ack_sends_exactly_the_rest() {
    let (mut s, id) = store_with_pane();
    s.append_output(id, b"ab").unwrap();
    s.append_output(id, b"cd").unwrap();
    s.append_output(id, b"ef").unwrap();
    // six bytes delivered, two acknowledged
    s.acknowledge(id, 2).unwrap();
    assert_eq!(s.panes[0].start, 2);
    assert_eq!(s.snapshot_from(id, 2).unwrap(), b"cdef".to_vec());
    assert_eq!(s.snapshot_from(id, 0).unwrap(), b"cdef".to_vec());
    // acknowledging past the end keeps nothing, never more than was emitted
    s.acknowledge(id, 100).unwrap();
    assert_eq!(s.panes[0].start, 6);
    assert_eq!(s.sequence(id), Some(6));
}

#[test]
fn history_is_trimmed_past_the_bound() {
    let (mut s, id) = store_with_pane();
    let big = vec![7u8; (2 * RETAIN_BYTES + 1) as usize];
    assert_eq!(s.append_output(id, &big), Ok(2 * RETAIN_BYTES + 1));
    assert_eq!(s.panes[0].log.len() as u64, RETAIN_BYTES);
    assert_eq!(s.panes[0].start, RETAIN_BYTES + 1);
}
