use vstd::prelude::*;

use crate::access::{compute_links, Links, Permission, link_of, manual_url_of, url_of, write_url_of};
use crate::crypto::{
    generate_secret, is_alphanumeric, random_password, Key, CryptoError, INBOUND, OUTBOUND, RESEND,
    le_bytes, push_le,
    KEY_LEN, MAX_PLAINTEXT, SECRET_LEN, PASSWORD_LEN, gcm_sealed, nonce_of, sha256_of,
};
use crate::frame::{Frame, FrameKind};
use crate::pane::{appended, PaneError, PaneStore};
use crate::transport::{ConnState, Link, LinkAction, LinkEvent};
use vstd::string::StringSliceAdditionalSpecFns;
use vstd::utf8::encode_utf8;

verus! {

/// Authentication failures in a row after which the session is given up.
pub const MAX_AUTH_FAILURES: u32 = 3;

/// Size of the first pane until the runner reports its own.
pub const DEFAULT_ROWS: u16 = 24;

pub const DEFAULT_COLS: u16 = 80;

/// The settings a session starts with, secrets already decided.
pub struct SessionConfig {
    pub server: String,
    pub name: String,
    pub base_path: String,
    pub encryption_key: String,
    pub write_password: Option<String>,
}

impl SessionConfig {
    /// Decides the secrets of a new session: the given encryption key, or a
    /// fresh one when it is empty; under write protection the given write
    /// password, or a fresh one when it is empty; without, none.
    pub fn new(
        server: &str,
        name: &str,
        base_path: &str,
        secret: &str,
        write_protected: bool,
        write_password: &str,
    ) -> (r: SessionConfig)
        ensures
            r.server@ == server@,
            r.name@ == name@,
            r.base_path@ == base_path@,
            secret@.len() > 0 ==> r.encryption_key@ == secret@,
            secret@.len() == 0 ==> r.encryption_key@.len() == SECRET_LEN,
            secret@.len() == 0 ==> forall|i: int|
                0 <= i < r.encryption_key@.len() ==> is_alphanumeric(#[trigger] r.encryption_key@[i]),
            !write_protected ==> r.write_password is None,
            write_protected && write_password@.len() > 0 ==> (r.write_password matches Some(p)
                && p@ == write_password@),
            write_protected && write_password@.len() == 0 ==> (r.write_password matches Some(p)
                && p@.len() == PASSWORD_LEN),
    {
        let encryption_key = if secret.unicode_len() == 0 {
            generate_secret()
        } else {
            String::from_str(secret)
        };
        let write_password = if !write_protected {
            None
        } else if write_password.unicode_len() == 0 {
            Some(random_password())
        } else {
            Some(String::from_str(write_password))
        };
        SessionConfig {
            server: String::from_str(server),
            name: String::from_str(name),
            base_path: String::from_str(base_path),
            encryption_key,
            write_password,
        }
    }
}

/// Why the controller could not do what was asked.
#[derive(Clone, Copy, Debug, PartialEq, Eq, Structural)]
pub enum ControllerError {
    Pane(PaneError),
    Crypto(CryptoError),
    /// The session has been closed.
    Closed,
    /// The resend counter has run out.
    ResendsExhausted,
}

/// What became of an inbound frame.
#[derive(Clone, Copy, Debug, PartialEq, Eq, Structural)]
pub enum Inbound {
    /// Applied to the pane store.
    Applied,
    /// Refused by the pane store (no permission, closed or unknown pane).
    Dropped(PaneError),
    /// It did not authenticate and was discarded.
    AuthFailed,
    /// Too many frames in a row did not authenticate: the session must end.
    Fatal,
    /// The relay closed the session.
    ServerClosed,
    /// Nothing to do for this frame.
    Ignored,
}

/// The session controller: the panes, the key, the link state and the
/// shareable links of one session.
pub struct Controller {
    pub config: SessionConfig,
    pub session_id: String,
    pub key: Key,
    pub links: Links,
    pub panes: PaneStore,
    pub link: Link,
    pub auth_failures: u32,
    pub resends: u64,
    pub closed: bool,
}

/// The size a resize payload asks for: two little-endian 16-bit numbers,
/// rows then columns.
pub open spec fn resize_of(p: Seq<u8>) -> Option<(u16, u16)> {
    if p.len() == 4 {
        Some(((p[0] + 256 * p[1]) as u16, (p[2] + 256 * p[3]) as u16))
    } else {
        None
    }
}

fn parse_resize(p: &Vec<u8>) -> (r: Option<(u16, u16)>)
    ensures
        r == resize_of(p@),
{
    if p.len() == 4 {
        let rows = p[0] as u16 + 256 * p[1] as u16;
        let cols = p[2] as u16 + 256 * p[3] as u16;
        Some((rows, cols))
    } else {
        None
    }
}

impl Controller {
    pub open spec fn wf(&self) -> bool {
        &&& self.panes.wf()
        &&& self.key@.len() == KEY_LEN
    }

    /// Starts the controller of the session the relay registered as
    /// `session_id` under `base_path`: the key is derived from the
    /// encryption key, the links are computed and the first pane is open.
    pub fn new(config: SessionConfig, session_id: &str, base_path: &str) -> (r: Controller)
        ensures
            r.wf(),
            r.key@ == sha256_of(encode_utf8(config.encryption_key@)),
            r.links.link@ == link_of(config.server@, base_path@, session_id@),
            r.links.url@ == url_of(r.links.link@, config.encryption_key@),
            config.write_password is None ==> r.links.write_url is None && r.links.manual_url is None,
            config.write_password matches Some(pw) ==> (r.links.write_url matches Some(w) && w@
                == write_url_of(r.links.url@, pw@)),
            config.write_password is Some ==> (r.links.manual_url matches Some(m) && m@
                == manual_url_of(r.links.url@)),
            r.config.encryption_key@ == config.encryption_key@,
            r.config.write_password == config.write_password,
            r.panes.panes@.len() == 1,
            r.panes.panes@[0].id == 1,
            r.link.state == ConnState::Disconnected,
            !r.closed,
            r.auth_failures == 0,
    {
        let key = Key::derive(config.encryption_key.as_str());
        let links = compute_links(
            config.server.as_str(),
            base_path,
            session_id,
            config.encryption_key.as_str(),
            &config.write_password,
        );
        let mut panes = PaneStore::new();
        let _ = panes.create_pane(DEFAULT_ROWS, DEFAULT_COLS);
        Controller {
            config,
            session_id: String::from_str(session_id),
            key,
            links,
            panes,
            link: Link::new(),
            auth_failures: 0,
            resends: 0,
            closed: false,
        }
    }

    /// The session's link, without secrets.
    pub fn link(&self) -> (r: &str)
        ensures
            r@ == self.links.link@,
    {
        self.links.link.as_str()
    }

    /// The link with the encryption key as fragment.
    pub fn url(&self) -> (r: &str)
        ensures
            r@ == self.links.url@,
    {
        self.links.url.as_str()
    }

    pub fn encryption_key(&self) -> (r: &str)
        ensures
            r@ == self.config.encryption_key@,
    {
        self.config.encryption_key.as_str()
    }

    pub fn write_password(&self) -> (r: Option<&str>)
        ensures
            self.config.write_password is None ==> r is None,
            self.config.write_password matches Some(p) ==> (r matches Some(q) && q@ == p@),
    {
        match &self.config.write_password {
            Some(p) => Some(p.as_str()),
            None => None,
        }
    }

    /// Records a chunk of runner output of pane `pane` and seals it into
    /// an output frame whose sequence number is that of the chunk's first
    /// byte.
    pub fn pump_output(&mut self, pane: u32, bytes: &[u8]) -> (r: Result<Frame, ControllerError>)
        requires
            old(self).wf(),
        ensures
            final(self).wf(),
            old(self).closed ==> r == Err::<Frame, ControllerError>(ControllerError::Closed),
            !old(self).closed && bytes@.len() > MAX_PLAINTEXT ==> r == Err::<Frame, ControllerError>(
                ControllerError::Crypto(CryptoError::TooLong),
            ),
            r is Err ==> final(self).panes == old(self).panes,
            !old(self).closed && bytes@.len() <= MAX_PLAINTEXT && !old(self).panes.has_pane(pane)
                ==> r == Err::<Frame, ControllerError>(ControllerError::Pane(PaneError::NoSuchPane)),
            !old(self).closed && bytes@.len() <= MAX_PLAINTEXT && old(self).panes.has_pane(pane)
                && old(self).panes.pane(pane).closed ==> r == Err::<Frame, ControllerError>(
                ControllerError::Pane(PaneError::PaneClosed),
            ),
            !old(self).closed && bytes@.len() <= MAX_PLAINTEXT && old(self).panes.has_pane(pane)
                && !old(self).panes.pane(pane).closed && old(self).panes.pane(pane).seq + bytes@.len()
                > u64::MAX ==> r == Err::<Frame, ControllerError>(
                ControllerError::Pane(PaneError::SequenceOverflow),
            ),
            !old(self).closed && bytes@.len() <= MAX_PLAINTEXT && old(self).panes.has_pane(pane)
                && !old(self).panes.pane(pane).closed && old(self).panes.pane(pane).seq + bytes@.len()
                <= u64::MAX ==> {
                let s = old(self).panes.pane(pane).seq;
                &&& r matches Ok(f)
                &&& f.pane_id == pane && f.seq == s && f.kind == FrameKind::Output
                &&& f.payload@ == gcm_sealed(old(self).key@, nonce_of(OUTBOUND, pane, s), bytes@)
                &&& old(self).panes.others_kept(&final(self).panes, pane)
                &&& appended(old(self).panes.pane(pane), final(self).panes.pane(pane), bytes@)
            },
            final(self).key == old(self).key,
            final(self).closed == old(self).closed,
    {
        if self.closed {
            return Err(ControllerError::Closed);
        }
        if bytes.len() as u64 > MAX_PLAINTEXT {
            return Err(ControllerError::Crypto(CryptoError::TooLong));
        }
        let before = match self.panes.sequence(pane) {
            Some(s) => s,
            None => return Err(ControllerError::Pane(PaneError::NoSuchPane)),
        };
        match self.panes.append_output(pane, bytes) {
            Err(e) => Err(ControllerError::Pane(e)),
            Ok(_) => match self.key.encrypt(OUTBOUND, pane, before, bytes) {
                Ok(payload) => Ok(Frame { pane_id: pane, seq: before, kind: FrameKind::Output, payload }),
                Err(e) => Err(ControllerError::Crypto(e)),
            },
        }
    }
    /// Counts a frame that did not authenticate.
    fn auth_failed(&mut self) -> (r: Inbound)
        ensures
            final(self).auth_failures == (if old(self).auth_failures == u32::MAX {
                u32::MAX as int
            } else {
                old(self).auth_failures + 1
            }),
            r == (if final(self).auth_failures >= MAX_AUTH_FAILURES { Inbound::Fatal } else { Inbound::AuthFailed }),
            final(self).panes == old(self).panes,
            final(self).key == old(self).key,
            final(self).closed == old(self).closed,
            final(self).link == old(self).link,
    {
        if self.auth_failures < u32::MAX {
            self.auth_failures = self.auth_failures + 1;
        }
        if self.auth_failures >= MAX_AUTH_FAILURES {
            Inbound::Fatal
        } else {
            Inbound::AuthFailed
        }
    }

    /// Applies a frame from the relay, sent by a viewer holding
    /// `permission`. Sealed payloads are opened first; one that does not
    /// open is discarded and counted, and too many of those in a row are
    /// fatal. Keystrokes and resizes reach the pane store only from writers.
    pub fn handle_inbound(&mut self, frame: &Frame, permission: Permission) -> (r: Inbound)
        requires
            old(self).wf(),
        ensures
            final(self).wf(),
            final(self).key == old(self).key,
            final(self).closed == old(self).closed,
            old(self).closed ==> r == Inbound::Ignored && final(self).panes == old(self).panes,
            r == Inbound::Applied && (frame.kind == FrameKind::Input || frame.kind == FrameKind::Resize)
                ==> permission == Permission::Write,
            permission != Permission::Write ==> final(self).panes == old(self).panes,
            frame.kind == FrameKind::Close && !old(self).closed ==> r == Inbound::ServerClosed,
            (r == Inbound::AuthFailed || r == Inbound::Fatal) ==> final(self).panes == old(self).panes
                && final(self).auth_failures >= 1,
            !old(self).closed && (frame.kind == FrameKind::Input || frame.kind == FrameKind::Resize)
                && (r == Inbound::AuthFailed || r == Inbound::Fatal) ==> (forall|p: Seq<u8>|
                p.len() <= MAX_PLAINTEXT ==> frame.payload@ != #[trigger] gcm_sealed(
                    old(self).key@,
                    nonce_of(INBOUND, frame.pane_id, frame.seq),
                    p,
                )),
            forall|p: Seq<u8>|
                !old(self).closed && frame.kind == FrameKind::Input && p.len() <= MAX_PLAINTEXT
                    && frame.payload@ == #[trigger] gcm_sealed(
                    old(self).key@,
                    nonce_of(INBOUND, frame.pane_id, frame.seq),
                    p,
                ) ==> {
                    &&& final(self).auth_failures == 0
                    &&& (permission != Permission::Write ==> r == Inbound::Dropped(PaneError::PermissionDenied))
                    &&& (permission == Permission::Write && old(self).panes.has_pane(frame.pane_id)
                        && !old(self).panes.pane(frame.pane_id).closed ==> r == Inbound::Applied
                        && final(self).panes.pane(frame.pane_id).input@ == old(self).panes.pane(
                        frame.pane_id,
                    ).input@ + p)
                },
            forall|p: Seq<u8>|
                !old(self).closed && frame.kind == FrameKind::Resize && p.len() <= MAX_PLAINTEXT
                    && frame.payload@ == #[trigger] gcm_sealed(
                    old(self).key@,
                    nonce_of(INBOUND, frame.pane_id, frame.seq),
                    p,
                ) ==> {
                    &&& final(self).auth_failures == 0
                    &&& (resize_of(p) is None ==> r == Inbound::Ignored)
                    &&& (resize_of(p) is Some && permission != Permission::Write ==> r
                        == Inbound::Dropped(PaneError::PermissionDenied))
                    &&& (resize_of(p) is Some && permission == Permission::Write
                        && old(self).panes.has_pane(frame.pane_id) && !old(self).panes.pane(
                        frame.pane_id,
                    ).closed ==> r == Inbound::Applied && final(self).panes.pane(frame.pane_id).rows
                        == resize_of(p).unwrap().0 && final(self).panes.pane(frame.pane_id).cols
                        == resize_of(p).unwrap().1)
                },
            !old(self).closed && frame.kind == FrameKind::Heartbeat ==> r == Inbound::Applied
                && final(self).link == crate::transport::step_spec(old(self).link, LinkEvent::Stable, 0).0
                && final(self).panes == old(self).panes,
    {
        if self.closed {
            return Inbound::Ignored;
        }
        match frame.kind {
            FrameKind::Input => {
                match self.key.decrypt(INBOUND, frame.pane_id, frame.seq, frame.payload.as_slice()) {
                    Err(_) => self.auth_failed(),
                    Ok(p) => {
                        self.auth_failures = 0;
                        match self.panes.apply_input(frame.pane_id, p.as_slice(), permission) {
                            Ok(()) => Inbound::Applied,
                            Err(e) => Inbound::Dropped(e),
                        }
                    },
                }
            },
            FrameKind::Resize => {
                match self.key.decrypt(INBOUND, frame.pane_id, frame.seq, frame.payload.as_slice()) {
                    Err(_) => self.auth_failed(),
                    Ok(p) => {
                        self.auth_failures = 0;
                        match parse_resize(&p) {
                            None => Inbound::Ignored,
                            Some((rows, cols)) => match self.panes.resize(frame.pane_id, rows, cols, permission) {
                                Ok(()) => Inbound::Applied,
                                Err(e) => Inbound::Dropped(e),
                            },
                        }
                    },
                }
            },
            FrameKind::Heartbeat => {
                let _ = self.link.step(LinkEvent::Stable, 0);
                Inbound::Applied
            },
            FrameKind::Close => Inbound::ServerClosed,
            _ => Inbound::Ignored,
        }
    }

    /// Feeds an event of the relay connection to the link state machine and
    /// returns what to do next (see `step_spec`).
    pub fn on_link_event(&mut self, e: LinkEvent, jitter: u64) -> (r: LinkAction)
        ensures
            (final(self).link, r) == crate::transport::step_spec(old(self).link, e, jitter as nat),
            final(self).panes == old(self).panes,
            final(self).key == old(self).key,
            final(self).closed == old(self).closed,
            final(self).config == old(self).config,
    {
        self.link.step(e, jitter)
    }

    /// What to resend of pane `pane` after a reconnect, once the relay has
    /// acknowledged its first `acked` bytes: history before that is dropped,
    /// and the rest is sealed into one resend frame starting where the kept
    /// history starts. Its payload is the resend counter (8 bytes,
    /// little-endian) and then the sealing under a nonce made from that
    /// counter, which no other payload of the session uses.
    pub fn resume(&mut self, pane: u32, acked: u64) -> (r: Result<Frame, ControllerError>)
        requires
            old(self).wf(),
        ensures
            final(self).wf(),
            final(self).key == old(self).key,
            final(self).closed == old(self).closed,
            !old(self).panes.has_pane(pane) && old(self).resends < u64::MAX ==> r == Err::<
                Frame,
                ControllerError,
            >(ControllerError::Pane(PaneError::NoSuchPane)) && final(self).panes == old(self).panes,
            old(self).resends == u64::MAX ==> r == Err::<Frame, ControllerError>(
                ControllerError::ResendsExhausted,
            ) && final(self).panes == old(self).panes,
            old(self).panes.has_pane(pane) && old(self).resends < u64::MAX ==> {
                let p = old(self).panes.pane(pane);
                let q = final(self).panes.pane(pane);
                let c = old(self).resends;
                &&& crate::pane::acked(p, q, acked as nat)
                &&& old(self).panes.others_kept(&final(self).panes, pane)
                &&& final(self).resends == c + 1
                &&& (r matches Ok(f) && f.pane_id == pane && f.seq == q.start && f.kind
                    == FrameKind::Resend && f.payload@ == le_bytes(c as nat, 8) + gcm_sealed(
                    old(self).key@,
                    nonce_of(RESEND, pane, c),
                    q.log@,
                ))
            },
    {
        if self.resends == u64::MAX {
            return Err(ControllerError::ResendsExhausted);
        }
        match self.panes.acknowledge(pane, acked) {
            Err(e) => Err(ControllerError::Pane(e)),
            Ok(()) => {
                let start = match self.panes.start_of(pane) {
                    Some(s) => s,
                    None => return Err(ControllerError::Pane(PaneError::NoSuchPane)),
                };
                let rest = match self.panes.snapshot_from(pane, start) {
                    Ok(v) => v,
                    Err(e) => return Err(ControllerError::Pane(e)),
                };
                if rest.len() as u64 > MAX_PLAINTEXT {
                    return Err(ControllerError::Crypto(CryptoError::TooLong));
                }
                let c = self.resends;
                self.resends = c + 1;
                match self.key.encrypt(RESEND, pane, c, rest.as_slice()) {
                    Ok(sealed) => {
                        let mut payload: Vec<u8> = Vec::new();
                        push_le(&mut payload, c, 8);
                        let mut sealed = sealed;
                        payload.append(&mut sealed);
                        Ok(Frame { pane_id: pane, seq: start, kind: FrameKind::Resend, payload })
                    },
                    Err(e) => Err(ControllerError::Crypto(e)),
                }
            },
        }
    }
    /// Ends the session: the link moves towards `Closed` (see `step_spec`
    /// for `CloseRequested`). A second call changes nothing.
    pub fn close(&mut self) -> (r: LinkAction)
        requires
            old(self).wf(),
        ensures
            final(self).wf(),
            final(self).closed,
            old(self).closed ==> r == LinkAction::Nothing && final(self).link == old(self).link,
            !old(self).closed ==> (final(self).link, r) == crate::transport::step_spec(
                old(self).link,
                LinkEvent::CloseRequested,
                0,
            ),
            final(self).panes == old(self).panes,
    {
        if self.closed {
            return LinkAction::Nothing;
        }
        self.closed = true;
        self.link.step(LinkEvent::CloseRequested, 0)
    }

    /// The runner of pane `pane` exited: the pane is closed. Returns whether
    /// no pane is left open, in which case the session is over.
    pub fn runner_exited(&mut self, pane: u32) -> (r: Result<bool, ControllerError>)
        requires
            old(self).wf(),
        ensures
            final(self).wf(),
            final(self).key == old(self).key,
            final(self).closed == old(self).closed,
            !old(self).panes.has_pane(pane) ==> r == Err::<bool, ControllerError>(
                ControllerError::Pane(PaneError::NoSuchPane),
            ),
            old(self).panes.has_pane(pane) ==> {
                &&& final(self).panes.pane(pane).closed
                &&& old(self).panes.others_kept(&final(self).panes, pane)
                &&& r == Ok::<bool, ControllerError>(
                    !exists|i: int|
                        0 <= i < final(self).panes.panes@.len() && !(
                        #[trigger] final(self).panes.panes@[i]).closed,
                )
            },
    {
        match self.panes.close_pane(pane) {
            Err(e) => Err(ControllerError::Pane(e)),
            Ok(()) => Ok(!self.panes.any_open()),
        }
    }
}

/// The payload of the registration frame: the write-protection flag (1 or
/// 0), the name, a newline and the requested base path, as UTF-8.
pub open spec fn register_payload_spec(name: Seq<u8>, base_path: Seq<u8>, write_protected: bool) -> Seq<u8> {
    seq![if write_protected { 1u8 } else { 0u8 }] + name + seq![10u8] + base_path
}

fn push_bytes(out: &mut Vec<u8>, src: &[u8])
    ensures
        final(out)@ == old(out)@ + src@,
{
    let mut i: usize = 0;
    while i < src.len()
        invariant
            i <= src@.len(),
            out@ == old(out)@ + src@.subrange(0, i as int),
        decreases src@.len() - i,
    {
        out.push(src[i]);
        i = i + 1;
        assert(src@.subrange(0, i as int) =~= src@.subrange(0, i - 1 as int).push(src@[i - 1]));
    }
    assert(src@.subrange(0, i as int) =~= src@);
}

/// The frame that registers a session with the relay. It carries no
/// secret: the relay learns only the name, the base path and whether
/// writing is protected.
pub fn register_frame(config: &SessionConfig) -> (r: Frame)
    ensures
        r.kind == FrameKind::Register,
        r.pane_id == 0,
        r.seq == 0,
        r.payload@ == register_payload_spec(
            encode_utf8(config.name@),
            encode_utf8(config.base_path@),
            config.write_password is Some,
        ),
{
    let mut payload: Vec<u8> = Vec::new();
    payload.push(if config.write_password.is_some() { 1u8 } else { 0u8 });
    push_bytes(&mut payload, config.name.as_str().as_bytes());
    payload.push(10u8);
    push_bytes(&mut payload, config.base_path.as_str().as_bytes());
    assert(payload@ =~= register_payload_spec(
        encode_utf8(config.name@),
        encode_utf8(config.base_path@),
        config.write_password is Some,
    ));
    Frame { pane_id: 0, seq: 0, kind: FrameKind::Register, payload }
}

/// Splits the relay's registration reply at its first newline: the session
/// id before it, the granted base path after it (empty when there is none).
pub fn split_reply(p: &Vec<u8>) -> (r: (Vec<u8>, Vec<u8>))
    ensures
        r.0@.len() <= p@.len(),
        r.0@ == p@.subrange(0, r.0@.len() as int),
        forall|j: int| 0 <= j < r.0@.len() ==> p@[j] != 10u8,
        r.0@.len() < p@.len() ==> p@[r.0@.len() as int] == 10u8 && r.1@ == p@.subrange(
            r.0@.len() + 1 as int,
            p@.len() as int,
        ),
        r.0@.len() == p@.len() ==> r.1@.len() == 0,
{
    let mut i: usize = 0;
    let mut id: Vec<u8> = Vec::new();
    while i < p.len() && p[i] != 10u8
        invariant
            i <= p@.len(),
            id@ == p@.subrange(0, i as int),
            forall|j: int| 0 <= j < i ==> p@[j] != 10u8,
        decreases p@.len() - i,
    {
        id.push(p[i]);
        i = i + 1;
        assert(id@ =~= p@.subrange(0, i as int));
    }
    let mut rest: Vec<u8> = Vec::new();
    if i < p.len() {
        let mut k: usize = i + 1;
        while k < p.len()
            invariant
                i < k <= p@.len(),
                rest@ == p@.subrange(i + 1, k as int),
            decreases p@.len() - k,
        {
            rest.push(p[k]);
            k = k + 1;
            assert(rest@ =~= p@.subrange(i + 1, k as int));
        }
    }
    (id, rest)
}

/// A session started without a secret gets a generated key, and its url
/// carries that key, non-empty, as the fragment after the link.
pub proof fn lemma_url_fragment_is_key(link: Seq<char>, key: Seq<char>)
    requires
        key.len() == SECRET_LEN,
    ensures
        key.len() > 0,
        url_of(link, key).subrange(0, link.len() as int) == link,
        url_of(link, key)[link.len() as int] == '#',
        url_of(link, key).subrange(link.len() + 1 as int, url_of(link, key).len() as int) == key,
{
    reveal_strlit("#");
    let u = url_of(link, key);
    assert(u.subrange(0, link.len() as int) =~= link);
    assert(u.subrange(link.len() + 1 as int, u.len() as int) =~= key);
}

/// A generated write password is non-empty and never equal to a generated
/// encryption key.
pub proof fn lemma_generated_secrets_differ(key: Seq<char>, password: Seq<char>)
    requires
        key.len() == SECRET_LEN,
        password.len() == PASSWORD_LEN,
    ensures
        password.len() > 0,
        password != key,
{
}

} // verus!
