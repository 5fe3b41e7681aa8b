use vstd::prelude::*;

use crate::crypto::{le_bytes, lemma_le_bytes_len, push_le};

verus! {

/// Bytes of a frame before its payload, after the length prefix: pane id
/// (4), sequence number (8) and kind (1).
pub const HEADER_LEN: usize = 13;

/// Largest payload a frame may carry.
pub const MAX_PAYLOAD: usize = 16777216;

/// What a frame carries.
#[derive(Clone, Copy, Debug, PartialEq, Eq, Structural)]
pub enum FrameKind {
    Output,
    Input,
    Resize,
    Register,
    Heartbeat,
    Close,
    ViewerEvent,
    /// Retained output sent again after a reconnect.
    Resend,
}

/// One message between the controller and the relay. The relay sees the
/// pane, sequence number and kind; the payload is sealed.
pub struct Frame {
    pub pane_id: u32,
    pub seq: u64,
    pub kind: FrameKind,
    pub payload: Vec<u8>,
}

pub open spec fn kind_tag(k: FrameKind) -> u8 {
    match k {
        FrameKind::Output => 0,
        FrameKind::Input => 1,
        FrameKind::Resize => 2,
        FrameKind::Register => 3,
        FrameKind::Heartbeat => 4,
        FrameKind::Close => 5,
        FrameKind::ViewerEvent => 6,
        FrameKind::Resend => 7,
    }
}

pub open spec fn kind_of_tag(t: u8) -> Option<FrameKind> {
    if t == 0 {
        Some(FrameKind::Output)
    } else if t == 1 {
        Some(FrameKind::Input)
    } else if t == 2 {
        Some(FrameKind::Resize)
    } else if t == 3 {
        Some(FrameKind::Register)
    } else if t == 4 {
        Some(FrameKind::Heartbeat)
    } else if t == 5 {
        Some(FrameKind::Close)
    } else if t == 6 {
        Some(FrameKind::ViewerEvent)
    } else if t == 7 {
        Some(FrameKind::Resend)
    } else {
        None
    }
}

fn tag(k: FrameKind) -> (r: u8)
    ensures
        r == kind_tag(k),
{
    match k {
        FrameKind::Output => 0,
        FrameKind::Input => 1,
        FrameKind::Resize => 2,
        FrameKind::Register => 3,
        FrameKind::Heartbeat => 4,
        FrameKind::Close => 5,
        FrameKind::ViewerEvent => 6,
        FrameKind::Resend => 7,
    }
}

fn kind_from(t: u8) -> (r: Option<FrameKind>)
    ensures
        r == kind_of_tag(t),
{
    if t == 0 {
        Some(FrameKind::Output)
    } else if t == 1 {
        Some(FrameKind::Input)
    } else if t == 2 {
        Some(FrameKind::Resize)
    } else if t == 3 {
        Some(FrameKind::Register)
    } else if t == 4 {
        Some(FrameKind::Heartbeat)
    } else if t == 5 {
        Some(FrameKind::Close)
    } else if t == 6 {
        Some(FrameKind::ViewerEvent)
    } else if t == 7 {
        Some(FrameKind::Resend)
    } else {
        None
    }
}

/// The number a little-endian byte string stands for.
pub open spec fn from_le(s: Seq<u8>) -> nat
    decreases s.len(),
{
    if s.len() == 0 {
        0
    } else {
        (s[0] + 256 * from_le(s.drop_first())) as nat
    }
}

pub open spec fn pow256(n: nat) -> nat
    decreases n,
{
    if n == 0 {
        1
    } else {
        256 * pow256((n - 1) as nat)
    }
}

pub proof fn lemma_from_le_bytes(x: nat, n: nat)
    requires
        x < pow256(n),
    ensures
        from_le(le_bytes(x, n)) == x,
    decreases n,
{
    if n > 0 {
        lemma_le_bytes_len(x, n);
        assert(x / 256 < pow256((n - 1) as nat)) by (nonlinear_arith)
            requires
                x < 256 * pow256((n - 1) as nat),
        ;
        lemma_from_le_bytes(x / 256, (n - 1) as nat);
        assert(le_bytes(x, n).drop_first() =~= le_bytes(x / 256, (n - 1) as nat));
    }
}

pub proof fn lemma_pow256_facts()
    ensures
        pow256(4) == 4294967296,
        pow256(8) == 18446744073709551616,
{
    reveal_with_fuel(pow256, 9);
}

/// The wire form of a frame: the length of the rest (4 bytes), the pane id
/// (4), the sequence number (8), the kind (1) and the payload; numbers are
/// little-endian.
pub open spec fn encoding(pane_id: u32, seq: u64, kind: FrameKind, payload: Seq<u8>) -> Seq<u8> {
    le_bytes((HEADER_LEN + payload.len()) as nat, 4) + le_bytes(pane_id as nat, 4) + le_bytes(
        seq as nat,
        8,
    ) + seq![kind_tag(kind)] + payload
}

impl Frame {
    pub open spec fn wire(&self) -> Seq<u8> {
        encoding(self.pane_id, self.seq, self.kind, self.payload@)
    }

    /// Writes the frame in its wire form.
    pub fn encode(&self) -> (r: Vec<u8>)
        requires
            self.payload@.len() <= MAX_PAYLOAD,
        ensures
            r@ == self.wire(),
    {
        let mut out: Vec<u8> = Vec::new();
        push_le(&mut out, (HEADER_LEN + self.payload.len()) as u64, 4);
        push_le(&mut out, self.pane_id as u64, 4);
        push_le(&mut out, self.seq, 8);
        out.push(tag(self.kind));
        let mut i: usize = 0;
        let ghost head = out@;
        while i < self.payload.len()
            invariant
                i <= self.payload@.len(),
                out@ == head + self.payload@.subrange(0, i as int),
            decreases self.payload@.len() - i,
        {
            out.push(self.payload[i]);
            i = i + 1;
            assert(self.payload@.subrange(0, i as int) =~= self.payload@.subrange(0, i - 1 as int).push(
                self.payload@[i - 1],
            ));
        }
        assert(self.payload@.subrange(0, i as int) =~= self.payload@);
        out
    }
}

/// Reads the `n`-byte little-endian number at `off`.
fn read_le(buf: &Vec<u8>, off: usize, n: usize) -> (r: u64)
    requires
        n <= 8,
        off + n <= buf@.len(),
    ensures
        r as nat == from_le(buf@.subrange(off as int, off + n)),
{
    let total = buf.len();
    let mut r: u64 = 0;
    let mut i: usize = n;
    proof {
        lemma_pow256_facts();
        lemma_pow256_mono((n - i) as nat, 8);
    }
    while i > 0
        invariant
            i <= n <= 8,
            off + n <= buf@.len() == total,
            r as nat == from_le(buf@.subrange(off + i, off + n)),
            (r as nat) < pow256((n - i) as nat),
            pow256(8) == 18446744073709551616,
        decreases i,
    {
        i = i - 1;
        let b = buf[off + i];
        proof {
            lemma_pow256_mono((n - i) as nat, 8);
            let p = pow256((n - i - 1) as nat);
            assert(pow256((n - i) as nat) == 256 * p);
            assert(b + 256 * (r as nat) < 256 * p) by (nonlinear_arith)
                requires
                    (r as nat) < p,
                    b < 256,
            ;
            assert(buf@.subrange(off + i, off + n).drop_first() =~= buf@.subrange(off + i + 1, off + n));
        }
        r = b as u64 + 256 * r;
    }
    r
}

proof fn lemma_pow256_mono(a: nat, b: nat)
    requires
        a <= b,
    ensures
        pow256(a) <= pow256(b),
    decreases b,
{
    if a < b {
        lemma_pow256_mono(a, (b - 1) as nat);
    }
}

/// Why bytes from the relay do not form a frame.
#[derive(Clone, Copy, Debug, PartialEq, Eq, Structural)]
pub enum DecodeError {
    /// More bytes are needed.
    Incomplete,
    /// The length prefix is below the header size or over the limit.
    BadLength,
    /// The kind byte names no kind.
    BadKind,
}

/// Reads the frame at the start of `buf`, and how many bytes it took.
pub fn decode(buf: &Vec<u8>) -> (r: Result<(Frame, usize), DecodeError>)
    ensures
        r matches Ok((f, used)) ==> used <= buf@.len() && buf@.subrange(0, used as int) == f.wire()
            && f.payload@.len() <= MAX_PAYLOAD,
        r matches Err(DecodeError::BadKind) ==> buf@.len() >= 4 + HEADER_LEN && kind_of_tag(
            buf@[16],
        ) is None,
        r matches Err(DecodeError::Incomplete) ==> buf@.len() < 4 || buf@.len() < 4 + from_le(
            buf@.subrange(0, 4),
        ),
        r matches Err(DecodeError::BadLength) ==> buf@.len() >= 4 && (from_le(buf@.subrange(0, 4))
            < HEADER_LEN || from_le(buf@.subrange(0, 4)) > HEADER_LEN + MAX_PAYLOAD),
{
    if buf.len() < 4 {
        return Err(DecodeError::Incomplete);
    }
    let len = read_le(buf, 0, 4);
    if len < HEADER_LEN as u64 || len > (HEADER_LEN + MAX_PAYLOAD) as u64 {
        return Err(DecodeError::BadLength);
    }
    let len = len as usize;
    if buf.len() - 4 < len {
        return Err(DecodeError::Incomplete);
    }
    let pane_id = read_le(buf, 4, 4);
    let seq = read_le(buf, 8, 8);
    let kind = match kind_from(buf[16]) {
        Some(k) => k,
        None => return Err(DecodeError::BadKind),
    };
    proof {
        lemma_pow256_facts();
        lemma_from_le_bounded(buf@.subrange(4, 8));
    }
    let mut payload: Vec<u8> = Vec::new();
    let end = 4 + len;
    let mut k: usize = 17;
    while k < end
        invariant
            17 <= k <= end <= buf@.len(),
            payload@ == buf@.subrange(17, k as int),
        decreases end - k,
    {
        payload.push(buf[k]);
        k = k + 1;
        assert(payload@ =~= buf@.subrange(17, k as int));
    }
    let f = Frame { pane_id: pane_id as u32, seq, kind, payload };
    proof {
        let w = buf@.subrange(0, end as int);
        lemma_from_le_bounded(buf@.subrange(0, 4));
        lemma_le_of_from_le(buf@.subrange(0, 4));
        lemma_le_of_from_le(buf@.subrange(4, 8));
        lemma_le_of_from_le(buf@.subrange(8, 16));
        assert(kind_tag(kind) == buf@[16]);
        assert(w =~= f.wire());
    }
    Ok((f, end))
}

proof fn lemma_from_le_bounded(s: Seq<u8>)
    ensures
        from_le(s) < pow256(s.len()),
    decreases s.len(),
{
    if s.len() > 0 {
        lemma_from_le_bounded(s.drop_first());
        let p = pow256((s.len() - 1) as nat);
        let t = from_le(s.drop_first());
        assert(s[0] + 256 * t < 256 * p) by (nonlinear_arith)
            requires
                t < p,
                s[0] < 256,
        ;
    }
}

proof fn lemma_le_of_from_le(s: Seq<u8>)
    ensures
        le_bytes(from_le(s), s.len()) == s,
    decreases s.len(),
{
    if s.len() > 0 {
        lemma_le_of_from_le(s.drop_first());
        let t = from_le(s.drop_first());
        let x = from_le(s);
        assert(x % 256 == s[0] && x / 256 == t) by (nonlinear_arith)
            requires
                x == s[0] + 256 * t,
                s[0] < 256,
        ;
        assert(le_bytes(x, s.len()) =~= s);
    }
}

/// Decoding the wire form of a frame gives the frame back, and takes all
/// of the wire form.
pub proof fn lemma_decode_encoding(pane_id: u32, seq: u64, kind: FrameKind, payload: Seq<u8>)
    requires
        payload.len() <= MAX_PAYLOAD,
    ensures
        from_le(encoding(pane_id, seq, kind, payload).subrange(0, 4)) == HEADER_LEN + payload.len(),
        from_le(encoding(pane_id, seq, kind, payload).subrange(4, 8)) == pane_id,
        from_le(encoding(pane_id, seq, kind, payload).subrange(8, 16)) == seq,
        kind_of_tag(encoding(pane_id, seq, kind, payload)[16]) == Some(kind),
        encoding(pane_id, seq, kind, payload).subrange(17, 17 + payload.len() as int) == payload,
        encoding(pane_id, seq, kind, payload).len() == 17 + payload.len(),
{
    let e = encoding(pane_id, seq, kind, payload);
    let n = (HEADER_LEN + payload.len()) as nat;
    lemma_pow256_facts();
    lemma_le_bytes_len(n, 4);
    lemma_le_bytes_len(pane_id as nat, 4);
    lemma_le_bytes_len(seq as nat, 8);
    lemma_from_le_bytes(n, 4);
    lemma_from_le_bytes(pane_id as nat, 4);
    lemma_from_le_bytes(seq as nat, 8);
    assert(e.subrange(0, 4) =~= le_bytes(n, 4));
    assert(e.subrange(4, 8) =~= le_bytes(pane_id as nat, 4));
    assert(e.subrange(8, 16) =~= le_bytes(seq as nat, 8));
    assert(e.subrange(17, 17 + payload.len() as int) =~= payload);
}

} // verus!
