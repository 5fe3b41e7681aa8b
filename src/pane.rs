use vstd::prelude::*;

use crate::access::Permission;

verus! {

/// Bytes of output history kept per pane once trimming sets in.
pub const RETAIN_BYTES: u64 = 1048576;

/// Why an operation on the pane store was refused.
#[derive(Clone, Copy, Debug, PartialEq, Eq, Structural)]
pub enum PaneError {
    PermissionDenied,
    PaneClosed,
    NoSuchPane,
    SequenceOverflow,
    TooManyPanes,
}

/// One live terminal stream.
///
/// `seq` counts every output byte since the pane was created; `log` holds the
/// most recent of them, the first of which has sequence number `start`.
/// `input` holds viewer keystrokes not yet handed to the runner.
pub struct Pane {
    pub id: u32,
    pub rows: u16,
    pub cols: u16,
    pub seq: u64,
    pub start: u64,
    pub log: Vec<u8>,
    pub input: Vec<u8>,
    pub closed: bool,
}

impl Pane {
    pub open spec fn wf(&self) -> bool {
        &&& self.start + self.log@.len() == self.seq
        &&& self.log@.len() <= 2 * RETAIN_BYTES
    }
}

/// The history kept after `s` has been appended: once it exceeds twice the
/// retention size, only the newest `RETAIN_BYTES` bytes stay.
pub open spec fn retained(s: Seq<u8>) -> Seq<u8> {
    if s.len() > 2 * RETAIN_BYTES {
        s.subrange(s.len() - RETAIN_BYTES, s.len() as int)
    } else {
        s
    }
}

/// The bytes a viewer holding the first `s` bytes of the stream is missing,
/// as far as history is retained; a sequence number before the retained
/// history (0 in particular) yields the whole retained log.
pub open spec fn snapshot_spec(p: Pane, s: nat) -> Seq<u8> {
    if s <= p.start {
        p.log@
    } else if s >= p.seq {
        Seq::empty()
    } else {
        p.log@.subrange(s - p.start, p.log@.len() as int)
    }
}

/// `q` is `p` with its output stream advanced by `b`.
pub open spec fn appended(p: Pane, q: Pane, b: Seq<u8>) -> bool {
    &&& q.id == p.id
    &&& q.rows == p.rows
    &&& q.cols == p.cols
    &&& q.closed == p.closed
    &&& q.input@ == p.input@
    &&& q.seq == p.seq + b.len()
    &&& q.log@ == retained(p.log@ + b)
    &&& q.start + q.log@.len() == q.seq
}

/// `q` is `p` with the history before `upto` dropped, as far as it was emitted.
pub open spec fn acked(p: Pane, q: Pane, upto: nat) -> bool {
    &&& q.seq == p.seq
    &&& q.start == (if upto <= p.start { p.start as nat } else if upto >= p.seq { p.seq as nat } else { upto })
    &&& q.log@ == p.log@.subrange(q.start - p.start, p.log@.len() as int)
}

/// `q` is `p` with everything but the fields named by the flags unchanged.
pub open spec fn same_but(p: Pane, q: Pane, size: bool, input: bool, closed: bool, log: bool) -> bool {
    &&& q.id == p.id
    &&& (!size ==> q.rows == p.rows && q.cols == p.cols)
    &&& (!input ==> q.input@ == p.input@)
    &&& (!closed ==> q.closed == p.closed)
    &&& (!log ==> q.seq == p.seq && q.start == p.start && q.log@ == p.log@)
}

/// Copies `src` onto the end of `dst`.
fn push_all(dst: &mut Vec<u8>, src: &[u8])
    ensures
        final(dst)@ == old(dst)@ + src@,
{
    let mut i: usize = 0;
    while i < src.len()
        invariant
            i <= src@.len(),
            dst@ == old(dst)@ + src@.subrange(0, i as int),
        decreases src@.len() - i,
    {
        dst.push(src[i]);
        i = i + 1;
        assert(src@.subrange(0, i as int) =~= src@.subrange(0, i - 1 as int).push(src@[i - 1]));
    }
    assert(src@.subrange(0, i as int) =~= src@);
}

/// The set of live panes of one session.
pub struct PaneStore {
    pub panes: Vec<Pane>,
    pub next_id: u32,
}

impl PaneStore {
    pub open spec fn wf(&self) -> bool {
        &&& forall|i: int| 0 <= i < self.panes@.len() ==> (#[trigger] self.panes@[i]).wf()
        &&& forall|i: int| 0 <= i < self.panes@.len() ==> (#[trigger] self.panes@[i]).id < self.next_id
        &&& forall|i: int, j: int|
            0 <= i < j < self.panes@.len() ==> (#[trigger] self.panes@[i]).id < (#[trigger] self.panes@[j]).id
    }

    pub open spec fn has_pane(&self, id: u32) -> bool {
        exists|i: int| 0 <= i < self.panes@.len() && (#[trigger] self.panes@[i]).id == id
    }

    /// Where the pane `id` stands (meaningful when `has_pane(id)`).
    pub open spec fn index_of(&self, id: u32) -> int {
        choose|i: int| 0 <= i < self.panes@.len() && (#[trigger] self.panes@[i]).id == id
    }

    pub open spec fn pane(&self, id: u32) -> Pane {
        self.panes@[self.index_of(id)]
    }

    /// `new` differs from `self` at most in the pane `id`.
    pub open spec fn others_kept(&self, new: &PaneStore, id: u32) -> bool {
        &&& new.next_id == self.next_id
        &&& new.panes@.len() == self.panes@.len()
        &&& forall|j: int|
            0 <= j < self.panes@.len() && j != self.index_of(id) ==> new.panes@[j] == self.panes@[j]
        &&& new.panes@[self.index_of(id)].id == id
        &&& new.has_pane(id)
        &&& new.index_of(id) == self.index_of(id)
    }

    pub fn new() -> (r: PaneStore)
        ensures
            r.wf(),
            r.panes@.len() == 0,
            r.next_id == 1,
    {
        PaneStore { panes: Vec::new(), next_id: 1 }
    }

    proof fn lemma_index_unique(&self, id: u32, i: int)
        requires
            self.wf(),
            0 <= i < self.panes@.len(),
            self.panes@[i].id == id,
        ensures
            self.has_pane(id),
            self.index_of(id) == i,
    {
        let k = self.index_of(id);
        if k != i {
            if k < i {
                assert(self.panes@[k].id < self.panes@[i].id);
            } else {
                assert(self.panes@[i].id < self.panes@[k].id);
            }
        }
    }

    fn position(&self, id: u32) -> (r: Option<usize>)
        requires
            self.wf(),
        ensures
            r is None <==> !self.has_pane(id),
            r matches Some(i) ==> i == self.index_of(id) && i < self.panes@.len(),
    {
        let mut i: usize = 0;
        while i < self.panes.len()
            invariant
                self.wf(),
                i <= self.panes@.len(),
                forall|j: int| 0 <= j < i ==> (#[trigger] self.panes@[j]).id != id,
            decreases self.panes@.len() - i,
        {
            if self.panes[i].id == id {
                proof { self.lemma_index_unique(id, i as int); }
                return Some(i);
            }
            i = i + 1;
        }
        None
    }

    /// Puts `p` back at index `i`, where the pane with its id was taken out.
    fn put_back(&mut self, i: usize, p: Pane, Ghost(before): Ghost<PaneStore>)
        requires
            before.wf(),
            i < before.panes@.len(),
            old(self).panes@ == before.panes@.remove(i as int),
            old(self).next_id == before.next_id,
            p.id == before.panes@[i as int].id,
            p.wf(),
        ensures
            final(self).panes@ == before.panes@.update(i as int, p),
            final(self).next_id == before.next_id,
            final(self).wf(),
    {
        self.panes.insert(i, p);
        assert(self.panes@ =~= before.panes@.update(i as int, p));
    }

    /// Starts a new pane of the given size; ids are handed out in increasing order.
    pub fn create_pane(&mut self, rows: u16, cols: u16) -> (r: Result<u32, PaneError>)
        requires
            old(self).wf(),
        ensures
            final(self).wf(),
            old(self).next_id == u32::MAX ==> r == Err::<u32, PaneError>(PaneError::TooManyPanes)
                && *final(self) == *old(self),
            old(self).next_id < u32::MAX ==> r == Ok::<u32, PaneError>(old(self).next_id) && {
                let p = final(self).panes@.last();
                &&& final(self).next_id == old(self).next_id + 1
                &&& final(self).panes@.len() == old(self).panes@.len() + 1
                &&& final(self).panes@.subrange(0, old(self).panes@.len() as int) == old(self).panes@
                &&& p.id == old(self).next_id && p.rows == rows && p.cols == cols
                &&& p.seq == 0 && p.start == 0 && p.log@.len() == 0 && p.input@.len() == 0
                &&& !p.closed
            },
    {
        if self.next_id == u32::MAX {
            return Err(PaneError::TooManyPanes);
        }
        let id = self.next_id;
        let p = Pane { id, rows, cols, seq: 0, start: 0, log: Vec::new(), input: Vec::new(), closed: false };
        self.panes.push(p);
        self.next_id = id + 1;
        assert(self.panes@.subrange(0, old(self).panes@.len() as int) =~= old(self).panes@);
        Ok(id)
    }

    /// Appends a chunk of runner output to pane `id` and returns the pane's
    /// new sequence number: the count of bytes it has emitted.
    pub fn append_output(&mut self, id: u32, bytes: &[u8]) -> (r: Result<u64, PaneError>)
        requires
            old(self).wf(),
        ensures
            final(self).wf(),
            !old(self).has_pane(id) ==> r == Err::<u64, PaneError>(PaneError::NoSuchPane),
            old(self).has_pane(id) && old(self).pane(id).closed ==> r == Err::<u64, PaneError>(
                PaneError::PaneClosed,
            ),
            old(self).has_pane(id) && !old(self).pane(id).closed && old(self).pane(id).seq
                + bytes@.len() > u64::MAX ==> r == Err::<u64, PaneError>(PaneError::SequenceOverflow),
            r is Err ==> *final(self) == *old(self),
            old(self).has_pane(id) && !old(self).pane(id).closed && old(self).pane(id).seq
                + bytes@.len() <= u64::MAX ==> {
                &&& r == Ok::<u64, PaneError>((old(self).pane(id).seq + bytes@.len()) as u64)
                &&& old(self).others_kept(&*final(self), id)
                &&& appended(old(self).pane(id), final(self).pane(id), bytes@)
            },
    {
        let i = match self.position(id) {
            None => return Err(PaneError::NoSuchPane),
            Some(i) => i,
        };
        if self.panes[i].closed {
            return Err(PaneError::PaneClosed);
        }
        if self.panes[i].seq > u64::MAX - bytes.len() as u64 {
            return Err(PaneError::SequenceOverflow);
        }
        let ghost before = *self;
        let mut p = self.panes.remove(i);
        let seq = p.seq + bytes.len() as u64;
        push_all(&mut p.log, bytes);
        if p.log.len() > 2 * RETAIN_BYTES as usize {
            let cut = p.log.len() - RETAIN_BYTES as usize;
            let tail = p.log.split_off(cut);
            p.log = tail;
        }
        p.seq = seq;
        p.start = seq - p.log.len() as u64;
        self.put_back(i, p, Ghost(before));
        proof { self.lemma_index_unique(id, i as int); }
        Ok(seq)
    }

    /// Forwards viewer keystrokes to pane `id`; only a writer may do so.
    pub fn apply_input(&mut self, id: u32, bytes: &[u8], permission: Permission) -> (r: Result<(), PaneError>)
        requires
            old(self).wf(),
        ensures
            final(self).wf(),
            permission != Permission::Write ==> r == Err::<(), PaneError>(PaneError::PermissionDenied),
            permission == Permission::Write && !old(self).has_pane(id) ==> r == Err::<(), PaneError>(
                PaneError::NoSuchPane,
            ),
            permission == Permission::Write && old(self).has_pane(id) && old(self).pane(id).closed
                ==> r == Err::<(), PaneError>(PaneError::PaneClosed),
            r is Err ==> *final(self) == *old(self),
            permission == Permission::Write && old(self).has_pane(id) && !old(self).pane(id).closed
                ==> {
                &&& r is Ok
                &&& old(self).others_kept(&*final(self), id)
                &&& same_but(old(self).pane(id), final(self).pane(id), false, true, false, false)
                &&& final(self).pane(id).input@ == old(self).pane(id).input@ + bytes@
            },
    {
        if permission != Permission::Write {
            return Err(PaneError::PermissionDenied);
        }
        let i = match self.position(id) {
            None => return Err(PaneError::NoSuchPane),
            Some(i) => i,
        };
        if self.panes[i].closed {
            return Err(PaneError::PaneClosed);
        }
        let ghost before = *self;
        let mut p = self.panes.remove(i);
        push_all(&mut p.input, bytes);
        self.put_back(i, p, Ghost(before));
        proof { self.lemma_index_unique(id, i as int); }
        Ok(())
    }

    /// Changes the size of pane `id`; only a writer may do so.
    pub fn resize(&mut self, id: u32, rows: u16, cols: u16, permission: Permission) -> (r: Result<(), PaneError>)
        requires
            old(self).wf(),
        ensures
            final(self).wf(),
            permission != Permission::Write ==> r == Err::<(), PaneError>(PaneError::PermissionDenied),
            permission == Permission::Write && !old(self).has_pane(id) ==> r == Err::<(), PaneError>(
                PaneError::NoSuchPane,
            ),
            permission == Permission::Write && old(self).has_pane(id) && old(self).pane(id).closed
                ==> r == Err::<(), PaneError>(PaneError::PaneClosed),
            r is Err ==> *final(self) == *old(self),
            permission == Permission::Write && old(self).has_pane(id) && !old(self).pane(id).closed
                ==> {
                &&& r is Ok
                &&& old(self).others_kept(&*final(self), id)
                &&& same_but(old(self).pane(id), final(self).pane(id), true, false, false, false)
                &&& final(self).pane(id).rows == rows && final(self).pane(id).cols == cols
            },
    {
        if permission != Permission::Write {
            return Err(PaneError::PermissionDenied);
        }
        let i = match self.position(id) {
            None => return Err(PaneError::NoSuchPane),
            Some(i) => i,
        };
        if self.panes[i].closed {
            return Err(PaneError::PaneClosed);
        }
        let ghost before = *self;
        let mut p = self.panes.remove(i);
        p.rows = rows;
        p.cols = cols;
        self.put_back(i, p, Ghost(before));
        proof { self.lemma_index_unique(id, i as int); }
        Ok(())
    }

    /// Marks pane `id` closed; closing a closed pane changes nothing.
    pub fn close_pane(&mut self, id: u32) -> (r: Result<(), PaneError>)
        requires
            old(self).wf(),
        ensures
            final(self).wf(),
            !old(self).has_pane(id) ==> r == Err::<(), PaneError>(PaneError::NoSuchPane)
                && *final(self) == *old(self),
            old(self).has_pane(id) ==> {
                &&& r is Ok
                &&& old(self).others_kept(&*final(self), id)
                &&& same_but(old(self).pane(id), final(self).pane(id), false, false, true, false)
                &&& final(self).pane(id).closed
            },
    {
        let i = match self.position(id) {
            None => return Err(PaneError::NoSuchPane),
            Some(i) => i,
        };
        let ghost before = *self;
        let mut p = self.panes.remove(i);
        p.closed = true;
        self.put_back(i, p, Ghost(before));
        proof { self.lemma_index_unique(id, i as int); }
        Ok(())
    }

    /// Hands the pending viewer input of pane `id` to the caller and clears it.
    pub fn take_input(&mut self, id: u32) -> (r: Result<Vec<u8>, PaneError>)
        requires
            old(self).wf(),
        ensures
            final(self).wf(),
            !old(self).has_pane(id) ==> r == Err::<Vec<u8>, PaneError>(PaneError::NoSuchPane)
                && *final(self) == *old(self),
            old(self).has_pane(id) ==> {
                &&& (r matches Ok(v) && v@ == old(self).pane(id).input@)
                &&& old(self).others_kept(&*final(self), id)
                &&& same_but(old(self).pane(id), final(self).pane(id), false, true, false, false)
                &&& final(self).pane(id).input@.len() == 0
            },
    {
        let i = match self.position(id) {
            None => return Err(PaneError::NoSuchPane),
            Some(i) => i,
        };
        let ghost before = *self;
        let mut p = self.panes.remove(i);
        let taken = p.input.split_off(0);
        self.put_back(i, p, Ghost(before));
        proof { self.lemma_index_unique(id, i as int); }
        Ok(taken)
    }

    /// Drops the history of pane `id` before sequence number `upto`, once the
    /// relay has acknowledged it; history not yet emitted is never dropped.
    pub fn acknowledge(&mut self, id: u32, upto: u64) -> (r: Result<(), PaneError>)
        requires
            old(self).wf(),
        ensures
            final(self).wf(),
            !old(self).has_pane(id) ==> r == Err::<(), PaneError>(PaneError::NoSuchPane)
                && *final(self) == *old(self),
            old(self).has_pane(id) ==> {
                let p = old(self).pane(id);
                let q = final(self).pane(id);
                &&& r is Ok
                &&& old(self).others_kept(&*final(self), id)
                &&& same_but(p, q, false, false, false, true)
                &&& acked(p, q, upto as nat)
            },
    {
        let i = match self.position(id) {
            None => return Err(PaneError::NoSuchPane),
            Some(i) => i,
        };
        let ghost before = *self;
        let mut p = self.panes.remove(i);
        let new_start = if upto <= p.start {
            p.start
        } else if upto >= p.seq {
            p.seq
        } else {
            upto
        };
        let cut = (new_start - p.start) as usize;
        let tail = p.log.split_off(cut);
        p.log = tail;
        p.start = new_start;
        self.put_back(i, p, Ghost(before));
        proof { self.lemma_index_unique(id, i as int); }
        Ok(())
    }

    /// The sequence number of pane `id`: the count of bytes it has emitted.
    pub fn sequence(&self, id: u32) -> (r: Option<u64>)
        requires
            self.wf(),
        ensures
            !self.has_pane(id) ==> r is None,
            self.has_pane(id) ==> r == Some(self.pane(id).seq),
    {
        match self.position(id) {
            None => None,
            Some(i) => Some(self.panes[i].seq),
        }
    }

    /// The sequence number of the oldest byte pane `id` retains.
    pub fn start_of(&self, id: u32) -> (r: Option<u64>)
        requires
            self.wf(),
        ensures
            !self.has_pane(id) ==> r is None,
            self.has_pane(id) ==> r == Some(self.pane(id).start),
    {
        match self.position(id) {
            None => None,
            Some(i) => Some(self.panes[i].start),
        }
    }

    /// Whether some pane is still open.
    pub fn any_open(&self) -> (r: bool)
        ensures
            r == exists|i: int| 0 <= i < self.panes@.len() && !(#[trigger] self.panes@[i]).closed,
    {
        let mut i: usize = 0;
        while i < self.panes.len()
            invariant
                i <= self.panes@.len(),
                forall|j: int| 0 <= j < i ==> (#[trigger] self.panes@[j]).closed,
            decreases self.panes@.len() - i,
        {
            if !self.panes[i].closed {
                return true;
            }
            i = i + 1;
        }
        false
    }

    /// The output of pane `id` that a viewer holding its first `s` bytes is
    /// missing (see `snapshot_spec`).
    pub fn snapshot_from(&self, id: u32, s: u64) -> (r: Result<Vec<u8>, PaneError>)
        requires
            self.wf(),
        ensures
            !self.has_pane(id) ==> r == Err::<Vec<u8>, PaneError>(PaneError::NoSuchPane),
            self.has_pane(id) ==> (r matches Ok(v) && v@ == snapshot_spec(self.pane(id), s as nat)),
    {
        let i = match self.position(id) {
            None => return Err(PaneError::NoSuchPane),
            Some(i) => i,
        };
        let p = &self.panes[i];
        let from: usize = if s <= p.start {
            0
        } else if s >= p.seq {
            p.log.len()
        } else {
            (s - p.start) as usize
        };
        let mut out: Vec<u8> = Vec::new();
        let mut k: usize = from;
        while k < p.log.len()
            invariant
                from <= k <= p.log@.len(),
                out@ == p.log@.subrange(from as int, k as int),
            decreases p.log@.len() - k,
        {
            out.push(p.log[k]);
            k = k + 1;
            assert(out@ =~= p.log@.subrange(from as int, k as int));
        }
        assert(out@ =~= snapshot_spec(*p, s as nat));
        Ok(out)
    }
}

/// Total length of a list of chunks.
pub open spec fn total_len(chunks: Seq<Seq<u8>>) -> nat
    decreases chunks.len(),
{
    if chunks.len() == 0 {
        0
    } else {
        total_len(chunks.drop_last()) + chunks.last().len()
    }
}

/// Along any run of appends, the sequence number after `k` chunks is the
/// starting one plus the bytes of those chunks, so with non-empty chunks the
/// numbers strictly increase and leave no gaps.
pub proof fn lemma_sequence_counts_bytes(states: Seq<Pane>, chunks: Seq<Seq<u8>>, k: int)
    requires
        states.len() == chunks.len() + 1,
        forall|i: int| 0 <= i < chunks.len() ==> appended(states[i], states[i + 1], #[trigger] chunks[i]),
        0 <= k <= chunks.len(),
    ensures
        states[k].seq == states[0].seq + total_len(chunks.subrange(0, k)),
        (forall|i: int| 0 <= i < chunks.len() ==> (#[trigger] chunks[i]).len() > 0) ==> (forall|i: int, j: int|
            0 <= i < j <= k ==> (#[trigger] states[i]).seq < (#[trigger] states[j]).seq),
    decreases k,
{
    if k > 0 {
        lemma_sequence_counts_bytes(states, chunks, k - 1);
        assert(appended(states[k - 1], states[k], chunks[k - 1]));
        assert(chunks.subrange(0, k).drop_last() =~= chunks.subrange(0, k - 1));
        if forall|i: int| 0 <= i < chunks.len() ==> (#[trigger] chunks[i]).len() > 0 {
            assert forall|i: int, j: int| 0 <= i < j <= k implies (#[trigger] states[i]).seq < (
            #[trigger] states[j]).seq by {
                if j < k {
                } else {
                    assert(chunks[k - 1].len() > 0);
                    if i < k - 1 {
                        assert(states[i].seq < states[k - 1].seq);
                    }
                }
            }
        }
    }
}

/// A viewer that resumes with the sequence number reached by its previous
/// snapshot gets exactly what was appended in between: nothing twice and
/// nothing skipped, as long as that history is still retained.
pub proof fn lemma_snapshots_do_not_overlap(p: Pane, q: Pane, b: Seq<u8>, s: nat)
    requires
        p.wf(),
        appended(p, q, b),
        q.start <= s,
        p.start <= s <= p.seq,
    ensures
        snapshot_spec(q, s + snapshot_spec(p, s).len()) == b,
        snapshot_spec(p, s) + b == snapshot_spec(q, s),
{
    let r1 = snapshot_spec(p, s);
    assert(s + r1.len() == p.seq);
    let all = p.log@ + b;
    if all.len() > 2 * RETAIN_BYTES {
        assert(q.log@ =~= all.subrange(all.len() - RETAIN_BYTES, all.len() as int));
    }
    assert(q.start == p.start + all.len() - q.log@.len());
    assert(snapshot_spec(q, p.seq as nat) =~= b);
    assert(r1 + b =~= snapshot_spec(q, s));
}

/// Without new output, a second snapshot from where the first one ended is
/// empty.
pub proof fn lemma_snapshot_then_nothing(p: Pane, s: nat)
    requires
        p.wf(),
        p.start <= s,
    ensures
        snapshot_spec(p, s + snapshot_spec(p, s).len()).len() == 0,
{
}

/// After the relay acknowledged the first `m` bytes of a stream of `n`
/// (`m <= n`), resuming from `m` sends exactly bytes `m..n`: nothing before
/// `m` is kept and nothing after it is skipped.
pub proof fn lemma_resume_after_ack(p: Pane, q: Pane, m: nat)
    requires
        p.wf(),
        acked(p, q, m),
        p.start <= m <= p.seq,
    ensures
        q.start == m,
        snapshot_spec(q, m) == p.log@.subrange(m - p.start, p.log@.len() as int),
        snapshot_spec(q, m).len() == p.seq - m,
{
}

} // verus!
