//! A session: what one device dictates and another types, piece by piece.
use crate::protocol::{Ack, Binding, BindingView, Phase, MAX_TEXT};
use crate::stable::{StableText, StableView};
use crate::text;
use std::collections::HashSet;
use vstd::prelude::*;

verus! {

/// The highest number of a piece.
pub const MAX_SEQUENCE: u64 = 4096;

/// The longest text of all pieces together, in bytes.
pub const MAX_SESSION_TEXT: u64 = 262144;

// ---------------------------------------------------------------- pieces

/// A piece of text: its number, what it says, and what became of it.
pub struct Chunk {
    pub sequence: u64,
    pub text: String,
    pub status: Ack,
    pub is_final: bool,
}

/// A piece of text, by its contents.
pub struct ChunkView {
    pub sequence: u64,
    pub text: Seq<char>,
    pub status: Ack,
    pub is_final: bool,
}

impl View for Chunk {
    type V = ChunkView;

    open spec fn view(&self) -> ChunkView {
        ChunkView { sequence: self.sequence, text: self.text@, status: self.status, is_final: self.is_final }
    }
}

/// What pieces hold.
pub open spec fn chunks_view(v: Seq<Chunk>) -> Seq<ChunkView> {
    Seq::new(v.len(), |i: int| v[i]@)
}

/// Whether pieces stand in the order of their numbers, each number once, every number
/// allowed and no text too long.
pub open spec fn ordered(chunks: Seq<ChunkView>) -> bool {
    &&& forall|i: int, j: int|
        0 <= i < j < chunks.len() ==> (#[trigger] chunks[i]).sequence < (#[trigger] chunks[j]).sequence
    &&& forall|i: int|
        0 <= i < chunks.len() ==> 1 <= (#[trigger] chunks[i]).sequence <= MAX_SEQUENCE && text::size(chunks[i].text)
            <= MAX_TEXT
}

/// The place of a number among the pieces.
pub open spec fn slot(chunks: Seq<ChunkView>, sequence: u64) -> nat
    decreases chunks.len(),
{
    if chunks.len() == 0 || chunks[0].sequence >= sequence {
        0
    } else {
        1 + slot(chunks.drop_first(), sequence)
    }
}

/// Whether there is a piece with the number.
pub open spec fn holds(chunks: Seq<ChunkView>, sequence: u64) -> bool {
    slot(chunks, sequence) < chunks.len() && chunks[slot(chunks, sequence) as int].sequence == sequence
}

/// The piece with the number.
pub open spec fn piece(chunks: Seq<ChunkView>, sequence: u64) -> ChunkView {
    chunks[slot(chunks, sequence) as int]
}

/// The pieces with another one, in its place, or instead of the one with its number.
pub open spec fn placed(chunks: Seq<ChunkView>, c: ChunkView) -> Seq<ChunkView> {
    let i = slot(chunks, c.sequence) as int;
    if holds(chunks, c.sequence) {
        chunks.update(i, c)
    } else {
        chunks.insert(i, c)
    }
}

/// The pieces with another status for the one at an index.
pub open spec fn marked(chunks: Seq<ChunkView>, i: int, status: Ack) -> Seq<ChunkView> {
    chunks.update(i, ChunkView { status, ..chunks[i] })
}

/// The bytes of the texts together.
pub open spec fn total(chunks: Seq<ChunkView>) -> nat
    decreases chunks.len(),
{
    if chunks.len() == 0 {
        0
    } else {
        total(chunks.drop_last()) + text::size(chunks.last().text)
    }
}

/// Whether some piece may or may not have been typed.
pub open spec fn any_unknown(chunks: Seq<ChunkView>) -> bool {
    exists|i: int| 0 <= i < chunks.len() && (#[trigger] chunks[i]).status == Ack::Unknown
}

/// Whether every piece has been typed.
pub open spec fn all_applied(chunks: Seq<ChunkView>) -> bool {
    forall|i: int| 0 <= i < chunks.len() ==> (#[trigger] chunks[i]).status == Ack::Applied
}

/// The pieces, with those that are under way in doubt.
pub open spec fn doubted(chunks: Seq<ChunkView>) -> Seq<ChunkView> {
    Seq::new(
        chunks.len(),
        |i: int|
            if chunks[i].status == Ack::Received {
                ChunkView { status: Ack::Unknown, ..chunks[i] }
            } else {
                chunks[i]
            },
    )
}

/// The numbers of the pieces that were not typed.
pub open spec fn not_applied(chunks: Seq<ChunkView>) -> Set<u64>
    decreases chunks.len(),
{
    if chunks.len() == 0 {
        Set::empty()
    } else if chunks.last().status == Ack::NotApplied {
        not_applied(chunks.drop_last()).insert(chunks.last().sequence)
    } else {
        not_applied(chunks.drop_last())
    }
}

/// The first number, from the given one, of which there is no piece that was typed.
pub open spec fn first_open(chunks: Seq<ChunkView>, from: u64) -> u64
    decreases MAX_SEQUENCE + 1 - from,
{
    if from <= MAX_SEQUENCE && holds(chunks, from) && piece(chunks, from).status == Ack::Applied {
        first_open(chunks, (from + 1) as u64)
    } else {
        from
    }
}

/// The place of a number parts the pieces with lower numbers from the others.
pub proof fn lemma_slot(chunks: Seq<ChunkView>, sequence: u64)
    ensures
        slot(chunks, sequence) <= chunks.len(),
        forall|i: int| 0 <= i < slot(chunks, sequence) ==> (#[trigger] chunks[i]).sequence < sequence,
        slot(chunks, sequence) < chunks.len() ==> chunks[slot(chunks, sequence) as int].sequence >= sequence,
    decreases chunks.len(),
{
    if chunks.len() > 0 && chunks[0].sequence < sequence {
        lemma_slot(chunks.drop_first(), sequence);
        assert forall|i: int| 0 <= i < slot(chunks, sequence) implies (#[trigger] chunks[i]).sequence < sequence by {
            if i > 0 {
                assert(chunks.drop_first()[i - 1] == chunks[i]);
            }
        }
    }
}

/// A piece stands in the place of its number.
pub proof fn lemma_slot_of(chunks: Seq<ChunkView>, i: int)
    requires
        ordered(chunks),
        0 <= i < chunks.len(),
    ensures
        slot(chunks, chunks[i].sequence) == i,
        holds(chunks, chunks[i].sequence),
{
    let s = slot(chunks, chunks[i].sequence) as int;
    lemma_slot(chunks, chunks[i].sequence);
    if s < i {
        assert(chunks[s].sequence < chunks[i].sequence);
    }
}

/// Pieces stay in order when one is placed.
pub proof fn lemma_placed(chunks: Seq<ChunkView>, c: ChunkView)
    requires
        ordered(chunks),
        1 <= c.sequence <= MAX_SEQUENCE,
        text::size(c.text) <= MAX_TEXT,
    ensures
        ordered(placed(chunks, c)),
{
    let i = slot(chunks, c.sequence) as int;
    let out = placed(chunks, c);
    lemma_slot(chunks, c.sequence);
    if holds(chunks, c.sequence) {
        assert forall|a: int, b: int| 0 <= a < b < out.len() implies (#[trigger] out[a]).sequence < (
        #[trigger] out[b]).sequence by {
            assert(chunks[a].sequence < chunks[b].sequence);
        }
    } else {
        assert forall|a: int, b: int| 0 <= a < b < out.len() implies (#[trigger] out[a]).sequence < (
        #[trigger] out[b]).sequence by {
            let x = if a < i { a } else { a - 1 };
            let y = if b < i { b } else { b - 1 };
            if a != i && b != i {
                assert(chunks[x].sequence < chunks[y].sequence);
            } else if a == i {
                if y > i {
                    assert(chunks[i].sequence < chunks[y].sequence);
                }
            }
        }
    }
}

/// There are no more pieces than numbers.
pub proof fn lemma_few(chunks: Seq<ChunkView>)
    requires
        ordered(chunks),
    ensures
        chunks.len() <= MAX_SEQUENCE,
{
    lemma_number_at_least(chunks, chunks.len() as int - 1);
}

/// The number of a piece is above its index.
proof fn lemma_number_at_least(chunks: Seq<ChunkView>, i: int)
    requires
        ordered(chunks),
        i < chunks.len(),
    ensures
        0 <= i ==> chunks[i].sequence >= i + 1,
    decreases i,
{
    if i > 0 {
        lemma_number_at_least(chunks, i - 1);
        assert(chunks[i - 1].sequence < chunks[i].sequence);
    }
}

/// The texts together are bounded by their number.
pub proof fn lemma_total(chunks: Seq<ChunkView>)
    requires
        ordered(chunks),
    ensures
        total(chunks) <= chunks.len() * MAX_TEXT,
    decreases chunks.len(),
{
    if chunks.len() > 0 {
        let c = chunks.drop_last();
        assert(ordered(c)) by {
            assert forall|i: int, j: int| 0 <= i < j < c.len() implies (#[trigger] c[i]).sequence < (
            #[trigger] c[j]).sequence by {
                assert(chunks[i].sequence < chunks[j].sequence);
            }
        }
        lemma_total(c);
        assert(text::size(chunks[chunks.len() - 1].text) <= MAX_TEXT);
        assert(chunks.len() * MAX_TEXT == (chunks.len() - 1) * MAX_TEXT + MAX_TEXT) by (nonlinear_arith);
    }
}

/// Another status for a piece leaves the order.
pub proof fn lemma_marked(chunks: Seq<ChunkView>, i: int, status: Ack)
    requires
        ordered(chunks),
        0 <= i < chunks.len(),
    ensures
        ordered(marked(chunks, i, status)),
{
    let out = marked(chunks, i, status);
    assert forall|a: int, b: int| 0 <= a < b < out.len() implies (#[trigger] out[a]).sequence < (
    #[trigger] out[b]).sequence by {
        assert(chunks[a].sequence < chunks[b].sequence);
    }
}

/// The first open number is not below the one that the search starts from, and one
/// above the highest number at most.
pub proof fn lemma_first_open(chunks: Seq<ChunkView>, from: u64)
    requires
        from <= MAX_SEQUENCE + 1,
    ensures
        from <= first_open(chunks, from) <= MAX_SEQUENCE + 1,
    decreases MAX_SEQUENCE + 1 - from,
{
    if from <= MAX_SEQUENCE && holds(chunks, from) && piece(chunks, from).status == Ack::Applied {
        lemma_first_open(chunks, (from + 1) as u64);
    }
}

// ---------------------------------------------------------------- the session

/// A session as one of its two devices keeps it. Times are in nanoseconds.
pub struct Session {
    pub binding: Binding,
    pub phase: Phase,
    pub chunks: Vec<Chunk>,
    pub draft: String,
    pub stable: StableText,
    pub next_send: u64,
    pub next_receive: u64,
    pub inflight: Option<(u64, bool)>,
    pub last_sequence: Option<u64>,
    pub retry_allowed: HashSet<u64>,
    pub started: u64,
    pub lease: u64,
    pub keepalive_sent: u64,
    pub finalizing: Option<u64>,
    pub held: bool,
    pub stopped: bool,
    pub stop_requested: bool,
    pub cancelled: bool,
    pub frozen: bool,
}

/// A session, by its contents: the devices and the place that it is bound to, where it
/// stands, the pieces and the draft; on the source the next number to send, on the
/// target the next to type, the one under way and whether it was claimed, the last one
/// there will be and those that may come again; its times; and whether the key is
/// held, the source has stopped, was asked to, the session was cancelled, and the last
/// text was confirmed.
pub struct SessionView {
    pub binding: BindingView,
    pub phase: Phase,
    pub chunks: Seq<ChunkView>,
    pub draft: Seq<char>,
    pub stable: StableView,
    pub next_send: u64,
    pub next_receive: u64,
    pub inflight: Option<(u64, bool)>,
    pub last_sequence: Option<u64>,
    pub retry_allowed: Set<u64>,
    pub started: u64,
    pub lease: u64,
    pub keepalive_sent: u64,
    pub finalizing: Option<u64>,
    pub held: bool,
    pub stopped: bool,
    pub stop_requested: bool,
    pub cancelled: bool,
    pub frozen: bool,
}

impl View for Session {
    type V = SessionView;

    open spec fn view(&self) -> SessionView {
        SessionView {
            binding: self.binding@,
            phase: self.phase,
            chunks: chunks_view(self.chunks@),
            draft: self.draft@,
            stable: self.stable@,
            next_send: self.next_send,
            next_receive: self.next_receive,
            inflight: self.inflight,
            last_sequence: self.last_sequence,
            retry_allowed: self.retry_allowed@,
            started: self.started,
            lease: self.lease,
            keepalive_sent: self.keepalive_sent,
            finalizing: self.finalizing,
            held: self.held,
            stopped: self.stopped,
            stop_requested: self.stop_requested,
            cancelled: self.cancelled,
            frozen: self.frozen,
        }
    }
}

impl SessionView {
    /// A session that has just been bound.
    pub open spec fn fresh(binding: BindingView, now: u64) -> SessionView {
        SessionView {
            binding,
            phase: Phase::Preparing,
            chunks: seq![],
            draft: seq![],
            stable: StableView::fresh(),
            next_send: 1,
            next_receive: 1,
            inflight: None,
            last_sequence: None,
            retry_allowed: Set::empty(),
            started: now,
            lease: now,
            keepalive_sent: now,
            finalizing: None,
            held: true,
            stopped: false,
            stop_requested: false,
            cancelled: false,
            frozen: false,
        }
    }

    /// What holds of a session at all times: at most the next piece to type is under
    /// way, and numbers keep to their range.
    pub open spec fn wf(self) -> bool {
        &&& ordered(self.chunks)
        &&& 1 <= self.next_send <= MAX_SEQUENCE + 1
        &&& 1 <= self.next_receive <= MAX_SEQUENCE + 1
        &&& self.inflight matches Some(f) ==> f.0 == self.next_receive && self.next_receive <= MAX_SEQUENCE
        &&& self.last_sequence matches Some(n) ==> n <= MAX_SEQUENCE
        &&& self.stable.wf()
    }

    /// The device at the other end.
    pub open spec fn other(self, local: Seq<char>) -> Seq<char> {
        if self.binding.source_device_id == local {
            self.binding.target_device_id
        } else {
            self.binding.source_device_id
        }
    }

    /// The number of the piece that is under way.
    pub open spec fn under_way(self) -> Option<u64> {
        match self.inflight {
            Some((n, _)) => Some(n),
            None => None,
        }
    }

    /// Whether text may be typed now.
    pub open spec fn can_inject(self) -> bool {
        !self.cancelled && match self.phase {
            Phase::Preparing
            | Phase::Paused
            | Phase::Unknown
            | Phase::Cancelled
            | Phase::Done
            | Phase::StopFailed => false,
            _ => true,
        }
    }
}

impl Session {
    /// A session that has just been bound.
    pub fn new(binding: Binding, now: u64) -> (s: Self)
        ensures
            s@ == SessionView::fresh(binding@, now),
            s@.wf(),
    {
        broadcast use vstd::std_specs::hash::group_hash_axioms;

        let s = Session {
            binding,
            phase: Phase::Preparing,
            chunks: Vec::new(),
            draft: String::new(),
            stable: StableText::default(),
            next_send: 1,
            next_receive: 1,
            inflight: None,
            last_sequence: None,
            retry_allowed: HashSet::new(),
            started: now,
            lease: now,
            keepalive_sent: now,
            finalizing: None,
            held: true,
            stopped: false,
            stop_requested: false,
            cancelled: false,
            frozen: false,
        };
        proof {
            let f = SessionView::fresh(binding@, now);
            assert(s@.chunks =~= f.chunks);
            assert(s@.draft =~= f.draft);
            assert(s@.retry_allowed =~= f.retry_allowed);
        }
        s
    }

    /// The device at the other end.
    pub fn other(&self, local: &str) -> (d: String)
        ensures
            d@ == self@.other(local@),
    {
        if text::same(self.binding.source_device_id.as_str(), local) {
            text::copy(&self.binding.target_device_id)
        } else {
            text::copy(&self.binding.source_device_id)
        }
    }

    /// Whether text may be typed now.
    pub fn can_inject(&self) -> (r: bool)
        ensures
            r == self@.can_inject(),
    {
        !self.cancelled && match self.phase {
            Phase::Preparing
            | Phase::Paused
            | Phase::Unknown
            | Phase::Cancelled
            | Phase::Done
            | Phase::StopFailed => false,
            _ => true,
        }
    }

    /// Whether some piece may or may not have been typed.
    pub fn has_unknown(&self) -> (r: bool)
        ensures
            r == any_unknown(self@.chunks),
    {
        let mut i: usize = 0;
        while i < self.chunks.len()
            invariant
                i <= self.chunks@.len(),
                forall|j: int| 0 <= j < i ==> (#[trigger] self@.chunks[j]).status != Ack::Unknown,
            decreases self.chunks.len() - i,
        {
            if self.chunks[i].status == Ack::Unknown {
                assert(self@.chunks[i as int].status == Ack::Unknown);
                return true;
            }
            i = i + 1;
        }
        false
    }

    /// Whether every piece has been typed.
    pub fn all_applied(&self) -> (r: bool)
        ensures
            r == all_applied(self@.chunks),
    {
        let mut i: usize = 0;
        while i < self.chunks.len()
            invariant
                i <= self.chunks@.len(),
                forall|j: int| 0 <= j < i ==> (#[trigger] self@.chunks[j]).status == Ack::Applied,
            decreases self.chunks.len() - i,
        {
            if self.chunks[i].status != Ack::Applied {
                assert(self@.chunks[i as int].status != Ack::Applied);
                return false;
            }
            i = i + 1;
        }
        true
    }

    /// The place of a number among the pieces.
    fn slot(&self, sequence: u64) -> (i: usize)
        ensures
            i == slot(self@.chunks, sequence),
            i <= self.chunks@.len(),
    {
        let ghost all = self@.chunks;
        let mut i: usize = 0;
        assert(all.skip(0) =~= all);
        while i < self.chunks.len() && self.chunks[i].sequence < sequence
            invariant
                all == self@.chunks,
                i <= self.chunks@.len(),
                slot(all, sequence) == i + slot(all.skip(i as int), sequence),
            decreases self.chunks.len() - i,
        {
            assert(all.skip(i as int)[0] == all[i as int]);
            assert(all.skip(i as int).drop_first() =~= all.skip(i + 1));
            i = i + 1;
        }
        if i < self.chunks.len() {
            assert(all.skip(i as int)[0] == all[i as int]);
        }
        i
    }

    /// The index of the piece with a number.
    pub fn find(&self, sequence: u64) -> (r: Option<usize>)
        ensures
            match r {
                Some(i) => holds(self@.chunks, sequence) && i == slot(self@.chunks, sequence) && i
                    < self.chunks@.len(),
                None => !holds(self@.chunks, sequence),
            },
    {
        let i = self.slot(sequence);
        if i < self.chunks.len() && self.chunks[i].sequence == sequence {
            Some(i)
        } else {
            None
        }
    }

    /// Puts a piece in its place, or in place of the one with its number.
    pub fn place(&mut self, c: Chunk)
        requires
            old(self)@.wf(),
            1 <= c.sequence <= MAX_SEQUENCE,
            text::size(c.text@) <= MAX_TEXT,
        ensures
            final(self)@ == (SessionView { chunks: placed(old(self)@.chunks, c@), ..old(self)@ }),
            final(self)@.wf(),
    {
        let ghost all = self@.chunks;
        let i = self.slot(c.sequence);
        proof {
            lemma_placed(all, c@);
        }
        if i < self.chunks.len() && self.chunks[i].sequence == c.sequence {
            self.chunks[i] = c;
        } else {
            self.chunks.insert(i, c);
        }
        assert(self@.chunks =~= placed(all, c@));
    }

    /// Sets the status of the piece at an index.
    pub fn mark(&mut self, i: usize, status: Ack)
        requires
            old(self)@.wf(),
            i < old(self).chunks@.len(),
        ensures
            final(self)@ == (SessionView { chunks: marked(old(self)@.chunks, i as int, status), ..old(self)@ }),
            final(self)@.wf(),
            final(self).chunks@.len() == old(self).chunks@.len(),
    {
        let ghost all = self@.chunks;
        proof {
            lemma_marked(all, i as int, status);
        }
        self.chunks[i].status = status;
        assert(self@.chunks =~= marked(all, i as int, status));
    }

    /// The bytes of the texts together.
    pub fn total(&self) -> (n: u64)
        requires
            self@.wf(),
        ensures
            n == total(self@.chunks),
            n <= MAX_SEQUENCE * MAX_TEXT,
    {
        let ghost all = self@.chunks;
        let mut n: u64 = 0;
        let mut i: usize = 0;
        proof {
            lemma_few(all);
        }
        assert(total(all.take(0)) == 0);
        while i < self.chunks.len()
            invariant
                all == self@.chunks,
                ordered(all),
                all.len() <= MAX_SEQUENCE,
                i <= self.chunks@.len(),
                n == total(all.take(i as int)),
                n <= i * MAX_TEXT,
            decreases self.chunks.len() - i,
        {
            assert(all[i as int].text == self.chunks@[i as int].text@);
            assert(all.take(i + 1).drop_last() =~= all.take(i as int));
            assert(all.take(i + 1).last() == all[i as int]);
            n = n + text::byte_len(self.chunks[i].text.as_str()) as u64;
            i = i + 1;
        }
        assert(all.take(i as int) =~= all);
        n
    }

    /// Puts in doubt the pieces that are under way.
    pub fn doubt(&mut self)
        requires
            old(self)@.wf(),
        ensures
            final(self)@ == (SessionView { chunks: doubted(old(self)@.chunks), ..old(self)@ }),
            final(self)@.wf(),
    {
        let ghost begun = self@;
        let mut i: usize = 0;
        while i < self.chunks.len()
            invariant
                i <= self.chunks@.len(),
                self@ == (SessionView { chunks: self@.chunks, ..begun }),
                self@.wf(),
                self@.chunks.len() == begun.chunks.len(),
                forall|j: int| 0 <= j < i ==> #[trigger] self@.chunks[j] == doubted(begun.chunks)[j],
                forall|j: int| i <= j < self@.chunks.len() ==> #[trigger] self@.chunks[j] == begun.chunks[j],
            decreases self.chunks.len() - i,
        {
            if self.chunks[i].status == Ack::Received {
                self.mark(i, Ack::Unknown);
            }
            i = i + 1;
        }
        assert(self@.chunks =~= doubted(begun.chunks));
    }

    /// Lets come again the pieces that were not typed.
    pub fn allow_retries(&mut self)
        ensures
            final(self)@ == (SessionView { retry_allowed: not_applied(old(self)@.chunks), ..old(self)@ }),
    {
        broadcast use vstd::std_specs::hash::group_hash_axioms;

        let ghost begun = self@;
        let mut allowed: HashSet<u64> = HashSet::new();
        let mut i: usize = 0;
        assert(allowed@ =~= not_applied(begun.chunks.take(0)));
        while i < self.chunks.len()
            invariant
                self@ == begun,
                i <= self.chunks@.len(),
                allowed@ == not_applied(begun.chunks.take(i as int)),
            decreases self.chunks.len() - i,
        {
            broadcast use vstd::std_specs::hash::group_hash_axioms;

            assert(begun.chunks.take(i + 1).drop_last() =~= begun.chunks.take(i as int));
            assert(begun.chunks.take(i + 1).last() == self.chunks@[i as int]@);
            if self.chunks[i].status == Ack::NotApplied {
                allowed.insert(self.chunks[i].sequence);
            }
            i = i + 1;
        }
        assert(begun.chunks.take(i as int) =~= begun.chunks);
        self.retry_allowed = allowed;
    }

    /// Takes back the leave for a piece to come again, and says whether it had one.
    pub fn use_retry(&mut self, sequence: u64) -> (r: bool)
        ensures
            r == old(self)@.retry_allowed.contains(sequence),
            final(self)@ == (SessionView {
                retry_allowed: old(self)@.retry_allowed.remove(sequence),
                ..old(self)@
            }),
    {
        broadcast use vstd::std_specs::hash::group_hash_axioms;

        let ghost begun = self@;
        let r = self.retry_allowed.remove(&sequence);
        assert(self@.retry_allowed =~= begun.retry_allowed.remove(sequence));
        r
    }

    /// Goes on to the first piece that was not typed.
    pub fn advance(&mut self)
        requires
            old(self)@.wf(),
            old(self)@.inflight is None,
        ensures
            final(self)@ == (SessionView {
                next_receive: first_open(old(self)@.chunks, old(self)@.next_receive),
                ..old(self)@
            }),
            final(self)@.wf(),
    {
        let ghost begun = self@;
        loop
            invariant
                self@ == (SessionView { next_receive: self@.next_receive, ..begun }),
                begun.wf(),
                begun.inflight is None,
                self@.wf(),
                first_open(begun.chunks, begun.next_receive) == first_open(begun.chunks, self.next_receive),
            ensures
                self@ == (SessionView {
                    next_receive: first_open(begun.chunks, begun.next_receive),
                    ..begun
                }),
                self@.wf(),
            decreases MAX_SEQUENCE + 1 - self.next_receive,
        {
            let n = self.next_receive;
            match self.find(n) {
                Some(i) => {
                    if self.chunks[i].status != Ack::Applied {
                        break;
                    }
                    assert(self@.chunks[i as int].sequence <= MAX_SEQUENCE);
                    self.next_receive = n + 1;
                },
                None => break,
            }
        }
    }
}

} // verus!
