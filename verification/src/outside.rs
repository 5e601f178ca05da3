//! What comes from outside and cannot be foretold: the identifiers that are drawn, the
//! replies of the journal, and what handshakes write. All of it is kept, for
//! reasoning, in the order in which it came.
use crate::ids;
use crate::journal::{Journal, JournalView};
use crate::noise;
use crate::protocol::{Ack, MAX_FRAME};
use crate::transport::{Channel, Wrote};
use crate::CoreError;
use vstd::prelude::*;

verus! {

/// Whether `later` begins with `earlier`.
#[verifier::opaque]
pub open spec fn continues<T>(later: Seq<T>, earlier: Seq<T>) -> bool {
    earlier.len() <= later.len() && later.take(earlier.len() as int) == earlier
}

/// Every history begins with itself.
pub broadcast proof fn lemma_continues_itself<T>(a: Seq<T>)
    ensures
        #[trigger] continues(a, a),
{
    reveal(continues);
    assert(a.take(a.len() as int) =~= a);
}

/// What begins with a history begins with whatever that begins with.
pub broadcast proof fn lemma_continues_on<T>(a: Seq<T>, b: Seq<T>, c: Seq<T>)
    requires
        #[trigger] continues(a, b),
        #[trigger] continues(b, c),
    ensures
        continues(a, c),
{
    reveal(continues);
    assert(a.take(c.len() as int) =~= a.take(b.len() as int).take(c.len() as int));
}

/// A history with one more entry begins with the history, and whatever begins with it
/// has that entry there.
pub broadcast proof fn lemma_continues_push<T>(log: Seq<T>, a: Seq<T>, x: T)
    requires
        #[trigger] continues(log, a.push(x)),
    ensures
        continues(log, a),
        log[a.len() as int] == x,
        log.len() > a.len(),
{
    reveal(continues);
    assert(log.take(a.len() as int + 1)[a.len() as int] == x);
    assert(log.take(a.len() as int) =~= a.push(x).take(a.len() as int));
    assert(a.push(x).take(a.len() as int) =~= a);
}

/// What holds of histories.
pub broadcast group group_continues {
    lemma_continues_itself,
    lemma_continues_on,
    lemma_continues_push,
}

/// What was asked of the outside.
pub enum Ask {
    /// To draw an identifier.
    Fresh,
    /// To note a session.
    Note { journal: JournalView, id: u128, peer: Seq<char>, now: u64 },
    /// Whether a peer may speak of a session.
    Authorize { journal: JournalView, id: u128, peer: Seq<char>, now: u64 },
    /// To register a piece of text.
    Register { journal: JournalView, id: u128, sequence: u64, text: Seq<char> },
    /// To record what became of a piece of text.
    Record { journal: JournalView, id: u128, sequence: u64, status: Ack },
    /// To tell what became of a piece of text.
    Tell { journal: JournalView, id: u128, sequence: u64 },
    /// To carry on a handshake.
    Shake,
}

/// What came back.
pub enum Reply {
    Id(u128),
    Done(Result<(), Seq<char>>),
    Registered(Result<Option<Ack>, Seq<char>>),
    Told(Result<Ack, Seq<char>>),
    Wrote(Seq<Wrote>),
}

/// Whether a reply can have come back when something was asked.
pub open spec fn fits(ask: Ask, reply: Reply) -> bool {
    match (ask, reply) {
        (Ask::Fresh, Reply::Id(id)) => (id >> 76) & 0xf == 4 && (id >> 62) & 3 == 2,
        (Ask::Note { journal, id, .. }, Reply::Done(r)) => journal.may_note(id, r),
        (Ask::Authorize { journal, id, peer, now }, Reply::Done(r)) => journal.may_authorize(id, peer, now, r),
        (Ask::Register { journal, id, sequence, text }, Reply::Registered(r)) => journal.may_register(
            id,
            sequence,
            text,
            r,
        ),
        (Ask::Record { journal, id, sequence, .. }, Reply::Done(r)) => journal.may_record(id, sequence, r),
        (Ask::Tell { journal, id, sequence }, Reply::Told(r)) => journal.may_tell(id, sequence, r),
        (Ask::Shake, Reply::Wrote(w)) => all_may_be_written(w),
        _ => false,
    }
}

/// Whether handshakes can have written all this.
pub open spec fn all_may_be_written(w: Seq<Wrote>) -> bool {
    forall|i: int|
        #![trigger w[i]]
        0 <= i < w.len() ==> noise::may_write(w[i].before, MAX_FRAME as nat, w[i].message, w[i].after)
}

/// The identifier that came back.
pub open spec fn id_in(reply: Reply) -> u128 {
    match reply {
        Reply::Id(id) => id,
        _ => 0,
    }
}

/// Whether what was asked was done.
pub open spec fn done_in(reply: Reply) -> Result<(), Seq<char>> {
    match reply {
        Reply::Done(r) => r,
        _ => Ok(()),
    }
}

/// What was known of a piece when it was registered.
pub open spec fn registered_in(reply: Reply) -> Result<Option<Ack>, Seq<char>> {
    match reply {
        Reply::Registered(r) => r,
        _ => Ok(None),
    }
}

/// What was told of a piece.
pub open spec fn told_in(reply: Reply) -> Result<Ack, Seq<char>> {
    match reply {
        Reply::Told(r) => r,
        _ => Ok(Ack::Unknown),
    }
}

/// What was written.
pub open spec fn wrote_in(reply: Reply) -> Seq<Wrote> {
    match reply {
        Reply::Wrote(w) => w,
        _ => seq![],
    }
}

/// What a handshake has written, in the order in which it came. The field is closed: what is
/// kept is what a call gave.
pub struct Writings {
    list: Ghost<Seq<Wrote>>,
}

impl View for Writings {
    type V = Seq<Wrote>;

    closed spec fn view(&self) -> Seq<Wrote> {
        self.list@
    }
}

impl Writings {
    /// Nothing was written yet.
    pub fn new() -> (w: Writings)
        ensures
            w@ == Seq::<Wrote>::empty(),
    {
        Writings { list: Ghost(Seq::empty()) }
    }

    /// Has a handshake write its next message.
    pub fn write(&mut self, h: &mut snow::HandshakeState) -> (r: Result<Vec<u8>, snow::Error>)
        ensures
            final(self)@ == old(self)@.push(
                Wrote { before: *old(h), message: noise::written(r), after: *final(h) },
            ),
            noise::may_write(*old(h), MAX_FRAME as nat, noise::written(r), *final(h)),
            noise::interactive(*final(h)) == noise::interactive(*old(h)),
            r matches Ok(m) ==> m@.len() <= MAX_FRAME,
    {
        let ghost before = *h;
        let r = noise::write_step(h, MAX_FRAME);
        proof {
            self.list@ = self.list@.push(Wrote { before, message: noise::written(r), after: *h });
        }
        r
    }
}

/// The journal, with all that was asked of it and of the rest of the outside, and what came
/// back, in the order in which it came. The fields are closed: the journal is asked only here,
/// and what is kept is what a call gave.
pub struct History {
    journal: Journal,
    asked: Ghost<Seq<Ask>>,
    replies: Ghost<Seq<Reply>>,
}

impl History {
    /// What the journal holds.
    pub closed spec fn journal(&self) -> JournalView {
        self.journal@
    }

    /// What was asked.
    pub closed spec fn asked(&self) -> Seq<Ask> {
        self.asked@
    }

    /// What came back.
    pub closed spec fn replies(&self) -> Seq<Reply> {
        self.replies@
    }

    /// Every reply can have come back when what stands in its place was asked.
    pub open spec fn wf(&self) -> bool {
        &&& self.asked().len() == self.replies().len()
        &&& forall|i: int|
            #![trigger self.asked()[i]]
            0 <= i < self.asked().len() ==> fits(self.asked()[i], self.replies()[i])
    }

    /// Whether one thing more was asked, with this reply, than before.
    pub open spec fn grew(&self, before: History, ask: Ask, reply: Reply) -> bool {
        &&& self.wf()
        &&& self.asked() == before.asked().push(ask)
        &&& self.replies() == before.replies().push(reply)
    }

    /// A journal, of which nothing was asked yet.
    pub fn new(journal: Journal) -> (h: History)
        ensures
            h.wf(),
            h.journal() == journal@,
            h.asked() == Seq::<Ask>::empty(),
            h.replies() == Seq::<Reply>::empty(),
    {
        History { journal, asked: Ghost(Seq::empty()), replies: Ghost(Seq::empty()) }
    }

    /// Draws an identifier.
    pub fn fresh(&mut self) -> (id: u128)
        requires
            old(self).wf(),
        ensures
            final(self).grew(*old(self), Ask::Fresh, Reply::Id(id)),
            final(self).journal() == old(self).journal(),
            fits(Ask::Fresh, Reply::Id(id)),
    {
        let id = ids::fresh_id();
        self.keep(Ghost(Ask::Fresh), Ghost(Reply::Id(id)));
        id
    }

    /// Asks the journal to note a session.
    pub fn note(&mut self, id: u128, peer: &str, now: u64) -> (r: Result<(), CoreError>)
        requires
            old(self).wf(),
        ensures
            final(self).grew(
                *old(self),
                Ask::Note { journal: old(self).journal(), id, peer: peer@, now },
                Reply::Done(crate::outcome(r)),
            ),
            final(self).journal() == old(self).journal().after_session(id, peer@, now, crate::outcome(r)),
    {
        let ghost ask = Ask::Note { journal: self.journal@, id, peer: peer@, now };
        let r = self.journal.session(id, peer, now);
        self.keep(Ghost(ask), Ghost(Reply::Done(crate::outcome(r))));
        r
    }

    /// Asks the journal whether a peer may speak of a session.
    pub fn authorize(&mut self, id: u128, peer: &str, now: u64) -> (r: Result<(), CoreError>)
        requires
            old(self).wf(),
        ensures
            final(self).grew(
                *old(self),
                Ask::Authorize { journal: old(self).journal(), id, peer: peer@, now },
                Reply::Done(crate::outcome(r)),
            ),
            final(self).journal() == old(self).journal(),
    {
        let ghost ask = Ask::Authorize { journal: self.journal@, id, peer: peer@, now };
        let r = self.journal.authorize(id, peer, now);
        self.keep(Ghost(ask), Ghost(Reply::Done(crate::outcome(r))));
        r
    }

    /// Asks the journal to register a piece.
    pub fn register(&mut self, id: u128, sequence: u64, text: &str) -> (r: Result<Option<Ack>, CoreError>)
        requires
            old(self).wf(),
        ensures
            final(self).grew(
                *old(self),
                Ask::Register { journal: old(self).journal(), id, sequence, text: text@ },
                Reply::Registered(crate::outcome(r)),
            ),
            final(self).journal() == old(self).journal().after_register(id, sequence, text@, crate::outcome(r)),
    {
        let ghost ask = Ask::Register { journal: self.journal@, id, sequence, text: text@ };
        let r = self.journal.register(id, sequence, text);
        self.keep(Ghost(ask), Ghost(Reply::Registered(crate::outcome(r))));
        r
    }

    /// Asks the journal to record what became of a piece.
    pub fn record(&mut self, id: u128, sequence: u64, status: Ack) -> (r: Result<(), CoreError>)
        requires
            old(self).wf(),
        ensures
            final(self).grew(
                *old(self),
                Ask::Record { journal: old(self).journal(), id, sequence, status },
                Reply::Done(crate::outcome(r)),
            ),
            final(self).journal() == old(self).journal().after_record(id, sequence, status, crate::outcome(r)),
    {
        let ghost ask = Ask::Record { journal: self.journal@, id, sequence, status };
        let r = self.journal.record(id, sequence, status);
        self.keep(Ghost(ask), Ghost(Reply::Done(crate::outcome(r))));
        r
    }

    /// Asks the journal what became of a piece.
    pub fn tell(&mut self, id: u128, sequence: u64) -> (r: Result<Ack, CoreError>)
        requires
            old(self).wf(),
        ensures
            final(self).grew(
                *old(self),
                Ask::Tell { journal: old(self).journal(), id, sequence },
                Reply::Told(crate::outcome(r)),
            ),
            final(self).journal() == old(self).journal(),
    {
        let ghost ask = Ask::Tell { journal: self.journal@, id, sequence };
        let r = self.journal.query(id, sequence);
        self.keep(Ghost(ask), Ghost(Reply::Told(crate::outcome(r))));
        r
    }

    /// Keeps what the handshake of a channel has written.
    pub fn shook(&mut self, c: &Channel)
        requires
            old(self).wf(),
            c.wf(),
        ensures
            final(self).grew(*old(self), Ask::Shake, Reply::Wrote(c@.wrote)),
            final(self).journal() == old(self).journal(),
    {
        self.keep(Ghost(Ask::Shake), Ghost(Reply::Wrote(c@.wrote)));
    }

    /// Keeps one thing more that was asked, with its reply.
    fn keep(&mut self, Ghost(ask): Ghost<Ask>, Ghost(reply): Ghost<Reply>)
        requires
            old(self).wf(),
            fits(ask, reply),
        ensures
            final(self).grew(*old(self), ask, reply),
            final(self).journal() == old(self).journal(),
    {
        proof {
            self.asked@ = self.asked@.push(ask);
            self.replies@ = self.replies@.push(reply);
        }
    }
}

} // verus!
