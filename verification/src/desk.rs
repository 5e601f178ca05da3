//! What all sessions of a device share: who it is, its connections, the devices that it
//! is paired with, the journal, and the events that wait to be fetched.
use crate::crypto::Secret;
use crate::event;
use crate::event::{Event, EventView, Noted, NotedView};
use crate::ids;
use crate::journal::JournalView;
use crate::noise;
use crate::outside;
use crate::outside::{Ask, History, Reply};
use crate::protocol::{Ack, Payload, PayloadView, Wire, WireView, MAX_FRAME, VERSION};
use crate::session::{ChunkView, Session, SessionView};
use crate::text;
use crate::transport;
use crate::transport::{Channel, ChannelView, CipherView};
use crate::trust;
use crate::trust::{Trust, TrustView};
use crate::wire;
use crate::{fail, CoreError};
use vstd::prelude::*;

verus! {

/// How many events wait at most.
pub const MAX_EVENTS: usize = 512;

/// A connection and its channel.
pub struct Link {
    pub id: String,
    pub channel: Channel,
}

/// A connection and its channel, by their contents.
pub struct LinkView {
    pub id: Seq<char>,
    pub channel: ChannelView,
}

impl View for Link {
    type V = LinkView;

    open spec fn view(&self) -> LinkView {
        LinkView { id: self.id@, channel: self.channel@ }
    }
}

/// What connections hold.
pub open spec fn links_view(v: Seq<Link>) -> Seq<LinkView> {
    Seq::new(v.len(), |i: int| v[i]@)
}

/// A request that came: from whom, under which identifier, with which digest.
pub struct Seen {
    pub peer: String,
    pub request_id: u128,
    pub digest: Vec<u8>,
}

/// A request that came, by its contents.
pub struct SeenView {
    pub peer: Seq<char>,
    pub request_id: u128,
    pub digest: Seq<u8>,
}

impl View for Seen {
    type V = SeenView;

    open spec fn view(&self) -> SeenView {
        SeenView { peer: self.peer@, request_id: self.request_id, digest: self.digest@ }
    }
}

/// What requests hold.
pub open spec fn seen_view(v: Seq<Seen>) -> Seq<SeenView> {
    Seq::new(v.len(), |i: int| v[i]@)
}

/// What all sessions of a device share. Times are in nanoseconds.
pub struct Desk {
    pub id: String,
    pub name: String,
    pub private: Secret,
    pub links: Vec<Link>,
    pub trust: Vec<Trust>,
    pub seen: Vec<Seen>,
    pub events: Vec<Event>,
    pub faulted: bool,
    pub lease: u64,
    pub finalizing: u64,
    pub max_session: u64,
    pub heartbeat: u64,
    pub history: History,
}

/// What all sessions of a device share, by its contents, with what was asked of the
/// outside so far.
pub struct DeskView {
    pub id: Seq<char>,
    pub name: Seq<char>,
    pub private: Seq<u8>,
    pub journal: JournalView,
    pub links: Seq<LinkView>,
    pub trust: Seq<TrustView>,
    pub seen: Seq<SeenView>,
    pub events: Seq<EventView>,
    pub faulted: bool,
    pub lease: u64,
    pub finalizing: u64,
    pub max_session: u64,
    pub heartbeat: u64,
    pub asked: Seq<Ask>,
}

impl View for Desk {
    type V = DeskView;

    open spec fn view(&self) -> DeskView {
        DeskView {
            id: self.id@,
            name: self.name@,
            private: self.private@,
            journal: self.history.journal(),
            links: links_view(self.links@),
            trust: trust::trusts_view(self.trust@),
            seen: seen_view(self.seen@),
            events: event::events_view(self.events@),
            faulted: self.faulted,
            lease: self.lease,
            finalizing: self.finalizing,
            max_session: self.max_session,
            heartbeat: self.heartbeat,
            asked: self.history.asked(),
        }
    }
}

/// What a step came to.
pub struct Did<T> {
    pub desk: DeskView,
    pub result: Result<T, Seq<char>>,
}

/// The index of the first connection with a name, or their number if there is none.
pub open spec fn link_at(links: Seq<LinkView>, id: Seq<char>) -> nat
    decreases links.len(),
{
    if links.len() == 0 || links[0].id == id {
        0
    } else {
        1 + link_at(links.drop_first(), id)
    }
}

/// The index of the first connection to a device, or their number if there is none.
pub open spec fn link_to(links: Seq<LinkView>, peer: Seq<char>) -> nat
    decreases links.len(),
{
    if links.len() == 0 || links[0].channel.peer == Some(peer) {
        0
    } else {
        1 + link_to(links.drop_first(), peer)
    }
}

/// Whether the frame that a channel seals a message in can be read: whoever holds its key,
/// and has opened as many messages as it had sealed, opens the message, and reads it as
/// what it is.
pub open spec fn readable(c: ChannelView, w: WireView) -> bool {
    let bytes = wire::wire_bytes(w);
    &&& wire::wire_decoded(bytes) == Ok::<WireView, Seq<char>>(w)
    &&& c.sealed(bytes).len() == bytes.len() + 20
    &&& bytes.len() <= MAX_FRAME - 32
    &&& c.cipher matches CipherView::Transport { send_key, sent, .. }
    &&& transport::opened(send_key, sent, noise::sealed(send_key, sent, bytes)) == Some(bytes)
}

/// What is told of pieces.
pub open spec fn noted(chunks: Seq<ChunkView>) -> Seq<NotedView> {
    Seq::new(
        chunks.len(),
        |i: int| NotedView { sequence: chunks[i].sequence, text: chunks[i].text, status: chunks[i].status },
    )
}

/// What is told of a session.
pub open spec fn snapshot_of(s: SessionView) -> EventView {
    EventView::Session {
        binding: s.binding,
        phase: s.phase,
        draft: s.draft,
        chunks: noted(s.chunks),
        stopped: s.stopped,
        cancelled: s.cancelled,
    }
}

impl DeskView {
    /// One more event waits, unless too many do: then all is lost.
    pub open spec fn emit(self, e: EventView) -> DeskView {
        if self.events.len() >= MAX_EVENTS {
            DeskView { faulted: true, ..self }
        } else {
            DeskView { events: self.events.push(e), ..self }
        }
    }

    /// The session is told of.
    pub open spec fn snapshot(self, s: SessionView) -> DeskView {
        self.emit(snapshot_of(s))
    }

    /// Something was asked of the outside.
    pub open spec fn asking(self, ask: Ask) -> DeskView {
        DeskView { asked: self.asked.push(ask), ..self }
    }

    /// What comes back of the next thing that is asked.
    pub open spec fn next(self, log: Seq<Reply>) -> Reply {
        log[self.asked.len() as int]
    }

    /// Another channel on a connection.
    pub open spec fn with_channel(self, i: int, c: ChannelView) -> DeskView {
        DeskView { links: self.links.update(i, LinkView { id: self.links[i].id, channel: c }), ..self }
    }

    /// Whether there is a connection to a device.
    pub open spec fn connected(self, peer: Seq<char>) -> bool {
        link_to(self.links, peer) < self.links.len()
    }

    /// Whether a device is paired.
    pub open spec fn paired(self, peer: Seq<char>) -> bool {
        trust::is_paired(self.trust, peer)
    }

    /// The journal is asked to note a session.
    pub open spec fn note(self, id: u128, peer: Seq<char>, now: u64, log: Seq<Reply>) -> Did<()> {
        let r = outside::done_in(self.next(log));
        Did {
            desk: DeskView {
                journal: self.journal.after_session(id, peer, now, r),
                ..self.asking(Ask::Note { journal: self.journal, id, peer, now })
            },
            result: r,
        }
    }

    /// The journal is asked whether a peer may speak of a session.
    pub open spec fn authorize(self, id: u128, peer: Seq<char>, now: u64, log: Seq<Reply>) -> Did<()> {
        Did {
            desk: self.asking(Ask::Authorize { journal: self.journal, id, peer, now }),
            result: outside::done_in(self.next(log)),
        }
    }

    /// The journal is asked to register a piece.
    pub open spec fn register(self, id: u128, sequence: u64, text: Seq<char>, log: Seq<Reply>) -> Did<Option<Ack>> {
        let r = outside::registered_in(self.next(log));
        Did {
            desk: DeskView {
                journal: self.journal.after_register(id, sequence, text, r),
                ..self.asking(Ask::Register { journal: self.journal, id, sequence, text })
            },
            result: r,
        }
    }

    /// The journal is asked to record what became of a piece.
    pub open spec fn record(self, id: u128, sequence: u64, status: Ack, log: Seq<Reply>) -> Did<()> {
        let r = outside::done_in(self.next(log));
        Did {
            desk: DeskView {
                journal: self.journal.after_record(id, sequence, status, r),
                ..self.asking(Ask::Record { journal: self.journal, id, sequence, status })
            },
            result: r,
        }
    }

    /// The journal is asked what became of a piece.
    pub open spec fn tell(self, id: u128, sequence: u64, log: Seq<Reply>) -> Did<Ack> {
        Did {
            desk: self.asking(Ask::Tell { journal: self.journal, id, sequence }),
            result: outside::told_in(self.next(log)),
        }
    }

    /// A message with the identifier that is drawn next.
    pub open spec fn message(self, payload: PayloadView, log: Seq<Reply>) -> WireView {
        WireView { protocol_version: VERSION, request_id: outside::id_in(self.next(log)), payload }
    }

    /// The channel that messages to a device go through.
    pub open spec fn channel_to(self, peer: Seq<char>) -> ChannelView {
        let connection = self.links[link_to(self.links, peer) as int].id;
        self.links[link_at(self.links, connection) as int].channel
    }

    /// A message is sealed for a connection, and waits to be sent.
    pub open spec fn send_on(self, connection: Seq<char>, payload: PayloadView, log: Seq<Reply>) -> Did<()> {
        let bytes = wire::wire_bytes(self.message(payload, log));
        let drawn = self.asking(Ask::Fresh);
        let i = link_at(self.links, connection) as int;
        if i >= self.links.len() {
            Did { desk: drawn, result: Err("target_offline"@) }
        } else {
            let c = self.links[i].channel;
            match c.mute(bytes.len()) {
                Some(e) => Did { desk: drawn, result: Err(e) },
                None => Did {
                    desk: drawn.with_channel(i, c.spoke()).emit(
                        EventView::SocketSend { connection_id: connection, data: c.sealed(bytes) },
                    ),
                    result: Ok(()),
                },
            }
        }
    }

    /// A message goes to a paired device.
    #[verifier::opaque]
    pub open spec fn send(self, peer: Seq<char>, payload: PayloadView, log: Seq<Reply>) -> Did<()> {
        let i = link_to(self.links, peer) as int;
        if !self.paired(peer) {
            Did { desk: self, result: Err("unpaired_device"@) }
        } else if i >= self.links.len() {
            Did { desk: self, result: Err("target_offline"@) }
        } else {
            self.send_on(self.links[i].id, payload, log)
        }
    }

    /// A device is told of.
    pub open spec fn peer_event(self, peer: Seq<char>, online: bool) -> DeskView {
        let i = link_to(self.links, peer) as int;
        self.emit(
            EventView::Peer {
                peer_id: peer,
                name: if i < self.links.len() {
                    self.links[i].channel.name
                } else if self.paired(peer) {
                    trust::entry_of(self.trust, peer).name
                } else {
                    seq![]
                },
                online,
                paired: self.paired(peer),
                allow_remote: trust::may_start(self.trust, peer),
                code: if i < self.links.len() {
                    self.links[i].channel.code
                } else {
                    seq![]
                },
            },
        )
    }

    /// The paired devices are told of.
    pub open spec fn save_trust(self) -> DeskView {
        self.emit(EventView::TrustChanged { peers: self.trust })
    }

    /// A device is paired with once both sides have confirmed.
    pub open spec fn maybe_pair(self, peer: Seq<char>) -> Did<()> {
        let i = link_to(self.links, peer) as int;
        if i >= self.links.len() {
            Did { desk: self, result: Err("target_offline"@) }
        } else {
            let c = self.links[i].channel;
            if c.local_confirmed && c.remote_confirmed {
                let d = if self.paired(peer) {
                    self
                } else {
                    DeskView {
                        trust: trust::with_peer(
                            self.trust,
                            TrustView { peer_id: peer, name: c.name, allow_remote: false },
                        ),
                        ..self
                    }
                };
                Did { desk: d.save_trust().peer_event(peer, true), result: Ok(()) }
            } else {
                Did { desk: self, result: Ok(()) }
            }
        }
    }
}

/// Whether no two connections have the same name.
pub open spec fn apart(links: Seq<LinkView>) -> bool {
    forall|i: int, j: int| 0 <= i < j < links.len() ==> (#[trigger] links[i]).id != (#[trigger] links[j]).id
}

/// The connections before an index have other names, and the one there has the name.
pub proof fn lemma_link_at(links: Seq<LinkView>, id: Seq<char>)
    ensures
        link_at(links, id) <= links.len(),
        link_at(links, id) < links.len() ==> links[link_at(links, id) as int].id == id,
        forall|i: int| 0 <= i < link_at(links, id) ==> (#[trigger] links[i]).id != id,
    decreases links.len(),
{
    if links.len() > 0 && links[0].id != id {
        lemma_link_at(links.drop_first(), id);
        assert forall|i: int| 0 <= i < link_at(links, id) implies (#[trigger] links[i]).id != id by {
            if i > 0 {
                assert(links.drop_first()[i - 1] == links[i]);
            }
        }
    }
}

/// The connections before an index are not to the device, and the one there is.
pub proof fn lemma_link_to(links: Seq<LinkView>, peer: Seq<char>)
    ensures
        link_to(links, peer) <= links.len(),
        link_to(links, peer) < links.len() ==> links[link_to(links, peer) as int].channel.peer == Some(peer),
        forall|i: int| 0 <= i < link_to(links, peer) ==> (#[trigger] links[i]).channel.peer != Some(peer),
    decreases links.len(),
{
    if links.len() > 0 && links[0].channel.peer != Some(peer) {
        lemma_link_to(links.drop_first(), peer);
        assert forall|i: int| 0 <= i < link_to(links, peer) implies (#[trigger] links[i]).channel.peer != Some(
            peer,
        ) by {
            if i > 0 {
                assert(links.drop_first()[i - 1] == links[i]);
            }
        }
    }
}

/// Pieces of a session, to be told of.
fn note_pieces(s: &Session) -> (r: Vec<Noted>)
    ensures
        event::noteds_view(r@) == noted(s@.chunks),
{
    let mut r: Vec<Noted> = Vec::new();
    let mut i: usize = 0;
    while i < s.chunks.len()
        invariant
            i <= s.chunks@.len(),
            r@.len() == i,
            forall|k: int| 0 <= k < i ==> (#[trigger] r@[k])@ == noted(s@.chunks)[k],
        decreases s.chunks.len() - i,
    {
        r.push(
            Noted {
                sequence: s.chunks[i].sequence,
                text: text::copy(&s.chunks[i].text),
                status: s.chunks[i].status,
            },
        );
        i = i + 1;
    }
    assert(event::noteds_view(r@) =~= noted(s@.chunks));
    r
}

impl Desk {
    /// What holds at all times.
    pub open spec fn wf(&self) -> bool {
        &&& forall|i: int| 0 <= i < self.links@.len() ==> (#[trigger] self.links@[i]).channel.wf()
        &&& apart(self@.links)
        &&& trust::sorted(self@.trust)
        &&& self.private@.len() == 32
        &&& self.history.wf()
    }

    /// One more event waits, unless too many do.
    pub fn emit(&mut self, e: Event)
        requires
            old(self).wf(),
        ensures
            final(self).wf(),
            final(self)@ == old(self)@.emit(e@),
            final(self).history.replies() == old(self).history.replies(),
    {
        let ghost begun = self@;
        if self.events.len() >= MAX_EVENTS {
            self.faulted = true;
        } else {
            self.events.push(e);
            assert(self@.events =~= begun.events.push(e@));
        }
    }

    /// Tells of a session.
    pub fn snapshot(&mut self, s: &Session)
        requires
            old(self).wf(),
        ensures
            final(self).wf(),
            final(self)@ == old(self)@.snapshot(s@),
            final(self).history.replies() == old(self).history.replies(),
    {
        self.emit(
            Event::Session {
                binding: s.binding.clone(),
                phase: s.phase,
                draft: text::copy(&s.draft),
                chunks: note_pieces(s),
                stopped: s.stopped,
                cancelled: s.cancelled,
            },
        );
    }

    /// The index of a connection.
    pub fn find_link(&self, id: &str) -> (r: Option<usize>)
        ensures
            match r {
                Some(i) => i == link_at(self@.links, id@) && i < self.links@.len(),
                None => link_at(self@.links, id@) >= self.links@.len(),
            },
    {
        let ghost all = self@.links;
        let mut i: usize = 0;
        assert(all.skip(0) =~= all);
        while i < self.links.len()
            invariant
                all == self@.links,
                i <= self.links@.len(),
                link_at(all, id@) == i + link_at(all.skip(i as int), id@),
            decreases self.links.len() - i,
        {
            assert(all.skip(i as int)[0] == all[i as int]);
            if text::same(self.links[i].id.as_str(), id) {
                return Some(i);
            }
            assert(all.skip(i as int).drop_first() =~= all.skip(i + 1));
            i = i + 1;
        }
        None
    }

    /// The index of a connection to a device.
    pub fn find_peer(&self, peer: &str) -> (r: Option<usize>)
        ensures
            match r {
                Some(i) => i == link_to(self@.links, peer@) && i < self.links@.len(),
                None => link_to(self@.links, peer@) >= self.links@.len(),
            },
    {
        let ghost all = self@.links;
        let mut i: usize = 0;
        assert(all.skip(0) =~= all);
        while i < self.links.len()
            invariant
                all == self@.links,
                i <= self.links@.len(),
                link_to(all, peer@) == i + link_to(all.skip(i as int), peer@),
            decreases self.links.len() - i,
        {
            assert(all.skip(i as int)[0] == all[i as int]);
            if text::is_some_text(&self.links[i].channel.peer, peer) {
                return Some(i);
            }
            assert(all.skip(i as int).drop_first() =~= all.skip(i + 1));
            i = i + 1;
        }
        None
    }

    /// Draws an identifier.
    pub fn fresh(&mut self) -> (id: u128)
        requires
            old(self).wf(),
        ensures
            final(self).wf(),
            final(self)@ == old(self)@.asking(Ask::Fresh),
            final(self).history.replies() == old(self).history.replies().push(Reply::Id(id)),
            id != 0,
    {
        let id = self.history.fresh();
        proof {
            ids::lemma_fresh_not_nil(id);
        }
        id
    }

    /// Asks the journal to note a session.
    pub fn note(&mut self, id: u128, peer: &str, now: u64) -> (r: Result<(), CoreError>)
        requires
            old(self).wf(),
        ensures
            final(self).wf(),
            outside::continues(final(self).history.replies(), old(self).history.replies()),
            forall|log: Seq<Reply>| #[trigger]
                outside::continues(log, final(self).history.replies()) ==> old(self)@.note(id, peer@, now, log) == (Did {
                    desk: final(self)@,
                    result: crate::outcome(r),
                }),
    {
        broadcast use outside::group_continues;

        let r = self.history.note(id, peer, now);
        assert(outside::continues(self.history.replies(), self.history.replies()));
        r
    }

    /// Asks the journal whether a peer may speak of a session.
    pub fn authorize(&mut self, id: u128, peer: &str, now: u64) -> (r: Result<(), CoreError>)
        requires
            old(self).wf(),
        ensures
            final(self).wf(),
            outside::continues(final(self).history.replies(), old(self).history.replies()),
            forall|log: Seq<Reply>| #[trigger]
                outside::continues(log, final(self).history.replies()) ==> old(self)@.authorize(id, peer@, now, log) == (Did {
                    desk: final(self)@,
                    result: crate::outcome(r),
                }),
    {
        broadcast use outside::group_continues;

        let r = self.history.authorize(id, peer, now);
        assert(outside::continues(self.history.replies(), self.history.replies()));
        r
    }

    /// Asks the journal to register a piece.
    pub fn register(&mut self, id: u128, sequence: u64, text: &str) -> (r: Result<Option<Ack>, CoreError>)
        requires
            old(self).wf(),
        ensures
            final(self).wf(),
            outside::continues(final(self).history.replies(), old(self).history.replies()),
            forall|log: Seq<Reply>| #[trigger]
                outside::continues(log, final(self).history.replies()) ==> old(self)@.register(id, sequence, text@, log) == (
                Did { desk: final(self)@, result: crate::outcome(r) }),
    {
        broadcast use outside::group_continues;

        let r = self.history.register(id, sequence, text);
        assert(outside::continues(self.history.replies(), self.history.replies()));
        r
    }

    /// Asks the journal to record what became of a piece.
    pub fn record(&mut self, id: u128, sequence: u64, status: Ack) -> (r: Result<(), CoreError>)
        requires
            old(self).wf(),
        ensures
            final(self).wf(),
            outside::continues(final(self).history.replies(), old(self).history.replies()),
            forall|log: Seq<Reply>| #[trigger]
                outside::continues(log, final(self).history.replies()) ==> old(self)@.record(id, sequence, status, log) == (
                Did { desk: final(self)@, result: crate::outcome(r) }),
    {
        broadcast use outside::group_continues;

        let r = self.history.record(id, sequence, status);
        assert(outside::continues(self.history.replies(), self.history.replies()));
        r
    }

    /// Asks the journal what became of a piece.
    pub fn tell(&mut self, id: u128, sequence: u64) -> (r: Result<Ack, CoreError>)
        requires
            old(self).wf(),
        ensures
            final(self).wf(),
            outside::continues(final(self).history.replies(), old(self).history.replies()),
            forall|log: Seq<Reply>| #[trigger]
                outside::continues(log, final(self).history.replies()) ==> old(self)@.tell(id, sequence, log) == (Did {
                    desk: final(self)@,
                    result: crate::outcome(r),
                }),
    {
        broadcast use outside::group_continues;

        let r = self.history.tell(id, sequence);
        assert(outside::continues(self.history.replies(), self.history.replies()));
        r
    }

    /// Seals a message for a connection, and lets it wait to be sent.
    pub fn send_on(&mut self, connection: &str, payload: Payload) -> (r: Result<(), CoreError>)
        requires
            old(self).wf(),
        ensures
            final(self).wf(),
            outside::continues(final(self).history.replies(), old(self).history.replies()),
            forall|log: Seq<Reply>| #[trigger]
                outside::continues(log, final(self).history.replies()) ==> old(self)@.send_on(connection@, payload@, log) == (
                Did { desk: final(self)@, result: crate::outcome(r) }),
            forall|log: Seq<Reply>| #[trigger]
                outside::continues(log, final(self).history.replies()) && r is Ok ==> readable(
                    old(self)@.links[link_at(old(self)@.links, connection@) as int].channel,
                    old(self)@.message(payload@, log),
                ),
    {
        broadcast use outside::group_continues;

        let ghost begun = self@;
        let request_id = self.fresh();
        assert(outside::continues(self.history.replies(), self.history.replies()));
        let wire = Wire { protocol_version: VERSION, request_id, payload };
        let bytes = wire.encode();
        let i = match self.find_link(connection) {
            Some(i) => i,
            None => return fail("target_offline"),
        };
        let ghost drawn = self@;
        match self.links[i].channel.encrypt(bytes.as_slice()) {
            Ok(data) => {
                assert(self@ == drawn.with_channel(i as int, begun.links[i as int].channel.spoke())) by {
                    assert(self@.links =~= drawn.with_channel(i as int, begun.links[i as int].channel.spoke()).links);
                }
                self.emit(Event::SocketSend { connection_id: connection.to_owned(), data });
                Ok(())
            },
            Err(e) => {
                assert(self@.links =~= drawn.links);
                Err(e)
            },
        }
    }

    /// Sends a message to a paired device.
    pub fn send(&mut self, peer: &str, payload: Payload) -> (r: Result<(), CoreError>)
        requires
            old(self).wf(),
        ensures
            final(self).wf(),
            outside::continues(final(self).history.replies(), old(self).history.replies()),
            forall|log: Seq<Reply>| #[trigger]
                outside::continues(log, final(self).history.replies()) ==> old(self)@.send(peer@, payload@, log) == (Did {
                    desk: final(self)@,
                    result: crate::outcome(r),
                }),
            forall|log: Seq<Reply>| #[trigger]
                outside::continues(log, final(self).history.replies()) && r is Ok ==> readable(
                    old(self)@.channel_to(peer@),
                    old(self)@.message(payload@, log),
                ),
    {
        broadcast use outside::group_continues;

        reveal(DeskView::send);
        assert(outside::continues(self.history.replies(), self.history.replies()));
        if !trust::contains(&self.trust, peer) {
            return fail("unpaired_device");
        }
        match self.find_peer(peer) {
            Some(i) => {
                let connection = text::copy(&self.links[i].id);
                self.send_on(connection.as_str(), payload)
            },
            None => fail("target_offline"),
        }
    }

    /// Tells of a device.
    pub fn peer_event(&mut self, peer: &str, online: bool)
        requires
            old(self).wf(),
        ensures
            final(self).wf(),
            final(self)@ == old(self)@.peer_event(peer@, online),
            final(self).history.replies() == old(self).history.replies(),
    {
        let known = trust::find(&self.trust, peer);
        let none = String::new();
        assert(none@ =~= seq![]);
        let (name, code) = match self.find_peer(peer) {
            Some(i) => (text::copy(&self.links[i].channel.name), text::copy(&self.links[i].channel.code)),
            None => (
                match known {
                    Some(k) => text::copy(&self.trust[k].name),
                    None => text::copy(&none),
                },
                text::copy(&none),
            ),
        };
        let allow_remote = trust::allows(&self.trust, peer);
        self.emit(
            Event::Peer { peer_id: peer.to_owned(), name, online, paired: known.is_some(), allow_remote, code },
        );
    }

    /// Tells of the paired devices.
    pub fn save_trust(&mut self)
        requires
            old(self).wf(),
        ensures
            final(self).wf(),
            final(self)@ == old(self)@.save_trust(),
            final(self).history.replies() == old(self).history.replies(),
    {
        let peers = trust::copy(&self.trust);
        self.emit(Event::TrustChanged { peers });
    }

    /// Pairs with a device once both sides have confirmed.
    pub fn maybe_pair(&mut self, peer: &str) -> (r: Result<(), CoreError>)
        requires
            old(self).wf(),
        ensures
            final(self).wf(),
            old(self)@.maybe_pair(peer@) == (Did { desk: final(self)@, result: crate::outcome(r) }),
            final(self).history.replies() == old(self).history.replies(),
    {
        let i = match self.find_peer(peer) {
            Some(i) => i,
            None => return fail("target_offline"),
        };
        if self.links[i].channel.local_confirmed && self.links[i].channel.remote_confirmed {
            if !trust::contains(&self.trust, peer) {
                let name = text::copy(&self.links[i].channel.name);
                proof {
                    trust::law_a_paired_device_is_on_the_list(
                        self@.trust,
                        TrustView { peer_id: peer@, name: name@, allow_remote: false },
                    );
                }
                trust::put(&mut self.trust, Trust { peer_id: peer.to_owned(), name, allow_remote: false });
            }
            self.save_trust();
            self.peer_event(peer, true);
        }
        Ok(())
    }
}

} // verus!
