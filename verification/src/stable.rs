//! Dictated text that is still open to revision, and what of it has become final.
use crate::protocol::MAX_TEXT;
use crate::text;
use crate::{fail, CoreError};
use vstd::prelude::*;

verus! {

/// A stretch of audio, in microseconds, with the text heard in it.
pub struct Segment {
    pub start: i64,
    pub end: i64,
    pub text: String,
}

/// A stretch of audio with its text, as mathematics.
pub struct SegmentView {
    pub start: int,
    pub end: int,
    pub text: Seq<char>,
}

impl View for Segment {
    type V = SegmentView;

    open spec fn view(&self) -> SegmentView {
        SegmentView { start: self.start as int, end: self.end as int, text: self.text@ }
    }
}

/// The segments in a list.
pub open spec fn segments_view(v: Seq<Segment>) -> Seq<SegmentView> {
    Seq::new(v.len(), |i: int| v[i]@)
}

/// The texts in a list.
pub open spec fn texts_view(v: Seq<String>) -> Seq<Seq<char>> {
    Seq::new(v.len(), |i: int| v[i]@)
}

/// What is held of a dictation: the open segments in the order of their starts, the
/// end of what was given out, and the time up to which results are final.
#[verifier::ext_equal]
pub struct StableView {
    pub segments: Seq<SegmentView>,
    pub committed_end: int,
    pub finalized_until: int,
}

/// The dictated text that is not final yet.
pub struct StableText {
    segments: Vec<Segment>,
    committed_end: i64,
    finalized_until: i64,
}

impl View for StableText {
    type V = StableView;

    closed spec fn view(&self) -> StableView {
        StableView {
            segments: segments_view(self.segments@),
            committed_end: self.committed_end as int,
            finalized_until: self.finalized_until as int,
        }
    }
}

/// The segments that a result for the range leaves alone.
pub open spec fn clear_of(segments: Seq<SegmentView>, start: int, end: int) -> Seq<SegmentView>
    decreases segments.len(),
{
    if segments.len() == 0 {
        seq![]
    } else {
        let rest = clear_of(segments.drop_last(), start, end);
        if segments.last().end <= start || segments.last().start >= end {
            rest.push(segments.last())
        } else {
            rest
        }
    }
}

/// The number of leading segments that start before the given time.
pub open spec fn starts_before(segments: Seq<SegmentView>, start: int) -> nat
    decreases segments.len(),
{
    if segments.len() == 0 || segments[0].start >= start {
        0
    } else {
        1 + starts_before(segments.drop_first(), start)
    }
}

/// The segments with one more in its place; it replaces one with the same start.
pub open spec fn placed(segments: Seq<SegmentView>, s: SegmentView) -> Seq<SegmentView> {
    let r = starts_before(segments, s.start) as int;
    if r < segments.len() && segments[r].start == s.start {
        segments.update(r, s)
    } else {
        segments.insert(r, s)
    }
}

/// The number of leading segments that end by the given time.
pub open spec fn ended_by(segments: Seq<SegmentView>, time: int) -> nat
    decreases segments.len(),
{
    if segments.len() == 0 || segments[0].end > time {
        0
    } else {
        1 + ended_by(segments.drop_first(), time)
    }
}

/// The texts of the segments that have any.
pub open spec fn spoken(segments: Seq<SegmentView>) -> Seq<Seq<char>>
    decreases segments.len(),
{
    if segments.len() == 0 {
        seq![]
    } else if segments.last().text.len() == 0 {
        spoken(segments.drop_last())
    } else {
        spoken(segments.drop_last()).push(segments.last().text)
    }
}

/// The latest of a time and the ends of the segments.
pub open spec fn latest_end(segments: Seq<SegmentView>, time: int) -> int
    decreases segments.len(),
{
    if segments.len() == 0 {
        time
    } else {
        let before = latest_end(segments.drop_last(), time);
        if segments.last().end > before {
            segments.last().end
        } else {
            before
        }
    }
}

/// The texts of the segments, one after the other.
pub open spec fn joined(segments: Seq<SegmentView>) -> Seq<char>
    decreases segments.len(),
{
    if segments.len() == 0 {
        seq![]
    } else {
        joined(segments.drop_last()) + segments.last().text
    }
}

/// What a result came to: the state after it, and the texts that became final, or
/// the code of the refusal.
pub struct Observed {
    pub state: StableView,
    pub ready: Result<Seq<Seq<char>>, Seq<char>>,
}

impl StableView {
    /// Nothing heard yet.
    pub open spec fn fresh() -> StableView {
        StableView { segments: seq![], committed_end: 0, finalized_until: 0 }
    }

    /// The segments stand in order and are all still open: each ends after the time up to
    /// which results are final, and what was given out does not.
    pub open spec fn wf(self) -> bool {
        &&& self.in_order()
        &&& self.committed_end <= self.finalized_until
        &&& forall|i: int| 0 <= i < self.segments.len() ==> (#[trigger] self.segments[i]).end > self.finalized_until
    }

    /// The segments stand one after the other, all behind what was given out.
    pub open spec fn in_order(self) -> bool {
        &&& self.committed_end >= 0
        &&& self.finalized_until >= 0
        &&& forall|i: int|
            0 <= i < self.segments.len() ==> self.committed_end <= (#[trigger] self.segments[i]).start
                <= self.segments[i].end
        &&& forall|i: int, j: int|
            0 <= i < j < self.segments.len() ==> (#[trigger] self.segments[i]).start < (
            #[trigger] self.segments[j]).start && self.segments[i].end <= self.segments[j].start
    }

    /// The state with a result put in its place, before anything is given out.
    pub open spec fn heard(self, start: int, end: int, finalized_until: int, text: Seq<char>) -> StableView {
        StableView {
            segments: placed(clear_of(self.segments, start, end), SegmentView { start, end, text }),
            committed_end: self.committed_end,
            finalized_until: if finalized_until > self.finalized_until {
                finalized_until
            } else {
                self.finalized_until
            },
        }
    }

    /// The state after the leading segments that are final are given out.
    pub open spec fn released(self) -> StableView {
        let n = ended_by(self.segments, self.finalized_until) as int;
        StableView {
            segments: self.segments.skip(n),
            committed_end: latest_end(self.segments.take(n), self.committed_end),
            finalized_until: self.finalized_until,
        }
    }

    /// The texts of the leading segments that are final.
    pub open spec fn ready(self) -> Seq<Seq<char>> {
        spoken(self.segments.take(ended_by(self.segments, self.finalized_until) as int))
    }

    /// What a result comes to. A range that is given out already is passed over, one
    /// that reaches into it is refused.
    pub open spec fn observe(self, start: int, end: int, finalized_until: int, text: Seq<char>) -> Observed {
        if start < 0 || end < start || finalized_until < 0 || text::size(text) > MAX_TEXT {
            Observed { state: self, ready: Err("invalid_audio_range"@) }
        } else if end <= self.committed_end {
            Observed { state: self, ready: Ok(seq![]) }
        } else if start < self.committed_end {
            Observed { state: self, ready: Err("finalized_revision"@) }
        } else {
            let after = self.heard(start, end, finalized_until, text);
            Observed { state: after.released(), ready: Ok(after.ready()) }
        }
    }

    /// The text that is not final yet.
    pub open spec fn draft(self) -> Seq<char> {
        joined(self.segments)
    }
}

// ---------------------------------------------------------------- what is known

/// What `clear_of` keeps stands in the same order, and is clear of the range.
pub proof fn lemma_clear_of(s: StableView, start: int, end: int)
    requires
        s.in_order(),
    ensures
        (StableView { segments: clear_of(s.segments, start, end), ..s }).in_order(),
        forall|i: int|
            0 <= i < clear_of(s.segments, start, end).len() ==> (#[trigger] clear_of(s.segments, start, end)[i]).end
                <= start || clear_of(s.segments, start, end)[i].start >= end,
        forall|i: int|
            0 <= i < clear_of(s.segments, start, end).len() ==> s.segments.contains(
                #[trigger] clear_of(s.segments, start, end)[i],
            ),
    decreases s.segments.len(),
{
    if s.segments.len() > 0 {
        let rest = StableView { segments: s.segments.drop_last(), ..s };
        lemma_clear_of(rest, start, end);
        let kept = clear_of(rest.segments, start, end);
        let out = clear_of(s.segments, start, end);
        assert forall|i: int| 0 <= i < kept.len() implies s.segments.contains(#[trigger] kept[i]) by {
            let k = choose|k: int| 0 <= k < rest.segments.len() && rest.segments[k] == kept[i];
            assert(s.segments[k] == kept[i]);
        }
        assert(s.segments.last() == s.segments[s.segments.len() - 1]);
        if out.len() > kept.len() {
            assert(forall|i: int| 0 <= i < kept.len() ==> out[i] == kept[i]);
            assert(out.last() == s.segments.last());
            assert forall|i: int, j: int| 0 <= i < j < out.len() implies (#[trigger] out[i]).start < (
            #[trigger] out[j]).start && out[i].end <= out[j].start by {
                if j == kept.len() {
                    assert(rest.segments.contains(kept[i]));
                    let k = choose|k: int| 0 <= k < rest.segments.len() && rest.segments[k] == kept[i];
                    assert(s.segments[k] == out[i]);
                    assert(s.segments[s.segments.len() - 1] == out[j]);
                } else {
                    let inner = StableView { segments: kept, ..s };
                    assert(inner.segments[i] == out[i]);
                    assert(inner.segments[j] == out[j]);
                }
            }
        }
    }
}

/// The leading segments that `starts_before` counts start before the time, the next
/// does not.
pub proof fn lemma_starts_before(segments: Seq<SegmentView>, start: int)
    ensures
        starts_before(segments, start) <= segments.len(),
        forall|i: int| 0 <= i < starts_before(segments, start) ==> (#[trigger] segments[i]).start < start,
        starts_before(segments, start) < segments.len() ==> segments[starts_before(segments, start) as int].start
            >= start,
    decreases segments.len(),
{
    if segments.len() > 0 && segments[0].start < start {
        let rest = segments.drop_first();
        lemma_starts_before(rest, start);
        assert forall|i: int| 0 <= i < starts_before(segments, start) implies (#[trigger] segments[i]).start < start by {
            if i > 0 {
                assert(segments[i] == rest[i - 1]);
            }
        }
    }
}

/// The leading segments that `ended_by` counts end by the time.
pub proof fn lemma_ended_by(segments: Seq<SegmentView>, time: int)
    ensures
        ended_by(segments, time) <= segments.len(),
        forall|i: int| 0 <= i < ended_by(segments, time) ==> (#[trigger] segments[i]).end <= time,
        ended_by(segments, time) < segments.len() ==> segments[ended_by(segments, time) as int].end > time,
    decreases segments.len(),
{
    if segments.len() > 0 && segments[0].end <= time {
        let rest = segments.drop_first();
        lemma_ended_by(rest, time);
        assert forall|i: int| 0 <= i < ended_by(segments, time) implies (#[trigger] segments[i]).end <= time by {
            if i > 0 {
                assert(segments[i] == rest[i - 1]);
            }
        }
    }
}

/// Of segments in order the last one ends latest.
pub proof fn lemma_latest_end(segments: Seq<SegmentView>, time: int)
    requires
        forall|i: int| 0 <= i < segments.len() ==> time <= (#[trigger] segments[i]).start <= segments[i].end,
        forall|i: int, j: int|
            0 <= i < j < segments.len() ==> (#[trigger] segments[i]).end <= (#[trigger] segments[j]).start,
    ensures
        latest_end(segments, time) == (if segments.len() == 0 {
            time
        } else {
            segments.last().end
        }),
    decreases segments.len(),
{
    if segments.len() > 0 {
        let rest = segments.drop_last();
        lemma_latest_end(rest, time);
        if rest.len() > 0 {
            assert(rest.last() == segments[segments.len() - 2]);
        }
    }
}

/// A result put in its place keeps the segments in order.
pub proof fn lemma_heard(s: StableView, start: int, end: int, finalized_until: int, text: Seq<char>)
    requires
        s.in_order(),
        s.committed_end <= start <= end,
        finalized_until >= 0,
    ensures
        s.heard(start, end, finalized_until, text).in_order(),
{
    lemma_clear_of(s, start, end);
    let clear = clear_of(s.segments, start, end);
    lemma_starts_before(clear, start);
    let r = starts_before(clear, start) as int;
    let one = SegmentView { start, end, text };
    let out = placed(clear, one);
    let inner = StableView { segments: clear, ..s };
    let replaced = r < clear.len() && clear[r].start == start;
    let shift: int = if replaced { 0 } else { 1 };
    assert(forall|i: int| 0 <= i < r ==> out[i] == clear[i]);
    assert(out[r] == one);
    assert(forall|i: int| r < i < out.len() ==> out[i] == clear[i - shift]);
    assert forall|i: int, j: int| 0 <= i < j < out.len() implies (#[trigger] out[i]).start < (#[trigger] out[j]).start
        && out[i].end <= out[j].start by {
        if j < r {
            assert(inner.segments[i] == out[i] && inner.segments[j] == out[j]);
        } else if j == r {
            assert(clear[i].start < start);
            assert(clear[i].end <= start || clear[i].start >= end);
        } else if i < r {
            assert(inner.segments[i] == out[i] && inner.segments[j - shift] == out[j]);
        } else if i == r {
            let b = inner.segments[j - shift];
            let a = inner.segments[r];
            assert(b == clear[j - shift] && a == clear[r] && b == out[j]);
            if replaced {
                assert(j - shift > r);
                assert(a.start < b.start);
            } else {
                assert(a.start > start);
                assert(j - shift > r ==> a.start < b.start);
            }
            assert(b.end <= start || b.start >= end);
        } else {
            assert(inner.segments[i - shift] == out[i] && inner.segments[j - shift] == out[j]);
        }
    }
    assert forall|i: int| 0 <= i < out.len() implies s.committed_end <= (#[trigger] out[i]).start <= out[i].end by {
        if i < r {
            assert(inner.segments[i] == out[i]);
        } else if i > r {
            assert(inner.segments[i - shift] == out[i]);
        }
    }
}

/// Giving out what is final keeps the segments in order, behind what was given out.
pub proof fn lemma_released(s: StableView)
    requires
        s.in_order(),
        s.committed_end <= s.finalized_until,
    ensures
        s.released().wf(),
        s.released().committed_end >= s.committed_end,
{
    let n = ended_by(s.segments, s.finalized_until) as int;
    lemma_ended_by(s.segments, s.finalized_until);
    let out = s.segments.take(n);
    lemma_latest_end(out, s.committed_end);
    if n > 0 {
        assert(out.last() == s.segments[n - 1]);
    }
    let rest = s.released();
    assert forall|i: int| 0 <= i < rest.segments.len() implies (#[trigger] rest.segments[i]).end
        > rest.finalized_until by {
        assert(rest.segments[i] == s.segments[i + n]);
        if i > 0 {
            assert(s.segments[n].end <= s.segments[i + n].start);
        }
    }
    assert forall|i: int| 0 <= i < rest.segments.len() implies rest.committed_end <= (#[trigger] rest.segments[i]).start
        <= rest.segments[i].end by {
        assert(rest.segments[i] == s.segments[i + n]);
    }
    assert forall|i: int, j: int| 0 <= i < j < rest.segments.len() implies (#[trigger] rest.segments[i]).start < (
    #[trigger] rest.segments[j]).start && rest.segments[i].end <= rest.segments[j].start by {
        assert(rest.segments[i] == s.segments[i + n]);
        assert(rest.segments[j] == s.segments[j + n]);
    }
}

/// The texts of the segments that have any, one after the other, are the texts of all.
proof fn lemma_spoken(segments: Seq<SegmentView>)
    ensures
        spoken(segments).flatten() == joined(segments),
    decreases segments.len(),
{
    broadcast use Seq::lemma_flatten_push;

    if segments.len() > 0 {
        lemma_spoken(segments.drop_last());
        if segments.last().text.len() == 0 {
            assert(joined(segments) =~= joined(segments.drop_last()));
        }
    }
}

/// The texts of segments are those of the first ones and then those of the others.
proof fn lemma_joined(segments: Seq<SegmentView>, n: int)
    requires
        0 <= n <= segments.len(),
    ensures
        joined(segments) == joined(segments.take(n)) + joined(segments.skip(n)),
    decreases segments.len(),
{
    if n < segments.len() {
        lemma_joined(segments.drop_last(), n);
        assert(segments.drop_last().take(n) =~= segments.take(n));
        assert(segments.drop_last().skip(n) =~= segments.skip(n).drop_last());
        assert(segments.skip(n).last() == segments.last());
        assert(joined(segments) =~= joined(segments.take(n)) + joined(segments.skip(n)));
    } else {
        assert(segments.take(n) =~= segments);
        assert(joined(segments) =~= joined(segments.take(n)) + joined(segments.skip(n)));
    }
}

// ---------------------------------------------------------------- laws

/// Every result keeps the segments in order, open, and behind what was given out, and neither
/// the end of what was given out nor the time of finality moves back.
pub proof fn law_observe_moves_forward(
    s: StableView,
    start: int,
    end: int,
    finalized_until: int,
    text: Seq<char>,
)
    requires
        s.wf(),
    ensures
        s.observe(start, end, finalized_until, text).state.wf(),
        s.observe(start, end, finalized_until, text).state.committed_end >= s.committed_end,
        s.observe(start, end, finalized_until, text).state.finalized_until >= s.finalized_until,
{
    if 0 <= start <= end && s.committed_end <= start && finalized_until >= 0 {
        lemma_heard(s, start, end, finalized_until, text);
        lemma_released(s.heard(start, end, finalized_until, text));
    }
}

/// Text that was given out is never taken back: once a range is given out, a later
/// result that starts before its end changes nothing and gives nothing out.
pub proof fn law_committed_text_stays(
    s: StableView,
    start: int,
    end: int,
    finalized_until: int,
    text: Seq<char>,
)
    requires
        start < s.committed_end,
    ensures
        s.observe(start, end, finalized_until, text).state == s,
        s.observe(start, end, finalized_until, text).ready matches Ok(r) ==> r.len() == 0,
{
}

/// Only finality gives text out: where no open segment and not the new one ends by the
/// time up to which results are final, nothing is given out, however often it is heard.
pub proof fn law_only_finality_gives_out(
    s: StableView,
    start: int,
    end: int,
    finalized_until: int,
    text: Seq<char>,
)
    requires
        s.wf(),
        end > finalized_until,
        end > s.finalized_until,
        forall|i: int|
            0 <= i < s.segments.len() ==> (#[trigger] s.segments[i]).end > finalized_until,
    ensures
        s.observe(start, end, finalized_until, text).ready matches Ok(r) ==> r.len() == 0,
        s.observe(start, end, finalized_until, text).state.committed_end == s.committed_end,
{
    if 0 <= start <= end && s.committed_end <= start && finalized_until >= 0 {
        let after = s.heard(start, end, finalized_until, text);
        lemma_clear_of(s, start, end);
        let clear = clear_of(s.segments, start, end);
        lemma_starts_before(clear, start);
        let r = starts_before(clear, start) as int;
        assert(after.segments[0].end > after.finalized_until) by {
            if after.segments[0] != (SegmentView { start, end, text }) {
                assert(after.segments[0] == clear[0]);
                assert(s.segments.contains(clear[0]));
            }
        }
        assert(ended_by(after.segments, after.finalized_until) == 0);
        assert(after.segments.take(0) =~= seq![]);
    }
}

/// What is given out is final: each text belongs to a segment that ends by the time up
/// to which results are final, and what stays open ends later or stands behind one that
/// does.
pub proof fn law_given_out_is_final(
    s: StableView,
    start: int,
    end: int,
    finalized_until: int,
    text: Seq<char>,
)
    requires
        s.wf(),
        s.committed_end <= start <= end,
        s.committed_end < end,
        finalized_until >= 0,
        text::size(text) <= MAX_TEXT,
    ensures
        ({
            let after = s.heard(start, end, finalized_until, text);
            let n = ended_by(after.segments, after.finalized_until) as int;
            let o = s.observe(start, end, finalized_until, text);
            &&& o.ready == Ok::<Seq<Seq<char>>, Seq<char>>(spoken(after.segments.take(n)))
            &&& o.state.segments == after.segments.skip(n)
            &&& forall|i: int| 0 <= i < n ==> (#[trigger] after.segments[i]).end <= after.finalized_until
            &&& n < after.segments.len() ==> after.segments[n].end > after.finalized_until
        }),
{
    let after = s.heard(start, end, finalized_until, text);
    lemma_ended_by(after.segments, after.finalized_until);
}

/// No text is lost: what a result gives out and the draft that it leaves are, one after the
/// other, what was held with the result in its place.
pub proof fn law_no_text_is_lost(s: StableView, start: int, end: int, finalized_until: int, text: Seq<char>)
    requires
        0 <= start <= end,
        s.committed_end <= start,
        s.committed_end < end,
        finalized_until >= 0,
        text::size(text) <= MAX_TEXT,
    ensures
        s.observe(start, end, finalized_until, text).ready matches Ok(ready) && ready.flatten() + s.observe(
            start,
            end,
            finalized_until,
            text,
        ).state.draft() == s.heard(start, end, finalized_until, text).draft(),
{
    let after = s.heard(start, end, finalized_until, text);
    let n = ended_by(after.segments, after.finalized_until) as int;
    lemma_ended_by(after.segments, after.finalized_until);
    lemma_spoken(after.segments.take(n));
    lemma_joined(after.segments, n);
}

/// The segments that `clear_of` keeps are all that are clear of the range.
proof fn lemma_clear_of_keeps(segments: Seq<SegmentView>, start: int, end: int, x: SegmentView)
    requires
        segments.contains(x),
        x.end <= start || x.start >= end,
    ensures
        clear_of(segments, start, end).contains(x),
    decreases segments.len(),
{
    let kept = clear_of(segments.drop_last(), start, end);
    let k = choose|k: int| 0 <= k < segments.len() && segments[k] == x;
    if k < segments.len() - 1 {
        assert(segments.drop_last()[k] == x);
        lemma_clear_of_keeps(segments.drop_last(), start, end, x);
        let m = choose|m: int| 0 <= m < kept.len() && kept[m] == x;
        assert(clear_of(segments, start, end)[m] == x);
    } else {
        assert(clear_of(segments, start, end)[kept.len() as int] == x);
    }
}

/// Whether a segment is one that is held once a result is taken in: the result itself, or one
/// that was open and does not overlap it.
pub open spec fn is_held(s: StableView, start: int, end: int, text: Seq<char>, x: SegmentView) -> bool {
    ||| x == (SegmentView { start, end, text })
    ||| s.segments.contains(x) && (x.end <= start || x.start >= end) && x.start != start
}

/// A result takes the place of what it overlaps, and of nothing else: every other open segment
/// is still held, in the order of the audio, and nothing is held that was not heard.
pub proof fn law_a_result_replaces_only_what_it_overlaps(
    s: StableView,
    start: int,
    end: int,
    finalized_until: int,
    text: Seq<char>,
    x: SegmentView,
)
    requires
        s.wf(),
        s.committed_end <= start <= end,
        finalized_until >= 0,
    ensures
        s.heard(start, end, finalized_until, text).segments.contains(x) <==> is_held(s, start, end, text, x),
        s.heard(start, end, finalized_until, text).in_order(),
{
    lemma_heard(s, start, end, finalized_until, text);
    lemma_clear_of(s, start, end);
    let clear = clear_of(s.segments, start, end);
    lemma_starts_before(clear, start);
    let r = starts_before(clear, start) as int;
    let one = SegmentView { start, end, text };
    let out = placed(clear, one);
    let replaced = r < clear.len() && clear[r].start == start;
    let shift: int = if replaced { 0 } else { 1 };
    assert(out[r] == one);
    if s.segments.contains(x) && (x.end <= start || x.start >= end) && x.start != start {
        lemma_clear_of_keeps(s.segments, start, end, x);
        let k = choose|k: int| 0 <= k < clear.len() && clear[k] == x;
        if k < r {
            assert(out[k] == x);
        } else {
            assert(out[k + shift] == x);
        }
    }
    if out.contains(x) && x != one {
        let k = choose|k: int| 0 <= k < out.len() && out[k] == x;
        if k < r {
            assert(clear[k] == x);
        } else {
            assert(clear[k - shift] == x);
        }
        let inner = StableView { segments: clear, ..s };
        assert(inner.in_order());
        let m = if k < r { k } else { k - shift };
        assert(inner.segments[m] == x);
        assert(s.segments.contains(clear[m]));
        if m > r && replaced {
            assert(inner.segments[r].start < inner.segments[m].start);
        } else if m > r {
            assert(inner.segments[r].start < inner.segments[m].start);
        }
    }
}

/// The later of two times.
pub open spec fn later(a: int, b: int) -> int {
    if a > b {
        a
    } else {
        b
    }
}

/// The texts of segments, without those that are silent.
pub open spec fn sounding(segments: Seq<SegmentView>) -> Seq<Seq<char>> {
    segments.map_values(|y: SegmentView| y.text).filter(|t: Seq<char>| t.len() > 0)
}

/// Whether segments are the ones to give out: those held ones that end by a time, in the order
/// of the audio.
pub open spec fn are_due(
    s: StableView,
    start: int,
    end: int,
    text: Seq<char>,
    until: int,
    given: Seq<SegmentView>,
) -> bool {
    &&& forall|x: SegmentView| #[trigger] given.contains(x) <==> is_held(s, start, end, text, x) && x.end <= until
    &&& forall|i: int, j: int|
        0 <= i < j < given.len() ==> (#[trigger] given[i]).start < (#[trigger] given[j]).start
}

/// A result that is in order and not given out yet is always taken in. Of what is then held,
/// what ends by the latest time of finality is given out, in the order of the audio and without
/// what is silent, and the rest stays open.
pub proof fn law_what_is_final_is_given_out(
    s: StableView,
    start: int,
    end: int,
    finalized_until: int,
    text: Seq<char>,
    x: SegmentView,
)
    requires
        s.wf(),
        0 <= start <= end,
        s.committed_end <= start,
        s.committed_end < end,
        finalized_until >= 0,
        text::size(text) <= MAX_TEXT,
    ensures
        ({
            let o = s.observe(start, end, finalized_until, text);
            let until = later(finalized_until, s.finalized_until);
            &&& o.state.wf()
            &&& o.state.finalized_until == until
            &&& o.state.segments.contains(x) <==> is_held(s, start, end, text, x) && x.end > until
            &&& exists|given: Seq<SegmentView>|
                {
                    &&& #[trigger] are_due(s, start, end, text, until, given)
                    &&& o.ready == Ok::<Seq<Seq<char>>, Seq<char>>(sounding(given))
                    &&& o.state.committed_end == (if given.len() == 0 {
                        s.committed_end
                    } else {
                        given.last().end
                    })
                }
        }),
{
    let after = s.heard(start, end, finalized_until, text);
    let until = later(finalized_until, s.finalized_until);
    assert(until == after.finalized_until);
    let n = ended_by(after.segments, until) as int;
    let o = s.observe(start, end, finalized_until, text);
    law_observe_moves_forward(s, start, end, finalized_until, text);
    lemma_heard(s, start, end, finalized_until, text);
    lemma_ended_by(after.segments, until);
    let given = after.segments.take(n);
    lemma_spoken_filters(given);
    lemma_latest_end(given, s.committed_end);
    assert forall|y: SegmentView| #[trigger] given.contains(y) <==> is_held(s, start, end, text, y) && y.end <= until by {
        law_a_result_replaces_only_what_it_overlaps(s, start, end, finalized_until, text, y);
        if given.contains(y) {
            let k = choose|k: int| 0 <= k < given.len() && given[k] == y;
            assert(after.segments[k] == y);
        }
        if is_held(s, start, end, text, y) && y.end <= until {
            let k = choose|k: int| 0 <= k < after.segments.len() && after.segments[k] == y;
            if k >= n {
                assert(o.state.segments[k - n] == y);
            }
            assert(given[k] == y);
        }
    }
    assert(are_due(s, start, end, text, until, given));
    law_a_result_replaces_only_what_it_overlaps(s, start, end, finalized_until, text, x);
    if o.state.segments.contains(x) {
        let k = choose|k: int| 0 <= k < o.state.segments.len() && o.state.segments[k] == x;
        assert(after.segments[k + n] == x);
    }
    if is_held(s, start, end, text, x) && x.end > until {
        let k = choose|k: int| 0 <= k < after.segments.len() && after.segments[k] == x;
        assert(k >= n);
        assert(o.state.segments[k - n] == x);
    }
}

/// The texts that are not silent are those that pass.
proof fn lemma_spoken_filters(segments: Seq<SegmentView>)
    ensures
        spoken(segments) == sounding(segments),
    decreases segments.len(),
{
    reveal(Seq::filter);
    let texts = segments.map_values(|y: SegmentView| y.text);
    if segments.len() > 0 {
        lemma_spoken_filters(segments.drop_last());
        assert(texts.drop_last() =~= segments.drop_last().map_values(|y: SegmentView| y.text));
    }
}

/// The draft is what is open, one segment after the other.
pub proof fn law_the_draft_is_what_is_open(s: StableView)
    ensures
        s.draft() == s.segments.map_values(|y: SegmentView| y.text).flatten(),
{
    lemma_joined_flattens(s.segments);
}

/// The texts of segments one after the other.
proof fn lemma_joined_flattens(segments: Seq<SegmentView>)
    ensures
        joined(segments) == segments.map_values(|y: SegmentView| y.text).flatten(),
    decreases segments.len(),
{
    broadcast use Seq::lemma_flatten_push;

    let texts = segments.map_values(|y: SegmentView| y.text);
    if segments.len() > 0 {
        lemma_joined_flattens(segments.drop_last());
        assert(texts.drop_last() =~= segments.drop_last().map_values(|y: SegmentView| y.text));
        assert(texts =~= texts.drop_last().push(segments.last().text));
    }
}

/// A result is refused only where its range or its text is none, or where it reaches into what
/// was given out; one that lies wholly there is passed over, and then nothing changes.
pub proof fn law_when_a_result_is_refused(s: StableView, start: int, end: int, finalized_until: int, text: Seq<char>)
    ensures
        ({
            let o = s.observe(start, end, finalized_until, text);
            let sound = 0 <= start <= end && finalized_until >= 0 && text::size(text) <= MAX_TEXT;
            &&& !sound ==> o.ready == Err::<Seq<Seq<char>>, Seq<char>>("invalid_audio_range"@) && o.state == s
            &&& sound && start < s.committed_end < end ==> o.ready == Err::<Seq<Seq<char>>, Seq<char>>(
                "finalized_revision"@,
            ) && o.state == s
            &&& sound && end <= s.committed_end ==> o.ready == Ok::<Seq<Seq<char>>, Seq<char>>(seq![]) && o.state == s
            &&& sound && s.committed_end <= start && s.committed_end < end ==> o.ready is Ok
        }),
{
}

// ---------------------------------------------------------------- the structure

impl StableText {
    /// The segments are in order.
    pub open spec fn wf(&self) -> bool {
        self@.wf()
    }

    /// Takes a result in. Times are whole microseconds; only the provider's finality
    /// freezes text. An unchanged prefix, punctuation and silence are no evidence of it.
    pub fn observe(&mut self, start: i64, end: i64, finalized_until: i64, text: String) -> (r: Result<
        Vec<String>,
        CoreError,
    >)
        requires
            old(self).wf(),
        ensures
            final(self).wf(),
            final(self)@ == old(self)@.observe(start as int, end as int, finalized_until as int, text@).state,
            match r {
                Ok(v) => Ok(texts_view(v@)),
                Err(e) => Err(e.spec_code()),
            } == old(self)@.observe(start as int, end as int, finalized_until as int, text@).ready,
    {
        proof {
            law_observe_moves_forward(self@, start as int, end as int, finalized_until as int, text@);
        }
        if start < 0 || end < start || finalized_until < 0 || text::byte_len(text.as_str()) > MAX_TEXT {
            return fail("invalid_audio_range");
        }
        if end <= self.committed_end {
            let none: Vec<String> = Vec::new();
            assert(texts_view(none@) =~= seq![]);
            return Ok(none);
        }
        if start < self.committed_end {
            return fail("finalized_revision");
        }
        let ghost first = self@;
        let ghost after = first.heard(start as int, end as int, finalized_until as int, text@);
        self.clear(start, end);
        self.place(Segment { start, end, text });
        if finalized_until > self.finalized_until {
            self.finalized_until = finalized_until;
        }
        assert(self@ =~= after);
        let out = self.release();
        Ok(out)
    }

    /// Drops the segments that overlap the range.
    fn clear(&mut self, start: i64, end: i64)
        ensures
            final(self)@ == (StableView {
                segments: clear_of(old(self)@.segments, start as int, end as int),
                ..old(self)@
            }),
    {
        let ghost all = segments_view(self.segments@);
        let mut kept: Vec<Segment> = Vec::new();
        assert(segments_view(kept@) =~= clear_of(all.take(0), start as int, end as int));
        let mut pending: Vec<Segment> = Vec::new();
        std::mem::swap(&mut pending, &mut self.segments);
        let ghost n = all.len();
        let ghost mut i: int = 0;
        while pending.len() > 0
            invariant
                0 <= i <= n,
                n == all.len(),
                pending@.len() == n - i,
                segments_view(pending@) =~= all.skip(i),
                segments_view(kept@) == clear_of(all.take(i), start as int, end as int),
            decreases pending.len(),
        {
            let ghost before = pending@;
            let s = pending.remove(0);
            assert(s@ == all[i]) by {
                assert(segments_view(before)[0] == all.skip(i)[0]);
            }
            assert(segments_view(pending@) =~= all.skip(i + 1)) by {
                assert forall|k: int| 0 <= k < pending@.len() implies segments_view(pending@)[k] == all.skip(i + 1)[k] by {
                    assert(segments_view(before)[k + 1] == all.skip(i)[k + 1]);
                }
            }
            assert(all.take(i + 1).drop_last() =~= all.take(i));
            assert(all.take(i + 1).last() == s@);
            let ghost was = segments_view(kept@);
            if s.end <= start || s.start >= end {
                kept.push(s);
                assert(segments_view(kept@) =~= was.push(s@));
            }
            proof {
                i = i + 1;
            }
        }
        assert(all.take(n as int) =~= all);
        self.segments = kept;
    }

    /// Puts a segment in its place.
    fn place(&mut self, s: Segment)
        ensures
            final(self)@ == (StableView { segments: placed(old(self)@.segments, s@), ..old(self)@ }),
    {
        let ghost all = segments_view(self.segments@);
        let mut i: usize = 0;
        assert(all.skip(0) =~= all);
        while i < self.segments.len() && self.segments[i].start < s.start
            invariant
                i <= self.segments@.len(),
                all == segments_view(self.segments@),
                *self == *old(self),
                starts_before(all, s@.start) == i + starts_before(all.skip(i as int), s@.start),
            decreases self.segments.len() - i,
        {
            assert(all.skip(i as int)[0] == all[i as int]);
            assert(all.skip(i as int).drop_first() =~= all.skip(i + 1));
            i = i + 1;
        }
        proof {
            if i < all.len() {
                assert(all.skip(i as int)[0] == all[i as int]);
            }
        }
        assert(starts_before(all, s@.start) == i);
        if i < self.segments.len() && self.segments[i].start == s.start {
            self.segments[i] = s;
        } else {
            self.segments.insert(i, s);
        }
        assert(segments_view(self.segments@) =~= placed(all, s@));
    }

    /// Gives out the leading segments that are final.
    fn release(&mut self) -> (out: Vec<String>)
        ensures
            final(self)@ == old(self)@.released(),
            texts_view(out@) == old(self)@.ready(),
    {
        let ghost all = segments_view(self.segments@);
        let ghost limit = self.finalized_until as int;
        let ghost floor = self.committed_end as int;
        let mut out: Vec<String> = Vec::new();
        let ghost mut i: int = 0;
        assert(all.skip(0) =~= all);
        assert(texts_view(out@) =~= spoken(all.take(0)));
        while self.segments.len() > 0 && self.segments[0].end <= self.finalized_until
            invariant
                0 <= i <= all.len(),
                self.segments@.len() == all.len() - i,
                segments_view(self.segments@) =~= all.skip(i),
                self.finalized_until == limit,
                self.committed_end == latest_end(all.take(i), floor),
                ended_by(all, limit) == i + ended_by(all.skip(i), limit),
                texts_view(out@) == spoken(all.take(i)),
            decreases self.segments.len(),
        {
            let ghost before = self.segments@;
            let s = self.segments.remove(0);
            assert(s@ == all[i]) by {
                assert(segments_view(before)[0] == all.skip(i)[0]);
            }
            assert(segments_view(self.segments@) =~= all.skip(i + 1)) by {
                assert forall|k: int| 0 <= k < self.segments@.len() implies segments_view(self.segments@)[k]
                    == all.skip(i + 1)[k] by {
                    assert(segments_view(before)[k + 1] == all.skip(i)[k + 1]);
                }
            }
            assert(all.take(i + 1).drop_last() =~= all.take(i));
            assert(all.take(i + 1).last() == s@);
            assert(all.skip(i)[0] == all[i]);
            assert(all.skip(i).drop_first() =~= all.skip(i + 1));
            if s.end > self.committed_end {
                self.committed_end = s.end;
            }
            let ghost was = texts_view(out@);
            if !s.text.as_str().is_empty() {
                let ghost t = s.text@;
                out.push(s.text);
                assert(texts_view(out@) =~= was.push(t));
            }
            proof {
                i = i + 1;
            }
        }
        proof {
            if self.segments@.len() > 0 {
                assert(segments_view(self.segments@)[0] == all.skip(i)[0]);
            }
        }
        assert(ended_by(all, limit) == i);
        out
    }

    /// The text that is not final yet, in the order of the audio.
    pub fn draft(&self) -> (d: String)
        ensures
            d@ == self@.draft(),
    {
        let ghost all = segments_view(self.segments@);
        let mut d = String::new();
        let mut i: usize = 0;
        assert(d@ =~= joined(all.take(0)));
        while i < self.segments.len()
            invariant
                i <= self.segments@.len(),
                all == segments_view(self.segments@),
                d@ == joined(all.take(i as int)),
            decreases self.segments.len() - i,
        {
            d.append(self.segments[i].text.as_str());
            assert(all.take(i + 1).drop_last() =~= all.take(i as int));
            assert(all.take(i + 1).last() == all[i as int]);
            i = i + 1;
        }
        assert(all.take(i as int) =~= all);
        d
    }
}

impl Default for StableText {
    /// Nothing heard yet.
    fn default() -> (s: Self)
        ensures
            s@ == StableView::fresh(),
            s.wf(),
    {
        let s = StableText { segments: Vec::new(), committed_end: 0, finalized_until: 0 };
        assert(s@ =~= StableView::fresh());
        s
    }
}

} // verus!
