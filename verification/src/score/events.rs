//! Laws of the combined event stream: every played note of both voices
//! lands in exactly one event, each event's lists line up, and an event
//! stream is determined by the two voices.

use vstd::prelude::*;
use crate::score::model::{
    bass_staves_at, durations_at, is_event_stream, is_onset, midis_at, staves_at, MatchEvent, NoteSpan,
};

verus! {

/// How many spans start at `u`.
pub open spec fn count_at(spans: Seq<NoteSpan>, u: int) -> int
    decreases spans.len(),
{
    if spans.len() == 0 {
        0
    } else {
        count_at(spans.drop_last(), u) + if spans.last().start_units == u { 1int } else { 0int }
    }
}

/// How many of the first `k` events start at `u`.
pub open spec fn hits(events: Seq<MatchEvent>, u: int, k: int) -> int
    decreases k,
{
    if k <= 0 { 0 } else { hits(events, u, k - 1) + if events[k - 1].start_units == u { 1int } else { 0int } }
}

/// The spans starting at the onsets of the first `k` events, counted.
pub open spec fn spans_in_events(spans: Seq<NoteSpan>, events: Seq<MatchEvent>, k: int) -> int
    decreases k,
{
    if k <= 0 { 0 } else { spans_in_events(spans, events, k - 1) + count_at(spans, events[k - 1].start_units as int) }
}

/// The pitches of the first `k` events, counted.
pub open spec fn pitches_in(events: Seq<MatchEvent>, k: int) -> int
    decreases k,
{
    if k <= 0 { 0 } else { pitches_in(events, k - 1) + events[k - 1].pitches@.len() }
}

pub open spec fn increasing(events: Seq<MatchEvent>) -> bool {
    forall|k: int, l: int| 0 <= k < l < events.len() ==> events[k].start_units < events[l].start_units
}

/// The lists gathered at an onset all have one entry per span starting
/// there.
pub proof fn lemma_lists_at_line_up(spans: Seq<NoteSpan>, u: int)
    ensures
        midis_at(spans, u).len() == count_at(spans, u),
        staves_at(spans, u).len() == count_at(spans, u),
        bass_staves_at(spans, u).len() == count_at(spans, u),
        durations_at(spans, u).len() == count_at(spans, u),
    decreases spans.len(),
{
    if spans.len() > 0 {
        lemma_lists_at_line_up(spans.drop_last(), u);
    }
}

/// An onset of strictly increasing events is hit by exactly one of them.
pub proof fn lemma_hit_once(events: Seq<MatchEvent>, m: int, k: int)
    requires
        increasing(events),
        0 <= m < events.len(),
        0 <= k <= events.len(),
    ensures
        hits(events, events[m].start_units as int, k) == if k > m { 1int } else { 0int },
    decreases k,
{
    if k > 0 {
        lemma_hit_once(events, m, k - 1);
    }
}

/// Dropping the last span takes its one event's share away.
pub proof fn lemma_spans_in_events_last(spans: Seq<NoteSpan>, events: Seq<MatchEvent>, k: int)
    requires
        spans.len() > 0,
    ensures
        spans_in_events(spans, events, k)
            == spans_in_events(spans.drop_last(), events, k) + hits(events, spans.last().start_units as int, k),
    decreases k,
{
    if k > 0 {
        lemma_spans_in_events_last(spans, events, k - 1);
    }
}

/// When every span starts at an event's onset, the events together hold
/// every span once.
pub proof fn lemma_spans_in_events_all(spans: Seq<NoteSpan>, events: Seq<MatchEvent>)
    requires
        increasing(events),
        forall|j: int| 0 <= j < spans.len() ==> exists|k: int| 0 <= k < events.len()
            && #[trigger] events[k].start_units == (#[trigger] spans[j]).start_units,
    ensures
        spans_in_events(spans, events, events.len() as int) == spans.len(),
    decreases spans.len(),
{
    if spans.len() == 0 {
        assert(spans =~= Seq::<NoteSpan>::empty());
        lemma_spans_in_events_zero(events, events.len() as int);
    } else {
        let rest = spans.drop_last();
        assert forall|j: int| 0 <= j < rest.len() implies exists|k: int| 0 <= k < events.len()
            && #[trigger] events[k].start_units == (#[trigger] rest[j]).start_units by {
            assert(rest[j] == spans[j]);
        }
        lemma_spans_in_events_all(rest, events);
        lemma_spans_in_events_last(spans, events, events.len() as int);
        assert(spans.last() == spans[spans.len() - 1]);
        let m = choose|k: int| 0 <= k < events.len() && #[trigger] events[k].start_units == spans[spans.len() - 1].start_units;
        lemma_hit_once(events, m, events.len() as int);
        assert(hits(events, spans.last().start_units as int, events.len() as int) == 1);
    }
}

proof fn lemma_spans_in_events_zero(events: Seq<MatchEvent>, k: int)
    ensures
        spans_in_events(Seq::<NoteSpan>::empty(), events, k) == 0,
    decreases k,
{
    if k > 0 {
        lemma_spans_in_events_zero(events, k - 1);
    }
}

/// Each event's pitches count the spans of both voices at its onset.
proof fn lemma_pitches_in(t: Seq<NoteSpan>, b: Seq<NoteSpan>, events: Seq<MatchEvent>, k: int)
    requires
        is_event_stream(t, b, events),
        0 <= k <= events.len(),
    ensures
        pitches_in(events, k) == spans_in_events(t, events, k) + spans_in_events(b, events, k),
    decreases k,
{
    if k > 0 {
        lemma_pitches_in(t, b, events, k - 1);
        let u = events[k - 1].start_units as int;
        lemma_lists_at_line_up(t, u);
        lemma_lists_at_line_up(b, u);
        assert(events[k - 1].pitches@ == midis_at(t, u) + midis_at(b, u));
    }
}

/// Every played note of both voices lands in exactly one event, and each
/// event's pitches, staves and durations line up one for one.
pub proof fn lemma_events_account_for_every_span(t: Seq<NoteSpan>, b: Seq<NoteSpan>, events: Seq<MatchEvent>)
    requires
        is_event_stream(t, b, events),
    ensures
        forall|k: int| 0 <= k < events.len() ==> {
            &&& (#[trigger] events[k]).pitches@.len() == events[k].staves@.len()
            &&& events[k].pitches@.len() == events[k].durations@.len()
        },
        pitches_in(events, events.len() as int) == t.len() + b.len(),
{
    assert forall|k: int| 0 <= k < events.len() implies {
        &&& (#[trigger] events[k]).pitches@.len() == events[k].staves@.len()
        &&& events[k].pitches@.len() == events[k].durations@.len()
    } by {
        let u = events[k].start_units as int;
        lemma_lists_at_line_up(t, u);
        lemma_lists_at_line_up(b, u);
    }
    assert forall|j: int| 0 <= j < t.len() implies exists|k: int| 0 <= k < events.len()
        && #[trigger] events[k].start_units == (#[trigger] t[j]).start_units by {
        let u = t[j].start_units as int;
        assert(is_onset(t, b, u));
        assert(exists|k: int| 0 <= k < events.len() && #[trigger] events[k].start_units == u);
        let k = choose|k: int| 0 <= k < events.len() && #[trigger] events[k].start_units == u;
        assert(events[k].start_units == t[j].start_units);
    }
    assert forall|j: int| 0 <= j < b.len() implies exists|k: int| 0 <= k < events.len()
        && #[trigger] events[k].start_units == (#[trigger] b[j]).start_units by {
        let u = b[j].start_units as int;
        assert(is_onset(t, b, u));
        assert(exists|k: int| 0 <= k < events.len() && #[trigger] events[k].start_units == u);
        let k = choose|k: int| 0 <= k < events.len() && #[trigger] events[k].start_units == u;
        assert(events[k].start_units == b[j].start_units);
    }
    lemma_spans_in_events_all(t, events);
    lemma_spans_in_events_all(b, events);
    lemma_pitches_in(t, b, events, events.len() as int);
}

/// The onsets of two event streams of the same voices agree up to `k`.
proof fn lemma_same_onsets_upto(t: Seq<NoteSpan>, b: Seq<NoteSpan>, e1: Seq<MatchEvent>, e2: Seq<MatchEvent>, k: int)
    requires
        is_event_stream(t, b, e1),
        is_event_stream(t, b, e2),
        0 <= k <= e1.len(),
        k <= e2.len(),
    ensures
        forall|j: int| 0 <= j < k ==> #[trigger] e1[j].start_units == e2[j].start_units,
    decreases k,
{
    if k > 0 {
        lemma_same_onsets_upto(t, b, e1, e2, k - 1);
        let i = k - 1;
        let x = e1[i].start_units as int;
        assert(is_onset(t, b, x)) by {
            assert(exists|q: int| 0 <= q < e1.len() && #[trigger] e1[q].start_units == x);
        }
        assert(exists|q: int| 0 <= q < e2.len() && #[trigger] e2[q].start_units == x);
        let l = choose|q: int| 0 <= q < e2.len() && #[trigger] e2[q].start_units == x;
        if l < i {
            assert(e1[l].start_units == e2[l].start_units);
            assert(e1[l].start_units < e1[i].start_units);
        } else if l > i {
            let y = e2[i].start_units as int;
            assert(y < x);
            assert(is_onset(t, b, y)) by {
                assert(exists|q: int| 0 <= q < e2.len() && #[trigger] e2[q].start_units == y);
            }
            assert(exists|q: int| 0 <= q < e1.len() && #[trigger] e1[q].start_units == y);
            let m = choose|q: int| 0 <= q < e1.len() && #[trigger] e1[q].start_units == y;
            if m < i {
                assert(e1[m].start_units == e2[m].start_units);
                assert(e2[m].start_units < e2[i].start_units);
            } else if m > i {
                assert(e1[i].start_units < e1[m].start_units);
            }
        }
    }
}

/// Two voices have one event stream: any two agree in length, onsets and
/// each event's pitches, staves and durations.
pub proof fn lemma_event_stream_unique(t: Seq<NoteSpan>, b: Seq<NoteSpan>, e1: Seq<MatchEvent>, e2: Seq<MatchEvent>)
    requires
        is_event_stream(t, b, e1),
        is_event_stream(t, b, e2),
    ensures
        e1.len() == e2.len(),
        forall|k: int| 0 <= k < e1.len() ==> {
            &&& (#[trigger] e1[k]).start_units == e2[k].start_units
            &&& e1[k].pitches@ == e2[k].pitches@
            &&& e1[k].staves@ == e2[k].staves@
            &&& e1[k].durations@ == e2[k].durations@
        },
{
    let n = if e1.len() <= e2.len() { e1.len() as int } else { e2.len() as int };
    lemma_same_onsets_upto(t, b, e1, e2, n);
    if e1.len() > e2.len() {
        let x = e1[n].start_units as int;
        assert(is_onset(t, b, x)) by {
            assert(exists|q: int| 0 <= q < e1.len() && #[trigger] e1[q].start_units == x);
        }
        assert(exists|q: int| 0 <= q < e2.len() && #[trigger] e2[q].start_units == x);
        let l = choose|q: int| 0 <= q < e2.len() && #[trigger] e2[q].start_units == x;
        assert(e1[l].start_units == e2[l].start_units);
        assert(e1[l].start_units < e1[n].start_units);
    } else if e2.len() > e1.len() {
        let x = e2[n].start_units as int;
        assert(is_onset(t, b, x)) by {
            assert(exists|q: int| 0 <= q < e2.len() && #[trigger] e2[q].start_units == x);
        }
        assert(exists|q: int| 0 <= q < e1.len() && #[trigger] e1[q].start_units == x);
        let l = choose|q: int| 0 <= q < e1.len() && #[trigger] e1[q].start_units == x;
        assert(e1[l].start_units == e2[l].start_units);
        assert(e2[l].start_units < e2[n].start_units);
    }
    assert forall|k: int| 0 <= k < e1.len() implies {
        &&& (#[trigger] e1[k]).start_units == e2[k].start_units
        &&& e1[k].pitches@ == e2[k].pitches@
        &&& e1[k].staves@ == e2[k].staves@
        &&& e1[k].durations@ == e2[k].durations@
    } by {
        assert(e1[k].start_units == e2[k].start_units);
    }
}

} // verus!
