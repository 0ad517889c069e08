//! Laws of the reduction, stated over the model of `midi_ext` and proved
//! once for all inputs: ordering of tone boundaries, provenance of captured
//! note-on state, independence of distinct pitches, and order-independence
//! of the duration sum.

use vstd::prelude::*;

use crate::midi_ext::{
    init_state, note_step, sat32, state_from, sum_deltas, tones_from, tones_of, Event, EventKind,
    Tone,
};

verus! {

/// The sequence a reduction step emits: one tone or nothing.
pub open spec fn emit_of(o: Option<Tone>) -> Seq<Tone> {
    match o {
        Some(x) => seq![x],
        None => Seq::empty(),
    }
}

/// Reducing one more event steps the final state once and appends that
/// step's emission to the tones.
pub proof fn lemma_reduction_snoc(st: (u32, Map<u8, (u32, u8)>), es: Seq<Event>, e: Event)
    ensures
        state_from(st, es.push(e)) == note_step(state_from(st, es), e).0,
        tones_from(st, es.push(e)) == tones_from(st, es) + emit_of(
            note_step(state_from(st, es), e).1,
        ),
    decreases es.len(),
{
    let p = es.push(e);
    if es.len() == 0 {
        reveal_with_fuel(state_from, 2);
        reveal_with_fuel(tones_from, 2);
        assert(p[0] == e);
        assert(p.skip(1) =~= Seq::<Event>::empty());
        assert(tones_from(st, p) =~= tones_from(st, es) + emit_of(
            note_step(state_from(st, es), e).1,
        ));
    } else {
        let (st2, out) = note_step(st, es[0]);
        assert(p[0] == es[0]);
        assert(p.skip(1) =~= es.skip(1).push(e));
        lemma_reduction_snoc(st2, es.skip(1), e);
        assert(state_from(st, p) == state_from(st2, p.skip(1)));
        assert(state_from(st, es) == state_from(st2, es.skip(1)));
        let tail_emit = emit_of(note_step(state_from(st, es), e).1);
        match out {
            Some(x) => {
                assert(tones_from(st, p) =~= seq![x] + tones_from(st2, p.skip(1)));
                assert(tones_from(st, es) =~= seq![x] + tones_from(st2, es.skip(1)));
                assert(tones_from(st, p) =~= tones_from(st, es) + tail_emit);
            },
            None => {
                assert(tones_from(st, p) =~= tones_from(st2, p.skip(1)));
                assert(tones_from(st, p) =~= tones_from(st, es) + tail_emit);
            },
        }
    }
}

/// Clamping twice is clamping once: adding a delta to an already clamped
/// non-negative value clamps to the same result.
pub proof fn lemma_sat32_absorb(x: int, d: u32)
    requires
        x >= 0,
    ensures
        sat32(sat32(x) + d) == sat32(x + d),
{
}

/// The time cursor after a reduction is the clamped sum of the starting
/// cursor and every delta of the stream.
pub proof fn lemma_cursor_is_sum(st: (u32, Map<u8, (u32, u8)>), es: Seq<Event>)
    ensures
        state_from(st, es).0 == sat32(st.0 + sum_deltas(es)),
    decreases es.len(),
{
    if es.len() == 0 {
    } else {
        let es0 = es.drop_last();
        let e = es.last();
        assert(es0.push(e) =~= es);
        lemma_reduction_snoc(st, es0, e);
        lemma_cursor_is_sum(st, es0);
        crate::midi_ext::lemma_sum_deltas_nonneg(es0);
        lemma_sat32_absorb(st.0 + sum_deltas(es0), e.delta_time);
    }
}

/// Every open note started no later than the cursor stands.
pub open spec fn open_before_cursor(st: (u32, Map<u8, (u32, u8)>)) -> bool {
    forall|p: u8| #[trigger] st.1.dom().contains(p) ==> st.1[p].0 <= st.0
}

proof fn lemma_step_keeps_open_before_cursor(st: (u32, Map<u8, (u32, u8)>), e: Event)
    requires
        open_before_cursor(st),
    ensures
        open_before_cursor(note_step(st, e).0),
        note_step(st, e).0.0 >= st.0,
{
}

proof fn lemma_tones_ordered_from(st: (u32, Map<u8, (u32, u8)>), es: Seq<Event>)
    requires
        open_before_cursor(st),
    ensures
        forall|i: int|
            0 <= i < tones_from(st, es).len() ==> (#[trigger] tones_from(st, es)[i]).start_time
                <= tones_from(st, es)[i].end_time,
    decreases es.len(),
{
    if es.len() > 0 {
        let (st2, out) = note_step(st, es[0]);
        lemma_step_keeps_open_before_cursor(st, es[0]);
        lemma_tones_ordered_from(st2, es.skip(1));
        match out {
            Some(x) => {
                assert(x.start_time <= x.end_time);
                assert forall|i: int| 0 <= i < tones_from(st, es).len() implies (
                #[trigger] tones_from(st, es)[i]).start_time <= tones_from(st, es)[i].end_time by {
                    if i > 0 {
                        assert(tones_from(st, es)[i] == tones_from(st2, es.skip(1))[i - 1]);
                    }
                }
            },
            None => {},
        }
    }
}

/// Every emitted tone satisfies `start_time <= end_time`: a tone never
/// closes before it starts.
pub proof fn lemma_tone_times_ordered(es: Seq<Event>)
    ensures
        forall|i: int|
            0 <= i < tones_of(es).len() ==> (#[trigger] tones_of(es)[i]).start_time <= tones_of(
                es,
            )[i].end_time,
{
    lemma_tones_ordered_from(init_state(), es);
}

proof fn lemma_tones_end_sorted_from(st: (u32, Map<u8, (u32, u8)>), es: Seq<Event>)
    ensures
        forall|i: int|
            0 <= i < tones_from(st, es).len() ==> st.0 <= (#[trigger] tones_from(
                st,
                es,
            )[i]).end_time,
        forall|i: int, j: int|
            0 <= i <= j < tones_from(st, es).len() ==> (#[trigger] tones_from(st, es)[i]).end_time
                <= (#[trigger] tones_from(st, es)[j]).end_time,
    decreases es.len(),
{
    if es.len() > 0 {
        let (st2, out) = note_step(st, es[0]);
        assert(st.0 <= st2.0);
        lemma_tones_end_sorted_from(st2, es.skip(1));
        let ts = tones_from(st, es);
        let rest = tones_from(st2, es.skip(1));
        match out {
            Some(x) => {
                assert(x.end_time == st2.0);
                assert forall|i: int| 0 <= i < ts.len() implies st.0 <= (
                #[trigger] ts[i]).end_time by {
                    if i > 0 {
                        assert(ts[i] == rest[i - 1]);
                    }
                }
                assert forall|i: int, j: int| 0 <= i <= j < ts.len() implies (
                #[trigger] ts[i]).end_time <= (#[trigger] ts[j]).end_time by {
                    if i > 0 {
                        assert(ts[i] == rest[i - 1]);
                        assert(ts[j] == rest[j - 1]);
                    } else if j > 0 {
                        assert(ts[j] == rest[j - 1]);
                        assert(st2.0 <= rest[j - 1].end_time);
                    }
                }
            },
            None => {
                assert forall|i: int| 0 <= i < ts.len() implies st.0 <= (
                #[trigger] ts[i]).end_time by {
                    assert(st2.0 <= rest[i].end_time);
                }
            },
        }
    }
}

/// Tones come out in the order their closing note-off is processed: the
/// `end_time` of the output is non-decreasing (the cursor only grows). No
/// such promise holds of `start_time`.
pub proof fn lemma_emission_order(es: Seq<Event>)
    ensures
        forall|i: int, j: int|
            0 <= i <= j < tones_of(es).len() ==> (#[trigger] tones_of(es)[i]).end_time <= (
            #[trigger] tones_of(es)[j]).end_time,
{
    lemma_tones_end_sorted_from(init_state(), es);
}

/// A note-on and its matching note-off at the same tick produce exactly one
/// zero-length tone, not a rejection.
pub proof fn lemma_same_tick_pair(d: u32, p: u8, v: u8, rv: u8)
    requires
        p < 128,
    ensures
        tones_of(
            seq![
                Event { delta_time: d, kind: EventKind::NoteOn(p, v) },
                Event { delta_time: 0, kind: EventKind::NoteOff(p, rv) },
            ],
        ) == seq![
            Tone {
                pitch: p,
                start_time: sat32(d as int),
                end_time: sat32(d as int),
                atk_vel: v,
                rel_vel: rv,
            },
        ],
{
    reveal_with_fuel(tones_from, 3);
    let es = seq![
        Event { delta_time: d, kind: EventKind::NoteOn(p, v) },
        Event { delta_time: 0, kind: EventKind::NoteOff(p, rv) },
    ];
    let t = sat32(d as int);
    let (st1, out1) = note_step(init_state(), es[0]);
    assert(out1 is None);
    assert(st1.0 == t);
    assert(st1.1 == Map::<u8, (u32, u8)>::empty().insert(p, (t, v)));
    assert(es.skip(1) =~= seq![es[1]]);
    assert(es.skip(1).skip(1) =~= Seq::<Event>::empty());
    let (st2, out2) = note_step(st1, es[1]);
    assert(sat32(st1.0 + 0) == t);
    assert(st1.1.dom().contains(p));
    assert(out2 == Some(
        Tone { pitch: p, start_time: t, end_time: t, atk_vel: v, rel_vel: rv },
    ));
    assert(tones_of(es) =~= seq![
        Tone { pitch: p, start_time: t, end_time: t, atk_vel: v, rel_vel: rv },
    ]);
}

/// The event is a note-on on pitch `p`.
pub open spec fn is_on(e: Event, p: u8) -> bool {
    match e.kind {
        EventKind::NoteOn(q, _) => q == p,
        _ => false,
    }
}

/// The event is a note-off on pitch `p`.
pub open spec fn is_off(e: Event, p: u8) -> bool {
    match e.kind {
        EventKind::NoteOff(q, _) => q == p,
        _ => false,
    }
}

/// The velocity an event carries.
pub open spec fn vel_of(e: Event) -> u8 {
    match e.kind {
        EventKind::NoteOn(_, v) => v,
        EventKind::NoteOff(_, v) => v,
        EventKind::Other => 0,
    }
}

/// Index `j` opened the note that pitch `p` still holds at the end of
/// `es`: a note-on on `p`, with no note-off on `p` after it, and every
/// earlier note-on on `p` already answered by a note-off before `j` (so
/// `j` is the first note-on since the previous note-off, and later
/// note-ons while it stands were ignored).
pub open spec fn opens_slot(es: Seq<Event>, p: u8, j: int) -> bool {
    &&& 0 <= j < es.len()
    &&& is_on(es[j], p)
    &&& forall|k: int| j < k < es.len() ==> !is_off(#[trigger] es[k], p)
    &&& forall|k: int|
        0 <= k < j && is_on(#[trigger] es[k], p) ==> exists|m: int|
            k < m < j && is_off(#[trigger] es[m], p)
}

/// Index `j` explains the open slot of pitch `p`: it opened the note and
/// the slot holds exactly the cursor reached at `j` and `j`'s velocity.
pub open spec fn slot_origin(es: Seq<Event>, p: u8, j: int) -> bool {
    &&& opens_slot(es, p, j)
    &&& state_from(init_state(), es).1.dom().contains(p)
    &&& state_from(init_state(), es).1[p] == (
        state_from(init_state(), es.take(j + 1)).0,
        vel_of(es[j]),
    )
}

/// Every note-on on `p` in `es` is answered by a later note-off on `p`.
pub open spec fn all_ons_closed(es: Seq<Event>, p: u8) -> bool {
    forall|k: int|
        0 <= k < es.len() && is_on(#[trigger] es[k], p) ==> exists|m: int|
            k < m < es.len() && is_off(#[trigger] es[m], p)
}

/// What a captured `(start_time, attack_velocity)` pair is: if pitch `p` is
/// open after `es`, its slot holds the cursor and velocity of the first
/// note-on on `p` since the previous note-off on `p` (duplicates were
/// ignored, the first won); and if `p` is closed, every note-on on it was
/// answered. Since a note-off copies the slot into the tone it emits (see
/// `note_step`), every tone's `(start_time, atk_vel)` is the state captured
/// at that first unmatched note-on.
pub proof fn lemma_slot_provenance(es: Seq<Event>, p: u8)
    requires
        p < 128,
    ensures
        state_from(init_state(), es).1.dom().contains(p) ==> exists|j: int|
            #[trigger] slot_origin(es, p, j),
        !state_from(init_state(), es).1.dom().contains(p) ==> all_ons_closed(es, p),
    decreases es.len(),
{
    if es.len() == 0 {
    } else {
        let es0 = es.drop_last();
        let e = es.last();
        let n = es.len() - 1;
        assert(es0.push(e) =~= es);
        lemma_reduction_snoc(init_state(), es0, e);
        lemma_slot_provenance(es0, p);
        let stp = state_from(init_state(), es0);
        let stf = state_from(init_state(), es);
        assert(stf == note_step(stp, e).0);
        if stf.1.dom().contains(p) {
            if is_on(e, p) && !stp.1.dom().contains(p) {
                // `e` itself opened the slot.
                assert(stf.1[p] == (stf.0, vel_of(e)));
                assert(es.take(n + 1) =~= es);
                assert forall|k: int| 0 <= k < n && is_on(#[trigger] es[k], p) implies exists|
                    m: int,
                |
                    k < m < n && is_off(#[trigger] es[m], p) by {
                    assert(is_on(es0[k], p));
                    let m = choose|m: int| k < m < es0.len() && is_off(es0[m], p);
                    assert(is_off(es[m], p));
                }
                assert(slot_origin(es, p, n));
            } else {
                // The slot predates `e`; `e` left it untouched.
                assert(stp.1.dom().contains(p));
                assert(stf.1[p] == stp.1[p]);
                let j = choose|j: int| #[trigger] slot_origin(es0, p, j);
                assert(es[j] == es0[j]);
                assert(es.take(j + 1) =~= es0.take(j + 1));
                assert forall|k: int| j < k < es.len() implies !is_off(
                    #[trigger] es[k],
                    p,
                ) by {
                    if k < n {
                        assert(!is_off(es0[k], p));
                    } else {
                        assert(!is_off(e, p));
                    }
                }
                assert forall|k: int| 0 <= k < j && is_on(#[trigger] es[k], p) implies exists|
                    m: int,
                |
                    k < m < j && is_off(#[trigger] es[m], p) by {
                    assert(is_on(es0[k], p));
                    let m = choose|m: int| k < m < j && is_off(es0[m], p);
                    assert(is_off(es[m], p));
                }
                assert(slot_origin(es, p, j));
            }
        } else {
            if is_on(e, p) {
                // A note-on on an absent slot inserts it: it cannot be
                // absent afterwards.
                assert(stf.1.dom().contains(p));
            } else if is_off(e, p) {
                // `e` answers every note-on still standing.
                assert forall|k: int|
                    0 <= k < es.len() && is_on(#[trigger] es[k], p) implies exists|m: int|
                    k < m < es.len() && is_off(#[trigger] es[m], p) by {
                    assert(is_off(es[n], p));
                    assert(k < n);
                }
            } else {
                // `e` touches neither the slot nor `p`'s history.
                assert(!stp.1.dom().contains(p));
                assert forall|k: int|
                    0 <= k < es.len() && is_on(#[trigger] es[k], p) implies exists|m: int|
                    k < m < es.len() && is_off(#[trigger] es[m], p) by {
                    assert(k < n);
                    assert(is_on(es0[k], p));
                    let m = choose|m: int| k < m < es0.len() && is_off(es0[m], p);
                    assert(is_off(es[m], p));
                }
            }
        }
    }
}

/// The absolutely timed history of one pitch: one entry per note-on or
/// note-off on `p`, with the cursor when it happens, whether it is a
/// note-on, and its velocity.
pub open spec fn pitch_trace(t0: u32, es: Seq<Event>, p: u8) -> Seq<(u32, bool, u8)>
    decreases es.len(),
{
    if es.len() == 0 {
        Seq::empty()
    } else {
        let t = sat32(t0 + es[0].delta_time);
        let rest = pitch_trace(t, es.skip(1), p);
        match es[0].kind {
            EventKind::NoteOn(q, v) => if q == p {
                seq![(t, true, v)] + rest
            } else {
                rest
            },
            EventKind::NoteOff(q, v) => if q == p {
                seq![(t, false, v)] + rest
            } else {
                rest
            },
            EventKind::Other => rest,
        }
    }
}

/// The reduction of a single pitch over its absolutely timed history,
/// starting from an optional open note.
pub open spec fn pitch_tones(slot: Option<(u32, u8)>, tr: Seq<(u32, bool, u8)>, p: u8) -> Seq<
    Tone,
>
    decreases tr.len(),
{
    if tr.len() == 0 {
        Seq::empty()
    } else {
        let (t, is_on, v) = tr[0];
        match slot {
            None => if is_on {
                pitch_tones(Some((t, v)), tr.skip(1), p)
            } else {
                pitch_tones(None, tr.skip(1), p)
            },
            Some(open) => if is_on {
                pitch_tones(slot, tr.skip(1), p)
            } else {
                seq![
                    Tone {
                        pitch: p,
                        start_time: open.0,
                        end_time: t,
                        atk_vel: open.1,
                        rel_vel: v,
                    },
                ] + pitch_tones(None, tr.skip(1), p)
            },
        }
    }
}

/// The tones of one pitch, kept in order.
pub open spec fn tones_on_pitch(ts: Seq<Tone>, p: u8) -> Seq<Tone>
    decreases ts.len(),
{
    if ts.len() == 0 {
        Seq::empty()
    } else if ts[0].pitch == p {
        seq![ts[0]] + tones_on_pitch(ts.skip(1), p)
    } else {
        tones_on_pitch(ts.skip(1), p)
    }
}

/// The open note of pitch `p` in a state, if any.
pub open spec fn slot_of(st: (u32, Map<u8, (u32, u8)>), p: u8) -> Option<(u32, u8)> {
    if st.1.dom().contains(p) {
        Some(st.1[p])
    } else {
        None
    }
}

proof fn lemma_tones_on_pitch_cons(x: Tone, rest: Seq<Tone>, p: u8)
    ensures
        tones_on_pitch(seq![x] + rest, p) == if x.pitch == p {
            seq![x] + tones_on_pitch(rest, p)
        } else {
            tones_on_pitch(rest, p)
        },
{
    let s = seq![x] + rest;
    assert(s[0] == x);
    assert(s.skip(1) =~= rest);
}

proof fn lemma_pitch_tones_cons(
    slot: Option<(u32, u8)>,
    h: (u32, bool, u8),
    rest: Seq<(u32, bool, u8)>,
    p: u8,
)
    ensures
        pitch_tones(slot, seq![h] + rest, p) == (match slot {
            None => if h.1 {
                pitch_tones(Some((h.0, h.2)), rest, p)
            } else {
                pitch_tones(None, rest, p)
            },
            Some(open) => if h.1 {
                pitch_tones(slot, rest, p)
            } else {
                seq![
                    (Tone {
                        pitch: p,
                        start_time: open.0,
                        end_time: h.0,
                        atk_vel: open.1,
                        rel_vel: h.2,
                    }),
                ] + pitch_tones(None, rest, p)
            },
        }),
{
    let s = seq![h] + rest;
    assert(s[0] == h);
    assert(s.skip(1) =~= rest);
}

/// The reduction factors through each pitch: the tones of pitch `p` are the
/// single-pitch reduction of `p`'s own absolutely timed history, whatever
/// the events of the other pitches are.
pub proof fn lemma_pitch_factor(st: (u32, Map<u8, (u32, u8)>), es: Seq<Event>, p: u8)
    requires
        p < 128,
    ensures
        tones_on_pitch(tones_from(st, es), p) == pitch_tones(
            slot_of(st, p),
            pitch_trace(st.0, es, p),
            p,
        ),
    decreases es.len(),
{
    if es.len() > 0 {
        let e = es[0];
        let (st2, out) = note_step(st, e);
        let t = sat32(st.0 + e.delta_time);
        let rest = pitch_trace(t, es.skip(1), p);
        lemma_pitch_factor(st2, es.skip(1), p);
        assert(st2.0 == t);
        match e.kind {
            EventKind::NoteOn(q, v) => {
                assert(tones_from(st, es) == tones_from(st2, es.skip(1)));
                if q == p {
                    lemma_pitch_tones_cons(slot_of(st, p), (t, true, v), rest, p);
                    if st.1.dom().contains(p) {
                        assert(slot_of(st2, p) == slot_of(st, p));
                    } else {
                        assert(slot_of(st2, p) == Some((t, v)));
                    }
                } else {
                    assert(slot_of(st2, p) == slot_of(st, p));
                    assert(pitch_trace(st.0, es, p) == rest);
                }
            },
            EventKind::NoteOff(q, v) => {
                if q == p {
                    lemma_pitch_tones_cons(slot_of(st, p), (t, false, v), rest, p);
                    if st.1.dom().contains(p) {
                        let x = (Tone {
                            pitch: p,
                            start_time: st.1[p].0,
                            end_time: t,
                            atk_vel: st.1[p].1,
                            rel_vel: v,
                        });
                        assert(out == Some(x));
                        assert(tones_from(st, es) == seq![x] + tones_from(st2, es.skip(1)));
                        lemma_tones_on_pitch_cons(x, tones_from(st2, es.skip(1)), p);
                        assert(slot_of(st2, p) is None);
                    } else {
                        assert(out is None);
                        assert(slot_of(st2, p) is None);
                    }
                } else {
                    assert(pitch_trace(st.0, es, p) == rest);
                    assert(slot_of(st2, p) == slot_of(st, p));
                    match out {
                        Some(x) => {
                            assert(x.pitch == q);
                            assert(tones_from(st, es) == seq![x] + tones_from(st2, es.skip(1)));
                            lemma_tones_on_pitch_cons(x, tones_from(st2, es.skip(1)), p);
                        },
                        None => {},
                    }
                }
            },
            EventKind::Other => {
                assert(tones_from(st, es) == tones_from(st2, es.skip(1)));
                assert(pitch_trace(st.0, es, p) == rest);
                assert(slot_of(st2, p) == slot_of(st, p));
            },
        }
    }
}

/// Events on distinct pitches are independent: two streams in which pitch
/// `p` sees the same note-ons and note-offs at the same absolute ticks give
/// `p` the same tones, whatever else is interleaved around them.
pub proof fn lemma_pitch_independence(es1: Seq<Event>, es2: Seq<Event>, p: u8)
    requires
        p < 128,
        pitch_trace(0u32, es1, p) == pitch_trace(0u32, es2, p),
    ensures
        tones_on_pitch(tones_of(es1), p) == tones_on_pitch(tones_of(es2), p),
{
    lemma_pitch_factor(init_state(), es1, p);
    lemma_pitch_factor(init_state(), es2, p);
}

/// Splitting a stream splits its sum of deltas.
pub proof fn lemma_sum_deltas_concat(a: Seq<Event>, b: Seq<Event>)
    ensures
        sum_deltas(a + b) == sum_deltas(a) + sum_deltas(b),
    decreases b.len(),
{
    if b.len() == 0 {
        assert(a + b =~= a);
    } else {
        assert((a + b).drop_last() =~= a + b.drop_last());
        assert((a + b).last() == b.last());
        lemma_sum_deltas_concat(a, b.drop_last());
    }
}

/// The duration sum does not depend on the order in which the parts of the
/// stream are traversed: two halves contribute the same total either way
/// around.
pub proof fn lemma_sum_deltas_commute(a: Seq<Event>, b: Seq<Event>)
    ensures
        sum_deltas(a + b) == sum_deltas(b + a),
{
    lemma_sum_deltas_concat(a, b);
    lemma_sum_deltas_concat(b, a);
}

/// Taking one event out of a stream takes exactly its delta out of the sum.
proof fn lemma_sum_deltas_remove(es: Seq<Event>, i: int)
    requires
        0 <= i < es.len(),
    ensures
        sum_deltas(es) == sum_deltas(es.remove(i)) + es[i].delta_time,
{
    reveal_with_fuel(sum_deltas, 2);
    assert(es =~= es.take(i) + (seq![es[i]] + es.skip(i + 1)));
    assert(es.remove(i) =~= es.take(i) + es.skip(i + 1));
    lemma_sum_deltas_concat(es.take(i), seq![es[i]] + es.skip(i + 1));
    lemma_sum_deltas_concat(seq![es[i]], es.skip(i + 1));
    lemma_sum_deltas_concat(es.take(i), es.skip(i + 1));
    assert(seq![es[i]].drop_last() =~= Seq::<Event>::empty());
    assert(sum_deltas(seq![es[i]]) == es[i].delta_time);
}

/// The duration sum is a plain sum: any traversal order of the same events
/// gives the same total.
pub proof fn lemma_sum_deltas_permutation(es1: Seq<Event>, es2: Seq<Event>)
    requires
        es1.to_multiset() == es2.to_multiset(),
    ensures
        sum_deltas(es1) == sum_deltas(es2),
    decreases es1.len(),
{
    es1.to_multiset_ensures();
    es2.to_multiset_ensures();
    if es1.len() == 0 {
        assert(es2.to_multiset().len() == 0);
    } else {
        let x = es1.last();
        let i1 = es1.len() - 1;
        assert(es1.contains(x));
        assert(es1.to_multiset().count(x) > 0);
        assert(es2.to_multiset().count(x) > 0);
        assert(es2.contains(x));
        let i2 = choose|i: int| 0 <= i < es2.len() && es2[i] == x;
        assert(es1.remove(i1).to_multiset() =~= es1.to_multiset().remove(x));
        assert(es2.remove(i2).to_multiset() =~= es2.to_multiset().remove(x));
        lemma_sum_deltas_remove(es1, i1);
        lemma_sum_deltas_remove(es2, i2);
        lemma_sum_deltas_permutation(es1.remove(i1), es2.remove(i2));
    }
}

} // verus!
