//! The event data model and the two reductions over it: matching
//! note-on/note-off pairs into tones, and summing elapsed ticks.

use vstd::prelude::*;

use crate::filtered_scan_iter::{FilteredScanIteratorExt, ScanOp, scan_outputs};

verus! {

/// Number of distinct pitches; pitches are the integers in [0, NOTES).
pub const NOTES: usize = 128;

/// The channel-event payloads the reduction interprets. Every payload that
/// is neither a note-on nor a note-off is represented by `Other` and ignored.
#[derive(Copy, Clone, Debug, PartialEq, Eq, Structural)]
pub enum EventKind {
    /// A note starts sounding: pitch, attack velocity.
    NoteOn(u8, u8),
    /// A note stops sounding: pitch, release velocity.
    NoteOff(u8, u8),
    /// Any other channel event; carried through but never interpreted.
    Other,
}

/// One event of a track: ticks elapsed since the previous event of the same
/// track, and the payload.
#[derive(Copy, Clone, Debug, PartialEq, Eq, Structural)]
pub struct Event {
    pub delta_time: u32,
    pub kind: EventKind,
}

/// An ordered sequence of events with its own running clock.
#[derive(Debug)]
pub struct Track {
    pub events: Vec<Event>,
}

/// A whole piece: the tracks in order.
#[derive(Debug)]
pub struct Midi {
    pub tracks: Vec<Track>,
}

/// A closed time interval on one pitch, bounded by a matched
/// note-on/note-off pair. Times are absolute ticks.
#[derive(Copy, Clone, Debug, PartialEq, Eq, Structural)]
pub struct Tone {
    pub pitch: u8,
    pub start_time: u32,
    pub end_time: u32,
    pub atk_vel: u8,
    pub rel_vel: u8,
}

/// The events of all tracks as one stream: track order, then per-track order.
pub open spec fn flat_events(tracks: Seq<Track>) -> Seq<Event>
    decreases tracks.len(),
{
    if tracks.len() == 0 {
        Seq::empty()
    } else {
        flat_events(tracks.drop_last()) + tracks.last().events@
    }
}

/// The flattened event stream of a piece.
pub open spec fn all_events(m: Midi) -> Seq<Event> {
    flat_events(m.tracks@)
}

/// Sum of the `delta_time` fields of a stream, as an unbounded integer.
pub open spec fn sum_deltas(es: Seq<Event>) -> int
    decreases es.len(),
{
    if es.len() == 0 {
        0
    } else {
        sum_deltas(es.drop_last()) + es.last().delta_time
    }
}

/// Clamp an integer into the `u32` range.
pub open spec fn sat32(x: int) -> u32 {
    if x >= u32::MAX {
        u32::MAX
    } else if x <= 0 {
        0u32
    } else {
        x as u32
    }
}

/// Deltas are unsigned, so their sum never goes below zero.
pub proof fn lemma_sum_deltas_nonneg(es: Seq<Event>)
    ensures
        sum_deltas(es) >= 0,
    decreases es.len(),
{
    if es.len() > 0 {
        lemma_sum_deltas_nonneg(es.drop_last());
    }
}

/// `delta_time`-saturating addition: the running clock never wraps around.
fn sat_add_time(time: u32, delta: u32) -> (r: u32)
    ensures
        r == sat32(time + delta),
{
    if delta <= u32::MAX - time {
        time + delta
    } else {
        u32::MAX
    }
}

/// Materialize the flattened event stream of a piece.
pub fn flatten_events(midi_data: &Midi) -> (r: Vec<Event>)
    ensures
        r@ == all_events(*midi_data),
{
    let mut r: Vec<Event> = Vec::new();
    let tracks = &midi_data.tracks;
    let mut i: usize = 0;
    while i < tracks.len()
        invariant
            i <= tracks.len(),
            r@ == flat_events(tracks@.subrange(0, i as int)),
        decreases tracks.len() - i,
    {
        let events = &tracks[i].events;
        let mut j: usize = 0;
        while j < events.len()
            invariant
                i < tracks.len(),
                j <= events.len(),
                events == tracks@[i as int].events,
                r@ == flat_events(tracks@.subrange(0, i as int))
                    + events@.subrange(0, j as int),
            decreases events.len() - j,
        {
            r.push(events[j]);
            proof {
                assert(events@.subrange(0, j + 1) =~= events@.subrange(0, j as int).push(
                    events@[j as int],
                ));
            }
            j += 1;
        }
        proof {
            let pre = tracks@.subrange(0, i as int);
            let ext = tracks@.subrange(0, i + 1);
            assert(ext.drop_last() =~= pre);
            assert(events@.subrange(0, j as int) =~= events@);
            assert(r@ =~= flat_events(ext));
        }
        i += 1;
    }
    proof {
        assert(tracks@.subrange(0, tracks@.len() as int) =~= tracks@);
    }
    r
}

/// The open notes described by a slot table: the pitches whose slot is
/// occupied, each mapped to its (start time, attack velocity) pair.
pub open spec fn open_notes(v: Seq<Option<(u32, u8)>>) -> Map<u8, (u32, u8)> {
    Map::new(|p: u8| p < 128 && v[p as int] is Some, |p: u8| v[p as int]->Some_0)
}

/// The state of a reduction pass as a model: the time cursor and the open
/// notes.
pub open spec fn init_state() -> (u32, Map<u8, (u32, u8)>) {
    (0u32, Map::empty())
}

/// One step of the reduction: the clock advances by the event's delta, then
/// the payload is interpreted. A note-on opens its pitch if it is silent and
/// is ignored otherwise (no retrigger: the first opening wins). A note-off
/// on an open pitch closes it and emits the tone; on a silent pitch it is
/// ignored. Every other payload is ignored. Pitches outside [0, 128) are
/// ignored by policy.
pub open spec fn note_step(st: (u32, Map<u8, (u32, u8)>), e: Event) -> (
    (u32, Map<u8, (u32, u8)>),
    Option<Tone>,
) {
    let t = sat32(st.0 + e.delta_time);
    match e.kind {
        EventKind::NoteOn(pitch, vel) => (
            (
                t,
                if pitch < 128 && !st.1.dom().contains(pitch) {
                    st.1.insert(pitch, (t, vel))
                } else {
                    st.1
                },
            ),
            None,
        ),
        EventKind::NoteOff(pitch, vel) => if pitch < 128 && st.1.dom().contains(pitch) {
            (
                (t, st.1.remove(pitch)),
                Some(
                    Tone {
                        pitch: pitch,
                        start_time: st.1[pitch].0,
                        end_time: t,
                        atk_vel: st.1[pitch].1,
                        rel_vel: vel,
                    },
                ),
            )
        } else {
            ((t, st.1), None)
        },
        EventKind::Other => ((t, st.1), None),
    }
}

/// The tones the reduction emits from state `st` over `es`, in emission
/// order.
pub open spec fn tones_from(st: (u32, Map<u8, (u32, u8)>), es: Seq<Event>) -> Seq<Tone>
    decreases es.len(),
{
    if es.len() == 0 {
        Seq::empty()
    } else {
        let (st2, out) = note_step(st, es[0]);
        match out {
            Some(x) => seq![x] + tones_from(st2, es.skip(1)),
            None => tones_from(st2, es.skip(1)),
        }
    }
}

/// The state of the reduction after `es`, starting from `st`.
pub open spec fn state_from(st: (u32, Map<u8, (u32, u8)>), es: Seq<Event>) -> (
    u32,
    Map<u8, (u32, u8)>,
)
    decreases es.len(),
{
    if es.len() == 0 {
        st
    } else {
        state_from(note_step(st, es[0]).0, es.skip(1))
    }
}

/// The tones of a complete stream, from the fresh state.
pub open spec fn tones_of(es: Seq<Event>) -> Seq<Tone> {
    tones_from(init_state(), es)
}

/// The transient state of one reduction pass: the time cursor and a
/// fixed-size table holding the currently sounding note of each pitch.
/// Fresh at the start of a pass, discarded when the pass completes.
pub struct NoteTable {
    pub time: u32,
    pub notes_on: Vec<Option<(u32, u8)>>,
}

impl NoteTable {
    /// One slot per pitch.
    pub open spec fn inv(self) -> bool {
        self.notes_on@.len() == 128
    }

    /// The table read as a model state.
    pub open spec fn model(self) -> (u32, Map<u8, (u32, u8)>) {
        (self.time, open_notes(self.notes_on@))
    }

    /// A fresh state: clock zero, every pitch silent.
    pub fn new() -> (r: NoteTable)
        ensures
            r.inv(),
            r.model() == init_state(),
    {
        let mut notes_on: Vec<Option<(u32, u8)>> = Vec::new();
        let mut i: usize = 0;
        while i < 128
            invariant
                i <= 128,
                notes_on@.len() == i,
                forall|k: int| 0 <= k < i ==> notes_on@[k] is None,
            decreases 128 - i,
        {
            notes_on.push(None);
            i += 1;
        }
        let r = NoteTable { time: 0, notes_on };
        proof {
            assert(open_notes(r.notes_on@) =~= Map::<u8, (u32, u8)>::empty());
        }
        r
    }
}

/// The note-matching reduction, as a step of the filtering scan.
pub struct NoteReducer;

impl ScanOp for NoteReducer {
    type State = NoteTable;

    type Input = Event;

    type Output = Tone;

    type StateModel = (u32, Map<u8, (u32, u8)>);

    open spec fn state_inv(&self, s: NoteTable) -> bool {
        s.inv()
    }

    open spec fn state_model(&self, s: NoteTable) -> (u32, Map<u8, (u32, u8)>) {
        s.model()
    }

    open spec fn step_spec(&self, s: (u32, Map<u8, (u32, u8)>), a: Event) -> (
        (u32, Map<u8, (u32, u8)>),
        Option<Tone>,
    ) {
        note_step(s, a)
    }

    fn step(&self, state: &mut NoteTable, a: Event) -> (r: Option<Tone>) {
        let ghost st0 = *state;
        let t = sat_add_time(state.time, a.delta_time);
        state.time = t;
        match a.kind {
            EventKind::NoteOn(pitch, vel) => {
                if pitch < 128 {
                    let idx = pitch as usize;
                    if state.notes_on[idx].is_none() {
                        state.notes_on[idx] = Some((t, vel));
                        proof {
                            assert(open_notes(state.notes_on@) =~= open_notes(
                                st0.notes_on@,
                            ).insert(pitch, (t, vel)));
                        }
                    }
                }
                None
            },
            EventKind::NoteOff(pitch, vel) => {
                if pitch < 128 {
                    let idx = pitch as usize;
                    match state.notes_on[idx] {
                        Some((start_time, atk_vel)) => {
                            state.notes_on[idx] = None;
                            proof {
                                assert(open_notes(state.notes_on@) =~= open_notes(
                                    st0.notes_on@,
                                ).remove(pitch));
                                assert(open_notes(st0.notes_on@)[pitch] == (
                                    start_time,
                                    atk_vel,
                                ));
                            }
                            Some(
                                Tone {
                                    pitch,
                                    start_time,
                                    end_time: t,
                                    atk_vel,
                                    rel_vel: vel,
                                },
                            )
                        },
                        None => None,
                    }
                } else {
                    None
                }
            },
            EventKind::Other => None,
        }
    }
}

/// The scan of the reduction step computes exactly `tones_from`.
proof fn lemma_tones_from_is_scan(st: (u32, Map<u8, (u32, u8)>), es: Seq<Event>)
    ensures
        scan_outputs(NoteReducer, st, es) == tones_from(st, es),
    decreases es.len(),
{
    if es.len() > 0 {
        lemma_tones_from_is_scan(note_step(st, es[0]).0, es.skip(1));
    }
}

/// Reduce a piece to its tones: flatten all tracks into one stream, then
/// scan it once, matching each note-off against the open note-on of its
/// pitch. Tones appear in the order their closing note-off is processed.
pub fn midi_to_tones(midi_data: &Midi) -> (r: Vec<Tone>)
    ensures
        r@ == tones_of(all_events(*midi_data)),
{
    let events = flatten_events(midi_data);
    let ghost es = events@;
    let it = events.filtered_scan(NoteTable::new(), NoteReducer);
    proof {
        assert(it.iter@.skip(0) =~= es);
        lemma_tones_from_is_scan(init_state(), es);
    }
    it.collect()
}

/// Total elapsed ticks of a piece: the sum of every event's `delta_time`
/// over every track, clamped at `u32::MAX` (the clock saturates instead of
/// wrapping on inputs whose total exceeds the tick range).
pub fn midi_duration(midi_data: &Midi) -> (r: u32)
    ensures
        r == sat32(sum_deltas(all_events(*midi_data))),
        sum_deltas(all_events(*midi_data)) <= u32::MAX ==> r == sum_deltas(
            all_events(*midi_data),
        ),
{
    let events = flatten_events(midi_data);
    let mut total: u32 = 0;
    let mut j: usize = 0;
    while j < events.len()
        invariant
            j <= events.len(),
            events@ == all_events(*midi_data),
            total == sat32(sum_deltas(events@.subrange(0, j as int))),
        decreases events.len() - j,
    {
        let d = events[j].delta_time;
        proof {
            let pre = events@.subrange(0, j as int);
            let ext = events@.subrange(0, j + 1);
            assert(ext.drop_last() =~= pre);
            lemma_sum_deltas_nonneg(pre);
        }
        total = sat_add_time(total, d);
        j += 1;
    }
    proof {
        assert(events@.subrange(0, events@.len() as int) =~= events@);
        lemma_sum_deltas_nonneg(all_events(*midi_data));
    }
    total
}


/// The display name of a pitch as a character sequence. The names pair the
/// twelve note letters with an octave subscript and span "C₋₂" for pitch 0
/// through "G₈" for pitch 127; the octave steps up at each A.
pub open spec fn note_name_spec(pitch: u8) -> Seq<char> {
    match pitch {
        0u8 => "C₋₂"@,
        1u8 => "C♯₋₂"@,
        2u8 => "D₋₂"@,
        3u8 => "D♯₋₂"@,
        4u8 => "E₋₂"@,
        5u8 => "F₋₂"@,
        6u8 => "F♯₋₂"@,
        7u8 => "G₋₂"@,
        8u8 => "G♯₋₂"@,
        9u8 => "A₋₁"@,
        10u8 => "A♯₋₁"@,
        11u8 => "B₋₁"@,
        12u8 => "C₋₁"@,
        13u8 => "C♯₋₁"@,
        14u8 => "D₋₁"@,
        15u8 => "D♯₋₁"@,
        16u8 => "E₋₁"@,
        17u8 => "F₋₁"@,
        18u8 => "F♯₋₁"@,
        19u8 => "G₋₁"@,
        20u8 => "G♯₋₁"@,
        21u8 => "A₀"@,
        22u8 => "A♯₀"@,
        23u8 => "B₀"@,
        24u8 => "C₀"@,
        25u8 => "C♯₀"@,
        26u8 => "D₀"@,
        27u8 => "D♯₀"@,
        28u8 => "E₀"@,
        29u8 => "F₀"@,
        30u8 => "F♯₀"@,
        31u8 => "G₀"@,
        32u8 => "G♯₀"@,
        33u8 => "A₁"@,
        34u8 => "A♯₁"@,
        35u8 => "B₁"@,
        36u8 => "C₁"@,
        37u8 => "C♯₁"@,
        38u8 => "D₁"@,
        39u8 => "D♯₁"@,
        40u8 => "E₁"@,
        41u8 => "F₁"@,
        42u8 => "F♯₁"@,
        43u8 => "G₁"@,
        44u8 => "G♯₁"@,
        45u8 => "A₂"@,
        46u8 => "A♯₂"@,
        47u8 => "B₂"@,
        48u8 => "C₂"@,
        49u8 => "C♯₂"@,
        50u8 => "D₂"@,
        51u8 => "D♯₂"@,
        52u8 => "E₂"@,
        53u8 => "F₂"@,
        54u8 => "F♯₂"@,
        55u8 => "G₂"@,
        56u8 => "G♯₂"@,
        57u8 => "A₃"@,
        58u8 => "A♯₃"@,
        59u8 => "B₃"@,
        60u8 => "C₃"@,
        61u8 => "C♯₃"@,
        62u8 => "D₃"@,
        63u8 => "D♯₃"@,
        64u8 => "E₃"@,
        65u8 => "F₃"@,
        66u8 => "F♯₃"@,
        67u8 => "G₃"@,
        68u8 => "G♯₃"@,
        69u8 => "A₄"@,
        70u8 => "A♯₄"@,
        71u8 => "B₄"@,
        72u8 => "C₄"@,
        73u8 => "C♯₄"@,
        74u8 => "D₄"@,
        75u8 => "D♯₄"@,
        76u8 => "E₄"@,
        77u8 => "F₄"@,
        78u8 => "F♯₄"@,
        79u8 => "G₄"@,
        80u8 => "G♯₄"@,
        81u8 => "A₅"@,
        82u8 => "A♯₅"@,
        83u8 => "B₅"@,
        84u8 => "C₅"@,
        85u8 => "C♯₅"@,
        86u8 => "D₅"@,
        87u8 => "D♯₅"@,
        88u8 => "E₅"@,
        89u8 => "F₅"@,
        90u8 => "F♯₅"@,
        91u8 => "G₅"@,
        92u8 => "G♯₅"@,
        93u8 => "A₆"@,
        94u8 => "A♯₆"@,
        95u8 => "B₆"@,
        96u8 => "C₆"@,
        97u8 => "C♯₆"@,
        98u8 => "D₆"@,
        99u8 => "D♯₆"@,
        100u8 => "E₆"@,
        101u8 => "F₆"@,
        102u8 => "F♯₆"@,
        103u8 => "G₆"@,
        104u8 => "G♯₆"@,
        105u8 => "A₇"@,
        106u8 => "A♯₇"@,
        107u8 => "B₇"@,
        108u8 => "C₇"@,
        109u8 => "C♯₇"@,
        110u8 => "D₇"@,
        111u8 => "D♯₇"@,
        112u8 => "E₇"@,
        113u8 => "F₇"@,
        114u8 => "F♯₇"@,
        115u8 => "G₇"@,
        116u8 => "G♯₇"@,
        117u8 => "A₈"@,
        118u8 => "A♯₈"@,
        119u8 => "B₈"@,
        120u8 => "C₈"@,
        121u8 => "C♯₈"@,
        122u8 => "D₈"@,
        123u8 => "D♯₈"@,
        124u8 => "E₈"@,
        125u8 => "F₈"@,
        126u8 => "F♯₈"@,
        _ => "G₈"@,
    }
}

/// The display name of a pitch, "C₋₂" through "G₈": a fixed lookup table,
/// pure data for a rendering collaborator.
pub fn note_name(pitch: u8) -> (r: &'static str)
    requires
        pitch < 128,
    ensures
        r@ == note_name_spec(pitch),
{
    match pitch {
        0 => "C₋₂",
        1 => "C♯₋₂",
        2 => "D₋₂",
        3 => "D♯₋₂",
        4 => "E₋₂",
        5 => "F₋₂",
        6 => "F♯₋₂",
        7 => "G₋₂",
        8 => "G♯₋₂",
        9 => "A₋₁",
        10 => "A♯₋₁",
        11 => "B₋₁",
        12 => "C₋₁",
        13 => "C♯₋₁",
        14 => "D₋₁",
        15 => "D♯₋₁",
        16 => "E₋₁",
        17 => "F₋₁",
        18 => "F♯₋₁",
        19 => "G₋₁",
        20 => "G♯₋₁",
        21 => "A₀",
        22 => "A♯₀",
        23 => "B₀",
        24 => "C₀",
        25 => "C♯₀",
        26 => "D₀",
        27 => "D♯₀",
        28 => "E₀",
        29 => "F₀",
        30 => "F♯₀",
        31 => "G₀",
        32 => "G♯₀",
        33 => "A₁",
        34 => "A♯₁",
        35 => "B₁",
        36 => "C₁",
        37 => "C♯₁",
        38 => "D₁",
        39 => "D♯₁",
        40 => "E₁",
        41 => "F₁",
        42 => "F♯₁",
        43 => "G₁",
        44 => "G♯₁",
        45 => "A₂",
        46 => "A♯₂",
        47 => "B₂",
        48 => "C₂",
        49 => "C♯₂",
        50 => "D₂",
        51 => "D♯₂",
        52 => "E₂",
        53 => "F₂",
        54 => "F♯₂",
        55 => "G₂",
        56 => "G♯₂",
        57 => "A₃",
        58 => "A♯₃",
        59 => "B₃",
        60 => "C₃",
        61 => "C♯₃",
        62 => "D₃",
        63 => "D♯₃",
        64 => "E₃",
        65 => "F₃",
        66 => "F♯₃",
        67 => "G₃",
        68 => "G♯₃",
        69 => "A₄",
        70 => "A♯₄",
        71 => "B₄",
        72 => "C₄",
        73 => "C♯₄",
        74 => "D₄",
        75 => "D♯₄",
        76 => "E₄",
        77 => "F₄",
        78 => "F♯₄",
        79 => "G₄",
        80 => "G♯₄",
        81 => "A₅",
        82 => "A♯₅",
        83 => "B₅",
        84 => "C₅",
        85 => "C♯₅",
        86 => "D₅",
        87 => "D♯₅",
        88 => "E₅",
        89 => "F₅",
        90 => "F♯₅",
        91 => "G₅",
        92 => "G♯₅",
        93 => "A₆",
        94 => "A♯₆",
        95 => "B₆",
        96 => "C₆",
        97 => "C♯₆",
        98 => "D₆",
        99 => "D♯₆",
        100 => "E₆",
        101 => "F₆",
        102 => "F♯₆",
        103 => "G₆",
        104 => "G♯₆",
        105 => "A₇",
        106 => "A♯₇",
        107 => "B₇",
        108 => "C₇",
        109 => "C♯₇",
        110 => "D₇",
        111 => "D♯₇",
        112 => "E₇",
        113 => "F₇",
        114 => "F♯₇",
        115 => "G₇",
        116 => "G♯₇",
        117 => "A₈",
        118 => "A♯₈",
        119 => "B₈",
        120 => "C₈",
        121 => "C♯₈",
        122 => "D₈",
        123 => "D♯₈",
        124 => "E₈",
        125 => "F₈",
        126 => "F♯₈",
        _ => "G₈",
    }
}

} // verus!
