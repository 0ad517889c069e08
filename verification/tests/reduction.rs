//! Scenario tests for the note reduction and the duration accumulator.

use midi_display::midi_ext::{
    midi_duration, midi_to_tones, Event, EventKind, Midi, Tone, Track,
};

fn on(delta_time: u32, pitch: u8, vel: u8) -> Event {
    Event { delta_time, kind: EventKind::NoteOn(pitch, vel) }
}

fn off(delta_time: u32, pitch: u8, vel: u8) -> Event {
    Event { delta_time, kind: EventKind::NoteOff(pitch, vel) }
}

fn other(delta_time: u32) -> Event {
    Event { delta_time, kind: EventKind::Other }
}

fn one_track(events: Vec<Event>) -> Midi {
    Midi { tracks: vec![Track { events }] }
}

fn tone(pitch: u8, start_time: u32, end_time: u32, atk_vel: u8, rel_vel: u8) -> Tone {
    Tone { pitch, start_time, end_time, atk_vel, rel_vel }
}

#[test]
fn matched_pair_yields_one_tone() {
    let midi = one_track(vec![on(0, 60, 100), off(10, 60, 80)]);
    assert_eq!(midi_to_tones(&midi), vec![tone(60, 0, 10, 100, 80)]);
}

#[test]
fn spurious_note_off_yields_nothing() {
    let midi = one_track(vec![off(5, 61, 50)]);
    assert_eq!(midi_to_tones(&midi), vec![]);
}

#[test]
fn duplicate_note_on_first_wins() {
    let midi = one_track(vec![on(0, 60, 1), on(0, 60, 2), off(5, 60, 9)]);
    assert_eq!(midi_to_tones(&midi), vec![tone(60, 0, 5, 1, 9)]);
}

#[test]
fn unclosed_note_is_dropped_but_counts_toward_duration() {
    let midi = one_track(vec![on(0, 60, 10), other(20)]);
    assert_eq!(midi_to_tones(&midi), vec![]);
    assert_eq!(midi_duration(&midi), 20);
}

#[test]
fn same_tick_pair_yields_zero_length_tone() {
    let midi = one_track(vec![on(7, 60, 40), off(0, 60, 30)]);
    assert_eq!(midi_to_tones(&midi), vec![tone(60, 7, 7, 40, 30)]);
}

#[test]
fn empty_piece_yields_nothing() {
    let midi = Midi { tracks: vec![] };
    assert_eq!(midi_to_tones(&midi), vec![]);
    assert_eq!(midi_duration(&midi), 0);
}

#[test]
fn empty_track_yields_nothing() {
    let midi = one_track(vec![]);
    assert_eq!(midi_to_tones(&midi), vec![]);
    assert_eq!(midi_duration(&midi), 0);
}

#[test]
fn interleaved_pitches_are_independent() {
    // A long note on 60 around a short note on 62, interleaved.
    let midi = one_track(vec![on(0, 60, 10), on(5, 62, 20), off(3, 62, 21), off(2, 60, 11)]);
    let tones = midi_to_tones(&midi);
    // Emission follows the closing note-off order: 62 closes first.
    assert_eq!(tones, vec![tone(62, 5, 8, 20, 21), tone(60, 0, 10, 10, 11)]);

    // Each pitch alone, at the same absolute ticks, gives the same tones.
    let alone_62 = one_track(vec![on(5, 62, 20), off(3, 62, 21)]);
    assert_eq!(midi_to_tones(&alone_62), vec![tone(62, 5, 8, 20, 21)]);
    let alone_60 = one_track(vec![on(0, 60, 10), off(10, 60, 11)]);
    assert_eq!(midi_to_tones(&alone_60), vec![tone(60, 0, 10, 10, 11)]);
}

#[test]
fn emission_order_is_not_start_time_order() {
    let midi = one_track(vec![on(0, 60, 10), on(5, 62, 20), off(3, 62, 21), off(2, 60, 11)]);
    let tones = midi_to_tones(&midi);
    assert!(tones[0].end_time <= tones[1].end_time);
    assert!(tones[0].start_time > tones[1].start_time);
}

#[test]
fn reopening_after_close_starts_fresh() {
    let midi = one_track(vec![on(0, 60, 1), off(4, 60, 2), on(6, 60, 3), off(5, 60, 4)]);
    assert_eq!(
        midi_to_tones(&midi),
        vec![tone(60, 0, 4, 1, 2), tone(60, 10, 15, 3, 4)]
    );
}

#[test]
fn other_events_advance_the_clock() {
    let midi = one_track(vec![other(3), on(0, 60, 9), other(4), off(0, 60, 8)]);
    assert_eq!(midi_to_tones(&midi), vec![tone(60, 3, 7, 9, 8)]);
    assert_eq!(midi_duration(&midi), 7);
}

#[test]
fn clock_runs_on_across_tracks() {
    let midi = Midi {
        tracks: vec![
            Track { events: vec![on(2, 60, 5)] },
            Track { events: vec![off(3, 60, 6)] },
        ],
    };
    assert_eq!(midi_to_tones(&midi), vec![tone(60, 2, 5, 5, 6)]);
}

#[test]
fn duration_sums_all_tracks() {
    let midi = Midi {
        tracks: vec![
            Track { events: vec![other(3), other(4)] },
            Track { events: vec![other(5)] },
        ],
    };
    assert_eq!(midi_duration(&midi), 12);
}

#[test]
fn duration_is_independent_of_track_order() {
    let a = Track { events: vec![other(3), other(4)] };
    let b = Track { events: vec![other(5)] };
    let m1 = Midi { tracks: vec![Track { events: a.events.clone() }, Track { events: b.events.clone() }] };
    let m2 = Midi { tracks: vec![b, a] };
    assert_eq!(midi_duration(&m1), midi_duration(&m2));
}

#[test]
fn duration_saturates_instead_of_wrapping() {
    let midi = one_track(vec![other(u32::MAX), other(10)]);
    assert_eq!(midi_duration(&midi), u32::MAX);
}

#[test]
fn out_of_range_pitches_are_ignored() {
    // Pitches at or above 128 are ignored by policy; their deltas still
    // advance the clock.
    let midi = one_track(vec![on(0, 200, 9), off(4, 200, 8), on(0, 60, 1), off(2, 60, 2)]);
    assert_eq!(midi_to_tones(&midi), vec![tone(60, 4, 6, 1, 2)]);
    assert_eq!(midi_duration(&midi), 6);
}

#[test]
fn tone_times_never_invert() {
    let midi = one_track(vec![
        on(1, 60, 1),
        on(0, 61, 2),
        off(0, 61, 3),
        off(9, 60, 4),
        off(0, 60, 5),
        on(2, 61, 6),
    ]);
    for t in midi_to_tones(&midi) {
        assert!(t.start_time <= t.end_time);
    }
}
