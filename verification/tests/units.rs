//! Unit tests for the iterator utilities, the pacing state and the
//! note-name table.

use midi_display::event_loop::EventLoop;
use midi_display::filtered_scan_iter::FilteredScanIteratorExt;
use midi_display::midi_ext::{
    flatten_events, note_name, Event, EventKind, Midi, NoteReducer, NoteTable, Tone, Track,
};
use midi_display::pair_iter::PairIter;

fn on(delta_time: u32, pitch: u8, vel: u8) -> Event {
    Event { delta_time, kind: EventKind::NoteOn(pitch, vel) }
}

fn off(delta_time: u32, pitch: u8, vel: u8) -> Event {
    Event { delta_time, kind: EventKind::NoteOff(pitch, vel) }
}

fn tone(pitch: u8, start_time: u32, end_time: u32, atk_vel: u8, rel_vel: u8) -> Tone {
    Tone { pitch, start_time, end_time, atk_vel, rel_vel }
}

#[test]
fn filtered_scan_is_lazy_and_exhausts_permanently() {
    let events = vec![on(0, 60, 1), off(5, 60, 2), on(1, 61, 3)];
    let mut it = events.filtered_scan(NoteTable::new(), NoteReducer);
    assert_eq!(it.pos, 0);
    // One pull consumes exactly the two events needed for the first tone.
    assert_eq!(it.next(), Some(tone(60, 0, 5, 1, 2)));
    assert_eq!(it.pos, 2);
    // The unclosed note-on produces nothing; the source is drained.
    assert_eq!(it.next(), None);
    assert_eq!(it.pos, 3);
    // Exhaustion is permanent.
    assert_eq!(it.next(), None);
    assert_eq!(it.pos, 3);
}

#[test]
fn filtered_scan_size_hint_shrinks_with_the_source() {
    let events = vec![on(0, 60, 1), off(5, 60, 2), on(1, 61, 3)];
    let mut it = events.filtered_scan(NoteTable::new(), NoteReducer);
    assert_eq!(it.size_hint(), (0, Some(3)));
    let _ = it.next();
    assert_eq!(it.size_hint(), (0, Some(1)));
    let _ = it.next();
    assert_eq!(it.size_hint(), (0, Some(0)));
}

#[test]
fn filtered_scan_collect_gathers_all_outputs() {
    let events = vec![on(0, 60, 1), off(5, 60, 2), on(0, 61, 3), off(1, 61, 4)];
    let it = events.filtered_scan(NoteTable::new(), NoteReducer);
    assert_eq!(it.collect(), vec![tone(60, 0, 5, 1, 2), tone(61, 5, 6, 3, 4)]);
}

#[test]
fn pair_iter_yields_two_in_order() {
    let mut it = PairIter::of_two(10u32, 20u32);
    assert_eq!(it.get(0), Some(&10));
    assert_eq!(it.get(1), Some(&20));
    assert_eq!(it.get(2), None);
    assert_eq!(it.next(), Some(10));
    assert_eq!(it.get(0), Some(&20));
    assert_eq!(it.get(1), None);
    assert_eq!(it.next(), Some(20));
    assert_eq!(it.next(), None);
    assert_eq!(it.next(), None);
    assert_eq!(it.get(0), None);
}

#[test]
fn pair_iter_single_and_empty() {
    let mut it = PairIter::of_one(String::from("x"));
    assert_eq!(it.next(), Some(String::from("x")));
    assert_eq!(it.next(), None);
    let mut e: PairIter<u8> = PairIter::empty();
    assert_eq!(e.next(), None);
    assert_eq!(e.get(0), None);
}

#[test]
fn event_loop_pacing_flags() {
    let mut el = EventLoop::new();
    assert!(el.ui_needs_update);
    assert!(!el.should_wait_for_event(true));
    el.mark_updated();
    assert!(!el.ui_needs_update);
    assert!(el.should_wait_for_event(true));
    assert!(!el.should_wait_for_event(false));
    el.needs_update();
    assert!(el.ui_needs_update);
    let _ms = el.millis_since_update();
}

#[test]
fn frame_wait_rule() {
    assert_eq!(EventLoop::frame_wait_ms(0), 16);
    assert_eq!(EventLoop::frame_wait_ms(10), 6);
    assert_eq!(EventLoop::frame_wait_ms(16), 0);
    assert_eq!(EventLoop::frame_wait_ms(1000), 0);
}

#[test]
fn note_names_span_the_range() {
    assert_eq!(note_name(0), "C₋₂");
    assert_eq!(note_name(1), "C♯₋₂");
    assert_eq!(note_name(9), "A₋₁");
    assert_eq!(note_name(21), "A₀");
    assert_eq!(note_name(60), "C₃");
    assert_eq!(note_name(69), "A₄");
    assert_eq!(note_name(127), "G₈");
}

#[test]
fn flatten_keeps_track_then_event_order() {
    let midi = Midi {
        tracks: vec![
            Track { events: vec![on(1, 60, 2), off(2, 60, 3)] },
            Track { events: vec![on(3, 61, 4)] },
        ],
    };
    assert_eq!(
        flatten_events(&midi),
        vec![on(1, 60, 2), off(2, 60, 3), on(3, 61, 4)]
    );
}
