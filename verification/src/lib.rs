//! Reduction of delta-timed musical channel events into closed tone
//! intervals, together with the small iterator utilities it is built on.

pub mod event_loop;
pub mod filtered_scan_iter;
pub mod laws;
pub mod midi_ext;
pub mod pair_iter;
