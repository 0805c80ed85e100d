use midi::{CombinedIterator, File, MidiRead, TrackEvent};

/// A track holding one note-on at the given delta, then end of track.
fn one_note_track(delta: u8, note: u8) -> Vec<u8> {
    vec![delta, 0x90, note, 64, 0, 0xff, 0x2f, 0x00]
}

fn drain_merge(mut m: CombinedIterator) -> Vec<TrackEvent> {
    let mut out = Vec::new();
    while let Some(te) = m.next() {
        out.push(te);
    }
    out
}

#[test]
fn merge_orders_by_delay_then_index() {
    // first-event delays [5, 0, 3] at track indices [0, 1, 2]: the merge must
    // emit track 1 first, then track 2, then track 0
    let file = File {
        tracks: vec![one_note_track(5, 60), one_note_track(0, 62), one_note_track(3, 64)],
        format: 1,
        division: 96,
    };
    let emitted = drain_merge(file.iter());
    let order: Vec<usize> = emitted.iter().map(|te| te.track).collect();
    assert_eq!(order, vec![1, 2, 0]);
    assert_eq!(emitted[0].event.delay, 0);
    assert_eq!(emitted[1].event.delay, 3);
    assert_eq!(emitted[2].event.delay, 5);
}

#[test]
fn merge_breaks_time_ties_by_ascending_index() {
    let file = File {
        tracks: vec![one_note_track(4, 60), one_note_track(4, 62), one_note_track(4, 64)],
        format: 1,
        division: 96,
    };
    let order: Vec<usize> = drain_merge(file.iter()).iter().map(|te| te.track).collect();
    assert_eq!(order, vec![0, 1, 2]);
}

#[test]
fn merge_interleaves_by_absolute_time() {
    // track 0 at absolute times 0 and 10; track 1 at 5 and 20
    let t0 = vec![0, 0x90, 60, 64, 10, 60, 0, 0, 0xff, 0x2f, 0x00];
    let t1 = vec![5, 0x91, 62, 64, 15, 62, 0, 0, 0xff, 0x2f, 0x00];
    let file = File { tracks: vec![t0, t1], format: 1, division: 96 };
    let order: Vec<usize> = drain_merge(file.iter()).iter().map(|te| te.track).collect();
    assert_eq!(order, vec![0, 1, 0, 1]);
}

#[test]
fn merge_of_no_tracks_is_empty() {
    let file = File { tracks: vec![], format: 0, division: 96 };
    let mut merged = file.iter();
    assert!(merged.next().is_none());
    assert!(merged.next().is_none());
}

#[test]
fn merge_skips_immediately_ending_tracks() {
    let empty = vec![0, 0xff, 0x2f, 0x00];
    let file =
        File { tracks: vec![empty.clone(), one_note_track(1, 70), empty], format: 1, division: 96 };
    let emitted = drain_merge(file.iter());
    assert_eq!(emitted.len(), 1);
    assert_eq!(emitted[0].track, 1);
}

#[test]
fn merge_treats_a_failing_track_as_exhausted() {
    // track 0 dies after its first event (truncated mid-event); track 1 is fine
    let broken = vec![0, 0x90, 60, 64, 2, 0x90, 61];
    let fine = vec![1, 0x91, 62, 64, 3, 62, 0, 0, 0xff, 0x2f, 0x00];
    let merged = CombinedIterator::new(vec![MidiRead::new(broken), MidiRead::new(fine)]);
    let emitted = drain_merge(merged);
    let order: Vec<usize> = emitted.iter().map(|te| te.track).collect();
    assert_eq!(order, vec![0, 1, 1]);
}

#[test]
fn merge_emits_exhaustively_then_stays_empty() {
    let file = File {
        tracks: vec![one_note_track(2, 60), one_note_track(1, 61)],
        format: 1,
        division: 96,
    };
    let mut merged = file.iter();
    assert!(merged.next().is_some());
    assert!(merged.next().is_some());
    assert!(merged.next().is_none());
    assert!(merged.next().is_none());
}
