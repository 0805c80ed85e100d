use midi::{EventType, File, KeyEventType, MidiError, Note};

/// A container image with the given format, division and track payloads.
fn build_file(format: u16, division: u16, tracks: &[Vec<u8>]) -> Vec<u8> {
    let mut out = Vec::new();
    out.extend_from_slice(b"MThd");
    out.extend_from_slice(&6u32.to_be_bytes());
    out.extend_from_slice(&format.to_be_bytes());
    out.extend_from_slice(&(tracks.len() as u16).to_be_bytes());
    out.extend_from_slice(&division.to_be_bytes());
    for t in tracks {
        out.extend_from_slice(b"MTrk");
        out.extend_from_slice(&(t.len() as u32).to_be_bytes());
        out.extend_from_slice(t);
    }
    out
}

#[test]
fn parse_accepts_a_valid_file() {
    let track = vec![0, 0x90, 60, 64, 0, 0xff, 0x2f, 0x00];
    let bytes = build_file(1, 96, &[track.clone()]);
    let file = File::parse(bytes).expect("the file is well-formed");
    assert_eq!(file.format, 1);
    assert_eq!(file.division, 96);
    assert_eq!(file.tracks, vec![track]);
}

#[test]
fn parse_accepts_zero_tracks() {
    let bytes = build_file(0, 48, &[]);
    let file = File::parse(bytes).expect("the file is well-formed");
    assert_eq!(file.format, 0);
    assert_eq!(file.division, 48);
    assert!(file.tracks.is_empty());
}

#[test]
fn parse_rejects_bad_magic() {
    let mut bytes = build_file(1, 96, &[]);
    bytes[2] = b'x';
    assert_eq!(File::parse(bytes), Err(MidiError::InvalidHeader));
}

#[test]
fn parse_rejects_bad_header_length() {
    let mut bytes = build_file(1, 96, &[]);
    bytes[7] = 7;
    assert_eq!(File::parse(bytes), Err(MidiError::InvalidHeader));
}

#[test]
fn parse_rejects_version_three() {
    let bytes = build_file(3, 96, &[]);
    assert_eq!(File::parse(bytes), Err(MidiError::UnsupportedVersion));
    let bytes = build_file(700, 96, &[]);
    assert_eq!(File::parse(bytes), Err(MidiError::UnsupportedVersion));
}

#[test]
fn parse_rejects_bad_track_magic() {
    let mut bytes = build_file(1, 96, &[vec![0, 0xff, 0x2f, 0x00]]);
    bytes[14] = b'X';
    assert_eq!(File::parse(bytes), Err(MidiError::InvalidHeader));
}

#[test]
fn parse_rejects_truncated_input() {
    // cut inside the header
    assert_eq!(File::parse(b"MTh".to_vec()), Err(MidiError::EndOfStream));
    assert_eq!(File::parse(b"MThd\x00\x00".to_vec()), Err(MidiError::EndOfStream));
    // a declared track whose payload is missing bytes
    let mut bytes = build_file(1, 96, &[vec![0, 0xff, 0x2f, 0x00]]);
    bytes.pop();
    assert_eq!(File::parse(bytes), Err(MidiError::EndOfStream));
    // a declared track that never appears
    let mut bytes = build_file(1, 96, &[]);
    bytes[11] = 1;
    assert_eq!(File::parse(bytes), Err(MidiError::EndOfStream));
}

#[test]
fn end_to_end_press_then_release() {
    // one track: note-on at delta 0, a running-status note-on with velocity 0
    // at delta 96 (a release), then end of track
    let track = vec![0, 0x90, 60, 64, 96, 60, 0, 0, 0xff, 0x2f, 0x00];
    let bytes = build_file(1, 96, &[track]);
    let file = File::parse(bytes).expect("the file is well-formed");
    assert_eq!(file.format, 1);
    assert_eq!(file.division, 96);
    assert_eq!(file.tracks.len(), 1);

    let mut stream = file.track_iter(0);
    let first = stream.next().expect("decodes").expect("is an event");
    assert_eq!(first.delay, 0);
    assert_eq!(first.channel, 0);
    assert_eq!(
        first.typ,
        EventType::Key { typ: KeyEventType::Press, note: Note::new(60), velocity: 64 }
    );
    let second = stream.next().expect("decodes").expect("is an event");
    assert_eq!(second.delay, 96);
    assert_eq!(second.channel, 0);
    assert_eq!(
        second.typ,
        EventType::Key { typ: KeyEventType::Release, note: Note::new(60), velocity: 0 }
    );
    assert_eq!(stream.next(), Ok(None));
}

#[test]
fn tracks_can_be_traversed_repeatedly() {
    let track = vec![0, 0x90, 60, 64, 0, 0xff, 0x2f, 0x00];
    let bytes = build_file(0, 96, &[track]);
    let file = File::parse(bytes).expect("the file is well-formed");
    let mut first_pass = file.track_iter(0);
    let a = first_pass.next().expect("decodes").expect("is an event");
    let mut second_pass = file.track_iter(0);
    let b = second_pass.next().expect("decodes").expect("is an event");
    assert_eq!(a, b);
}
