use midi::{Event, EventType, KeyEventType, MidiError, MidiRead, Note};

/// Decode a whole track, returning the events and how the stream ended.
fn drain(mut r: MidiRead) -> (Vec<Event>, Result<(), MidiError>) {
    let mut out = Vec::new();
    loop {
        match r.next() {
            Ok(Some(e)) => out.push(e),
            Ok(None) => return (out, Ok(())),
            Err(e) => return (out, Err(e)),
        }
    }
}

/// The minimal base-128 encoding of `n`.
fn encode_vlq(n: u32) -> Vec<u8> {
    let mut digits = vec![(n % 128) as u8];
    let mut rest = n / 128;
    while rest > 0 {
        digits.push((rest % 128) as u8 | 0x80);
        rest /= 128;
    }
    digits.reverse();
    digits
}

#[test]
fn vlq_decodes_minimal_encodings() {
    let cases: Vec<(Vec<u8>, u32)> = vec![
        (vec![0x00], 0),
        (vec![0x40], 64),
        (vec![0x7f], 127),
        (vec![0x81, 0x00], 128),
        (vec![0xc0, 0x00], 8192),
        (vec![0xff, 0x7f], 16383),
        (vec![0x81, 0x80, 0x00], 16384),
        (vec![0xff, 0xff, 0x7f], 2097151),
        (vec![0x81, 0x80, 0x80, 0x00], 2097152),
        (vec![0xff, 0xff, 0xff, 0x7f], 0x0fff_ffff),
    ];
    for (bytes, expected) in cases {
        let mut r = MidiRead::new(bytes);
        assert_eq!(r.read_var_len(), Ok(expected));
    }
}

#[test]
fn vlq_round_trips() {
    let ns: Vec<u32> = vec![0, 1, 127, 128, 129, 16383, 16384, 2097151, 2097152, 0x0fff_ffff];
    for n in ns {
        let mut r = MidiRead::new(encode_vlq(n));
        assert_eq!(r.read_var_len(), Ok(n));
    }
}

#[test]
fn vlq_without_terminator_fails() {
    let mut r = MidiRead::new(vec![0x81]);
    assert_eq!(r.read_var_len(), Err(MidiError::EndOfStream));
    let mut r = MidiRead::new(vec![]);
    assert_eq!(r.read_var_len(), Err(MidiError::EndOfStream));
}

#[test]
fn running_status_equivalence() {
    let explicit = vec![
        0, 0x92, 60, 64, //
        3, 0x92, 62, 65, //
        0, 0x92, 64, 66, //
        0, 0xff, 0x2f, 0x00,
    ];
    let compressed = vec![
        0, 0x92, 60, 64, //
        3, 62, 65, //
        0, 64, 66, //
        0, 0xff, 0x2f, 0x00,
    ];
    let (ev1, end1) = drain(MidiRead::new(explicit));
    let (ev2, end2) = drain(MidiRead::new(compressed));
    assert_eq!(ev1, ev2);
    assert_eq!(end1, Ok(()));
    assert_eq!(end2, Ok(()));
    assert_eq!(ev1.len(), 3);
}

#[test]
fn note_on_velocity_zero_is_release() {
    let (events, end) = drain(MidiRead::new(vec![0, 0x90, 60, 0, 0, 0xff, 0x2f, 0x00]));
    assert_eq!(end, Ok(()));
    assert_eq!(events.len(), 1);
    match &events[0].typ {
        EventType::Key { typ, note, velocity } => {
            assert!(matches!(typ, KeyEventType::Release));
            assert_eq!(note.value(), 60);
            assert_eq!(*velocity, 0);
        }
        other => panic!("expected a key event, got {:?}", other),
    }
}

#[test]
fn note_on_with_velocity_is_press() {
    let (events, end) = drain(MidiRead::new(vec![0, 0x90, 60, 64, 0, 0xff, 0x2f, 0x00]));
    assert_eq!(end, Ok(()));
    assert_eq!(
        events,
        vec![Event {
            delay: 0,
            channel: 0,
            typ: EventType::Key { typ: KeyEventType::Press, note: Note::new(60), velocity: 64 },
        }]
    );
}

#[test]
fn end_of_track_terminates_without_error() {
    let (events, end) = drain(MidiRead::new(vec![5, 0xff, 0x2f, 0x00]));
    assert_eq!(events, vec![]);
    assert_eq!(end, Ok(()));
}

#[test]
fn end_of_track_with_nonzero_length_fails() {
    let (events, end) = drain(MidiRead::new(vec![0, 0xff, 0x2f, 0x01]));
    assert_eq!(events, vec![]);
    assert_eq!(end, Err(MidiError::UnsupportedEvent));
}

#[test]
fn truncation_is_distinct_from_end_of_track() {
    // missing velocity byte: a short read, not a normal termination
    let (events, end) = drain(MidiRead::new(vec![0, 0x90, 60]));
    assert_eq!(events, vec![]);
    assert_eq!(end, Err(MidiError::EndOfStream));
    // running out of bytes with no end-of-track event at all
    let (events, end) = drain(MidiRead::new(vec![0, 0x90, 60, 64]));
    assert_eq!(events.len(), 1);
    assert_eq!(end, Err(MidiError::EndOfStream));
}

#[test]
fn sysex_is_unsupported() {
    let (events, end) = drain(MidiRead::new(vec![0, 0xf0, 3, 1, 2, 3]));
    assert_eq!(events, vec![]);
    assert_eq!(end, Err(MidiError::UnsupportedEvent));
    let (_, end) = drain(MidiRead::new(vec![0, 0xf7, 0]));
    assert_eq!(end, Err(MidiError::UnsupportedEvent));
}

#[test]
fn data_byte_without_any_status_fails() {
    let (events, end) = drain(MidiRead::new(vec![0, 0x10, 0x20]));
    assert_eq!(events, vec![]);
    assert_eq!(end, Err(MidiError::UnsupportedEvent));
}

#[test]
fn meta_event_carries_payload() {
    let (events, end) = drain(MidiRead::new(vec![
        0, 0xff, 0x51, 0x03, 0x07, 0xa1, 0x20, //
        0, 0xff, 0x2f, 0x00,
    ]));
    assert_eq!(end, Ok(()));
    assert_eq!(
        events,
        vec![Event {
            delay: 0,
            channel: 0xf,
            typ: EventType::Meta { typ: 0x51, data: vec![0x07, 0xa1, 0x20] },
        }]
    );
}

#[test]
fn meta_then_end_of_track_by_running_status() {
    // after a meta event the running status is the meta status, so both the
    // following text event and the end-of-track may omit their status byte
    let (events, end) = drain(MidiRead::new(vec![
        0, 0xff, 0x01, 0x02, b'h', b'i', //
        0, 0x03, 0x01, b'x', //
        0, 0x2f, 0x00,
    ]));
    assert_eq!(end, Ok(()));
    assert_eq!(events.len(), 2);
    assert_eq!(events[0].typ, EventType::Meta { typ: 0x01, data: vec![b'h', b'i'] });
    assert_eq!(events[1].typ, EventType::Meta { typ: 0x03, data: vec![b'x'] });
}

#[test]
fn pitch_wheel_uses_fourteen_bits() {
    let (events, end) = drain(MidiRead::new(vec![0, 0xe3, 0x10, 0x20, 0, 0xff, 0x2f, 0x00]));
    assert_eq!(end, Ok(()));
    assert_eq!(
        events,
        vec![Event {
            delay: 0,
            channel: 3,
            typ: EventType::PitchWheelChange { value: (0x10 << 7) | 0x20 },
        }]
    );
}

#[test]
fn channel_voice_events_decode() {
    let (events, end) = drain(MidiRead::new(vec![
        0, 0xb2, 7, 100, //
        2, 0xc5, 33, //
        0, 0xd6, 77, //
        1, 0xa1, 60, 50, //
        0, 0x81, 60, 40, //
        0, 0xff, 0x2f, 0x00,
    ]));
    assert_eq!(end, Ok(()));
    assert_eq!(events.len(), 5);
    assert_eq!(events[0].channel, 2);
    assert_eq!(events[0].typ, EventType::ControlChange { controller: 7, value: 100 });
    assert_eq!(events[1].delay, 2);
    assert_eq!(events[1].channel, 5);
    assert_eq!(events[1].typ, EventType::PatchChange { program: 33 });
    assert_eq!(events[2].channel, 6);
    assert_eq!(events[2].typ, EventType::ChannelAftertouch { channel: 77 });
    assert_eq!(events[3].delay, 1);
    assert_eq!(events[3].channel, 1);
    assert_eq!(
        events[3].typ,
        EventType::Key { typ: KeyEventType::Aftertouch, note: Note::new(60), velocity: 50 }
    );
    assert_eq!(events[4].channel, 1);
    assert_eq!(
        events[4].typ,
        EventType::Key { typ: KeyEventType::Release, note: Note::new(60), velocity: 40 }
    );
}

#[test]
fn read_primitives() {
    let mut r = MidiRead::new(vec![0x01, 0x02, 0x03, 0x04, 0x05, 0x06, 0x07, 0x08]);
    assert_eq!(r.read_byte(), Ok(0x01));
    assert_eq!(r.read_short(), Ok(0x0203));
    assert_eq!(r.read_int(), Ok(0x0405_0607));
    assert_eq!(r.read_bytes_dyn(1), Ok(vec![0x08]));
    assert_eq!(r.read_byte(), Err(MidiError::EndOfStream));
}

#[test]
fn read_bytes_returns_fixed_arrays() {
    let mut r = MidiRead::new(vec![9, 8, 7]);
    assert_eq!(r.read_bytes::<2>(), Ok([9, 8]));
    assert_eq!(r.read_bytes::<2>(), Err(MidiError::EndOfStream));
}

#[test]
fn read_bytes_dyn_fails_on_short_buffer() {
    let mut r = MidiRead::new(vec![1, 2, 3]);
    assert_eq!(r.read_bytes_dyn(4), Err(MidiError::EndOfStream));
}

#[test]
fn read_string_decodes_utf8() {
    let mut r = MidiRead::new(vec![b'M', b'T', b'h', b'd']);
    assert_eq!(r.read_string(4), Ok(String::from("MThd")));
    let mut r = MidiRead::new(vec![0xff, 0xfe]);
    assert_eq!(r.read_string(2), Err(MidiError::InvalidUtf8String));
    let mut r = MidiRead::new(vec![b'a']);
    assert_eq!(r.read_string(2), Err(MidiError::EndOfStream));
}

#[test]
fn note_wraps_its_number() {
    let n = Note::new(60);
    assert_eq!(n.value(), 60);
    assert_eq!(Note::new(0).value(), 0);
    assert_eq!(Note::new(127).value(), 127);
}
