use vstd::prelude::*;

use crate::note::Note;

verus! {

/// A 32-bit tick count. Whether it is a delta or an absolute time depends on
/// context.
pub type Ticks = u32;

/// An 8-bit value read from the source.
pub type Byte = u8;

/// How a key event acts on its note.
#[derive(Debug, Clone, Copy, PartialEq, Eq)]
pub enum KeyEventType {
    Press,
    Release,
    Aftertouch,
}

/// The payload of one decoded track event.
///
/// SysEx events are not supported: encountering one is a fatal decode error
/// for the affected track, never a variant here.
#[derive(Debug, Clone, PartialEq, Eq)]
#[allow(inconsistent_fields)]
pub enum EventType {
    Key { typ: KeyEventType, note: Note, velocity: Byte },
    ControlChange { controller: Byte, value: Byte },
    PatchChange { program: Byte },
    ChannelAftertouch { channel: Byte },
    PitchWheelChange { value: u16 },
    Meta { typ: Byte, data: Vec<u8> },
}

/// One decoded track event: its payload, the channel it addresses, and the
/// ticks elapsed since the previous event on the same track.
#[derive(Debug, Clone, PartialEq, Eq)]
pub struct Event {
    pub delay: Ticks,
    pub channel: Byte,
    pub typ: EventType,
}

/// The mathematical value of an [`EventType`]: the same variants, with the
/// meta payload as a sequence and the note as its raw number.
#[allow(inconsistent_fields)]
pub enum EventTypeView {
    Key { typ: KeyEventType, note: u8, velocity: u8 },
    ControlChange { controller: u8, value: u8 },
    PatchChange { program: u8 },
    ChannelAftertouch { channel: u8 },
    PitchWheelChange { value: u16 },
    Meta { typ: u8, data: Seq<u8> },
}

/// The mathematical value of an [`Event`].
pub struct EventView {
    pub delay: u32,
    pub channel: u8,
    pub typ: EventTypeView,
}

impl View for EventType {
    type V = EventTypeView;

    open spec fn view(&self) -> EventTypeView {
        match self {
            EventType::Key { typ, note, velocity } => EventTypeView::Key {
                typ: *typ,
                note: note@,
                velocity: *velocity,
            },
            EventType::ControlChange { controller, value } => EventTypeView::ControlChange {
                controller: *controller,
                value: *value,
            },
            EventType::PatchChange { program } => EventTypeView::PatchChange { program: *program },
            EventType::ChannelAftertouch { channel } => EventTypeView::ChannelAftertouch {
                channel: *channel,
            },
            EventType::PitchWheelChange { value } => EventTypeView::PitchWheelChange {
                value: *value,
            },
            EventType::Meta { typ, data } => EventTypeView::Meta { typ: *typ, data: data@ },
        }
    }
}

impl View for Event {
    type V = EventView;

    open spec fn view(&self) -> EventView {
        EventView { delay: self.delay, channel: self.channel, typ: self.typ@ }
    }
}

} // verus!
