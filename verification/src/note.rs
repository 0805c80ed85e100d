use vstd::prelude::*;

verus! {

/// A note number: a thin wrapper around the 0..=127 pitch values MIDI key
/// events carry. Mapping a note to a frequency or a letter-octave name is
/// delegated to an external pitch-computation capability and is not part of
/// this crate.
#[derive(Debug, Clone, Copy, PartialEq, Eq)]
pub struct Note(u8);

impl View for Note {
    type V = u8;

    closed spec fn view(&self) -> u8 {
        self.0
    }
}

impl Note {
    pub fn new(value: u8) -> (n: Note)
        ensures
            n@ == value,
    {
        Note(value)
    }

    /// The raw note number this wrapper holds.
    pub fn value(self) -> (v: u8)
        ensures
            v == self@,
    {
        self.0
    }
}

} // verus!
