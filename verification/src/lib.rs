//! Reader for the Standard MIDI File container format.
//!
//! The library parses the file header and per-track chunk framing into a
//! [`File`] of raw track byte buffers, decodes each track's delta-time-tagged
//! event stream on demand (including the running-status compression
//! convention), and merges the per-track streams into one globally
//! time-ordered sequence.

pub mod combined_iterator;
pub mod errors;
pub mod note;
pub mod parser;
pub mod reader;
pub mod types;

pub use crate::combined_iterator::{CombinedIterator, TrackEvent};
pub use crate::errors::MidiError;
pub use crate::note::Note;
pub use crate::parser::{File, Track};
pub use crate::reader::MidiRead;
pub use crate::types::{Byte, Event, EventType, KeyEventType, Ticks};
