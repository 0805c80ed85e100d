use vstd::prelude::*;

use crate::combined_iterator::{merge_wf, seeded, CombinedIterator};
use crate::errors::MidiError;
use crate::reader::{be16, be32, MidiRead, Status};
use crate::types::Ticks;

verus! {

/// A fresh buffer holding the same bytes.
fn copy_bytes(src: &Vec<u8>) -> (r: Vec<u8>)
    ensures
        r@ == src@,
{
    let mut r: Vec<u8> = Vec::new();
    let mut i: usize = 0;
    while i < src.len()
        invariant
            i <= src@.len(),
            r@ == src@.subrange(0, i as int),
        decreases src@.len() - i,
    {
        r.push(src[i]);
        i = i + 1;
        proof {
            assert(r@ =~= src@.subrange(0, i as int));
        }
    }
    proof {
        assert(src@.subrange(0, src@.len() as int) =~= src@);
    }
    r
}

/// One track chunk's payload, stored raw and decoded on demand.
pub type Track = Vec<u8>;

/// The four bytes `"MThd"` that open the container header.
pub open spec fn header_magic() -> Seq<u8> {
    seq![0x4du8, 0x54u8, 0x68u8, 0x64u8]
}

/// The four bytes `"MTrk"` that open each track chunk.
pub open spec fn track_magic() -> Seq<u8> {
    seq![0x4du8, 0x54u8, 0x72u8, 0x6bu8]
}

/// The mathematical value of a parsed [`File`].
pub struct FileView {
    pub format: u16,
    pub division: u32,
    pub tracks: Seq<Seq<u8>>,
}

/// Parse `count` track chunks from offset `i` of `s`: each must open with the
/// track magic and a big-endian 32-bit length, followed by exactly that many
/// payload bytes.
pub open spec fn spec_parse_tracks(s: Seq<u8>, i: int, count: int) -> Result<
    Seq<Seq<u8>>,
    MidiError,
>
    decreases count,
{
    if count <= 0 {
        Result::Ok(Seq::empty())
    } else if i + 4 > s.len() {
        Result::Err(MidiError::EndOfStream)
    } else if s.subrange(i, i + 4) != track_magic() {
        Result::Err(MidiError::InvalidHeader)
    } else if i + 8 > s.len() {
        Result::Err(MidiError::EndOfStream)
    } else {
        let len = be32(s, i + 4) as int;
        if i + 8 + len > s.len() {
            Result::Err(MidiError::EndOfStream)
        } else {
            match spec_parse_tracks(s, i + 8 + len, count - 1) {
                Result::Ok(rest) => Result::Ok(seq![s.subrange(i + 8, i + 8 + len)] + rest),
                Result::Err(e) => Result::Err(e),
            }
        }
    }
}

/// Parse a whole container image: the `"MThd"` magic, a header length that
/// must equal 6, a format that must be 0, 1 or 2, the track count and
/// division, then that many track chunks.
pub open spec fn spec_parse(s: Seq<u8>) -> Result<FileView, MidiError> {
    if s.len() < 4 {
        Result::Err(MidiError::EndOfStream)
    } else if s.subrange(0, 4) != header_magic() {
        Result::Err(MidiError::InvalidHeader)
    } else if s.len() < 8 {
        Result::Err(MidiError::EndOfStream)
    } else if be32(s, 4) != 6 {
        Result::Err(MidiError::InvalidHeader)
    } else if s.len() < 10 {
        Result::Err(MidiError::EndOfStream)
    } else if be16(s, 8) >= 3 {
        Result::Err(MidiError::UnsupportedVersion)
    } else if s.len() < 14 {
        Result::Err(MidiError::EndOfStream)
    } else {
        match spec_parse_tracks(s, 14, be16(s, 10) as int) {
            Result::Ok(tracks) => Result::Ok(
                FileView { format: be16(s, 8), division: be16(s, 12) as u32, tracks },
            ),
            Result::Err(e) => Result::Err(e),
        }
    }
}

/// Structural rejection: wrong magic bytes, or a header length other than 6,
/// fail the parse with the structural header error; no file is produced.
pub proof fn lemma_structural_rejection(s: Seq<u8>)
    requires
        s.len() >= 8,
        s.subrange(0, 4) != header_magic() || be32(s, 4) != 6,
    ensures
        spec_parse(s) == Result::<FileView, MidiError>::Err(MidiError::InvalidHeader),
{
}

/// Version rejection: a format field of 3 or more fails the parse with the
/// version error; no file is produced.
pub proof fn lemma_version_rejection(s: Seq<u8>)
    requires
        s.len() >= 10,
        s.subrange(0, 4) == header_magic(),
        be32(s, 4) == 6,
        be16(s, 8) >= 3,
    ensures
        spec_parse(s) == Result::<FileView, MidiError>::Err(MidiError::UnsupportedVersion),
{
}

/// A parsed Standard MIDI file: the container's format and division and every
/// track chunk's payload, copied verbatim and undecoded. Immutable once
/// parsed; each track can be decoded any number of times.
#[derive(Debug, PartialEq, Eq)]
pub struct File {
    pub tracks: Vec<Track>,
    pub format: u16,
    pub division: Ticks,
}

impl View for File {
    type V = FileView;

    open spec fn view(&self) -> FileView {
        FileView {
            format: self.format,
            division: self.division,
            tracks: self.tracks.deep_view(),
        }
    }
}

impl File {
    /// A fresh decode stream over one track's bytes. The track's buffer is
    /// immutable and retained, so a track can be traversed any number of
    /// times, each pass through a stream of its own.
    pub fn track_iter(&self, index: usize) -> (r: MidiRead)
        requires
            index < self@.tracks.len(),
        ensures
            r.bytes() == self@.tracks[index as int],
            r.pos() == 0,
            r.status() == (Status { channel: 0, opcode: 0 }),
    {
        let track = &self.tracks[index];
        proof {
            assert(track.deep_view() =~= track@);
        }
        MidiRead::new(copy_bytes(track))
    }

    /// The merged view of the whole file: every track's stream, interleaved
    /// into one sequence ordered by absolute time, ties broken by ascending
    /// track index.
    pub fn iter(&self) -> (r: CombinedIterator)
        ensures
            merge_wf(r@),
            r@.len() == self@.tracks.len(),
            forall|i: int|
                0 <= i < r@.len() ==> seeded(
                    self@.tracks[i],
                    0,
                    Status { channel: 0, opcode: 0 },
                    #[trigger] r@[i],
                ),
    {
        let mut streams: Vec<MidiRead> = Vec::new();
        let mut n: usize = 0;
        while n < self.tracks.len()
            invariant
                n <= self.tracks@.len(),
                streams@.len() == n,
                forall|i: int|
                    0 <= i < n ==> {
                        let s = #[trigger] streams@[i];
                        &&& s.bytes() == self@.tracks[i]
                        &&& s.pos() == 0
                        &&& s.status() == (Status { channel: 0, opcode: 0 })
                    },
            decreases self.tracks@.len() - n,
        {
            let s = self.track_iter(n);
            streams.push(s);
            n = n + 1;
        }
        CombinedIterator::new(streams)
    }

    /// Parse a container image, per [`spec_parse`]: verify the header magic
    /// and the 6-byte header length, reject formats other than 0, 1 and 2,
    /// then copy each declared track chunk's payload verbatim. On any failure
    /// an error is returned and no file is produced.
    #[verifier::loop_isolation(false)]
    pub fn parse(bytes: Vec<u8>) -> (r: Result<File, MidiError>)
        ensures
            match spec_parse(bytes@) {
                Result::Ok(f) => r matches Ok(file) && file@ == f,
                Result::Err(e) => r matches Err(e2) && e2 == e,
            },
    {
        let ghost all: Seq<u8> = bytes@;
        let mut reader = MidiRead::new(bytes);

        let header = reader.read_bytes_dyn(4)?;
        if !(header[0] == 0x4d && header[1] == 0x54 && header[2] == 0x68 && header[3] == 0x64) {
            proof {
                assert(all.subrange(0, 4) != header_magic());
            }
            return Err(MidiError::InvalidHeader);
        }
        proof {
            assert(all.subrange(0, 4) =~= header_magic());
        }

        let header_len = reader.read_int()?;
        if header_len != 6 {
            return Err(MidiError::InvalidHeader);
        }

        let format = reader.read_short()?;
        if format >= 3 {
            return Err(MidiError::UnsupportedVersion);
        }

        let track_count = reader.read_short()?;
        let division = reader.read_short()?;

        let mut tracks: Vec<Track> = Vec::new();
        let mut i: u16 = 0;
        while i < track_count
            invariant
                i <= track_count,
                reader.bytes() == all,
                0 <= reader.pos() <= all.len(),
                spec_parse(all) == match spec_parse_tracks(all, 14, track_count as int) {
                    Result::Ok(ts) => Result::Ok(
                        FileView { format, division: division as u32, tracks: ts },
                    ),
                    Result::Err(e) => Result::Err(e),
                },
                spec_parse_tracks(all, 14, track_count as int) == match spec_parse_tracks(
                    all,
                    reader.pos(),
                    track_count - i,
                ) {
                    Result::Ok(rest) => Result::Ok(tracks.deep_view() + rest),
                    Result::Err(e) => Result::Err(e),
                },
            decreases track_count - i,
        {
            let ghost p: int = reader.pos();
            let magic = reader.read_bytes_dyn(4)?;
            if !(magic[0] == 0x4d && magic[1] == 0x54 && magic[2] == 0x72 && magic[3] == 0x6b) {
                proof {
                    assert(all.subrange(p, p + 4) != track_magic());
                }
                return Err(MidiError::InvalidHeader);
            }
            proof {
                assert(all.subrange(p, p + 4) =~= track_magic());
            }
            let length = reader.read_int()?;
            let payload = reader.read_bytes_dyn(length as usize)?;
            let ghost prev_dv: Seq<Seq<u8>> = tracks.deep_view();
            tracks.push(payload);
            i = i + 1;
            proof {
                let len = be32(all, p + 4) as int;
                let chunk = all.subrange(p + 8, p + 8 + len);
                assert(tracks.deep_view() =~~= prev_dv + seq![chunk]);
                match spec_parse_tracks(all, reader.pos(), track_count - i) {
                    Result::Ok(rest) => {
                        assert(spec_parse_tracks(all, p, track_count - i + 1) == Result::<
                            Seq<Seq<u8>>,
                            MidiError,
                        >::Ok(seq![chunk] + rest));
                        assert(prev_dv + (seq![chunk] + rest) =~= (prev_dv + seq![chunk]) + rest);
                    },
                    Result::Err(_) => {},
                }
            }
        }
        proof {
            assert(spec_parse_tracks(all, reader.pos(), 0int) == Result::<
                Seq<Seq<u8>>,
                MidiError,
            >::Ok(Seq::empty()));
            assert(tracks.deep_view() + Seq::<Seq<u8>>::empty() =~= tracks.deep_view());
        }

        Ok(File { format, division: division as u32, tracks })
    }
}

} // verus!
