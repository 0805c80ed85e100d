use vstd::prelude::*;

use crate::errors::MidiError;
use crate::note::Note;
use crate::types::{Event, EventType, EventTypeView, EventView, KeyEventType};

verus! {

/// The running status a track stream carries between events: the channel and
/// opcode nibbles of the most recent explicit status byte.
#[derive(Debug, Clone, Copy, PartialEq, Eq)]
pub struct Status {
    pub channel: u8,
    pub opcode: u8,
}

/// The channel and opcode nibbles of an explicit status byte.
pub open spec fn status_of(b: u8) -> Status {
    Status { channel: b & 0xf, opcode: (b & 0xf0) >> 4 }
}

/// How many bytes the variable-length quantity at the head of `s` occupies:
/// every leading byte with the continuation bit set, plus the terminating
/// byte. `None` when no terminating byte follows.
pub open spec fn vlq_len(s: Seq<u8>) -> Option<int>
    decreases s.len(),
{
    if s.len() == 0 {
        Option::None
    } else if s[0] & 0x80 == 0 {
        Option::Some(1)
    } else {
        match vlq_len(s.skip(1)) {
            Option::Some(k) => Option::Some(k + 1),
            Option::None => Option::None,
        }
    }
}

/// The value of the complete variable-length quantity `s`: base-128 digits in
/// big-endian order, each byte contributing its low seven bits, accumulated in
/// a 32-bit register (an over-long quantity wraps, exactly as the decoder's
/// register does).
pub open spec fn vlq_value(s: Seq<u8>) -> u32
    decreases s.len(),
{
    if s.len() == 0 {
        0u32
    } else {
        ((vlq_value(s.drop_last()) * 128 + (s.last() & 0x7f)) % 0x1_0000_0000) as u32
    }
}

/// The big-endian 16-bit value at offset `i` of `s`.
pub open spec fn be16(s: Seq<u8>, i: int) -> u16 {
    (s[i] * 0x100 + s[i + 1]) as u16
}

/// The big-endian 32-bit value at offset `i` of `s`.
pub open spec fn be32(s: Seq<u8>, i: int) -> u32 {
    (s[i] * 0x1000000 + s[i + 1] * 0x10000 + s[i + 2] * 0x100 + s[i + 3]) as u32
}

/// A variable-length quantity whose head has `j` continuation bytes decodes
/// like the quantity `j` positions further in, shifted by those `j` bytes.
proof fn lemma_vlq_len_offset(s: Seq<u8>, j: int)
    requires
        0 <= j <= s.len(),
        forall|i: int| 0 <= i < j ==> s[i] & 0x80 != 0,
    ensures
        vlq_len(s) == match vlq_len(s.skip(j)) {
            Option::Some(k) => Option::Some(j + k),
            Option::None => Option::None::<int>,
        },
    decreases j,
{
    if j == 0 {
        assert(s.skip(0) =~= s);
    } else {
        assert(s[0] & 0x80 != 0);
        lemma_vlq_len_offset(s.skip(1), j - 1);
        assert(s.skip(1).skip(j - 1) =~= s.skip(j));
    }
}

/// A complete variable-length quantity occupies at least one byte and never
/// more than the sequence holds.
pub proof fn lemma_vlq_len_bounds(s: Seq<u8>)
    ensures
        vlq_len(s) matches Option::Some(k) ==> 1 <= k <= s.len(),
    decreases s.len(),
{
    if s.len() > 0 && s[0] & 0x80 != 0 {
        lemma_vlq_len_bounds(s.skip(1));
    }
}

/// The leading digits of a minimal variable-length encoding: the base-128
/// digits of `n` in big-endian order, each with the continuation bit set.
pub open spec fn vlq_encode_hi(n: nat) -> Seq<u8>
    decreases n,
{
    if n < 128 {
        seq![(n + 128) as u8]
    } else {
        vlq_encode_hi(n / 128).push((n % 128 + 128) as u8)
    }
}

/// The minimal base-128 encoding of `n`: its base-128 digits in big-endian
/// order, the continuation bit on every byte but the last.
pub open spec fn vlq_encode(n: nat) -> Seq<u8> {
    if n < 128 {
        seq![n as u8]
    } else {
        vlq_encode_hi(n / 128).push((n % 128) as u8)
    }
}

proof fn lemma_vlq_encode_hi(n: nat)
    requires
        n < 0x2000000,
    ensures
        vlq_encode_hi(n).len() >= 1,
        forall|i: int|
            0 <= i < vlq_encode_hi(n).len() ==> (#[trigger] vlq_encode_hi(n)[i]) & 0x80 != 0,
        vlq_value(vlq_encode_hi(n)) == n,
    decreases n,
{
    if n < 128 {
        let b = (n + 128) as u8;
        assert(b & 0x80 != 0 && b & 0x7f == b - 128) by (bit_vector)
            requires
                128 <= b,
        ;
        assert(seq![b].drop_last() =~= Seq::<u8>::empty());
        assert(vlq_value(Seq::<u8>::empty()) == 0);
        vstd::arithmetic::div_mod::lemma_small_mod(n, 0x1_0000_0000);
    } else {
        lemma_vlq_encode_hi(n / 128);
        let s = vlq_encode_hi(n / 128);
        let b = (n % 128 + 128) as u8;
        assert(b & 0x80 != 0 && b & 0x7f == b - 128) by (bit_vector)
            requires
                128 <= b < 256,
        ;
        let whole = s.push(b);
        assert(whole.drop_last() =~= s);
        assert(whole.last() == b);
        vstd::arithmetic::div_mod::lemma_fundamental_div_mod(n as int, 128);
        vstd::arithmetic::div_mod::lemma_small_mod(n, 0x1_0000_0000);
    }
}

/// Decoding the minimal base-128 encoding of `n` — for any `n` a four-byte
/// quantity can carry — yields `n` back: the encoding is a complete quantity
/// of exactly its own length, and its value is `n`.
pub proof fn lemma_vlq_round_trip(n: nat)
    requires
        n < 0x10000000,
    ensures
        vlq_len(vlq_encode(n)) == Option::Some(vlq_encode(n).len() as int),
        vlq_value(vlq_encode(n)) == n,
{
    if n < 128 {
        let b = n as u8;
        assert(b & 0x80 == 0 && b & 0x7f == b) by (bit_vector)
            requires
                b < 128,
        ;
        assert(seq![b].drop_last() =~= Seq::<u8>::empty());
        assert(vlq_value(Seq::<u8>::empty()) == 0);
        vstd::arithmetic::div_mod::lemma_small_mod(n, 0x1_0000_0000);
    } else {
        lemma_vlq_encode_hi(n / 128);
        let s = vlq_encode_hi(n / 128);
        let b = (n % 128) as u8;
        assert(b & 0x80 == 0 && b & 0x7f == b) by (bit_vector)
            requires
                b < 128,
        ;
        let whole = s.push(b);
        assert(whole.drop_last() =~= s);
        assert(whole.last() == b);
        vstd::arithmetic::div_mod::lemma_fundamental_div_mod(n as int, 128);
        vstd::arithmetic::div_mod::lemma_small_mod(n, 0x1_0000_0000);
        lemma_vlq_len_offset(whole, s.len() as int);
        assert(whole.skip(s.len() as int) =~= seq![b]);
    }
}

/// The 14-bit pitch-wheel value carried by its two data bytes: the first as
/// the high seven bits, the second as the low bits.
pub open spec fn pitch_wheel_value(d1: u8, d2: u8) -> u16 {
    ((d1 as u16) << 7) | (d2 as u16)
}

/// Outcome of decoding one event from the remaining bytes of a track.
pub enum StepOutcome {
    /// One event, the count of bytes it consumed, and the running status it
    /// leaves behind.
    Event { event: EventView, used: int, status: Status },
    /// The end-of-track meta event: the stream terminates normally, `used`
    /// bytes consumed and nothing further decoded.
    End { used: int, status: Status },
    /// The stream is malformed at this point; it dies with `err`.
    Fail { err: MidiError },
}

/// Decode one event given its effective status `st`. `body` starts at the
/// first data byte and `pre` counts the delta and status bytes before it.
pub open spec fn decode_dispatch(delay: u32, pre: int, body: Seq<u8>, st: Status) -> StepOutcome {
    if body.len() == 0 {
        StepOutcome::Fail { err: MidiError::EndOfStream }
    } else {
        let data1 = body[0];
        if 8 <= st.opcode && st.opcode <= 0xa {
            if body.len() < 2 {
                StepOutcome::Fail { err: MidiError::EndOfStream }
            } else {
                let velocity = body[1];
                let typ = if st.opcode == 8 || (st.opcode == 9 && velocity == 0) {
                    KeyEventType::Release
                } else if st.opcode == 9 {
                    KeyEventType::Press
                } else {
                    KeyEventType::Aftertouch
                };
                StepOutcome::Event {
                    event: EventView {
                        delay,
                        channel: st.channel,
                        typ: EventTypeView::Key { typ, note: data1, velocity },
                    },
                    used: pre + 2,
                    status: st,
                }
            }
        } else if st.opcode == 0xb {
            if body.len() < 2 {
                StepOutcome::Fail { err: MidiError::EndOfStream }
            } else {
                StepOutcome::Event {
                    event: EventView {
                        delay,
                        channel: st.channel,
                        typ: EventTypeView::ControlChange { controller: data1, value: body[1] },
                    },
                    used: pre + 2,
                    status: st,
                }
            }
        } else if st.opcode == 0xc {
            StepOutcome::Event {
                event: EventView {
                    delay,
                    channel: st.channel,
                    typ: EventTypeView::PatchChange { program: data1 },
                },
                used: pre + 1,
                status: st,
            }
        } else if st.opcode == 0xd {
            StepOutcome::Event {
                event: EventView {
                    delay,
                    channel: st.channel,
                    typ: EventTypeView::ChannelAftertouch { channel: data1 },
                },
                used: pre + 1,
                status: st,
            }
        } else if st.opcode == 0xe {
            if body.len() < 2 {
                StepOutcome::Fail { err: MidiError::EndOfStream }
            } else {
                StepOutcome::Event {
                    event: EventView {
                        delay,
                        channel: st.channel,
                        typ: EventTypeView::PitchWheelChange {
                            value: pitch_wheel_value(data1, body[1]),
                        },
                    },
                    used: pre + 2,
                    status: st,
                }
            }
        } else if st.opcode == 0xf {
            if st.channel == 0xf {
                if data1 == 0x2f {
                    if body.len() < 2 {
                        StepOutcome::Fail { err: MidiError::EndOfStream }
                    } else if body[1] == 0 {
                        StepOutcome::End { used: pre + 2, status: st }
                    } else {
                        StepOutcome::Fail { err: MidiError::UnsupportedEvent }
                    }
                } else {
                    match vlq_len(body.skip(1)) {
                        Option::None => StepOutcome::Fail { err: MidiError::EndOfStream },
                        Option::Some(ll) => {
                            let mlen = vlq_value(body.skip(1).take(ll)) as int;
                            if body.len() < 1 + ll + mlen {
                                StepOutcome::Fail { err: MidiError::EndOfStream }
                            } else {
                                StepOutcome::Event {
                                    event: EventView {
                                        delay,
                                        channel: st.channel,
                                        typ: EventTypeView::Meta {
                                            typ: data1,
                                            data: body.subrange(1 + ll, 1 + ll + mlen),
                                        },
                                    },
                                    used: pre + 1 + ll + mlen,
                                    status: st,
                                }
                            }
                        },
                    }
                }
            } else {
                StepOutcome::Fail { err: MidiError::UnsupportedEvent }
            }
        } else {
            StepOutcome::Fail { err: MidiError::UnsupportedEvent }
        }
    }
}

/// Decode one event from the remaining track bytes `s` under running status
/// `rs`: read the delta-time quantity, then either a fresh status byte (top
/// bit set, which updates the running status) or the first data byte under
/// the running status, then the event body.
pub open spec fn decode_step(s: Seq<u8>, rs: Status) -> StepOutcome {
    match vlq_len(s) {
        Option::None => StepOutcome::Fail { err: MidiError::EndOfStream },
        Option::Some(dl) => {
            let delay = vlq_value(s.take(dl));
            let rest = s.skip(dl);
            if rest.len() == 0 {
                StepOutcome::Fail { err: MidiError::EndOfStream }
            } else if rest[0] & 0x80 != 0 {
                decode_dispatch(delay, dl + 1, rest.skip(1), status_of(rest[0]))
            } else {
                decode_dispatch(delay, dl, rest, rs)
            }
        },
    }
}

/// A decoded event always consumes at least its delta byte and one more, and
/// never more bytes than remain.
pub proof fn lemma_decode_step_used(s: Seq<u8>, rs: Status)
    ensures
        decode_step(s, rs) matches StepOutcome::Event { used, .. } ==> 2 <= used <= s.len(),
        decode_step(s, rs) matches StepOutcome::End { used, .. } ==> 2 <= used <= s.len(),
{
    lemma_vlq_len_bounds(s);
    if let Option::Some(dl) = vlq_len(s) {
        let rest = s.skip(dl);
        if rest.len() > 0 && rest[0] & 0x80 != 0 {
            lemma_vlq_len_bounds(rest.skip(1).skip(1));
        }
        if rest.len() > 0 {
            let body = if rest[0] & 0x80 != 0 { rest.skip(1) } else { rest };
            lemma_vlq_len_bounds(body.skip(1));
        }
    }
}

/// Every event the remaining track bytes decode to, in order, up to (and not
/// including) the end-of-track meta event or the first malformed point.
pub open spec fn decode_events(s: Seq<u8>, rs: Status) -> Seq<EventView>
    decreases s.len(),
{
    match decode_step(s, rs) {
        StepOutcome::Event { event, used, status } => {
            if 0 < used <= s.len() {
                seq![event] + decode_events(s.skip(used), status)
            } else {
                seq![event]
            }
        },
        _ => Seq::empty(),
    }
}

/// Whether the remaining track bytes end in the end-of-track meta event — the
/// one normal termination — rather than dying on a malformed or truncated
/// stream.
pub open spec fn decode_terminates(s: Seq<u8>, rs: Status) -> bool
    decreases s.len(),
{
    match decode_step(s, rs) {
        StepOutcome::Event { used, status, .. } => {
            if 0 < used <= s.len() {
                decode_terminates(s.skip(used), status)
            } else {
                false
            }
        },
        StepOutcome::End { .. } => true,
        StepOutcome::Fail { .. } => false,
    }
}

/// One dispatched event consumes at least one data byte and at most the whole
/// body, beyond the `pre` bytes already consumed.
pub proof fn lemma_dispatch_used(delay: u32, pre: int, body: Seq<u8>, st: Status)
    ensures
        decode_dispatch(delay, pre, body, st) matches StepOutcome::Event { used, .. } ==> pre + 1
            <= used <= pre + body.len(),
        decode_dispatch(delay, pre, body, st) matches StepOutcome::End { used, .. } ==> pre + 1
            <= used <= pre + body.len(),
{
    if body.len() > 0 {
        lemma_vlq_len_bounds(body.skip(1));
    }
}

/// A complete variable-length quantity keeps its length (and hence its value)
/// when more bytes follow it.
pub proof fn lemma_vlq_len_prefix(v: Seq<u8>, rest: Seq<u8>)
    requires
        vlq_len(v) == Option::Some(v.len() as int),
    ensures
        vlq_len(v + rest) == Option::Some(v.len() as int),
    decreases v.len(),
{
    if v.len() == 0 {
        assert(false);
    } else if v[0] & 0x80 == 0 {
        assert((v + rest)[0] == v[0]);
    } else {
        lemma_vlq_len_prefix(v.skip(1), rest);
        assert((v + rest).skip(1) =~= v.skip(1) + rest);
    }
}

/// A decoded key event with velocity zero is never a Press, whatever the
/// track bytes and the running status are.
pub proof fn lemma_velocity_zero_never_press(s: Seq<u8>, rs: Status)
    ensures
        decode_step(s, rs) matches StepOutcome::Event { event, .. } ==> (event.typ matches
            EventTypeView::Key { typ, velocity, .. } ==> (velocity == 0 ==> typ
                != KeyEventType::Press)),
{
}

/// A note-on (opcode 9) with velocity zero decodes as a Release of its note —
/// never as a Press — for every channel, note, delta and following bytes.
pub proof fn lemma_note_on_velocity_zero(
    delta: Seq<u8>,
    ch: u8,
    note: u8,
    tail: Seq<u8>,
    rs: Status,
)
    requires
        vlq_len(delta) == Option::Some(delta.len() as int),
        ch < 16,
    ensures
        ({
            let s = delta + seq![(0x90 + ch) as u8, note, 0u8] + tail;
            decode_step(s, rs) matches StepOutcome::Event { event, used, status } && {
                &&& event.delay == vlq_value(delta)
                &&& event.channel == ch
                &&& event.typ == (EventTypeView::Key {
                    typ: KeyEventType::Release,
                    note,
                    velocity: 0u8,
                })
                &&& used == delta.len() + 3
                &&& status == (Status { channel: ch, opcode: 9 })
            }
        }),
{
    let sb = (0x90 + ch) as u8;
    let s = delta + seq![sb, note, 0u8] + tail;
    let dl = delta.len() as int;
    assert(s =~= delta + (seq![sb, note, 0u8] + tail));
    lemma_vlq_len_prefix(delta, seq![sb, note, 0u8] + tail);
    assert(s.take(dl) =~= delta);
    assert(s.skip(dl) =~= seq![sb, note, 0u8] + tail);
    assert(sb & 0x80 != 0 && sb & 0xf == ch && (sb & 0xf0) >> 4 == 9) by (bit_vector)
        requires
            sb == 0x90 + ch && ch < 16,
    ;
    assert(s.skip(dl).skip(1) =~= seq![note, 0u8] + tail);
}

/// A meta event 0x2F with zero-length payload is the track's normal
/// termination: no further events are decoded and no error arises, whatever
/// bytes follow it.
pub proof fn lemma_end_of_track(delta: Seq<u8>, tail: Seq<u8>, rs: Status)
    requires
        vlq_len(delta) == Option::Some(delta.len() as int),
    ensures
        decode_events(delta + seq![0xffu8, 0x2fu8, 0x00u8] + tail, rs) == Seq::<
            EventView,
        >::empty(),
        decode_terminates(delta + seq![0xffu8, 0x2fu8, 0x00u8] + tail, rs),
{
    let s = delta + seq![0xffu8, 0x2fu8, 0x00u8] + tail;
    let dl = delta.len() as int;
    assert(s =~= delta + (seq![0xffu8, 0x2fu8, 0x00u8] + tail));
    lemma_vlq_len_prefix(delta, seq![0xffu8, 0x2fu8, 0x00u8] + tail);
    assert(s.skip(dl) =~= seq![0xffu8, 0x2fu8, 0x00u8] + tail);
    assert(0xffu8 & 0x80 != 0 && 0xffu8 & 0xf == 0xf && (0xffu8 & 0xf0) >> 4 == 0xf)
        by (bit_vector);
    assert(s.skip(dl).skip(1) =~= seq![0x2fu8, 0x00u8] + tail);
}

/// Running-status equivalence: under running status `rs`, an event encoded
/// without its status byte decodes — together with the whole remainder of the
/// track — to exactly the same event sequence, with the same termination, as
/// the encoding that spells the status byte out.
pub proof fn lemma_running_status(delta: Seq<u8>, sb: u8, tail: Seq<u8>, rs: Status)
    requires
        vlq_len(delta) == Option::Some(delta.len() as int),
        sb & 0x80 != 0,
        rs == status_of(sb),
        tail.len() > 0,
        tail[0] & 0x80 == 0,
    ensures
        decode_events(delta + tail, rs) == decode_events(delta + seq![sb] + tail, rs),
        decode_terminates(delta + tail, rs) == decode_terminates(delta + seq![sb] + tail, rs),
{
    let a = delta + tail;
    let b = delta + seq![sb] + tail;
    let dl = delta.len() as int;
    lemma_vlq_len_prefix(delta, tail);
    assert(b =~= delta + (seq![sb] + tail));
    lemma_vlq_len_prefix(delta, seq![sb] + tail);
    assert(a.take(dl) =~= delta);
    assert(b.take(dl) =~= delta);
    assert(a.skip(dl) =~= tail);
    assert(b.skip(dl) =~= seq![sb] + tail);
    assert(b.skip(dl)[0] == sb);
    assert(b.skip(dl).skip(1) =~= tail);
    let delay = vlq_value(delta);
    assert(decode_step(a, rs) == decode_dispatch(delay, dl, tail, rs));
    assert(decode_step(b, rs) == decode_dispatch(delay, dl + 1, tail, rs));
    match decode_dispatch(delay, dl, tail, rs) {
        StepOutcome::Event { event, used, status } => {
            assert(decode_dispatch(delay, dl + 1, tail, rs) == StepOutcome::Event {
                event,
                used: used + 1,
                status,
            });
            lemma_dispatch_used(delay, dl, tail, rs);
            lemma_decode_step_used(a, rs);
            lemma_decode_step_used(b, rs);
            assert(a.skip(used) =~= b.skip(used + 1));
        },
        StepOutcome::End { used, status } => {
            assert(decode_dispatch(delay, dl + 1, tail, rs) == StepOutcome::End {
                used: used + 1,
                status,
            });
        },
        StepOutcome::Fail { err } => {
            assert(decode_dispatch(delay, dl + 1, tail, rs) == StepOutcome::Fail { err });
        },
    }
}

/// Relies on String::from_utf8: it returns the decoded string exactly when
/// the bytes are valid UTF-8 (per vstd's model of UTF-8), and fails otherwise.
#[verifier::external_body]
fn utf8_string(v: Vec<u8>) -> (r: Option<String>)
    ensures
        vstd::utf8::valid_utf8(v@) <==> r is Some,
        r matches Some(s) ==> s@ == vstd::utf8::decode_utf8(v@),
{
    match String::from_utf8(v) {
        Ok(s) => Option::Some(s),
        Err(_) => Option::None,
    }
}

/// A forward-only cursor over one immutable byte buffer, carrying the
/// per-track running status. A short read fails with
/// [`MidiError::EndOfStream`] and spends the rest of the buffer; that failure
/// is distinct from a track's normal end-of-track termination.
pub struct MidiRead {
    bytes: Vec<u8>,
    pos: usize,
    running_status: Status,
}

impl MidiRead {
    /// The whole underlying buffer; it never changes after construction.
    pub closed spec fn bytes(&self) -> Seq<u8> {
        self.bytes@
    }

    /// How many bytes have been consumed.
    pub closed spec fn pos(&self) -> int {
        self.pos as int
    }

    /// The running status the stream currently carries.
    pub closed spec fn status(&self) -> Status {
        self.running_status
    }

    /// The bytes not yet consumed.
    pub open spec fn remaining(&self) -> Seq<u8> {
        self.bytes().skip(self.pos())
    }

    /// The cursor stays inside the buffer, whose length fits a machine word.
    #[verifier::type_invariant]
    pub open spec fn cursor_in_bounds(&self) -> bool {
        0 <= self.pos() <= self.bytes().len() <= usize::MAX
    }

    pub fn new(bytes: Vec<u8>) -> (r: MidiRead)
        ensures
            r.bytes() == bytes@,
            r.pos() == 0,
            r.status() == (Status { channel: 0, opcode: 0 }),
    {
        // the exec length, a machine word, bounds the buffer's ghost length
        let n = bytes.len();
        proof {
            assert(bytes@.len() == n);
        }
        MidiRead { bytes, pos: 0, running_status: Status { channel: 0, opcode: 0 } }
    }

    /// Read exactly `length` bytes, advancing the cursor past them; when fewer
    /// remain, the read fails and the cursor is spent.
    pub fn read_bytes_dyn(&mut self, length: usize) -> (r: Result<Vec<u8>, MidiError>)
        ensures
            final(self).bytes() == old(self).bytes(),
            final(self).status() == old(self).status(),
            old(self).pos() + length <= old(self).bytes().len() ==> {
                &&& r matches Ok(v) && v@ == old(self).bytes().subrange(
                    old(self).pos(),
                    old(self).pos() + length,
                )
                &&& final(self).pos() == old(self).pos() + length
            },
            old(self).pos() + length > old(self).bytes().len() ==> {
                &&& r matches Err(e) && e == MidiError::EndOfStream
                &&& final(self).pos() == old(self).bytes().len()
            },
    {
        proof {
            use_type_invariant(&*self);
        }
        if length > self.bytes.len() - self.pos {
            self.pos = self.bytes.len();
            return Err(MidiError::EndOfStream);
        }
        let mut res: Vec<u8> = Vec::new();
        let mut i: usize = 0;
        while i < length
            invariant
                i <= length,
                self.bytes@ == old(self).bytes@,
                self.running_status == old(self).running_status,
                self.pos == old(self).pos,
                self.pos + length <= self.bytes@.len(),
                self.pos + length <= usize::MAX,
                res@ == self.bytes@.subrange(self.pos as int, self.pos + i),
            decreases length - i,
        {
            res.push(self.bytes[self.pos + i]);
            i = i + 1;
            proof {
                assert(res@ =~= self.bytes@.subrange(self.pos as int, self.pos + i));
            }
        }
        self.pos = self.pos + length;
        Ok(res)
    }

    /// Read exactly `N` bytes as a fixed-size array; when fewer remain, the
    /// read fails and the cursor is spent.
    pub fn read_bytes<const N: usize>(&mut self) -> (r: Result<[u8; N], MidiError>)
        ensures
            final(self).bytes() == old(self).bytes(),
            final(self).status() == old(self).status(),
            old(self).pos() + N <= old(self).bytes().len() ==> {
                &&& r matches Ok(v) && v@ == old(self).bytes().subrange(
                    old(self).pos(),
                    old(self).pos() + N,
                )
                &&& final(self).pos() == old(self).pos() + N
            },
            old(self).pos() + N > old(self).bytes().len() ==> {
                &&& r matches Err(e) && e == MidiError::EndOfStream
                &&& final(self).pos() == old(self).bytes().len()
            },
    {
        proof {
            use_type_invariant(&*self);
        }
        if N > self.bytes.len() - self.pos {
            self.pos = self.bytes.len();
            return Err(MidiError::EndOfStream);
        }
        let mut res = [0u8; N];
        let mut i: usize = 0;
        while i < N
            invariant
                i <= N,
                self.bytes@ == old(self).bytes@,
                self.running_status == old(self).running_status,
                self.pos == old(self).pos,
                self.pos + N <= self.bytes@.len(),
                self.pos + N <= usize::MAX,
                res@.len() == N,
                forall|j: int| 0 <= j < i ==> res@[j] == self.bytes@[self.pos + j],
            decreases N - i,
        {
            res[i] = self.bytes[self.pos + i];
            i = i + 1;
        }
        self.pos = self.pos + N;
        proof {
            assert(res@ =~= old(self).bytes().subrange(old(self).pos(), old(self).pos() + N));
        }
        Ok(res)
    }

    /// Read one byte.
    pub fn read_byte(&mut self) -> (r: Result<u8, MidiError>)
        ensures
            final(self).bytes() == old(self).bytes(),
            final(self).status() == old(self).status(),
            old(self).pos() < old(self).bytes().len() ==> {
                &&& r matches Ok(b) && b == old(self).bytes()[old(self).pos()]
                &&& final(self).pos() == old(self).pos() + 1
            },
            old(self).pos() >= old(self).bytes().len() ==> {
                &&& r matches Err(e) && e == MidiError::EndOfStream
                &&& final(self).pos() == old(self).bytes().len()
            },
    {
        proof {
            use_type_invariant(&*self);
        }
        if self.pos < self.bytes.len() {
            let b = self.bytes[self.pos];
            self.pos = self.pos + 1;
            Ok(b)
        } else {
            Err(MidiError::EndOfStream)
        }
    }

    /// Read a big-endian 16-bit value.
    pub fn read_short(&mut self) -> (r: Result<u16, MidiError>)
        ensures
            final(self).bytes() == old(self).bytes(),
            final(self).status() == old(self).status(),
            old(self).pos() + 2 <= old(self).bytes().len() ==> {
                &&& r matches Ok(v) && v == be16(old(self).bytes(), old(self).pos())
                &&& final(self).pos() == old(self).pos() + 2
            },
            old(self).pos() + 2 > old(self).bytes().len() ==> {
                &&& r matches Err(e) && e == MidiError::EndOfStream
                &&& final(self).pos() == old(self).bytes().len()
            },
    {
        let b0 = self.read_byte()?;
        let b1 = self.read_byte()?;
        Ok((b0 as u16) * 0x100 + (b1 as u16))
    }

    /// Read a big-endian 32-bit value.
    pub fn read_int(&mut self) -> (r: Result<u32, MidiError>)
        ensures
            final(self).bytes() == old(self).bytes(),
            final(self).status() == old(self).status(),
            old(self).pos() + 4 <= old(self).bytes().len() ==> {
                &&& r matches Ok(v) && v == be32(old(self).bytes(), old(self).pos())
                &&& final(self).pos() == old(self).pos() + 4
            },
            old(self).pos() + 4 > old(self).bytes().len() ==> {
                &&& r matches Err(e) && e == MidiError::EndOfStream
                &&& final(self).pos() == old(self).bytes().len()
            },
    {
        let b0 = self.read_byte()?;
        let b1 = self.read_byte()?;
        let b2 = self.read_byte()?;
        let b3 = self.read_byte()?;
        Ok((b0 as u32) * 0x1000000 + (b1 as u32) * 0x10000 + (b2 as u32) * 0x100 + (b3 as u32))
    }

    /// Read `length` bytes and decode them as UTF-8 text.
    pub fn read_string(&mut self, length: usize) -> (r: Result<String, MidiError>)
        ensures
            final(self).bytes() == old(self).bytes(),
            final(self).status() == old(self).status(),
            old(self).pos() + length <= old(self).bytes().len() ==> ({
                let taken = old(self).bytes().subrange(
                    old(self).pos(),
                    old(self).pos() + length,
                );
                &&& final(self).pos() == old(self).pos() + length
                &&& vstd::utf8::valid_utf8(taken) ==> (r matches Ok(s) && s@
                    == vstd::utf8::decode_utf8(taken))
                &&& !vstd::utf8::valid_utf8(taken) ==> (r matches Err(e) && e
                    == MidiError::InvalidUtf8String)
            }),
            old(self).pos() + length > old(self).bytes().len() ==> {
                &&& r matches Err(e) && e == MidiError::EndOfStream
                &&& final(self).pos() == old(self).bytes().len()
            },
    {
        let v = self.read_bytes_dyn(length)?;
        match utf8_string(v) {
            Option::Some(s) => Ok(s),
            Option::None => Err(MidiError::InvalidUtf8String),
        }
    }

    /// Read a base-128 variable-length quantity.
    pub fn read_var_len(&mut self) -> (r: Result<u32, MidiError>)
        ensures
            final(self).bytes() == old(self).bytes(),
            final(self).status() == old(self).status(),
            match vlq_len(old(self).remaining()) {
                Option::Some(k) => {
                    &&& r matches Ok(v) && v == vlq_value(old(self).remaining().take(k))
                    &&& final(self).pos() == old(self).pos() + k
                },
                Option::None => {
                    &&& r matches Err(e) && e == MidiError::EndOfStream
                    &&& final(self).pos() == old(self).bytes().len()
                },
            },
    {
        proof {
            use_type_invariant(&*self);
        }
        let ghost start: int = self.pos as int;
        let mut res: u32 = 0;
        loop
            invariant
                self.bytes() == old(self).bytes(),
                self.status() == old(self).status(),
                0 <= start <= self.pos() <= self.bytes().len(),
                forall|j: int| start <= j < self.pos() ==> old(self).bytes()[j] & 0x80 != 0,
                res == vlq_value(old(self).bytes().subrange(start, self.pos())),
                start == old(self).pos(),
            decreases self.bytes().len() - self.pos(),
        {
            let b = match self.read_byte() {
                Ok(b) => b,
                Err(e) => {
                    proof {
                        lemma_vlq_len_offset(old(self).remaining(), self.bytes().len() - start);
                        assert(old(self).remaining().skip(self.bytes().len() - start) =~= Seq::<
                            u8,
                        >::empty());
                        assert(forall|i: int|
                            0 <= i < old(self).remaining().len() - (self.bytes().len() - start)
                                ==> old(self).remaining()[i] & 0x80 != 0);
                    }
                    return Err(e);
                },
            };
            let ghost prev_pos: int = self.pos() - 1;
            let wide: u64 = (res as u64) * 128 + ((b & 0x7f) as u64);
            res = (wide % 0x1_0000_0000) as u32;
            proof {
                let taken = old(self).bytes().subrange(start, self.pos());
                assert(taken.drop_last() =~= old(self).bytes().subrange(start, prev_pos));
                assert(taken.last() == old(self).bytes()[prev_pos]);
            }
            if b & 0x80 == 0 {
                proof {
                    lemma_vlq_len_offset(old(self).remaining(), prev_pos - start);
                    let tail = old(self).remaining().skip(prev_pos - start);
                    assert(tail[0] == old(self).bytes()[prev_pos]);
                    assert(vlq_len(tail) == Option::Some(1int));
                    assert(old(self).remaining().take(self.pos() - start) =~= old(
                        self,
                    ).bytes().subrange(start, self.pos()));
                }
                return Ok(res);
            }
        }
    }

    /// Decode the next event of the stream.
    ///
    /// `Ok(Some(event))` is one decoded event; `Ok(None)` is the normal
    /// end-of-track termination; `Err(e)` reports a truncated or unsupported
    /// encoding, which is fatal for this track.
    #[verifier::rlimit(30)]
    pub fn next(&mut self) -> (r: Result<Option<Event>, MidiError>)
        ensures
            final(self).bytes() == old(self).bytes(),
            match decode_step(old(self).remaining(), old(self).status()) {
                StepOutcome::Event { event, used, status } => {
                    &&& r matches Ok(oe) && oe matches Some(e) && e@ == event
                    &&& final(self).pos() == old(self).pos() + used
                    &&& final(self).status() == status
                },
                StepOutcome::End { used, status } => {
                    &&& r matches Ok(oe) && oe is None
                    &&& final(self).pos() == old(self).pos() + used
                    &&& final(self).status() == status
                },
                StepOutcome::Fail { err } => r matches Err(e) && e == err,
            },
    {
        proof {
            use_type_invariant(&*self);
        }
        let ghost pos0: int = self.pos();
        let ghost s0: Seq<u8> = self.remaining();
        let ghost rs0: Status = self.status();
        proof {
            lemma_vlq_len_bounds(s0);
        }

        let ticks = self.read_var_len()?;
        let ghost dl: int = self.pos() - pos0;
        let ghost rest: Seq<u8> = s0.skip(dl);
        proof {
            assert(self.remaining() =~= rest);
        }

        let mut first_byte = self.read_byte()?;
        let explicit_status = first_byte & 0x80 != 0;
        if explicit_status {
            let status_byte = first_byte;
            first_byte = self.read_byte()?;
            self.running_status = Status {
                channel: status_byte & 0xf,
                opcode: (status_byte & 0xf0) >> 4,
            };
        }
        let ghost pre: int = if explicit_status { dl + 1 } else { dl };
        let ghost body: Seq<u8> = s0.skip(pre);
        proof {
            assert(body =~= if explicit_status { rest.skip(1) } else { rest });
            assert(body[0] == first_byte);
            assert(self.pos() == pos0 + pre + 1);
            assert(self.remaining() =~= body.skip(1));
        }
        let status = self.running_status;
        let ghost step = decode_step(s0, rs0);
        proof {
            assert(step == decode_dispatch(vlq_value(s0.take(dl)), pre, body, status));
        }

        let event_type = match status.opcode {
            0x8..=0xa => {
                let note = Note::new(first_byte);
                let velocity = self.read_byte()?;
                let typ = if status.opcode == 0x8 || (status.opcode == 0x9 && velocity == 0) {
                    KeyEventType::Release
                } else if status.opcode == 0x9 {
                    KeyEventType::Press
                } else {
                    KeyEventType::Aftertouch
                };
                EventType::Key { typ, note, velocity }
            },
            0xb => EventType::ControlChange { controller: first_byte, value: self.read_byte()? },
            0xc => EventType::PatchChange { program: first_byte },
            0xd => EventType::ChannelAftertouch { channel: first_byte },
            0xe => EventType::PitchWheelChange {
                value: ((first_byte as u16) << 7) | (self.read_byte()? as u16),
            },
            0xf => {
                if status.channel == 0xf {
                    let typ = first_byte;
                    if typ == 0x2f {
                        let null_byte = self.read_byte()?;
                        if null_byte != 0 {
                            return Err(MidiError::UnsupportedEvent);
                        }
                        return Ok(Option::None);
                    }
                    proof {
                        lemma_vlq_len_bounds(body.skip(1));
                    }
                    let length = self.read_var_len()?;
                    let ghost ll: int = self.pos() - (pos0 + pre + 1);
                    proof {
                        assert(body.skip(1).take(ll) =~= old(self).bytes().subrange(
                            pos0 + pre + 1,
                            pos0 + pre + 1 + ll,
                        ));
                    }
                    let data = self.read_bytes_dyn(length as usize)?;
                    proof {
                        let mlen = vlq_value(body.skip(1).take(ll)) as int;
                        assert(body.subrange(1 + ll, 1 + ll + mlen) =~= old(
                            self,
                        ).bytes().subrange(pos0 + pre + 1 + ll, pos0 + pre + 1 + ll + mlen));
                    }
                    EventType::Meta { typ, data }
                } else {
                    return Err(MidiError::UnsupportedEvent);
                }
            },
            _ => {
                return Err(MidiError::UnsupportedEvent);
            },
        };

        Ok(Option::Some(Event { delay: ticks, channel: status.channel, typ: event_type }))
    }
}

} // verus!
