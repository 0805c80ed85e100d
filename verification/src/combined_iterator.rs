use vstd::pervasive::VecAdditionalExecFns;
use vstd::prelude::*;

use crate::reader::{decode_step, lemma_decode_step_used, MidiRead, Status, StepOutcome};
use crate::types::{Event, EventType, EventView};

verus! {

/// One element of the merged stream: the index of the track the event came
/// from, and the event itself.
pub struct TrackEvent {
    pub track: usize,
    pub event: Event,
}

/// What the merge holds for one track: the decode cursor, and the one event
/// already pulled but not yet emitted, tagged with its absolute time.
struct TrackState {
    stream: MidiRead,
    pending: Option<(u128, Event)>,
}

/// The mathematical value of one merge entry: the track stream's state and
/// the pending (absolute time, event) pair, if the track is not exhausted.
pub struct TrackStateView {
    pub bytes: Seq<u8>,
    pub pos: int,
    pub status: Status,
    pub pending: Option<(int, EventView)>,
}

impl View for TrackState {
    type V = TrackStateView;

    closed spec fn view(&self) -> TrackStateView {
        TrackStateView {
            bytes: self.stream.bytes(),
            pos: self.stream.pos(),
            status: self.stream.status(),
            pending: match self.pending {
                Option::Some(p) => Option::Some((p.0 as int, p.1@)),
                Option::None => Option::None,
            },
        }
    }
}

/// The pending key of entry `i` precedes or equals that of entry `j`: the
/// earlier absolute time first, ties broken by the lower track index.
pub open spec fn key_le(v: Seq<TrackStateView>, i: int, j: int) -> bool {
    let ti = v[i].pending->Some_0.0;
    let tj = v[j].pending->Some_0.0;
    ti < tj || (ti == tj && i <= j)
}

/// Some track still holds a pending event.
pub open spec fn has_pending(v: Seq<TrackStateView>) -> bool {
    exists|i: int| 0 <= i < v.len() && (#[trigger] v[i]).pending is Some
}

/// Entry `i` is the one the merge emits next: pending, with the least
/// (absolute time, track index) key among all pending entries.
pub open spec fn is_min_entry(v: Seq<TrackStateView>, i: int) -> bool {
    &&& 0 <= i < v.len()
    &&& v[i].pending is Some
    &&& forall|j: int| 0 <= j < v.len() && (#[trigger] v[j]).pending is Some ==> key_le(v, i, j)
}

/// A merge entry freshly seeded from a track stream over `bytes` at cursor
/// `pos` with running status `st`: the track's first event is pulled, and
/// that event's own delay is the track's absolute-time baseline. A track that
/// yields no event at all starts exhausted.
pub open spec fn seeded(bytes: Seq<u8>, pos: int, st: Status, e: TrackStateView) -> bool {
    &&& e.bytes == bytes
    &&& match decode_step(bytes.skip(pos), st) {
        StepOutcome::Event { event, used, status } => {
            &&& e.pos == pos + used
            &&& e.status == status
            &&& e.pending == Option::Some((event.delay as int, event))
        },
        StepOutcome::End { used, status } => {
            &&& e.pos == pos + used
            &&& e.status == status
            &&& e.pending is None
        },
        StepOutcome::Fail { .. } => e.pending is None,
    }
}

/// How the emitting track's entry changes when the merge advances it by one
/// decode step: a pulled event becomes pending at the emitted time `t` plus
/// the event's own delay; end-of-track, or any decode error, exhausts the
/// track for good.
pub open spec fn advances(pre: TrackStateView, t: int, post: TrackStateView) -> bool {
    &&& post.bytes == pre.bytes
    &&& match decode_step(pre.bytes.skip(pre.pos), pre.status) {
        StepOutcome::Event { event, used, status } => {
            &&& post.pos == pre.pos + used
            &&& post.status == status
            &&& post.pending == Option::Some((t + event.delay, event))
        },
        StepOutcome::End { used, status } => {
            &&& post.pos == pre.pos + used
            &&& post.status == status
            &&& post.pending is None
        },
        StepOutcome::Fail { .. } => post.pending is None,
    }
}

/// Well-formedness of one merge entry: the cursor lies inside its buffer, and
/// the pending absolute time never exceeds one 32-bit delta per consumed byte
/// — which keeps the time arithmetic inside its 128-bit register.
pub open spec fn merge_entry_wf(e: TrackStateView) -> bool {
    &&& 0 <= e.pos <= e.bytes.len() <= usize::MAX
    &&& (e.pending matches Option::Some(p) ==> 0 <= p.0 <= e.pos * 0xffff_ffff)
}

/// [`merge_entry_wf`] for every entry; the merge's constructor establishes it
/// and every step preserves it.
pub open spec fn merge_wf(v: Seq<TrackStateView>) -> bool {
    forall|i: int| 0 <= i < v.len() ==> merge_entry_wf(#[trigger] v[i])
}

/// Merge emissions never go back in time: when the entry at `i` — the minimal
/// key — is emitted from state `v` and the merge advances to `v2`, whatever
/// entry `j` is emitted next carries a key at least as large: a later
/// absolute time, or the same time on a track of equal or higher index.
pub proof fn lemma_merge_monotone(
    v: Seq<TrackStateView>,
    i: int,
    v2: Seq<TrackStateView>,
    j: int,
)
    requires
        merge_wf(v),
        is_min_entry(v, i),
        v2.len() == v.len(),
        advances(v[i], v[i].pending->Some_0.0, v2[i]),
        forall|k: int| 0 <= k < v.len() && k != i ==> v2[k] == v[k],
        is_min_entry(v2, j),
    ensures
        v[i].pending->Some_0.0 < v2[j].pending->Some_0.0 || (v[i].pending->Some_0.0
            == v2[j].pending->Some_0.0 && i <= j),
{
    if j == i {
        assert(v2[i].pending->Some_0.0 >= v[i].pending->Some_0.0);
    } else {
        assert(key_le(v, i, j));
    }
}

/// A k-way chronological merge of track streams into one globally
/// time-ordered sequence of `(track index, event)` pairs: non-decreasing
/// absolute time, ties broken by ascending track index. It holds at most one
/// pending event per track at any time.
pub struct CombinedIterator {
    states: Vec<TrackState>,
}

impl View for CombinedIterator {
    type V = Seq<TrackStateView>;

    closed spec fn view(&self) -> Seq<TrackStateView> {
        Seq::new(self.states@.len(), |i: int| self.states@[i]@)
    }
}

impl CombinedIterator {
    /// Seed the merge: pull each track's first event; that event's own delay
    /// is the track's absolute-time baseline.
    #[verifier::loop_isolation(false)]
    pub fn new(streams: Vec<MidiRead>) -> (r: CombinedIterator)
        ensures
            merge_wf(r@),
            r@.len() == streams@.len(),
            forall|i: int|
                0 <= i < streams@.len() ==> seeded(
                    streams@[i].bytes(),
                    streams@[i].pos(),
                    streams@[i].status(),
                    #[trigger] r@[i],
                ),
    {
        let ghost orig: Seq<MidiRead> = streams@;
        let mut streams = streams;
        let mut states: Vec<TrackState> = Vec::new();
        while streams.len() > 0
            invariant
                states@.len() + streams@.len() == orig.len(),
                streams@ == orig.subrange(states@.len() as int, orig.len() as int),
                forall|i: int|
                    0 <= i < states@.len() ==> seeded(
                        orig[i].bytes(),
                        orig[i].pos(),
                        orig[i].status(),
                        #[trigger] states@[i]@,
                    ),
                forall|i: int|
                    0 <= i < states@.len() ==> merge_entry_wf(#[trigger] states@[i]@),
            decreases streams@.len(),
        {
            let mut s = streams.remove(0);
            proof {
                use_type_invariant(&s);
                lemma_decode_step_used(s.remaining(), s.status());
            }
            let pending = match s.next() {
                Ok(Option::Some(e)) => {
                    let t = e.delay as u128;
                    Option::Some((t, e))
                },
                _ => Option::None,
            };
            proof {
                use_type_invariant(&s);
            }
            states.push(TrackState { stream: s, pending });
            proof {
                assert(streams@ =~= orig.subrange(states@.len() as int, orig.len() as int));
            }
        }
        let r = CombinedIterator { states };
        r
    }

    /// Emit the pending event with the least (absolute time, track index) key
    /// — the earliest event, ties to the lowest track index — then pull the
    /// next event from that same track: its absolute time is the emitted time
    /// plus its own delay. `None` exactly when every track is exhausted.
    #[verifier::loop_isolation(false)]
    pub fn next(&mut self) -> (r: Option<TrackEvent>)
        requires
            merge_wf(old(self)@),
        ensures
            merge_wf(final(self)@),
            final(self)@.len() == old(self)@.len(),
            !has_pending(old(self)@) ==> r is None && final(self)@ == old(self)@,
            has_pending(old(self)@) ==> {
                &&& r matches Some(te)
                &&& is_min_entry(old(self)@, te.track as int)
                &&& match old(self)@[te.track as int].pending {
                    Option::Some(p) => {
                        &&& te.event@ == p.1
                        &&& advances(
                            old(self)@[te.track as int],
                            p.0,
                            final(self)@[te.track as int],
                        )
                    },
                    Option::None => false,
                }
                &&& forall|j: int|
                    0 <= j < old(self)@.len() && j != te.track as int ==> final(self)@[j] == old(
                        self,
                    )@[j]
            },
    {
        let ghost v0: Seq<TrackStateView> = self@;
        let mut best: usize = 0;
        let mut found = false;
        let mut k: usize = 0;
        while k < self.states.len()
            invariant
                k <= self.states@.len(),
                *self == *old(self),
                !found ==> forall|j: int| 0 <= j < k ==> (#[trigger] self@[j]).pending is None,
                found ==> {
                    &&& (best as int) < k
                    &&& self@[best as int].pending is Some
                    &&& forall|j: int|
                        0 <= j < k && (#[trigger] self@[j]).pending is Some ==> key_le(
                            self@,
                            best as int,
                            j,
                        )
                },
            decreases self.states@.len() - k,
        {
            let mut tk: u128 = 0;
            let has_k: bool;
            match &self.states[k].pending {
                Option::Some(p) => {
                    has_k = true;
                    tk = p.0;
                },
                Option::None => {
                    has_k = false;
                },
            }
            if has_k {
                if !found {
                    found = true;
                    best = k;
                } else {
                    let tb: u128 = match &self.states[best].pending {
                        Option::Some(p) => p.0,
                        Option::None => 0,
                    };
                    if tk < tb {
                        best = k;
                    }
                }
            }
            k = k + 1;
        }

        if !found {
            return Option::None;
        }

        let mut st = TrackState {
            stream: MidiRead::new(Vec::new()),
            pending: Option::None,
        };
        self.states.set_and_swap(best, &mut st);
        let TrackState { stream: mut stream0, pending: pending0 } = st;
        let (t, ev) = match pending0 {
            Option::Some(p) => p,
            Option::None => {
                // the scan only ever selects an entry with a pending event
                proof {
                    assert(false);
                }
                (0u128, Event { delay: 0, channel: 0, typ: EventType::PatchChange { program: 0 } })
            },
        };
        proof {
            lemma_decode_step_used(stream0.remaining(), stream0.status());
            assert(t <= 0xffff_ffff_ffff_ffffu128 * 0xffff_ffffu128);
        }
        let ghost pre: TrackStateView = v0[best as int];
        proof {
            assert(pre.pending == Option::Some((t as int, ev@)));
            assert(merge_entry_wf(pre));
            assert(stream0.pos() == pre.pos && stream0.bytes() == pre.bytes
                && stream0.status() == pre.status);
        }
        let pulled = stream0.next();
        proof {
            use_type_invariant(&stream0);
        }
        let newp;
        match pulled {
            Ok(Option::Some(e2)) => {
                proof {
                    assert(stream0.pos() >= pre.pos + 1);
                    assert((pre.pos + 1) * 0xffff_ffff == pre.pos * 0xffff_ffff + 0xffff_ffff);
                    assert(t + e2.delay <= stream0.pos() * 0xffff_ffff);
                }
                newp = Option::Some((t + e2.delay as u128, e2));
            },
            _ => {
                newp = Option::None;
            },
        }
        self.states.set(best, TrackState { stream: stream0, pending: newp });
        proof {
            assert forall|i: int| 0 <= i < self@.len() implies merge_entry_wf(
                #[trigger] self@[i],
            ) by {
                if i != best as int {
                    assert(self@[i] == v0[i]);
                    assert(merge_entry_wf(v0[i]));
                }
            }
        }
        Option::Some(TrackEvent { track: best, event: ev })
    }
}

} // verus!
