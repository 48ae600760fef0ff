//! The event emitter: turns fired key transitions into a timed stream of
//! note events with delta-ticks, bracketed by a tempo meta event and an
//! end-of-track marker, ready for an external serializer.

use vstd::prelude::*;
use crate::config::Config;

verus! {

/// One exported note event. `delta_ticks` is the time since the previously
/// emitted event; the channel is always zero.
#[derive(Clone, Copy, PartialEq, Eq, Structural, Debug)]
pub struct NoteEvent {
    pub delta_ticks: u32,
    pub note_on: bool,
    pub channel: u8,
    pub pitch: u8,
    pub velocity: u8,
}

/// One message of the full exported stream.
#[derive(Clone, Copy, PartialEq, Eq, Structural, Debug)]
pub enum MidiMessage {
    /// Tempo in microseconds per quarter note, already split into the three
    /// big-endian payload bytes.
    SetTempo { delta_ticks: u32, tempo: TempoBytes },
    EndOfTrack { delta_ticks: u32 },
    TrackChange,
    Note { ev: NoteEvent },
}

/// The three big-endian payload bytes of a tempo meta event.
#[derive(Clone, Copy, PartialEq, Eq, Structural, Debug)]
pub struct TempoBytes {
    pub b0: u8,
    pub b1: u8,
    pub b2: u8,
}

/// Sum of the delta-ticks of a run of events.
pub open spec fn sum_deltas(s: Seq<NoteEvent>) -> int
    decreases s.len(),
{
    if s.len() == 0 {
        0
    } else {
        sum_deltas(s.drop_last()) + s.last().delta_ticks
    }
}

/// The running event stream of one playback session. `frames@[k]` is the
/// frame the `k`-th event was emitted at; deltas are elapsed frames since
/// the previous event (or since frame zero for the first), times the tick
/// rate.
pub struct EventTrack {
    pub ticks_per_frame: u32,
    pub last_event_frame: u32,
    pub events: Vec<NoteEvent>,
    pub frames: Ghost<Seq<u32>>,
}

impl EventTrack {
    pub open spec fn wf(&self) -> bool {
        &&& self.events@.len() == self.frames@.len()
        &&& forall|k: int|
            0 < k < self.frames@.len() ==> (#[trigger] self.frames@[k]) >= self.frames@[k - 1]
        &&& forall|k: int|
            0 <= k < self.events@.len() ==> (#[trigger] self.events@[k]).delta_ticks == (
            self.frames@[k] - (if k == 0 {
                0
            } else {
                self.frames@[k - 1] as int
            })) * self.ticks_per_frame
        &&& forall|k: int|
            0 <= k < self.events@.len() ==> (#[trigger] self.events@[k]).channel == 0
        &&& self.last_event_frame == (if self.frames@.len() == 0 {
            0
        } else {
            self.frames@.last() as int
        })
    }

    /// An empty stream at the given tick rate.
    pub fn new(ticks_per_frame: u32) -> (t: EventTrack)
        ensures
            t.wf(),
            t.ticks_per_frame == ticks_per_frame,
            t.events@ =~= Seq::<NoteEvent>::empty(),
            t.frames@ =~= Seq::<u32>::empty(),
            t.last_event_frame == 0,
    {
        EventTrack {
            ticks_per_frame,
            last_event_frame: 0,
            events: Vec::new(),
            frames: Ghost(Seq::empty()),
        }
    }

    /// Emit one note event at `frame`: its delta is the frames elapsed
    /// since the last emitted event, converted to ticks.
    pub fn record(&mut self, frame: u32, note_on: bool, pitch: u8, cfg: &Config)
        requires
            old(self).wf(),
            frame >= old(self).last_event_frame,
            (frame - old(self).last_event_frame) * old(self).ticks_per_frame <= u32::MAX,
        ensures
            final(self).wf(),
            final(self).ticks_per_frame == old(self).ticks_per_frame,
            final(self).last_event_frame == frame,
            final(self).frames@ =~= old(self).frames@.push(frame),
            final(self).events@ =~= old(self).events@.push(
                NoteEvent {
                    delta_ticks: ((frame - old(self).last_event_frame)
                        * old(self).ticks_per_frame) as u32,
                    note_on,
                    channel: 0,
                    pitch,
                    velocity: cfg.note_velocity,
                },
            ),
    {
        let delta = (frame - self.last_event_frame) * self.ticks_per_frame;
        self.events.push(
            NoteEvent { delta_ticks: delta, note_on, channel: 0, pitch, velocity: cfg.note_velocity },
        );
        proof {
            self.frames@ = self.frames@.push(frame);
        }
        self.last_event_frame = frame;
    }

    /// The full stream for the external serializer: a tempo meta event at
    /// time zero and an empty leading track, then every note event in
    /// order, closed by an end-of-track marker.
    pub fn export(&self, microseconds_per_quarter_note: u32) -> (msgs: Vec<MidiMessage>)
        ensures
            msgs@.len() == self.events@.len() + 4,
            msgs@[0] == (MidiMessage::SetTempo {
                delta_ticks: 0,
                tempo: spec_tempo_bytes(microseconds_per_quarter_note),
            }),
            msgs@[1] == (MidiMessage::EndOfTrack { delta_ticks: 0 }),
            msgs@[2] == MidiMessage::TrackChange,
            forall|k: int|
                0 <= k < self.events@.len() ==> msgs@[3 + k] == (MidiMessage::Note {
                    ev: self.events@[k],
                }),
            msgs@.last() == (MidiMessage::EndOfTrack { delta_ticks: 0 }),
    {
        let mut msgs: Vec<MidiMessage> = Vec::new();
        msgs.push(
            MidiMessage::SetTempo {
                delta_ticks: 0,
                tempo: tempo_bytes(microseconds_per_quarter_note),
            },
        );
        msgs.push(MidiMessage::EndOfTrack { delta_ticks: 0 });
        msgs.push(MidiMessage::TrackChange);
        let n = self.events.len();
        let mut k: usize = 0;
        while k < n
            invariant
                n == self.events@.len(),
                k <= n,
                msgs@.len() == 3 + k,
                msgs@[0] == (MidiMessage::SetTempo {
                    delta_ticks: 0,
                    tempo: spec_tempo_bytes(microseconds_per_quarter_note),
                }),
                msgs@[1] == (MidiMessage::EndOfTrack { delta_ticks: 0 }),
                msgs@[2] == MidiMessage::TrackChange,
                forall|kk: int|
                    0 <= kk < k ==> msgs@[3 + kk] == (MidiMessage::Note {
                        ev: self.events@[kk],
                    }),
            decreases n - k,
        {
            msgs.push(MidiMessage::Note { ev: self.events[k] });
            k = k + 1;
        }
        msgs.push(MidiMessage::EndOfTrack { delta_ticks: 0 });
        msgs
    }
}

/// What a tempo splits into: its three big-endian payload bytes.
pub open spec fn spec_tempo_bytes(mpqn: u32) -> TempoBytes {
    TempoBytes { b0: (mpqn >> 16) as u8, b1: (mpqn >> 8) as u8, b2: mpqn as u8 }
}

/// Split a tempo into its three big-endian payload bytes.
pub fn tempo_bytes(mpqn: u32) -> (b: TempoBytes)
    ensures
        b == spec_tempo_bytes(mpqn),
{
    TempoBytes { b0: (mpqn >> 16) as u8, b1: (mpqn >> 8) as u8, b2: mpqn as u8 }
}

/// Tick accounting over a prefix: the deltas of events one through `k - 1`
/// telescope to the frame distance from the first event to event `k - 1`.
proof fn lemma_tick_prefix(t: &EventTrack, k: int)
    requires
        t.wf(),
        1 <= k <= t.events@.len(),
    ensures
        sum_deltas(t.events@.subrange(1, k)) == (t.frames@[k - 1] - t.frames@[0])
            * t.ticks_per_frame,
    decreases k,
{
    if k == 1 {
        assert(t.events@.subrange(1, 1) =~= Seq::<NoteEvent>::empty());
    } else {
        lemma_tick_prefix(t, k - 1);
        let s = t.events@.subrange(1, k);
        assert(s.drop_last() =~= t.events@.subrange(1, k - 1));
        assert(s.last() == t.events@[k - 1]);
        assert(t.events@[k - 1].delta_ticks == (t.frames@[k - 1] - t.frames@[k - 2])
            * t.ticks_per_frame);
        assert((t.frames@[k - 2] - t.frames@[0]) * t.ticks_per_frame + (t.frames@[k - 1]
            - t.frames@[k - 2]) * t.ticks_per_frame == (t.frames@[k - 1] - t.frames@[0])
            * t.ticks_per_frame) by (nonlinear_arith);
    }
}

/// Tick accounting: between the first and the last emitted event, the
/// emitted delta-ticks sum to the elapsed frames times the tick rate.
pub proof fn lemma_tick_accounting(t: &EventTrack)
    requires
        t.wf(),
        t.events@.len() >= 1,
    ensures
        sum_deltas(t.events@.subrange(1, t.events@.len() as int)) == (t.frames@.last()
            - t.frames@[0]) * t.ticks_per_frame,
{
    lemma_tick_prefix(t, t.events@.len() as int);
}

} // verus!
