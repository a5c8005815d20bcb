use vstd::prelude::*;
use vstd::arithmetic::div_mod::lemma_mod_multiples_vanish;
use crate::buffer::{interleave_into, interleaved, plane_views, planes_cover, AudioData};

verus! {

/// Frames of silence that stand in for a packet that failed to decode.
/// The true length of a lost packet is unknown; this is a fixed estimate.
pub const LOST_PACKET_FRAMES: usize = 1024;

/// Why decoding a stream failed.
#[derive(Clone, Copy, Debug, PartialEq, Eq, Structural)]
pub enum DecodeError {
    /// The decoder reported an error it cannot recover from.
    Decode,
    /// A decoded packet had no channels.
    NoChannels,
    /// A decoded packet had another channel count than the first one.
    ChannelMismatch,
    /// The stream would hold more samples than memory can address.
    TooLong,
    /// No sample was decoded.
    NoAudioData,
}

/// What came of reading and decoding the next packet of the selected track.
#[derive(Clone, Debug)]
pub enum PacketEvent<S> {
    /// The packet decoded to one plane of samples per channel.
    Decoded { planes: Vec<Vec<S>>, frames: usize, sample_rate: usize },
    /// The packet is corrupt; decoding may go on with the next one.
    Corrupt,
    /// The stream has ended.
    EndOfStream,
    /// The decoder failed in a way that ends decoding.
    Failed,
}

/// What the decode loop does after a packet.
#[derive(Clone, Copy, Debug, PartialEq, Eq, Structural)]
pub enum Step {
    Continue,
    Stop,
    Abort(DecodeError),
}

/// A decoded packet's planes cover its frame count.
pub open spec fn event_wf<S>(e: PacketEvent<S>) -> bool {
    match e {
        PacketEvent::Decoded { planes, frames, sample_rate } => planes_cover(planes@, frames as nat),
        _ => true,
    }
}

/// The decode loop over one track: collects interleaved samples, latches the
/// sample rate and channel count of the first decoded packet, and fills the
/// place of each corrupt packet after it with silence.
pub struct DecodeSession<S> {
    samples: Vec<S>,
    channels: usize,
    sample_rate: usize,
    silence: S,
}

/// What a decode session holds: the samples collected so far, the channel
/// count and sample rate latched from the first decoded packet (0 until
/// then), and the value used for silence.
pub struct SessionState<S> {
    pub samples: Seq<S>,
    pub channels: nat,
    pub sample_rate: nat,
    pub silence: S,
}

impl<S> SessionState<S> {
    /// Nothing before the first decoded packet; whole frames after it.
    pub open spec fn wf(self) -> bool {
        &&& self.channels == 0 ==> self.samples.len() == 0
        &&& self.channels > 0 ==> self.samples.len() % self.channels == 0
    }
}

/// The state of a new session.
pub open spec fn initial_state<S>(silence: S) -> SessionState<S> {
    SessionState { samples: Seq::empty(), channels: 0, sample_rate: 0, silence }
}

/// What one packet does to a session, and how decoding goes on: a decoded
/// packet is interleaved and appended, latching its layout if it is the
/// first; a corrupt packet after the first decoded one is replaced by
/// `LOST_PACKET_FRAMES` frames of silence, and one before it is skipped; the
/// end of the stream stops decoding; a fatal decoder error, a packet without
/// channels or with another channel count, or a length past `usize::MAX`
/// aborts it, leaving the session as it was.
pub open spec fn step_spec<S>(st: SessionState<S>, e: PacketEvent<S>) -> (SessionState<S>, Step) {
    match e {
        PacketEvent::Decoded { planes, frames, sample_rate } => {
            if planes@.len() == 0 {
                (st, Step::Abort(DecodeError::NoChannels))
            } else if st.channels != 0 && planes@.len() != st.channels {
                (st, Step::Abort(DecodeError::ChannelMismatch))
            } else if st.samples.len() + frames * planes@.len() > usize::MAX {
                (st, Step::Abort(DecodeError::TooLong))
            } else {
                (
                    SessionState {
                        samples: st.samples + interleaved(plane_views(planes@), frames as nat),
                        channels: planes@.len(),
                        sample_rate: if st.channels == 0 {
                            sample_rate as nat
                        } else {
                            st.sample_rate
                        },
                        silence: st.silence,
                    },
                    Step::Continue,
                )
            }
        },
        PacketEvent::Corrupt => {
            if st.channels == 0 {
                (st, Step::Continue)
            } else if st.samples.len() + LOST_PACKET_FRAMES * st.channels > usize::MAX {
                (st, Step::Abort(DecodeError::TooLong))
            } else {
                (
                    SessionState {
                        samples: st.samples + Seq::new(
                            (LOST_PACKET_FRAMES * st.channels) as nat,
                            |i: int| st.silence,
                        ),
                        ..st
                    },
                    Step::Continue,
                )
            }
        },
        PacketEvent::EndOfStream => (st, Step::Stop),
        PacketEvent::Failed => (st, Step::Abort(DecodeError::Decode)),
    }
}

/// A session run over `events` until the end of the stream, a fatal error or
/// the last event: the final state, and the error if decoding aborted.
pub open spec fn run_spec<S>(st: SessionState<S>, events: Seq<PacketEvent<S>>) -> (
    SessionState<S>,
    Option<DecodeError>,
)
    decreases events.len(),
{
    if events.len() == 0 {
        (st, None)
    } else {
        let (next, step) = step_spec(st, events[0]);
        match step {
            Step::Continue => run_spec(next, events.drop_first()),
            Step::Stop => (next, None),
            Step::Abort(e) => (next, Some(e)),
        }
    }
}

/// The audio that a session in state `st` ends with.
pub open spec fn finished<S>(st: SessionState<S>, r: Result<AudioData<S>, DecodeError>) -> bool {
    if st.samples.len() == 0 {
        r == Err::<AudioData<S>, DecodeError>(DecodeError::NoAudioData)
    } else {
        &&& r is Ok
        &&& r->Ok_0.samples@ == st.samples
        &&& r->Ok_0.channels == st.channels
        &&& r->Ok_0.sample_rate == st.sample_rate
    }
}

impl<S: Copy> DecodeSession<S> {
    pub closed spec fn state(&self) -> SessionState<S> {
        SessionState {
            samples: self.samples@,
            channels: self.channels as nat,
            sample_rate: self.sample_rate as nat,
            silence: self.silence,
        }
    }

    pub open spec fn wf(&self) -> bool {
        self.state().wf()
    }

    pub fn new(silence: S) -> (r: Self)
        ensures
            r.state() == initial_state(silence),
    {
        DecodeSession { samples: Vec::new(), channels: 0, sample_rate: 0, silence }
    }

    /// Takes in what came of one packet and says how decoding goes on.
    pub fn step(&mut self, event: &PacketEvent<S>) -> (r: Step)
        requires
            old(self).wf(),
            event_wf(*event),
        ensures
            final(self).wf(),
            (final(self).state(), r) == step_spec(old(self).state(), *event),
    {
        match event {
            PacketEvent::Decoded { planes, frames, sample_rate } => {
                let n = planes.len();
                if n == 0 {
                    return Step::Abort(DecodeError::NoChannels);
                }
                if self.channels != 0 && n != self.channels {
                    return Step::Abort(DecodeError::ChannelMismatch);
                }
                let room = usize::MAX - self.samples.len();
                if *frames > room / n {
                    proof {
                        assert((room / n + 1) * n > room) by (nonlinear_arith)
                            requires n > 0;
                        assert(*frames * n >= (room / n + 1) * n) by (nonlinear_arith)
                            requires *frames >= room / n + 1;
                    }
                    return Step::Abort(DecodeError::TooLong);
                }
                proof {
                    assert(*frames * n <= (room / n) * n) by (nonlinear_arith)
                        requires *frames <= room / n;
                    assert((room / n) * n <= room) by (nonlinear_arith)
                        requires n > 0;
                }
                if self.channels == 0 {
                    self.channels = n;
                    self.sample_rate = *sample_rate;
                }
                let ghost before = self.samples@;
                interleave_into(planes, *frames, &mut self.samples);
                proof {
                    lemma_mod_multiples_vanish(*frames as int, before.len() as int, n as int);
                    assert(n * *frames == *frames * n) by (nonlinear_arith);
                    assert(plane_views(planes@).len() == n);
                }
                Step::Continue
            },
            PacketEvent::Corrupt => {
                if self.channels == 0 {
                    return Step::Continue;
                }
                let n = self.channels;
                let room = usize::MAX - self.samples.len();
                if n > room / LOST_PACKET_FRAMES {
                    proof {
                        assert(LOST_PACKET_FRAMES * n > room) by (nonlinear_arith)
                            requires n >= room / 1024 + 1;
                    }
                    return Step::Abort(DecodeError::TooLong);
                }
                let count = LOST_PACKET_FRAMES * n;
                let ghost before = self.samples@;
                let mut i: usize = 0;
                while i < count
                    invariant
                        i <= count,
                        count == LOST_PACKET_FRAMES * n,
                        n == self.channels,
                        self.silence == old(self).silence,
                        self.sample_rate == old(self).sample_rate,
                        before.len() + count <= usize::MAX,
                        self.samples@ == before + Seq::new(i as nat, |j: int| self.silence),
                    decreases count - i,
                {
                    self.samples.push(self.silence);
                    proof {
                        assert(self.samples@ =~= before + Seq::new((i + 1) as nat, |j: int| self.silence));
                    }
                    i = i + 1;
                }
                proof {
                    lemma_mod_multiples_vanish(1024, before.len() as int, n as int);
                    assert(n * 1024 + before.len() == before.len() + count);
                }
                Step::Continue
            },
            PacketEvent::EndOfStream => Step::Stop,
            PacketEvent::Failed => Step::Abort(DecodeError::Decode),
        }
    }

    /// Ends the session: the collected audio, unless no sample was decoded.
    pub fn finish(self) -> (r: Result<AudioData<S>, DecodeError>)
        requires
            self.wf(),
        ensures
            finished(self.state(), r),
            r is Ok ==> r->Ok_0.wf(),
    {
        if self.samples.len() == 0 {
            return Err(DecodeError::NoAudioData);
        }
        Ok(AudioData { samples: self.samples, channels: self.channels, sample_rate: self.sample_rate })
    }
}

/// Frames that a decoded packet holds; 0 for any other outcome.
pub open spec fn packet_frames<S>(e: PacketEvent<S>) -> nat {
    match e {
        PacketEvent::Decoded { planes, frames, sample_rate } => frames as nat,
        _ => 0,
    }
}

/// Channel count of a decoded packet; 0 for any other outcome.
pub open spec fn packet_channels<S>(e: PacketEvent<S>) -> nat {
    match e {
        PacketEvent::Decoded { planes, frames, sample_rate } => planes@.len(),
        _ => 0,
    }
}

/// Frames that the decoded packets of `events` hold.
pub open spec fn good_frames<S>(events: Seq<PacketEvent<S>>) -> nat
    decreases events.len(),
{
    if events.len() == 0 {
        0
    } else {
        packet_frames(events[0]) + good_frames(events.drop_first())
    }
}

/// Number of corrupt packets in `events`.
pub open spec fn lost_packets<S>(events: Seq<PacketEvent<S>>) -> nat
    decreases events.len(),
{
    if events.len() == 0 {
        0
    } else {
        (if events[0] is Corrupt {
            1nat
        } else {
            0
        }) + lost_packets(events.drop_first())
    }
}

/// Frames that decoding `events` yields: each decoded packet's own frames,
/// and a fixed estimate of silence for each corrupt one.
pub open spec fn stream_frames<S>(events: Seq<PacketEvent<S>>) -> nat {
    good_frames(events) + (LOST_PACKET_FRAMES as nat) * lost_packets(events)
}

/// Channel count of the first packet, when it decoded.
pub open spec fn stream_channels<S>(events: Seq<PacketEvent<S>>) -> nat {
    packet_channels(events[0])
}

/// Every packet of `events` either decodes with `channels` channels or is
/// corrupt.
pub open spec fn uniform_packets<S>(events: Seq<PacketEvent<S>>, channels: nat) -> bool {
    forall|i: int|
        0 <= i < events.len() ==> (#[trigger] events[i] is Corrupt || (events[i] is Decoded
            && packet_channels(events[i]) == channels))
}

/// A stream that runs to its end with no fatal error: the first packet
/// decodes, and every packet either decodes with the same channel count or
/// is corrupt.
pub open spec fn steady_stream<S>(events: Seq<PacketEvent<S>>) -> bool {
    &&& events.len() > 0
    &&& events[0] is Decoded
    &&& stream_channels(events) > 0
    &&& uniform_packets(events, stream_channels(events))
}

proof fn lemma_latched_run<S>(st: SessionState<S>, events: Seq<PacketEvent<S>>, c: nat)
    requires
        st.channels == c,
        c > 0,
        uniform_packets(events, c),
        st.samples.len() + c * stream_frames(events) <= usize::MAX,
    ensures
        run_spec(st, events).1 is None,
        run_spec(st, events).0.channels == c,
        run_spec(st, events).0.samples.len() == st.samples.len() + c * stream_frames(events),
    decreases events.len(),
{
    if events.len() > 0 {
        let e = events[0];
        let rest = events.drop_first();
        let (next, step) = step_spec(st, e);
        assert(e is Corrupt || (e is Decoded && packet_channels(e) == c));
        let f = packet_frames(e);
        let l: nat = if e is Corrupt { 1 } else { 0 };
        assert(stream_frames(events) == f + 1024 * l + stream_frames(rest));
        assert(c * stream_frames(events) == c * f + c * 1024 * l + c * stream_frames(rest))
            by (nonlinear_arith)
            requires stream_frames(events) == f + 1024 * l + stream_frames(rest);
        assert(c * f >= 0 && c * 1024 * l >= 0 && c * stream_frames(rest) >= 0) by (nonlinear_arith);
        match e {
            PacketEvent::Decoded { planes, frames, sample_rate } => {
                assert(plane_views(planes@).len() == c);
                assert(frames * planes@.len() == c * f) by (nonlinear_arith)
                    requires planes@.len() == c, f == frames;
                assert(l == 0);
                assert(c * 1024 * l == 0) by (nonlinear_arith)
                    requires l == 0;
                assert(next.samples.len() == st.samples.len() + c * f + c * 1024 * l);
            },
            _ => {
                assert(f == 0 && l == 1);
                assert(c * f == 0 && c * 1024 * l == 1024 * c) by (nonlinear_arith)
                    requires f == 0, l == 1;
                assert(next.samples.len() == st.samples.len() + c * f + c * 1024 * l);
            },
        }
        assert(step is Continue);
        assert forall|i: int| 0 <= i < rest.len() implies (#[trigger] rest[i] is Corrupt || (rest[i] is Decoded
            && packet_channels(rest[i]) == c)) by {
            assert(rest[i] == events[i + 1]);
        }
        lemma_latched_run(next, rest, c);
        assert(run_spec(st, events) == run_spec(next, rest));
    } else {
        assert(stream_frames(events) == 0);
        assert(c * stream_frames(events) == 0) by (nonlinear_arith)
            requires stream_frames(events) == 0;
    }
}

/// Decoding never aborts a stream whose packets all decode with one channel
/// count or are corrupt, once its first packet has decoded: the frames it
/// yields are the decoded packets' frames plus `LOST_PACKET_FRAMES` for each
/// corrupt packet.
pub proof fn lemma_lost_packets_padded<S>(events: Seq<PacketEvent<S>>, silence: S)
    requires
        steady_stream(events),
        stream_channels(events) * stream_frames(events) <= usize::MAX,
    ensures
        run_spec(initial_state(silence), events).1 is None,
        run_spec(initial_state(silence), events).0.channels == stream_channels(events),
        run_spec(initial_state(silence), events).0.samples.len() == stream_channels(events)
            * (good_frames(events) + LOST_PACKET_FRAMES * lost_packets(events)),
{
    let c = stream_channels(events);
    let e = events[0];
    let rest = events.drop_first();
    let st = initial_state(silence);
    let f = packet_frames(e);
    assert(stream_frames(events) == f + stream_frames(rest));
    assert(c * stream_frames(events) == c * f + c * stream_frames(rest)) by (nonlinear_arith)
        requires stream_frames(events) == f + stream_frames(rest);
    assert(c * stream_frames(rest) >= 0) by (nonlinear_arith);
    match e {
        PacketEvent::Decoded { planes, frames, sample_rate } => {
            assert(plane_views(planes@).len() == c);
            assert(frames * planes@.len() == c * f) by (nonlinear_arith)
                requires planes@.len() == c, f == frames;
        },
        _ => {},
    }
    let (next, step) = step_spec(st, e);
    assert(step is Continue);
    assert forall|i: int| 0 <= i < rest.len() implies (#[trigger] rest[i] is Corrupt || (rest[i] is Decoded
        && packet_channels(rest[i]) == c)) by {
        assert(rest[i] == events[i + 1]);
    }
    lemma_latched_run(next, rest, c);
}

/// Decodes a whole sequence of packet outcomes: runs a session over them
/// until the end of the stream, a fatal error or the last one, and ends it.
pub fn decode_packets<S: Copy>(events: &Vec<PacketEvent<S>>, silence: S) -> (r: Result<AudioData<S>, DecodeError>)
    requires
        forall|i: int| 0 <= i < events@.len() ==> event_wf(#[trigger] events@[i]),
    ensures
        match run_spec(initial_state(silence), events@) {
            (st, Some(e)) => r == Err::<AudioData<S>, DecodeError>(e),
            (st, None) => finished(st, r),
        },
        r is Ok ==> r->Ok_0.wf(),
{
    let ghost evs = events@;
    let ghost outcome = run_spec(initial_state(silence), evs);
    let mut session = DecodeSession::new(silence);
    let mut i: usize = 0;
    let mut ended = false;
    proof {
        assert(evs.subrange(0, evs.len() as int) =~= evs);
    }
    while i < events.len() && !ended
        invariant
            evs == events@,
            outcome == run_spec(initial_state(silence), evs),
            session.wf(),
            i <= evs.len(),
            forall|j: int| 0 <= j < evs.len() ==> event_wf(#[trigger] evs[j]),
            !ended ==> run_spec(session.state(), evs.subrange(i as int, evs.len() as int)) == outcome,
            ended ==> outcome == (session.state(), None::<DecodeError>),
        decreases evs.len() - i,
    {
        let ghost sub = evs.subrange(i as int, evs.len() as int);
        proof {
            assert(sub[0] == evs[i as int]);
            assert(sub.drop_first() =~= evs.subrange(i + 1, evs.len() as int));
        }
        let step = session.step(&events[i]);
        match step {
            Step::Continue => {},
            Step::Stop => {
                ended = true;
            },
            Step::Abort(e) => {
                return Err(e);
            },
        }
        i = i + 1;
    }
    proof {
        if !ended {
            assert(evs.subrange(i as int, evs.len() as int).len() == 0);
        }
    }
    session.finish()
}

} // verus!
