use vstd::prelude::*;
use vstd::arithmetic::div_mod::lemma_fundamental_div_mod;
use crate::text::{is_word, lower_of, lowercase};

verus! {

/// The shape of a fade envelope.
#[derive(Clone, Copy, Debug, PartialEq, Eq, Structural)]
pub enum FadeCurve {
    Linear,
    Exponential,
    Logarithmic,
}

/// The curve that a lower-case name selects; any other name selects `Linear`.
pub open spec fn curve_named(name: Seq<char>) -> FadeCurve {
    if name == "exponential"@ || name == "exp"@ {
        FadeCurve::Exponential
    } else if name == "logarithmic"@ || name == "log"@ {
        FadeCurve::Logarithmic
    } else {
        FadeCurve::Linear
    }
}

impl FadeCurve {
    /// Parses a curve name, ignoring case.
    pub fn from_str(s: &str) -> (r: FadeCurve)
        ensures
            r == curve_named(lower_of(s@)),
    {
        let lower = lowercase(s);
        FadeCurve::from_lowercase(&lower)
    }

    /// Parses a curve name that is already in lower case.
    pub fn from_lowercase(name: &String) -> (r: FadeCurve)
        ensures
            r == curve_named(name@),
    {
        if is_word(name, "exponential") || is_word(name, "exp") {
            FadeCurve::Exponential
        } else if is_word(name, "logarithmic") || is_word(name, "log") {
            FadeCurve::Logarithmic
        } else {
            FadeCurve::Linear
        }
    }
}

/// The frames that one fade pass covers: `frames` frames from `start_frame`
/// on. The frame at `offset` within it is at position `offset / frames` of
/// the curve.
#[derive(Clone, Copy, Debug, PartialEq, Eq, Structural)]
pub struct FadeWindow {
    pub start_frame: usize,
    pub frames: usize,
}

/// The fade-in of `requested` frames over a buffer of `total` frames: from
/// the first frame, never past the end.
pub open spec fn fade_in_span(requested: nat, total: nat) -> FadeWindow {
    FadeWindow { start_frame: 0, frames: if requested < total { requested as usize } else { total as usize } }
}

/// The fade-out of `requested` frames over a buffer of `total` frames: up to
/// the last frame, never before the first.
pub open spec fn fade_out_span(requested: nat, total: nat) -> FadeWindow {
    let n: nat = if requested < total { requested } else { total };
    FadeWindow { start_frame: (total - n) as usize, frames: n as usize }
}

impl FadeWindow {
    /// Index of the frame at `offset` within the window.
    pub fn frame_at(&self, offset: usize) -> (r: usize)
        requires
            offset < self.frames,
            self.start_frame + self.frames <= usize::MAX,
        ensures
            r == self.start_frame + offset,
    {
        self.start_frame + offset
    }
}

/// The window of a fade-in of `requested` frames.
pub fn fade_in_window(requested: usize, total: usize) -> (r: FadeWindow)
    ensures
        r == fade_in_span(requested as nat, total as nat),
{
    let n = if requested < total { requested } else { total };
    FadeWindow { start_frame: 0, frames: n }
}

/// The window of a fade-out of `requested` frames.
pub fn fade_out_window(requested: usize, total: usize) -> (r: FadeWindow)
    ensures
        r == fade_out_span(requested as nat, total as nat),
{
    let n = if requested < total { requested } else { total };
    FadeWindow { start_frame: total - n, frames: n }
}

/// A fade of zero frames touches no sample, so a pass over it leaves the
/// buffer as it was; a fade at least as long as the buffer covers every
/// frame, the fade-in starting at the first and the fade-out ending at the
/// last.
pub proof fn lemma_fade_boundaries(requested: nat, total: nat, channels: nat)
    requires
        total <= usize::MAX,
    ensures
        requested == 0 ==> fade_in_span(requested, total).frames == 0 && fade_out_span(
            requested,
            total,
        ).frames == 0,
        requested == 0 ==> forall|i: int|
            #![trigger in_window(fade_in_span(requested, total), channels, i)]
            #![trigger in_window(fade_out_span(requested, total), channels, i)]
            !in_window(fade_in_span(requested, total), channels, i) && !in_window(
                fade_out_span(requested, total),
                channels,
                i,
            ),
        requested >= total ==> fade_in_span(requested, total) == (FadeWindow {
            start_frame: 0,
            frames: total as usize,
        }) && fade_out_span(requested, total) == (FadeWindow {
            start_frame: 0,
            frames: total as usize,
        }),
        fade_in_span(requested, total).start_frame + fade_in_span(requested, total).frames <= total,
        fade_out_span(requested, total).start_frame + fade_out_span(requested, total).frames
            == total,
{
}

/// Whether sample `i` of a buffer with `channels` channels lies in a frame of
/// the window.
pub open spec fn in_window(w: FadeWindow, channels: nat, i: int) -> bool {
    w.start_frame * channels <= i < (w.start_frame + w.frames) * channels
}

/// One fade pass, in place: each sample of a frame in the window becomes
/// `scale(sample, offset, window.frames)`, where `offset` is the frame's
/// place in the window; every other sample is left as it is. Two passes over
/// overlapping windows compound.
pub fn apply_fade_window<S: Copy, F: Fn(S, usize, usize) -> S>(
    samples: &mut Vec<S>,
    channels: usize,
    window: FadeWindow,
    scale: &F,
)
    requires
        channels > 0,
        window.start_frame + window.frames <= old(samples)@.len() / (channels as nat),
        forall|s: S, o: usize| o < window.frames ==> #[trigger] scale.requires((s, o, window.frames)),
    ensures
        final(samples)@.len() == old(samples)@.len(),
        forall|i: int|
            0 <= i < old(samples)@.len() && !in_window(window, channels as nat, i)
                ==> #[trigger] final(samples)@[i] == old(samples)@[i],
        forall|i: int|
            in_window(window, channels as nat, i) ==> scale.ensures(
                (old(samples)@[i], (i / (channels as int) - window.start_frame) as usize, window.frames),
                #[trigger] final(samples)@[i],
            ),
{
    let ghost before = old(samples)@;
    let ch = channels;
    let start = window.start_frame;
    let total = samples.len();
    proof {
        let len = total as int;
        assert(before.len() == total);
        lemma_fundamental_div_mod(len, ch as int);
        let q = len / (ch as int);
        assert(q <= len) by (nonlinear_arith)
            requires len == (ch as int) * q + len % (ch as int), len % (ch as int) >= 0, ch > 0, len >= 0;
        assert((start + window.frames) * ch <= len) by (nonlinear_arith)
            requires start + window.frames <= q, len == (ch as int) * q + len % (ch as int), len % (ch as int) >= 0, ch > 0;
        assert(start * ch <= (start + window.frames) * ch) by (nonlinear_arith)
            requires ch > 0;
    }
    let end = start + window.frames;
    let lo = start * ch;
    let hi = end * ch;
    let mut i: usize = lo;
    while i < hi
        invariant
            lo == start * ch,
            hi == end * ch,
            end == window.start_frame + window.frames,
            start == window.start_frame,
            ch == channels,
            ch > 0,
            lo <= i <= hi,
            hi <= before.len(),
            samples@.len() == before.len(),
            forall|s: S, o: usize| o < window.frames ==> #[trigger] scale.requires((s, o, window.frames)),
            forall|k: int| 0 <= k < before.len() && !(lo <= k < i) ==> #[trigger] samples@[k] == before[k],
            forall|k: int|
                lo <= k < i ==> scale.ensures(
                    (before[k], (k / (ch as int) - start) as usize, window.frames),
                    #[trigger] samples@[k],
                ),
        decreases hi - i,
    {
        proof {
            lemma_fundamental_div_mod(i as int, ch as int);
            let q = i as int / (ch as int);
            let r = i as int % (ch as int);
            assert(q >= start) by (nonlinear_arith)
                requires i >= start * ch, i == ch * q + r, 0 <= r < ch, ch > 0;
            assert(q < end) by (nonlinear_arith)
                requires i < end * ch, i == ch * q + r, 0 <= r < ch, ch > 0;
        }
        let offset = i / ch - start;
        let v = samples[i];
        let nv = scale(v, offset, window.frames);
        samples.set(i, nv);
        i = i + 1;
    }
}

} // verus!
