use vstd::prelude::*;
use vstd::arithmetic::div_mod::lemma_fundamental_div_mod_converse;

verus! {

/// Decoded audio: channel-interleaved samples (frame-major, channel-minor).
#[derive(Clone, Debug)]
pub struct AudioData<S> {
    pub samples: Vec<S>,
    pub channels: usize,
    pub sample_rate: usize,
}

impl<S> AudioData<S> {
    /// At least one channel, and only whole frames.
    pub open spec fn wf(&self) -> bool {
        &&& self.channels > 0
        &&& self.samples@.len() % (self.channels as nat) == 0
    }

    /// Number of frames: samples per channel.
    pub open spec fn frames(&self) -> nat {
        self.samples@.len() / (self.channels as nat)
    }

    pub fn frame_count(&self) -> (r: usize)
        requires
            self.wf(),
        ensures
            r == self.frames(),
    {
        self.samples.len() / self.channels
    }
}

/// The samples of each plane, one plane per channel.
pub open spec fn plane_views<S>(planes: Seq<Vec<S>>) -> Seq<Seq<S>> {
    planes.map_values(|p: Vec<S>| p@)
}

/// Every plane holds at least `frames` samples.
pub open spec fn planes_cover<S>(planes: Seq<Vec<S>>, frames: nat) -> bool {
    forall|c: int| 0 <= c < planes.len() ==> #[trigger] planes[c]@.len() >= frames
}

/// The first `frames` frames of per-channel planes, interleaved: the sample at
/// position `i` is frame `i / n` of channel `i % n`, for `n` channels.
pub open spec fn interleaved<S>(planes: Seq<Seq<S>>, frames: nat) -> Seq<S> {
    Seq::new(
        frames * planes.len(),
        |i: int| planes[i % (planes.len() as int)][i / (planes.len() as int)],
    )
}

/// Appends the first `frames` frames of `planes` to `out`, interleaved.
pub fn interleave_into<S: Copy>(planes: &Vec<Vec<S>>, frames: usize, out: &mut Vec<S>)
    requires
        planes@.len() > 0,
        planes_cover(planes@, frames as nat),
        old(out)@.len() + frames * planes@.len() <= usize::MAX,
    ensures
        final(out)@ == old(out)@ + interleaved(plane_views(planes@), frames as nat),
{
    let n = planes.len();
    let ghost base = old(out)@;
    let ghost views = plane_views(planes@);
    let mut f: usize = 0;
    while f < frames
        invariant
            n == planes@.len(),
            n > 0,
            f <= frames,
            views == plane_views(planes@),
            planes_cover(planes@, frames as nat),
            base.len() + frames * n <= usize::MAX,
            out@.len() == base.len() + f * n,
            out@.subrange(0, base.len() as int) == base,
            forall|k: int| 0 <= k < f * n ==> #[trigger] out@[base.len() + k] == views[k % (n as int)][k / (n as int)],
        decreases frames - f,
    {
        let mut c: usize = 0;
        assert(f * n + n <= frames * n) by (nonlinear_arith)
            requires f < frames;
        while c < n
            invariant
                n == planes@.len(),
                n > 0,
                f < frames,
                c <= n,
                f * n + n <= frames * n,
                views == plane_views(planes@),
                planes_cover(planes@, frames as nat),
                base.len() + frames * n <= usize::MAX,
                out@.len() == base.len() + f * n + c,
                out@.subrange(0, base.len() as int) == base,
                forall|k: int| 0 <= k < f * n + c ==> #[trigger] out@[base.len() + k] == views[k % (n as int)][k / (n as int)],
            decreases n - c,
        {
            assert(planes@[c as int]@.len() >= frames);
            let v = planes[c][f];
            out.push(v);
            proof {
                let k = f * n + c;
                lemma_fundamental_div_mod_converse(k as int, n as int, f as int, c as int);
                assert(out@[base.len() + k] == views[k % (n as int)][k / (n as int)]);
                assert(out@.subrange(0, base.len() as int) =~= base);
            }
            c = c + 1;
        }
        assert((f + 1) * n == f * n + n) by (nonlinear_arith);
        f = f + 1;
    }
    let ghost whole = base + interleaved(views, frames as nat);
    assert(views.len() == n);
    assert forall|i: int| 0 <= i < out@.len() implies out@[i] == whole[i] by {
        if i < base.len() {
            assert(out@.subrange(0, base.len() as int)[i] == base[i]);
        } else {
            let k = i - base.len();
            assert(out@[base.len() + k] == views[k % (n as int)][k / (n as int)]);
        }
    }
    assert(out@ =~= whole);
}

} // verus!
