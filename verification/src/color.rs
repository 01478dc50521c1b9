//! The color sweep that paints the banner: an endless generator of RGB
//! samples that ramps one channel up while the next one ramps down, handing
//! off between channels in round-robin order.
use vstd::prelude::*;

verus! {

/// Lowest value a channel takes during the sweep.
pub const COLOR_MIN: u8 = 30;
/// Highest value a channel takes during the sweep.
pub const COLOR_MAX: u8 = 200;
/// Amount one channel gains and another loses on every step.
pub const COLOR_STEP: u8 = 5;
/// Number of samples after which the emitted triple first returns to the
/// triple the generator started from.
pub const CYCLE_CALLS: u8 = (COLOR_MAX - COLOR_MIN) / COLOR_STEP * 3;

/// One RGB color sample.
#[derive(Clone, Copy, Debug, PartialEq, Eq, Structural)]
pub struct Rgb {
    pub r: u8,
    pub g: u8,
    pub b: u8,
}

/// A well-formed sweep state: the active channel sits between the bounds at
/// a whole number of steps, the following channel mirrors it, and the third
/// channel rests at the top.
pub open spec fn wf_state(rgb: Seq<u8>, a: int) -> bool {
    &&& rgb.len() == 3
    &&& 0 <= a < 3
    &&& COLOR_MIN <= rgb[a] <= COLOR_MAX
    &&& rgb[(a + 1) % 3] == COLOR_MIN + COLOR_MAX - rgb[a]
    &&& rgb[(a + 2) % 3] == COLOR_MAX
    &&& (rgb[a] - COLOR_MIN) % (COLOR_STEP as int) == 0
}

/// The channel that one call of `next` moves, given the state before the call.
pub open spec fn step_active(rgb: Seq<u8>, a: int) -> int {
    if rgb[a] == COLOR_MAX {
        (a + 1) % 3
    } else {
        a
    }
}

/// The channel values after one call of `next`.
pub open spec fn step_rgb(rgb: Seq<u8>, a: int) -> Seq<u8> {
    let a2 = step_active(rgb, a);
    let raised = rgb.update(a2, (rgb[a2] + COLOR_STEP) as u8);
    raised.update((a2 + 1) % 3, (raised[(a2 + 1) % 3] - COLOR_STEP) as u8)
}

/// The state after `n` calls of `next` from the state `(rgb, a)`.
pub open spec fn iter_state(rgb: Seq<u8>, a: int, n: nat) -> (Seq<u8>, int)
    decreases n,
{
    if n == 0 {
        (rgb, a)
    } else {
        let (r2, a2) = iter_state(rgb, a, (n - 1) as nat);
        (step_rgb(r2, a2), step_active(r2, a2))
    }
}

/// The triple a state shows.
pub open spec fn sample_of(rgb: Seq<u8>) -> Rgb {
    Rgb { r: rgb[0], g: rgb[1], b: rgb[2] }
}

/// The first `n` samples the sweep emits from the state `(rgb, a)`, in
/// order: the sample of call `k` is the triple of the state after `k + 1`
/// steps.
pub open spec fn emitted_seq(rgb: Seq<u8>, a: int, n: nat) -> Seq<Rgb> {
    Seq::new(n, |k: int| sample_of(iter_state(rgb, a, (k + 1) as nat).0))
}

/// The channel values in which channel `a` has risen `t` steps from the
/// bottom while the channel after it has come `t` steps down from the top.
pub open spec fn ramp_rgb(a: int, t: int) -> Seq<u8> {
    Seq::new(
        3,
        |i: int|
            if i == a {
                (COLOR_MIN + t * COLOR_STEP) as u8
            } else if i == (a + 1) % 3 {
                (COLOR_MAX - t * COLOR_STEP) as u8
            } else {
                COLOR_MAX
            },
    )
}

/// Steps in one full ramp of a channel from bottom to top.
pub open spec fn ramp_len() -> int {
    (COLOR_MAX - COLOR_MIN) / (COLOR_STEP as int)
}

proof fn lemma_step_in_ramp(a: int, t: int)
    requires
        0 <= a < 3,
        0 <= t < ramp_len(),
    ensures
        step_active(ramp_rgb(a, t), a) == a,
        step_rgb(ramp_rgb(a, t), a) =~= ramp_rgb(a, t + 1),
{
}

proof fn lemma_step_handoff(a: int)
    requires
        0 <= a < 3,
    ensures
        step_active(ramp_rgb(a, ramp_len()), a) == (a + 1) % 3,
        step_rgb(ramp_rgb(a, ramp_len()), a) =~= ramp_rgb((a + 1) % 3, 1),
{
}

proof fn lemma_run_ramp(a: int, t: int, n: nat)
    requires
        0 <= a < 3,
        0 <= t,
        t + n <= ramp_len(),
    ensures
        iter_state(ramp_rgb(a, t), a, n) == (ramp_rgb(a, t + n), a),
    decreases n,
{
    if n > 0 {
        lemma_run_ramp(a, t, (n - 1) as nat);
        lemma_step_in_ramp(a, t + n - 1);
        assert(step_rgb(ramp_rgb(a, t + n - 1), a) == ramp_rgb(a, t + n));
    }
}

/// Running the sweep `m + n` steps is running it `m` steps and then `n`
/// steps from where it stood.
pub proof fn lemma_iter_compose(rgb: Seq<u8>, a: int, m: nat, n: nat)
    ensures
        iter_state(rgb, a, m + n) == ({
            let (r2, a2) = iter_state(rgb, a, m);
            iter_state(r2, a2, n)
        }),
    decreases n,
{
    if n > 0 {
        lemma_iter_compose(rgb, a, m, (n - 1) as nat);
        assert(m + n - 1 == m + (n - 1) as nat);
    }
}

/// Law: every call moves exactly two channels, the one it raises by one step
/// and the one after it by one step down, and leaves the third alone; the
/// raised channel is the active one, except that a call finding the active
/// channel at the top hands the role to the following channel first.
pub proof fn lemma_step_shape(rgb: Seq<u8>, a: int)
    requires
        wf_state(rgb, a),
    ensures
        step_rgb(rgb, a)[step_active(rgb, a)] == rgb[step_active(rgb, a)] + COLOR_STEP,
        step_rgb(rgb, a)[(step_active(rgb, a) + 1) % 3] == rgb[(step_active(rgb, a) + 1) % 3]
            - COLOR_STEP,
        step_rgb(rgb, a)[(step_active(rgb, a) + 2) % 3] == rgb[(step_active(rgb, a) + 2) % 3],
        step_active(rgb, a) == a || (rgb[a] == COLOR_MAX && step_active(rgb, a) == (a + 1) % 3),
{
}

/// Law: after `CYCLE_CALLS` calls from the starting state, the emitted
/// triple is back at the starting triple, closing one full hue rotation.
pub proof fn lemma_cycle_closure()
    ensures
        iter_state(seq![COLOR_MIN, COLOR_MAX, COLOR_MAX], 0, CYCLE_CALLS as nat).0
            =~= seq![COLOR_MIN, COLOR_MAX, COLOR_MAX],
{
    let init = seq![COLOR_MIN, COLOR_MAX, COLOR_MAX];
    assert(init =~= ramp_rgb(0, 0));
    lemma_run_ramp(0, 0, 34);
    lemma_iter_compose(init, 0, 34, 68);
    assert(iter_state(ramp_rgb(0, 34), 0, 0) == (ramp_rgb(0, 34), 0int));
    assert(iter_state(ramp_rgb(0, 34), 0, 1) == (step_rgb(ramp_rgb(0, 34), 0), step_active(
        ramp_rgb(0, 34),
        0,
    )));
    lemma_step_handoff(0);
    lemma_iter_compose(ramp_rgb(0, 34), 0, 1, 67);
    lemma_run_ramp(1, 1, 33);
    lemma_iter_compose(ramp_rgb(1, 1), 1, 33, 34);
    assert(iter_state(ramp_rgb(1, 34), 1, 0) == (ramp_rgb(1, 34), 1int));
    assert(iter_state(ramp_rgb(1, 34), 1, 1) == (step_rgb(ramp_rgb(1, 34), 1), step_active(
        ramp_rgb(1, 34),
        1,
    )));
    lemma_step_handoff(1);
    lemma_iter_compose(ramp_rgb(1, 34), 1, 1, 33);
    lemma_run_ramp(2, 1, 33);
    assert(iter_state(init, 0, 102).0 == ramp_rgb(2, 34));
    assert(ramp_rgb(2, 34) =~= init);
}

/// Law: the state after `n + 1` calls is one step beyond the state after
/// `n` calls, so skipping `n` samples and drawing the next is the same as
/// drawing `n + 1` samples and keeping only the last.
pub proof fn lemma_skip_is_sequential(rgb: Seq<u8>, a: int, n: nat)
    ensures
        iter_state(rgb, a, n + 1) == ({
            let (r2, a2) = iter_state(rgb, a, n);
            (step_rgb(r2, a2), step_active(r2, a2))
        }),
{
}

/// The endless generator of color samples.
pub struct Colorizer {
    rgb: Vec<u8>,
    now_inclement: usize,
}

impl Colorizer {
    /// The three channel values.
    pub closed spec fn channels(&self) -> Seq<u8> {
        self.rgb@
    }

    /// The channel currently ramping up.
    pub closed spec fn active(&self) -> int {
        self.now_inclement as int
    }

    pub open spec fn wf(&self) -> bool {
        wf_state(self.channels(), self.active())
    }

    /// Starts the sweep at the first channel's lower bound.
    pub fn new() -> (c: Colorizer)
        ensures
            c.wf(),
            c.channels() == seq![COLOR_MIN, COLOR_MAX, COLOR_MAX],
            c.active() == 0,
    {
        let c = Colorizer { rgb: vec![COLOR_MIN, COLOR_MAX, COLOR_MAX], now_inclement: 0 };
        proof {
            assert(c.channels() =~= seq![COLOR_MIN, COLOR_MAX, COLOR_MAX]);
        }
        c
    }

    /// The sample the current state shows, without advancing.
    pub fn current_sample(&self) -> (s: Rgb)
        requires
            self.wf(),
        ensures
            s == sample_of(self.channels()),
    {
        Rgb { r: self.rgb[0], g: self.rgb[1], b: self.rgb[2] }
    }

    /// Advances the sweep one step and emits the resulting sample: when the
    /// active channel has reached the top, the role moves to the following
    /// channel; the active channel then gains one step and the channel after
    /// it loses one.
    pub fn next(&mut self) -> (s: Rgb)
        requires
            old(self).wf(),
        ensures
            final(self).wf(),
            final(self).channels() == step_rgb(old(self).channels(), old(self).active()),
            final(self).active() == step_active(old(self).channels(), old(self).active()),
            s == sample_of(final(self).channels()),
    {
        if self.rgb[self.now_inclement] == COLOR_MAX {
            self.now_inclement += 1;
            self.now_inclement %= 3;
        }
        let i = self.now_inclement;
        let j = (i + 1) % 3;
        proof {
            assert(self.rgb@[i as int] + COLOR_STEP <= COLOR_MAX) by {
                assert((self.rgb@[i as int] - COLOR_MIN) % (COLOR_STEP as int) == 0);
            };
        }
        let vi = self.rgb[i];
        self.rgb[i] = vi + COLOR_STEP;
        let vj = self.rgb[j];
        self.rgb[j] = vj - COLOR_STEP;
        proof {
            assert(final(self).channels() =~= step_rgb(old(self).channels(), old(self).active()));
        }
        Rgb { r: self.rgb[0], g: self.rgb[1], b: self.rgb[2] }
    }

    /// Advances the sweep as `n` calls of `next` would, discarding the
    /// samples.
    pub fn skip(&mut self, n: usize)
        requires
            old(self).wf(),
        ensures
            final(self).wf(),
            (final(self).channels(), final(self).active()) == iter_state(
                old(self).channels(),
                old(self).active(),
                n as nat,
            ),
    {
        let mut k: usize = 0;
        while k < n
            invariant
                k <= n,
                self.wf(),
                (self.channels(), self.active()) == iter_state(
                    old(self).channels(),
                    old(self).active(),
                    k as nat,
                ),
            decreases n - k,
        {
            let _ = self.next();
            k += 1;
        }
    }
}

} // verus!
