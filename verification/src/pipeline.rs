//! The whole processing lane: intake accumulation, one verified cycle per
//! full sample window, and publication into the bridge with monotonic
//! sequence numbers.

use vstd::prelude::*;

use crate::bridge::{Event, SpectrumBridge};
use crate::config::{valid_config, Config};
use crate::fixed::FP_ONE;
use crate::frame::CycleError;
use crate::reducer::{bar_reduce_seq_spec, bar_reduction};
use crate::shaper::FrequencyShaper;
use crate::stabilizer::{
    gravity_seq_spec, history_avg_seq_spec, smooth_iter_seq_spec, TemporalStabilizer,
};
use crate::transform::{cropped_len_spec, lemma_cropped_len_le, mags_seq_spec, SpectralTransform};

verus! {

/// A snapshot of everything the pipeline mutates, for stating how one cycle
/// moves the state.
#[verifier::ext_equal]
pub ghost struct PipeState {
    pub intake: Seq<i64>,
    pub prev: Seq<u64>,
    pub history: Seq<Seq<u64>>,
    pub latest: Seq<u64>,
    pub latest_seq: int,
    pub has_frame: bool,
    pub next_seq: int,
}

/// The options that stay fixed for a pipeline instance's lifetime.
#[verifier::ext_equal]
pub ghost struct PipeParams {
    pub transform: SpectralTransform,
    pub shaper: FrequencyShaper,
    pub bar_reduction: u32,
    pub gravity: u32,
    pub buffering: u32,
    pub smoothing_size: u32,
    pub smoothing_amount: u32,
}

/// How one cycle on one sample window moves the pipeline's state: a window
/// of the wrong length, or one whose cropped spectrum would be empty, leaves
/// the state untouched; otherwise the window is transformed, shaped,
/// reduced, stabilized and published (the publish is discarded when it is
/// stale or breaks the session's bar count).
pub open spec fn cycle_state_spec(pp: PipeParams, st: PipeState, samples: Seq<i64>) -> PipeState {
    let n = pp.transform.resolution as int;
    let maxf = pp.transform.max_frequency as int;
    if samples.len() != n || cropped_len_spec(n, maxf) == 0 {
        st
    } else {
        let mags = mags_seq_spec(samples, pp.transform.windowing, n, maxf);
        let shaped = pp.shaper.shape_seq_spec(mags);
        let reduced = bar_reduce_seq_spec(shaped, pp.bar_reduction as int);
        let cap = if pp.buffering > 1 {
            pp.buffering as int
        } else {
            1
        };
        let pushed = st.history.push(reduced);
        let trimmed = pushed.subrange(
            if pushed.len() > cap {
                pushed.len() - cap
            } else {
                0
            },
            pushed.len() as int,
        );
        let avg = history_avg_seq_spec(trimmed);
        let decayed = gravity_seq_spec(avg, st.prev, pp.gravity as int);
        let stabilized = smooth_iter_seq_spec(
            decayed,
            pp.smoothing_size as int,
            pp.smoothing_amount as int,
        );
        let accepted = !st.has_frame || (st.next_seq > st.latest_seq && stabilized.len()
            == st.latest.len());
        PipeState {
            intake: st.intake,
            prev: decayed,
            history: trimmed,
            latest: if accepted {
                stabilized
            } else {
                st.latest
            },
            latest_seq: if accepted {
                st.next_seq
            } else {
                st.latest_seq
            },
            has_frame: st.has_frame || accepted,
            next_seq: if st.next_seq < u64::MAX {
                st.next_seq + 1
            } else {
                st.next_seq
            },
        }
    }
}

/// Folds `cycle_state_spec` over the intake: while a full window is
/// buffered, the window leaves the intake and runs one cycle.
pub open spec fn run_windows_spec(pp: PipeParams, st: PipeState) -> PipeState
    decreases st.intake.len(),
{
    let n = pp.transform.resolution as int;
    if n <= 0 || st.intake.len() < n {
        st
    } else {
        let window = st.intake.subrange(0, n);
        let rest = st.intake.subrange(n, st.intake.len() as int);
        let st1 = PipeState { intake: rest, ..st };
        run_windows_spec(pp, cycle_state_spec(pp, st1, window))
    }
}

/// One serialized processing lane: transform, shaper, reducer, stabilizer
/// and bridge, plus the intake buffer that gathers capture chunks until a
/// full transform window is ready.
pub struct Pipeline {
    pub transform: SpectralTransform,
    pub shaper: FrequencyShaper,
    pub stabilizer: TemporalStabilizer,
    pub bridge: SpectrumBridge,
    /// How often the bar count is halved after shaping.
    pub bar_reduction: u32,
    /// Samples accumulated towards the next transform window.
    pub intake: Vec<i64>,
    /// Sequence number the next published frame carries.
    pub next_seq: u64,
}

impl Pipeline {
    /// The mutable state as one value.
    pub open spec fn state(&self) -> PipeState {
        PipeState {
            intake: self.intake@,
            prev: self.stabilizer.prev@,
            history: self.stabilizer.history@.map_values(|f: Vec<u64>| f@),
            latest: self.bridge.latest@,
            latest_seq: self.bridge.latest_seq as int,
            has_frame: self.bridge.has_frame,
            next_seq: self.next_seq as int,
        }
    }

    /// The options every component was built from agree and are in range,
    /// and every component's own state bounds hold.
    pub open spec fn opts_ok(&self) -> bool {
        &&& self.transform.wf()
        &&& self.shaper.wf()
        &&& self.stabilizer.wf()
        &&& self.bridge.wf()
        &&& self.shaper.max_frequency == self.transform.max_frequency
        &&& self.bar_reduction <= 32
    }

    /// `opts_ok`, and the intake holds less than one window of bounded
    /// samples.
    pub open spec fn wf(&self) -> bool {
        &&& self.opts_ok()
        &&& self.intake@.len() < self.transform.resolution
        &&& forall|i: int|
            0 <= i < self.intake@.len() ==> -FP_ONE <= #[trigger] self.intake@[i] <= FP_ONE
    }

    /// The components' fixed options, as one value, for stating that a call
    /// leaves them alone.
    pub open spec fn params(&self) -> PipeParams {
        PipeParams {
            transform: self.transform,
            shaper: self.shaper,
            bar_reduction: self.bar_reduction,
            gravity: self.stabilizer.gravity,
            buffering: self.stabilizer.buffering,
            smoothing_size: self.stabilizer.smoothing_size,
            smoothing_amount: self.stabilizer.smoothing_amount,
        }
    }

    /// Builds a fresh pipeline from a validated configuration: no prior
    /// state, nothing published, sequence numbers from zero.
    pub fn new(c: &Config) -> (p: Pipeline)
        requires
            valid_config(*c),
        ensures
            p.wf(),
            p.transform.resolution == c.processing.resolution,
            p.transform.windowing == c.audio.pre_fft_windowing,
            p.transform.max_frequency == c.visual.max_frequency,
            p.shaper.normalisation_factoring == c.processing.normalisation_factoring,
            p.shaper.fav_frequency_range_low == c.processing.fav_frequency_range_low,
            p.shaper.fav_frequency_range_high == c.processing.fav_frequency_range_high,
            p.shaper.fav_frequency_doubling == c.processing.fav_frequency_doubling,
            p.shaper.low_frequency_threshold == c.processing.low_frequency_threshold,
            p.shaper.low_frequency_doubling == c.processing.low_frequency_doubling,
            p.shaper.low_frequency_smoothing == c.processing.low_frequency_smoothing,
            p.shaper.low_frequency_fading == c.processing.low_frequency_fading,
            p.stabilizer.gravity == c.processing.gravity,
            p.stabilizer.buffering == c.processing.buffering,
            p.stabilizer.smoothing_size == c.visual.smoothing_size,
            p.stabilizer.smoothing_amount == c.visual.smoothing_amount,
            p.bar_reduction == c.processing.bar_reduction,
            p.intake@.len() == 0,
            p.stabilizer.prev@.len() == 0,
            p.stabilizer.history@.len() == 0,
            !p.bridge.has_frame,
            p.next_seq == 0,
    {
        Pipeline {
            transform: SpectralTransform::new(
                c.processing.resolution as usize,
                c.audio.pre_fft_windowing,
                c.visual.max_frequency,
            ),
            shaper: FrequencyShaper::new(c),
            stabilizer: TemporalStabilizer::new(c),
            bridge: SpectrumBridge::new(),
            bar_reduction: c.processing.bar_reduction,
            intake: Vec::new(),
            next_seq: 0,
        }
    }

    /// Runs one full cycle on one window of samples: transform, shape,
    /// reduce, stabilize, publish. A window of the wrong length, or one
    /// whose cropped spectrum is empty, skips the cycle and leaves every
    /// piece of state exactly as it was.
    pub fn process_cycle(&mut self, samples: Vec<i64>) -> (r: Result<(), CycleError>)
        requires
            old(self).opts_ok(),
            forall|i: int|
                0 <= i < samples@.len() ==> -FP_ONE <= #[trigger] samples@[i] <= FP_ONE,
        ensures
            final(self).opts_ok(),
            final(self).params() == old(self).params(),
            final(self).intake@ == old(self).intake@,
            r == Result::<(), CycleError>::Err(CycleError::MismatchedBuffer) <==> samples@.len()
                != old(self).transform.resolution,
            r == Result::<(), CycleError>::Err(CycleError::EmptyFrame) <==> samples@.len() == old(self).transform.resolution && cropped_len_spec(
                old(self).transform.resolution as int,
                old(self).transform.max_frequency as int,
            ) == 0,
            final(self).state() == cycle_state_spec(
                old(self).params(),
                old(self).state(),
                samples@,
            ),
    {
        let mags = match self.transform.process(&samples) {
            Ok(m) => m,
            Err(e) => {
                return Err(e);
            },
        };
        proof {
            lemma_cropped_len_le(
                self.transform.resolution as int,
                self.transform.max_frequency as int,
            );
            assert(mags@ =~= mags_seq_spec(
                samples@,
                self.transform.windowing,
                self.transform.resolution as int,
                self.transform.max_frequency as int,
            ));
        }
        let mut reduced = match self.shaper.shape(mags) {
            Ok(s) => s,
            Err(e) => {
                return Err(e);
            },
        };
        bar_reduction(&mut reduced, self.bar_reduction);
        let ghost reduced_vec = reduced;
        let stabilized = self.stabilizer.stabilize(reduced);
        let seq = self.next_seq;
        let _accepted = self.bridge.publish(stabilized, seq);
        if self.next_seq < u64::MAX {
            self.next_seq = self.next_seq + 1;
        }
        proof {
            let hist0 = old(self).stabilizer.history@;
            assert(hist0.push(reduced_vec).map_values(|f: Vec<u64>| f@) =~= hist0.map_values(
                |f: Vec<u64>| f@,
            ).push(reduced_vec@));
            assert(self.state() =~= cycle_state_spec(
                old(self).params(),
                old(self).state(),
                samples@,
            ));
        }
        Ok(())
    }

    /// Accepts one capture chunk of any size: the samples join the intake,
    /// and every full window that is now available runs one cycle, in
    /// order. Returns how many cycles ran.
    #[verifier::loop_isolation(false)]
    pub fn feed(&mut self, chunk: Vec<i64>) -> (cycles: usize)
        requires
            old(self).wf(),
            forall|i: int| 0 <= i < chunk@.len() ==> -FP_ONE <= #[trigger] chunk@[i] <= FP_ONE,
            chunk@.len() <= 0x0010_0000,
        ensures
            final(self).wf(),
            final(self).params() == old(self).params(),
            ({
                let combined = old(self).intake@ + chunk@;
                let n = old(self).transform.resolution as int;
                &&& cycles == combined.len() as int / n
                &&& final(self).intake@ == combined.subrange(cycles * n, combined.len() as int)
            }),
            final(self).state() == run_windows_spec(
                old(self).params(),
                PipeState { intake: old(self).intake@ + chunk@, ..old(self).state() },
            ),
            cycles == 0 ==> final(self).state().prev == old(self).state().prev && final(self).state().history == old(self).state().history && final(self).state().latest == old(self).state().latest && final(self).state().has_frame == old(self).state().has_frame
                && final(self).next_seq == old(self).next_seq,
    {
        let ghost combined = old(self).intake@ + chunk@;
        let n = self.transform.resolution;
        let clen = chunk.len();
        let mut i: usize = 0;
        while i < clen
            invariant
                i <= clen,
                self.intake@ == old(self).intake@ + chunk@.subrange(0, i as int),
                self.transform == old(self).transform,
                self.shaper == old(self).shaper,
                self.stabilizer == old(self).stabilizer,
                self.bridge == old(self).bridge,
                self.bar_reduction == old(self).bar_reduction,
                self.next_seq == old(self).next_seq,
                forall|t: int|
                    0 <= t < self.intake@.len() ==> -FP_ONE <= #[trigger] self.intake@[t]
                        <= FP_ONE,
            decreases clen - i,
        {
            self.intake.push(chunk[i]);
            i = i + 1;
        }
        let ghost start_state = PipeState { intake: combined, ..old(self).state() };
        proof {
            assert(self.intake@ =~= combined);
            assert(forall|t: int|
                0 <= t < combined.len() ==> -FP_ONE <= #[trigger] combined[t] <= FP_ONE);
            assert(self.state() =~= start_state);
        }
        let mut cycles: usize = 0;
        while self.intake.len() >= n
            invariant
                self.opts_ok(),
                n == self.transform.resolution,
                forall|t: int|
                    0 <= t < self.intake@.len() ==> -FP_ONE <= #[trigger] self.intake@[t]
                        <= FP_ONE,
                forall|t: int|
                    0 <= t < combined.len() ==> -FP_ONE <= #[trigger] combined[t] <= FP_ONE,
                self.params() == old(self).params(),
                (cycles as int) * (n as int) <= combined.len(),
                self.intake@ == combined.subrange(
                    (cycles as int) * (n as int),
                    combined.len() as int,
                ),
                cycles == 0 ==> self.stabilizer == old(self).stabilizer && self.bridge == old(self).bridge && self.next_seq == old(self).next_seq,
                run_windows_spec(old(self).params(), start_state) == run_windows_spec(
                    old(self).params(),
                    self.state(),
                ),
            decreases self.intake@.len(),
        {
            let mut window: Vec<i64> = Vec::new();
            let mut t: usize = 0;
            while t < n
                invariant
                    t <= n,
                    n <= self.intake@.len(),
                    window@ == self.intake@.subrange(0, t as int),
                decreases n - t,
            {
                window.push(self.intake[t]);
                t = t + 1;
            }
            let mut rest: Vec<i64> = Vec::new();
            let mut t: usize = n;
            let ilen = self.intake.len();
            while t < ilen
                invariant
                    n <= t <= ilen,
                    ilen == self.intake@.len(),
                    rest@ == self.intake@.subrange(n as int, t as int),
                decreases ilen - t,
            {
                rest.push(self.intake[t]);
                t = t + 1;
            }
            let ghost before = self.intake@;
            let ghost state_before = self.state();
            self.intake = rest;
            let ghost state_mid = self.state();
            let _ = self.process_cycle(window);
            proof {
                assert(window@ =~= state_before.intake.subrange(
                    0,
                    old(self).transform.resolution as int,
                ));
                assert(state_mid =~= PipeState {
                    intake: state_before.intake.subrange(
                        old(self).transform.resolution as int,
                        state_before.intake.len() as int,
                    ),
                    ..state_before
                });
                assert(run_windows_spec(old(self).params(), state_before) == run_windows_spec(
                    old(self).params(),
                    cycle_state_spec(old(self).params(), state_mid, window@),
                ));
                assert(((cycles + 1) as int) * (n as int) == (cycles as int) * (n as int) + (
                n as int)) by (nonlinear_arith);
                assert((cycles as int) + 1 <= combined.len()) by (nonlinear_arith)
                    requires
                        ((cycles + 1) as int) * (n as int) <= combined.len(),
                        n as int >= 1,
                        cycles as int >= 0,
                ;
            }
            cycles = cycles + 1;
            proof {
                assert(self.intake@ =~= before.subrange(n as int, before.len() as int));
                assert(self.intake@ =~= combined.subrange(
                    (cycles as int) * (n as int),
                    combined.len() as int,
                ));
            }
        }
        proof {
            vstd::arithmetic::div_mod::lemma_fundamental_div_mod_converse(
                combined.len() as int,
                n as int,
                cycles as int,
                self.intake@.len() as int,
            );
        }
        cycles
    }

    /// Dispatches one message of the control loop: a capture chunk feeds
    /// the pipeline and answers nothing, a consume request answers with the
    /// bridge's current frame and changes nothing.
    pub fn handle_event(&mut self, event: Event) -> (reply: Option<Vec<u64>>)
        requires
            old(self).wf(),
            event matches Event::Push(chunk) ==> chunk@.len() <= 0x0010_0000 && forall|i: int|
                0 <= i < chunk@.len() ==> -FP_ONE <= #[trigger] chunk@[i] <= FP_ONE,
        ensures
            final(self).wf(),
            final(self).params() == old(self).params(),
            event matches Event::Consume ==> final(self).state() == old(self).state() && (
            reply matches Some(f) && f@ == old(self).bridge.latest@),
            event matches Event::Push(chunk) ==> reply is None && final(self).state()
                == run_windows_spec(
                old(self).params(),
                PipeState { intake: old(self).intake@ + chunk@, ..old(self).state() },
            ),
    {
        match event {
            Event::Push(chunk) => {
                let _ = self.feed(chunk);
                None
            },
            Event::Consume => Some(self.bridge.query()),
        }
    }
}

} // verus!
