//! The digital delay effect: per-channel processors, parameter state, and
//! the prepare / reset / process lifecycle.
//!
//! The effect starts unprepared; `prepare` allocates one delay line per
//! channel, sized for the longest supported delay at the given sample
//! rate; `process` then transforms a multi-channel block in place, each
//! channel independently through its own line, with the four parameters
//! read once per block.  Parameter setters validate their range and leave
//! the previous value intact on rejection, so a malformed update never
//! corrupts the running state.
//!
//! The observable state is `state()`, an `EffectState`: the parameter
//! values, the lifecycle flags, and each channel's delay history with its
//! cursor.  Every operation's contract pins the new state down in terms of
//! the old one.

use vstd::prelude::*;

verus! {

use crate::channel::BlockParams;
use crate::channel::ChannelProcessor;
use crate::channel::inputs_ok;
use crate::channel::off_in_range;
use crate::channel::params_ok;
use crate::channel::process_seq;
use crate::delay_line::hist_ok;
use crate::error::DelayError;
use crate::fixed::GAIN_LIMIT;
use crate::fixed::UNIT;

/// Shortest supported delay: 1 ms, in Q16 milliseconds.
pub const MIN_DELAY_MS: i64 = 65536;

/// Longest supported delay: 1000 ms, in Q16 milliseconds.
pub const MAX_DELAY_MS: i64 = 65536000;

/// Highest supported sample rate in Hz (a machine limit: it keeps the
/// delay-line capacity and the offset arithmetic inside `i64`).
pub const MAX_SAMPLE_RATE: u32 = 1000000;

/// Extra delay-line samples beyond the longest delay, so that linear
/// interpolation always has a neighbour to blend with.
pub const INTERP_MARGIN: usize = 2;

/// Default delay time: 50 ms.
pub const DEFAULT_DELAY_MS: i64 = 3276800;

/// Default feedback: none.
pub const DEFAULT_FEEDBACK: i64 = 0;

/// Default dry gain: unity (0 dB).
pub const DEFAULT_DRY_GAIN: i64 = 65536;

/// Default wet gain: one tenth of unity (-20 dB).
pub const DEFAULT_WET_GAIN: i64 = 6554;

/// The observable state of one channel's delay line.
#[verifier::ext_equal]
pub struct LineState {
    /// Stored samples, newest first.
    pub hist: Seq<i64>,
    /// The write cursor's position inside the circular buffer.
    pub cursor: int,
}

/// The observable state of the whole effect.
#[verifier::ext_equal]
pub struct EffectState {
    pub delay_ms: int,
    pub feedback: int,
    pub dry_gain: int,
    pub wet_gain: int,
    pub sample_rate: int,
    pub max_block_size: int,
    pub num_channels: int,
    pub prepared: bool,
    pub lines: Seq<LineState>,
}

/// The state `reset` leaves behind: every line cleared, all else kept.
pub open spec fn reset_state(s: EffectState) -> EffectState {
    EffectState {
        lines: Seq::new(s.lines.len(), |c: int| LineState {
            hist: Seq::new(s.lines[c].hist.len(), |j: int| 0i64),
            cursor: 0,
        }),
        ..s
    }
}

/// Resetting twice is resetting once: the cleared state is a fixed point.
pub proof fn lemma_reset_idempotent(s: EffectState)
    ensures
        reset_state(reset_state(s)) == reset_state(s),
{
    assert(reset_state(reset_state(s)) =~~= reset_state(s));
}

/// The parameters a block is processed with, derived from the state the
/// effect holds when `process` is called.
pub open spec fn block_params(s: EffectState) -> BlockParams {
    BlockParams {
        off: delay_offset(s.delay_ms, s.sample_rate),
        fb: s.feedback,
        dry: s.dry_gain,
        wet: s.wet_gain,
    }
}

/// Block-size invariance at the effect level: two consecutive `process`
/// calls with unchanged parameters behave, on every channel, exactly like
/// one call on the concatenated block — the second call picks up the
/// history the first one left, and the outputs concatenate.
pub proof fn lemma_block_split(hist: Seq<i64>, xs: Seq<i64>, ys: Seq<i64>, s: EffectState)
    ensures
        process_seq(hist, xs + ys, block_params(s)).0
            == process_seq(process_seq(hist, xs, block_params(s)).0, ys, block_params(s)).0,
        process_seq(hist, xs + ys, block_params(s)).1
            =~= process_seq(hist, xs, block_params(s)).1
                + process_seq(process_seq(hist, xs, block_params(s)).0, ys, block_params(s)).1,
{
    crate::channel::lemma_process_seq_append(hist, xs, ys, block_params(s));
}

/// The read offset in Q16 samples: milliseconds times rate over 1000,
/// clamped so a read can never overrun the line's interpolation margin.
pub open spec fn delay_offset(delay_ms: int, rate: int) -> int {
    let raw = (delay_ms * rate) / 1000;
    let max = rate * (UNIT as int);
    if raw > max {
        max
    } else {
        raw
    }
}

/// A digital delay effect over a fixed number of channels.
pub struct DigitalDelayEffect {
    channels: Vec<ChannelProcessor>,
    num_channels: usize,
    sample_rate: u32,
    max_block_size: usize,
    prepared: bool,
    delay_ms: i64,
    feedback: i64,
    dry_gain: i64,
    wet_gain: i64,
}

impl DigitalDelayEffect {
    /// The effect's observable state.
    pub closed spec fn state(self) -> EffectState {
        EffectState {
            delay_ms: self.delay_ms as int,
            feedback: self.feedback as int,
            dry_gain: self.dry_gain as int,
            wet_gain: self.wet_gain as int,
            sample_rate: self.sample_rate as int,
            max_block_size: self.max_block_size as int,
            num_channels: self.num_channels as int,
            prepared: self.prepared,
            lines: Seq::new(self.channels@.len(), |c: int| LineState {
                hist: self.channels@[c].history(),
                cursor: self.channels@[c].cursor_pos(),
            }),
        }
    }

    /// Well-formedness: parameters always in range; when prepared, one
    /// well-formed line per channel, each sized for the longest delay at
    /// the prepared rate.
    pub closed spec fn wf(self) -> bool {
        &&& MIN_DELAY_MS <= self.delay_ms <= MAX_DELAY_MS
        &&& 0 <= self.feedback <= UNIT
        &&& 0 <= self.dry_gain <= GAIN_LIMIT
        &&& 0 <= self.wet_gain <= GAIN_LIMIT
        &&& self.channels@.len() == if self.prepared { self.num_channels as int } else { 0int }
        &&& self.prepared ==> {
            &&& 1 <= self.sample_rate <= MAX_SAMPLE_RATE
            &&& self.max_block_size >= 1
            &&& forall|c: int| 0 <= c < self.channels@.len() ==> {
                &&& (#[trigger] self.channels@[c]).wf()
                &&& self.channels@[c].capacity()
                    == self.sample_rate + INTERP_MARGIN
            }
        }
    }

    /// Whether `prepare` has succeeded since construction.
    pub open spec fn is_ready(self) -> bool {
        self.state().prepared
    }

    /// What well-formedness guarantees of the observable state: parameter
    /// values in range, block parameters fit for every line, and — once
    /// prepared — one line per channel, each sized for the longest delay
    /// at the prepared rate with its read offset inside the interpolation
    /// margin.  Callers outside the crate use this to apply the channel
    /// laws to any reachable state.
    pub proof fn lemma_wf_state(self)
        requires
            self.wf(),
        ensures
            MIN_DELAY_MS <= self.state().delay_ms <= MAX_DELAY_MS,
            0 <= self.state().feedback <= UNIT,
            0 <= self.state().dry_gain <= GAIN_LIMIT,
            0 <= self.state().wet_gain <= GAIN_LIMIT,
            params_ok(block_params(self.state())),
            self.state().lines.len()
                == if self.state().prepared { self.state().num_channels } else { 0int },
            self.state().prepared ==> {
                &&& 1 <= self.state().sample_rate <= MAX_SAMPLE_RATE
                &&& self.state().max_block_size >= 1
                &&& forall|c: int| 0 <= c < self.state().lines.len() ==> {
                    &&& (#[trigger] self.state().lines[c]).hist.len()
                        == self.state().sample_rate + INTERP_MARGIN
                    &&& hist_ok(self.state().lines[c].hist)
                    &&& 0 <= self.state().lines[c].cursor < self.state().lines[c].hist.len()
                    &&& off_in_range(block_params(self.state()).off,
                        self.state().lines[c].hist.len() as int)
                }
            },
    {
        let s = self.state();
        let raw = (s.delay_ms * s.sample_rate) / 1000;
        assert(0 <= s.delay_ms * s.sample_rate) by (nonlinear_arith)
            requires 0 <= s.delay_ms && 0 <= s.sample_rate;
        vstd::arithmetic::div_mod::lemma_div_pos_is_pos(s.delay_ms * s.sample_rate, 1000int);
        assert(0 <= s.sample_rate * (UNIT as int)) by (nonlinear_arith)
            requires 0 <= s.sample_rate;
        assert forall|c: int| 0 <= c < self.channels@.len() implies {
            &&& (#[trigger] self.state().lines[c]).hist.len()
                == self.state().sample_rate + INTERP_MARGIN
            &&& hist_ok(self.state().lines[c].hist)
            &&& 0 <= self.state().lines[c].cursor < self.state().lines[c].hist.len()
        } by {
            self.channels@[c].lemma_wf_history();
        }
    }

    /// A new, unprepared effect for `num_channels` channels, holding the
    /// default parameter values.
    pub fn new(num_channels: usize) -> (e: DigitalDelayEffect)
        ensures
            e.wf(),
            !e.state().prepared,
            e.state().num_channels == num_channels,
            e.state().delay_ms == DEFAULT_DELAY_MS,
            e.state().feedback == DEFAULT_FEEDBACK,
            e.state().dry_gain == DEFAULT_DRY_GAIN,
            e.state().wet_gain == DEFAULT_WET_GAIN,
            e.state().lines.len() == 0,
    {
        DigitalDelayEffect {
            channels: Vec::new(),
            num_channels,
            sample_rate: 0,
            max_block_size: 0,
            prepared: false,
            delay_ms: DEFAULT_DELAY_MS,
            feedback: DEFAULT_FEEDBACK,
            dry_gain: DEFAULT_DRY_GAIN,
            wet_gain: DEFAULT_WET_GAIN,
        }
    }

    /// (Re)allocates each channel's delay line for the longest supported
    /// delay at `sample_rate`, plus interpolation margin, and clears them.
    /// Refuses a zero sample rate (and one beyond the supported cap) with
    /// `InvalidSampleRate`; parameters are untouched either way.
    pub fn prepare(&mut self, sample_rate: u32, max_block_size: usize)
        -> (r: Result<(), DelayError>)
        requires
            old(self).wf(),
            max_block_size >= 1,
        ensures
            final(self).wf(),
            (sample_rate == 0 || sample_rate > MAX_SAMPLE_RATE)
                <==> r == Result::<(), DelayError>::Err(DelayError::InvalidSampleRate),
            r matches Err(e) ==> e == DelayError::InvalidSampleRate
                && *final(self) == *old(self),
            r matches Ok(_) ==> final(self).state() == (EffectState {
                sample_rate: sample_rate as int,
                max_block_size: max_block_size as int,
                prepared: true,
                lines: Seq::new(old(self).state().num_channels as nat, |c: int| LineState {
                    hist: Seq::new((sample_rate + INTERP_MARGIN) as nat, |j: int| 0i64),
                    cursor: 0,
                }),
                ..old(self).state()
            }),
    {
        if sample_rate == 0 || sample_rate > MAX_SAMPLE_RATE {
            return Err(DelayError::InvalidSampleRate);
        }
        let capacity: usize = (sample_rate as usize) + INTERP_MARGIN;
        let n = self.num_channels;
        let mut chans: Vec<ChannelProcessor> = Vec::new();
        let mut i: usize = 0;
        while i < n
            invariant
                i <= n,
                chans@.len() == i,
                3 <= capacity <= crate::delay_line::MAX_CAPACITY,
                capacity == sample_rate + INTERP_MARGIN,
                1 <= sample_rate <= MAX_SAMPLE_RATE,
                forall|c: int| 0 <= c < i ==> {
                    &&& (#[trigger] chans@[c]).wf()
                    &&& chans@[c].capacity() == capacity
                    &&& chans@[c].cursor_pos() == 0
                    &&& chans@[c].history() =~= Seq::new(capacity as nat, |j: int| 0i64)
                },
            decreases n - i,
        {
            match ChannelProcessor::with_capacity(capacity) {
                Ok(c) => chans.push(c),
                Err(_) => {
                    proof {
                        assert(false);
                    }
                    return Err(DelayError::InvalidSampleRate);
                },
            }
            i = i + 1;
        }
        self.channels = chans;
        self.sample_rate = sample_rate;
        self.max_block_size = max_block_size;
        self.prepared = true;
        proof {
            assert(self.state() =~~= (EffectState {
                sample_rate: sample_rate as int,
                max_block_size: max_block_size as int,
                prepared: true,
                lines: Seq::new(old(self).state().num_channels as nat, |c: int| LineState {
                    hist: Seq::new((sample_rate + INTERP_MARGIN) as nat, |j: int| 0i64),
                    cursor: 0,
                }),
                ..old(self).state()
            }));
        }
        Ok(())
    }

    /// Clears every channel's delay line, so no stale echo tail survives a
    /// transport jump.  Parameter values are untouched.
    pub fn reset(&mut self)
        requires
            old(self).wf(),
        ensures
            final(self).wf(),
            final(self).state() == reset_state(old(self).state()),
    {
        let n = self.channels.len();
        let mut i: usize = 0;
        while i < n
            invariant
                i <= n,
                old(self).wf(),
                old(self).channels@.len() == n,
                self.channels@.len() == n,
                self.num_channels == old(self).num_channels,
                self.sample_rate == old(self).sample_rate,
                self.max_block_size == old(self).max_block_size,
                self.prepared == old(self).prepared,
                self.delay_ms == old(self).delay_ms,
                self.feedback == old(self).feedback,
                self.dry_gain == old(self).dry_gain,
                self.wet_gain == old(self).wet_gain,
                forall|c: int| i <= c < n ==>
                    #[trigger] self.channels@[c] == old(self).channels@[c],
                forall|c: int| 0 <= c < i ==> {
                    &&& (#[trigger] self.channels@[c]).wf()
                    &&& self.channels@[c].capacity() == old(self).channels@[c].capacity()
                    &&& self.channels@[c].cursor_pos() == 0
                    &&& self.channels@[c].history() =~= Seq::new(
                        old(self).channels@[c].history().len(), |j: int| 0i64)
                },
            decreases n - i,
        {
            let ghost pre = self.channels@;
            let mut c = self.channels.remove(i);
            proof {
                assert(c == old(self).channels@[i as int]);
                assert(c.wf()) by {
                    if !old(self).prepared {
                        assert(false);
                    }
                }
                c.lemma_wf_history();
            }
            c.reset();
            self.channels.insert(i, c);
            proof {
                assert(self.channels@ =~= pre.update(i as int, c));
            }
            i = i + 1;
        }
        proof {
            assert(self.state() =~~= reset_state(old(self).state()));
        }
    }

    /// Sets the delay time in Q16 milliseconds; refuses values outside
    /// [1 ms, 1000 ms] with `ParameterOutOfRange`, keeping the old value.
    pub fn set_delay_time(&mut self, ms: i64) -> (r: Result<(), DelayError>)
        requires
            old(self).wf(),
        ensures
            final(self).wf(),
            MIN_DELAY_MS <= ms <= MAX_DELAY_MS ==> r == Result::<(), DelayError>::Ok(())
                && final(self).state() == (EffectState {
                    delay_ms: ms as int,
                    ..old(self).state()
                }),
            !(MIN_DELAY_MS <= ms <= MAX_DELAY_MS)
                ==> r == Result::<(), DelayError>::Err(DelayError::ParameterOutOfRange)
                    && *final(self) == *old(self),
    {
        if ms < MIN_DELAY_MS || ms > MAX_DELAY_MS {
            return Err(DelayError::ParameterOutOfRange);
        }
        self.delay_ms = ms;
        proof {
            assert(self.state() =~~= (EffectState {
                delay_ms: ms as int,
                ..old(self).state()
            }));
        }
        Ok(())
    }

    /// Sets the feedback gain; refuses values outside [0, 1] (Q16) with
    /// `ParameterOutOfRange`, keeping the old value.  Unity feedback is a
    /// legal, non-decaying echo.
    pub fn set_feedback(&mut self, gain: i64) -> (r: Result<(), DelayError>)
        requires
            old(self).wf(),
        ensures
            final(self).wf(),
            0 <= gain <= UNIT ==> r == Result::<(), DelayError>::Ok(())
                && final(self).state() == (EffectState {
                    feedback: gain as int,
                    ..old(self).state()
                }),
            !(0 <= gain <= UNIT)
                ==> r == Result::<(), DelayError>::Err(DelayError::ParameterOutOfRange)
                    && *final(self) == *old(self),
    {
        if gain < 0 || gain > UNIT {
            return Err(DelayError::ParameterOutOfRange);
        }
        self.feedback = gain;
        proof {
            assert(self.state() =~~= (EffectState {
                feedback: gain as int,
                ..old(self).state()
            }));
        }
        Ok(())
    }

    /// Sets the dry gain; refuses negative values and values beyond the
    /// headroom cap with `ParameterOutOfRange`, keeping the old value.
    pub fn set_dry_gain(&mut self, gain: i64) -> (r: Result<(), DelayError>)
        requires
            old(self).wf(),
        ensures
            final(self).wf(),
            0 <= gain <= GAIN_LIMIT ==> r == Result::<(), DelayError>::Ok(())
                && final(self).state() == (EffectState {
                    dry_gain: gain as int,
                    ..old(self).state()
                }),
            !(0 <= gain <= GAIN_LIMIT)
                ==> r == Result::<(), DelayError>::Err(DelayError::ParameterOutOfRange)
                    && *final(self) == *old(self),
    {
        if gain < 0 || gain > GAIN_LIMIT {
            return Err(DelayError::ParameterOutOfRange);
        }
        self.dry_gain = gain;
        proof {
            assert(self.state() =~~= (EffectState {
                dry_gain: gain as int,
                ..old(self).state()
            }));
        }
        Ok(())
    }

    /// Sets the wet gain; refuses negative values and values beyond the
    /// headroom cap with `ParameterOutOfRange`, keeping the old value.
    pub fn set_wet_gain(&mut self, gain: i64) -> (r: Result<(), DelayError>)
        requires
            old(self).wf(),
        ensures
            final(self).wf(),
            0 <= gain <= GAIN_LIMIT ==> r == Result::<(), DelayError>::Ok(())
                && final(self).state() == (EffectState {
                    wet_gain: gain as int,
                    ..old(self).state()
                }),
            !(0 <= gain <= GAIN_LIMIT)
                ==> r == Result::<(), DelayError>::Err(DelayError::ParameterOutOfRange)
                    && *final(self) == *old(self),
    {
        if gain < 0 || gain > GAIN_LIMIT {
            return Err(DelayError::ParameterOutOfRange);
        }
        self.wet_gain = gain;
        proof {
            assert(self.state() =~~= (EffectState {
                wet_gain: gain as int,
                ..old(self).state()
            }));
        }
        Ok(())
    }

    /// The current delay time in Q16 milliseconds.
    pub fn delay_time(&self) -> (r: i64)
        ensures
            r as int == self.state().delay_ms,
    {
        self.delay_ms
    }

    /// The current feedback gain in Q16.
    pub fn feedback(&self) -> (r: i64)
        ensures
            r as int == self.state().feedback,
    {
        self.feedback
    }

    /// The current dry gain in Q16.
    pub fn dry_gain(&self) -> (r: i64)
        ensures
            r as int == self.state().dry_gain,
    {
        self.dry_gain
    }

    /// The current wet gain in Q16.
    pub fn wet_gain(&self) -> (r: i64)
        ensures
            r as int == self.state().wet_gain,
    {
        self.wet_gain
    }

    /// How many channels the effect was built for.
    pub fn channel_count(&self) -> (r: usize)
        ensures
            r as int == self.state().num_channels,
    {
        self.num_channels
    }

    /// Whether `prepare` has succeeded since construction.
    pub fn is_prepared(&self) -> (r: bool)
        ensures
            r == self.state().prepared,
    {
        self.prepared
    }

    /// The block length cap given to the last successful `prepare`.
    pub fn max_block(&self) -> (r: usize)
        ensures
            r as int == self.state().max_block_size,
    {
        self.max_block_size
    }

    /// Processes one multi-channel block in place.  Each channel runs
    /// independently through its own delay line under the parameters held
    /// at entry; the exact transform is `process_seq`.  Refuses a buffer
    /// with the wrong channel count (`ChannelCountMismatch`) or a channel
    /// longer than the prepared maximum (`BlockTooLarge`) before touching
    /// a single sample; a prepared effect with a well-shaped buffer is
    /// never refused.
    pub fn process(&mut self, buffer: &mut Vec<Vec<i64>>) -> (r: Result<(), DelayError>)
        requires
            old(self).wf(),
            old(self).is_ready(),
            forall|c: int| 0 <= c < old(buffer)@.len()
                ==> inputs_ok(#[trigger] old(buffer)@[c]@),
        ensures
            final(self).wf(),
            final(self).is_ready(),
            old(buffer)@.len() != old(self).state().num_channels
                <==> r == Result::<(), DelayError>::Err(DelayError::ChannelCountMismatch),
            (old(buffer)@.len() == old(self).state().num_channels
                && exists|c: int| 0 <= c < old(buffer)@.len()
                    && (#[trigger] old(buffer)@[c]@.len()) > old(self).state().max_block_size)
                <==> r == Result::<(), DelayError>::Err(DelayError::BlockTooLarge),
            r matches Err(e) ==> e == DelayError::ChannelCountMismatch
                || e == DelayError::BlockTooLarge,
            r matches Err(_) ==> *final(self) == *old(self) && *final(buffer) == *old(buffer),
            r matches Ok(_) ==> {
                let p = block_params(old(self).state());
                &&& final(self).state() == (EffectState {
                    lines: final(self).state().lines,
                    ..old(self).state()
                })
                &&& final(self).state().lines.len() == old(self).state().lines.len()
                &&& final(buffer)@.len() == old(buffer)@.len()
                &&& forall|c: int| 0 <= c < old(buffer)@.len() ==> {
                    &&& (#[trigger] final(buffer)@[c]@) =~= process_seq(
                        old(self).state().lines[c].hist, old(buffer)@[c]@, p).1
                    &&& final(self).state().lines[c].hist =~= process_seq(
                        old(self).state().lines[c].hist, old(buffer)@[c]@, p).0
                    &&& final(self).state().lines[c].cursor
                        == (old(self).state().lines[c].cursor + old(buffer)@[c]@.len())
                            % (old(self).state().lines[c].hist.len() as int)
                    &&& inputs_ok(final(buffer)@[c]@)
                }
            },
    {
        let n = self.channels.len();
        if buffer.len() != n {
            return Err(DelayError::ChannelCountMismatch);
        }
        let mut c: usize = 0;
        while c < n
            invariant
                c <= n,
                buffer@.len() == n,
                buffer == old(buffer),
                self == old(self),
                self.channels@.len() == n,
                self.prepared,
                self.wf(),
                forall|j: int| 0 <= j < c
                    ==> (#[trigger] buffer@[j]@.len()) <= self.max_block_size,
            decreases n - c,
        {
            if buffer[c].len() > self.max_block_size {
                return Err(DelayError::BlockTooLarge);
            }
            c = c + 1;
        }
        let off = compute_offset(self.delay_ms, self.sample_rate);
        let fb = self.feedback;
        let dry = self.dry_gain;
        let wet = self.wet_gain;
        let ghost p = block_params(old(self).state());
        let mut c: usize = 0;
        while c < n
            invariant
                c <= n,
                buffer@.len() == n,
                self.channels@.len() == n,
                self.num_channels == old(self).num_channels,
                self.sample_rate == old(self).sample_rate,
                self.max_block_size == old(self).max_block_size,
                self.prepared == old(self).prepared,
                self.prepared,
                self.delay_ms == old(self).delay_ms,
                self.feedback == old(self).feedback,
                self.dry_gain == old(self).dry_gain,
                self.wet_gain == old(self).wet_gain,
                off as int == p.off,
                fb as int == p.fb,
                dry as int == p.dry,
                wet as int == p.wet,
                0 <= off,
                off as int <= old(self).sample_rate * (UNIT as int),
                0 <= fb <= UNIT,
                0 <= dry <= GAIN_LIMIT,
                0 <= wet <= GAIN_LIMIT,
                1 <= self.sample_rate <= MAX_SAMPLE_RATE,
                forall|j: int| 0 <= j < n
                    ==> inputs_ok(#[trigger] old(buffer)@[j]@),
                forall|j: int| c <= j < n ==> {
                    &&& #[trigger] self.channels@[j] == old(self).channels@[j]
                    &&& buffer@[j] == old(buffer)@[j]
                },
                forall|j: int| 0 <= j < n ==> {
                    &&& (#[trigger] self.channels@[j]).wf()
                    &&& self.channels@[j].capacity()
                        == self.sample_rate + INTERP_MARGIN
                },
                forall|j: int| 0 <= j < c ==> {
                    &&& (#[trigger] buffer@[j]@) =~= process_seq(
                        old(self).channels@[j].history(), old(buffer)@[j]@, p).1
                    &&& self.channels@[j].history() =~= process_seq(
                        old(self).channels@[j].history(), old(buffer)@[j]@, p).0
                    &&& self.channels@[j].cursor_pos()
                        == (old(self).channels@[j].cursor_pos() + old(buffer)@[j]@.len())
                            % (old(self).sample_rate + INTERP_MARGIN)
                    &&& inputs_ok(buffer@[j]@)
                },
            decreases n - c,
        {
            let ghost pre_ch = self.channels@;
            let ghost pre_buf = buffer@;
            let mut proc = self.channels.remove(c);
            let mut io = buffer.remove(c);
            proof {
                assert(proc == old(self).channels@[c as int]);
                assert(io == old(buffer)@[c as int]);
                proc.lemma_wf_history();
                assert(crate::channel::off_in_range(off as int, proc.capacity()));
            }
            proc.process_block(&mut io, off, fb, dry, wet);
            buffer.insert(c, io);
            self.channels.insert(c, proc);
            proof {
                assert(self.channels@ =~= pre_ch.update(c as int, proc));
                assert(buffer@ =~= pre_buf.update(c as int, io));
                assert forall|j: int| c + 1 <= j < n implies
                    #[trigger] self.channels@[j] == old(self).channels@[j]
                        && buffer@[j] == old(buffer)@[j] by {
                    assert(self.channels@[j] == pre_ch[j]);
                    assert(buffer@[j] == pre_buf[j]);
                }
            }
            c = c + 1;
        }
        proof {
            assert(self.state() == (EffectState {
                lines: self.state().lines,
                ..old(self).state()
            })) by {
                assert(self.state() =~~= (EffectState {
                    lines: self.state().lines,
                    ..old(self).state()
                }));
            }
            assert forall|c: int| 0 <= c < n implies
                (#[trigger] old(self).state().lines[c]).hist.len()
                    == old(self).sample_rate + INTERP_MARGIN by {
                old(self).channels@[c].lemma_wf_history();
            }
        }
        Ok(())
    }
}

/// Executable form of `delay_offset`, exact by construction.
fn compute_offset(delay_ms: i64, rate: u32) -> (off: i64)
    requires
        MIN_DELAY_MS <= delay_ms <= MAX_DELAY_MS,
        1 <= rate <= MAX_SAMPLE_RATE,
    ensures
        off as int == delay_offset(delay_ms as int, rate as int),
        0 <= off <= rate * (UNIT as int),
{
    proof {
        assert(delay_ms * rate <= MAX_DELAY_MS * (MAX_SAMPLE_RATE as int)
            && 0 <= delay_ms * rate) by (nonlinear_arith)
            requires 0 <= delay_ms <= MAX_DELAY_MS && 1 <= rate <= MAX_SAMPLE_RATE;
        vstd::arithmetic::div_mod::lemma_div_pos_is_pos(
            delay_ms as int * rate as int, 1000int);
        vstd::arithmetic::div_mod::lemma_div_is_ordered(
            delay_ms as int * rate as int,
            MAX_DELAY_MS * (MAX_SAMPLE_RATE as int), 1000int);
        assert(rate * (UNIT as int) <= (MAX_SAMPLE_RATE as int) * (UNIT as int))
            by (nonlinear_arith)
            requires 1 <= rate <= MAX_SAMPLE_RATE;
        assert(0 <= rate * (UNIT as int)) by (nonlinear_arith)
            requires 1 <= rate;
    }
    let raw_u: u64 = ((delay_ms as u64) * (rate as u64)) / 1000;
    let raw: i64 = raw_u as i64;
    let max_u: u64 = (rate as u64) * (UNIT as u64);
    let max: i64 = max_u as i64;
    if raw > max {
        max
    } else {
        raw
    }
}

} // verus!
