//! One audio channel: a delay line plus feedback and dry/wet mixing.
//!
//! Per sample the channel (1) reads the delayed value at the current
//! offset, (2) writes the input plus the feedback-scaled delayed value
//! back into the line, and (3) outputs dry-scaled input plus wet-scaled
//! delayed value.  The value read in step 1 comes from the previous
//! write, so there is never a same-sample feedback loop.
//!
//! The whole block transform is the spec function `process_seq`, a fold of
//! the one-sample step over the input sequence; every executable path and
//! every law below is stated against it.

use vstd::prelude::*;

verus! {

use crate::delay_line::DelayLine;
use crate::delay_line::hist_ok;
use crate::delay_line::shift_in;
use crate::error::DelayError;
use crate::fixed::GAIN_LIMIT;
use crate::fixed::SAMPLE_LIMIT;
use crate::fixed::UNIT;
use crate::fixed::fx_scale;
use crate::fixed::sat;
use crate::fixed::lemma_fx_scale_bound;
use crate::interp::read_spec;
use crate::interp::lemma_read_bound;

/// The block-constant parameters of one pass: read offset (Q16 samples),
/// feedback gain, dry gain and wet gain (all Q16).
pub struct BlockParams {
    pub off: int,
    pub fb: int,
    pub dry: int,
    pub wet: int,
}

/// Parameter ranges the engine guarantees: offset non-negative, feedback
/// at most unity, mix gains capped at the headroom limit.
pub open spec fn params_ok(p: BlockParams) -> bool {
    &&& 0 <= p.off
    &&& 0 <= p.fb <= UNIT
    &&& 0 <= p.dry <= GAIN_LIMIT
    &&& 0 <= p.wet <= GAIN_LIMIT
}

/// The offset leaves the interpolation margin of a history of length `n`.
pub open spec fn off_in_range(off: int, n: int) -> bool {
    off < (n - 1) * UNIT
}

/// What one sample writes back into the line: input plus feedback-scaled
/// delayed value, saturated to headroom.
pub open spec fn step_write(h: Seq<i64>, x: i64, p: BlockParams) -> int {
    sat(x + fx_scale(read_spec(h, p.off), p.fb))
}

/// The history after one sample.
pub open spec fn step_hist(h: Seq<i64>, x: i64, p: BlockParams) -> Seq<i64> {
    shift_in(h, step_write(h, x, p) as i64)
}

/// What one sample outputs: dry-scaled input plus wet-scaled delayed
/// value, saturated to headroom.
pub open spec fn step_out(h: Seq<i64>, x: i64, p: BlockParams) -> int {
    sat(fx_scale(x as int, p.dry) + fx_scale(read_spec(h, p.off), p.wet))
}

/// A whole pass over `xs` from history `h`: the final history and the
/// output sequence, front sample first.
pub open spec fn process_seq(h: Seq<i64>, xs: Seq<i64>, p: BlockParams)
    -> (Seq<i64>, Seq<i64>)
    decreases xs.len(),
{
    if xs.len() == 0 {
        (h, Seq::<i64>::empty())
    } else {
        let y = step_out(h, xs[0], p) as i64;
        let rest = process_seq(step_hist(h, xs[0], p), xs.drop_first(), p);
        (rest.0, seq![y] + rest.1)
    }
}

/// Every input sample lies within the engine's headroom.
pub open spec fn inputs_ok(xs: Seq<i64>) -> bool {
    forall|i: int| 0 <= i < xs.len() ==>
        -SAMPLE_LIMIT <= #[trigger] xs[i] as int <= SAMPLE_LIMIT
}

/// A pass keeps the history length, yields one output per input, and
/// keeps every history entry and output within headroom.
pub proof fn lemma_process_seq_shape(h: Seq<i64>, xs: Seq<i64>, p: BlockParams)
    requires
        hist_ok(h),
        params_ok(p),
        off_in_range(p.off, h.len() as int),
        inputs_ok(xs),
    ensures
        process_seq(h, xs, p).0.len() == h.len(),
        process_seq(h, xs, p).1.len() == xs.len(),
        hist_ok(process_seq(h, xs, p).0),
        inputs_ok(process_seq(h, xs, p).1),
    decreases xs.len(),
{
    if xs.len() > 0 {
        lemma_step_ok(h, xs[0], p);
        lemma_process_seq_shape(step_hist(h, xs[0], p), xs.drop_first(), p);
    }
}

/// One step preserves well-formedness of the history.
pub proof fn lemma_step_ok(h: Seq<i64>, x: i64, p: BlockParams)
    requires
        hist_ok(h),
        params_ok(p),
        off_in_range(p.off, h.len() as int),
        -SAMPLE_LIMIT <= x as int <= SAMPLE_LIMIT,
    ensures
        step_hist(h, x, p).len() == h.len(),
        hist_ok(step_hist(h, x, p)),
        -SAMPLE_LIMIT <= step_write(h, x, p) <= SAMPLE_LIMIT,
        -SAMPLE_LIMIT <= step_out(h, x, p) <= SAMPLE_LIMIT,
{
    crate::fixed::lemma_div_strict_upper(p.off, h.len() - 1, UNIT as int);
    lemma_read_bound(h, p.off, SAMPLE_LIMIT as int);
    let h2 = step_hist(h, x, p);
    assert forall|i: int| 0 <= i < h2.len() implies
        -SAMPLE_LIMIT <= #[trigger] h2[i] as int <= SAMPLE_LIMIT by {
        if i > 0 {
            assert(h2[i] == h[i - 1]);
        }
    }
}

/// A channel processor: one delay line driven by the per-sample step.
pub struct ChannelProcessor {
    line: DelayLine,
}

impl ChannelProcessor {
    /// The channel's delay history, newest sample first.
    pub closed spec fn history(self) -> Seq<i64> {
        self.line.history()
    }

    /// The capacity of the channel's delay line.
    pub closed spec fn capacity(self) -> int {
        self.line.capacity()
    }

    /// The delay line's cursor; part of the observable cleared state.
    pub closed spec fn cursor_pos(self) -> int {
        self.line.cursor_pos()
    }

    pub closed spec fn wf(self) -> bool {
        self.line.wf()
    }

    /// A well-formed channel's history has one entry per stored sample,
    /// all within headroom, and its cursor sits inside the buffer.
    pub proof fn lemma_wf_history(self)
        requires
            self.wf(),
        ensures
            self.history().len() == self.capacity(),
            hist_ok(self.history()),
            0 <= self.cursor_pos() < self.capacity(),
    {
        self.line.lemma_wf_history();
    }

    /// A channel with `capacity` samples of silent history.
    pub fn with_capacity(capacity: usize) -> (r: Result<ChannelProcessor, DelayError>)
        requires
            capacity <= crate::delay_line::MAX_CAPACITY,
        ensures
            capacity == 0 <==> r == Result::<ChannelProcessor, DelayError>::Err(
                DelayError::InvalidCapacity),
            r matches Err(e) ==> capacity == 0 && e == DelayError::InvalidCapacity,
            r matches Ok(c) ==> {
                &&& c.wf()
                &&& c.capacity() == capacity
                &&& c.cursor_pos() == 0
                &&& c.history() =~= Seq::new(capacity as nat, |j: int| 0i64)
            },
    {
        match DelayLine::create(capacity) {
            Ok(line) => Ok(ChannelProcessor { line }),
            Err(e) => Err(e),
        }
    }

    /// Runs the three-step algorithm for one sample and returns the output.
    pub fn process_sample(&mut self, x: i64, off: i64, fb: i64, dry: i64, wet: i64)
        -> (y: i64)
        requires
            old(self).wf(),
            -SAMPLE_LIMIT <= x <= SAMPLE_LIMIT,
            0 <= off,
            off_in_range(off as int, old(self).capacity()),
            0 <= fb <= UNIT,
            0 <= dry <= GAIN_LIMIT,
            0 <= wet <= GAIN_LIMIT,
        ensures
            final(self).wf(),
            final(self).capacity() == old(self).capacity(),
            final(self).cursor_pos()
                == (old(self).cursor_pos() + 1) % old(self).capacity(),
            ({
                let p = BlockParams {
                    off: off as int, fb: fb as int, dry: dry as int, wet: wet as int };
                &&& final(self).history() =~= step_hist(old(self).history(), x, p)
                &&& y == step_out(old(self).history(), x, p)
            }),
            -SAMPLE_LIMIT <= y <= SAMPLE_LIMIT,
    {
        proof {
            self.line.lemma_wf_history();
        }
        let delayed = self.line.read_at_offset(off);
        proof {
            lemma_fx_scale_bound(delayed as int, fb as int, SAMPLE_LIMIT as int);
        }
        let fed = crate::fixed::saturate(x + crate::fixed::scale(delayed, fb));
        self.line.write(fed);
        proof {
            let cap = old(self).capacity();
            let c0 = old(self).cursor_pos();
            if c0 + 1 == cap {
                vstd::arithmetic::div_mod::lemma_mod_self_0(cap);
            } else {
                vstd::arithmetic::div_mod::lemma_small_mod((c0 + 1) as nat, cap as nat);
            }
        }
        let mixed = crate::fixed::scale(x, dry) + crate::fixed::scale(delayed, wet);
        crate::fixed::saturate(mixed)
    }

    /// Runs one block in place: afterwards `io` holds the outputs and the
    /// history is exactly what `process_seq` says.
    pub fn process_block(&mut self, io: &mut Vec<i64>, off: i64, fb: i64, dry: i64, wet: i64)
        requires
            old(self).wf(),
            inputs_ok(old(io)@),
            0 <= off,
            off_in_range(off as int, old(self).capacity()),
            0 <= fb <= UNIT,
            0 <= dry <= GAIN_LIMIT,
            0 <= wet <= GAIN_LIMIT,
        ensures
            final(self).wf(),
            final(self).capacity() == old(self).capacity(),
            final(self).cursor_pos()
                == (old(self).cursor_pos() + old(io)@.len()) % old(self).capacity(),
            final(io)@.len() == old(io)@.len(),
            ({
                let p = BlockParams {
                    off: off as int, fb: fb as int, dry: dry as int, wet: wet as int };
                &&& final(self).history() =~= process_seq(old(self).history(), old(io)@, p).0
                &&& final(io)@ =~= process_seq(old(self).history(), old(io)@, p).1
            }),
            inputs_ok(final(io)@),
    {
        let ghost p = BlockParams {
            off: off as int, fb: fb as int, dry: dry as int, wet: wet as int };
        let ghost h0 = self.history();
        let ghost xs = io@;
        let ghost c0 = self.cursor_pos();
        proof {
            self.line.lemma_wf_history();
            vstd::arithmetic::div_mod::lemma_small_mod(c0 as nat, self.capacity() as nat);
        }
        let n = io.len();
        let mut i: usize = 0;
        while i < n
            invariant
                i <= n,
                io@.len() == n,
                xs.len() == n,
                self.wf(),
                self.capacity() == old(self).capacity(),
                off_in_range(p.off, self.capacity()),
                0 <= p.off,
                params_ok(p),
                p.off == off as int && p.fb == fb as int
                    && p.dry == dry as int && p.wet == wet as int,
                0 <= off,
                0 <= fb <= UNIT,
                0 <= dry <= GAIN_LIMIT,
                0 <= wet <= GAIN_LIMIT,
                hist_ok(h0),
                inputs_ok(xs),
                h0.len() == old(self).capacity(),
                0 <= c0 < old(self).capacity(),
                2 <= old(self).capacity(),
                self.cursor_pos() == (c0 + i) % old(self).capacity(),
                forall|k: int| i <= k < n ==> io@[k] == xs[k],
                self.history() =~= process_seq(h0, xs.take(i as int), p).0,
                io@.take(i as int) =~= process_seq(h0, xs.take(i as int), p).1,
                inputs_ok(io@),
            decreases n - i,
        {
            proof {
                lemma_process_seq_shape(h0, xs.take(i as int), p);
            }
            let x = io[i];
            let y = self.process_sample(x, off, fb, dry, wet);
            io[i] = y;
            proof {
                lemma_process_seq_snoc(h0, xs.take(i as int), x, p);
                assert(xs.take(i as int).push(x) =~= xs.take(i + 1));
                assert(io@.take(i + 1) =~= process_seq(h0, xs.take(i + 1), p).1);
                let cap = old(self).capacity();
                vstd::arithmetic::div_mod::lemma_small_mod(1nat, cap as nat);
                vstd::arithmetic::div_mod::lemma_add_mod_noop(c0 + i, 1int, cap);
            }
            i = i + 1;
        }
        proof {
            assert(xs.take(n as int) =~= xs);
            assert(io@.take(n as int) =~= io@);
        }
    }

    /// Clears the channel's delay history; used by the effect's `reset`.
    pub fn reset(&mut self)
        requires
            old(self).wf(),
        ensures
            final(self).wf(),
            final(self).capacity() == old(self).capacity(),
            final(self).cursor_pos() == 0,
            final(self).history() =~= Seq::new(old(self).capacity() as nat, |j: int| 0i64),
    {
        self.line.clear();
    }
}

/// A block of `n` silent samples.
pub open spec fn silence(n: nat) -> Seq<i64> {
    Seq::new(n, |i: int| 0i64)
}

/// Every entry of `h` has magnitude at most `m`.
pub open spec fn peak_bounded(h: Seq<i64>, m: int) -> bool {
    forall|i: int| 0 <= i < h.len() ==> -m <= #[trigger] h[i] as int <= m
}

/// `n` applications of the feedback gain to an echo's amplitude: the exact
/// fixed-point form of `f` to the `n`-th power times the amplitude.
pub open spec fn fb_pow(e: int, fb: int, n: nat) -> int
    decreases n,
{
    if n == 0 {
        e
    } else {
        fx_scale(fb_pow(e, fb, (n - 1) as nat), fb)
    }
}

/// Splitting one logical pass into two consecutive passes changes nothing:
/// the second pass starts from the first pass's final history, and the
/// outputs concatenate.  This is why block boundaries are inaudible.
pub proof fn lemma_process_seq_append(h: Seq<i64>, xs: Seq<i64>, ys: Seq<i64>, p: BlockParams)
    ensures
        process_seq(h, xs + ys, p).0
            == process_seq(process_seq(h, xs, p).0, ys, p).0,
        process_seq(h, xs + ys, p).1
            =~= process_seq(h, xs, p).1 + process_seq(process_seq(h, xs, p).0, ys, p).1,
    decreases xs.len(),
{
    if xs.len() == 0 {
        assert(xs + ys =~= ys);
        assert(process_seq(h, xs, p).1 + process_seq(h, ys, p).1
            =~= process_seq(h, ys, p).1);
    } else {
        assert((xs + ys)[0] == xs[0]);
        assert((xs + ys).drop_first() =~= xs.drop_first() + ys);
        let h1 = step_hist(h, xs[0], p);
        let y0 = step_out(h, xs[0], p) as i64;
        lemma_process_seq_append(h1, xs.drop_first(), ys, p);
        let a = process_seq(h1, xs.drop_first(), p).1;
        let b = process_seq(process_seq(h, xs, p).0, ys, p).1;
        assert(seq![y0] + (a + b) =~= (seq![y0] + a) + b);
    }
}

/// Silence in, silence out: an all-zero history stays all zero under
/// all-zero input, and every output sample is zero.  With independent
/// channels this is why a silent channel never picks up another's echoes.
pub proof fn lemma_silent_channel(n: int, xs: Seq<i64>, p: BlockParams)
    requires
        params_ok(p),
        2 <= n,
        off_in_range(p.off, n),
        forall|i: int| 0 <= i < xs.len() ==> #[trigger] xs[i] == 0i64,
    ensures
        process_seq(silence(n as nat), xs, p).0 =~= silence(n as nat),
        process_seq(silence(n as nat), xs, p).1.len() == xs.len(),
        forall|i: int| 0 <= i < xs.len() ==>
            #[trigger] process_seq(silence(n as nat), xs, p).1[i] == 0i64,
    decreases xs.len(),
{
    let h = silence(n as nat);
    if xs.len() > 0 {
        crate::fixed::lemma_div_strict_upper(p.off, n - 1, UNIT as int);
        vstd::arithmetic::div_mod::lemma_div_pos_is_pos(p.off, UNIT as int);
        vstd::arithmetic::div_mod::lemma_fundamental_div_mod(p.off, UNIT as int);
        let k = p.off / (UNIT as int);
        assert(h[k] == 0i64 && h[k + 1] == 0i64);
        assert(read_spec(h, p.off) == 0);
        assert(step_write(h, xs[0], p) == 0);
        assert(step_out(h, xs[0], p) == 0);
        assert(step_hist(h, xs[0], p) =~= h);
        assert(forall|i: int| 0 <= i < xs.drop_first().len() ==>
            #[trigger] xs.drop_first()[i] == 0i64);
        lemma_silent_channel(n, xs.drop_first(), p);
    }
}

/// Silence in, decaying silence out: under all-zero input every value
/// written back is the delayed value scaled by the feedback gain, so once
/// the whole line has been rewritten its peak has shrunk from `m` to
/// `fx_scale(m, fb)` — strictly smaller whenever the peak was nonzero and
/// the feedback is below unity.  No energy is ever created, and repeated
/// silent blocks drive the tail to exact zero.
pub proof fn lemma_silence_decay(h: Seq<i64>, xs: Seq<i64>, p: BlockParams, m: int)
    requires
        hist_ok(h),
        params_ok(p),
        off_in_range(p.off, h.len() as int),
        peak_bounded(h, m),
        0 <= m <= SAMPLE_LIMIT,
        forall|i: int| 0 <= i < xs.len() ==> #[trigger] xs[i] == 0i64,
    ensures
        process_seq(h, xs, p).0.len() == h.len(),
        forall|j: int| 0 <= j < h.len() ==> {
            let v = #[trigger] process_seq(h, xs, p).0[j] as int;
            if j < xs.len() {
                -fx_scale(m, p.fb) <= v <= fx_scale(m, p.fb)
            } else {
                v == h[j - xs.len()] as int
            }
        },
        peak_bounded(process_seq(h, xs, p).0, m),
        forall|i: int| 0 <= i < xs.len() ==> -fx_scale(m, p.wet)
            <= #[trigger] process_seq(h, xs, p).1[i] as int <= fx_scale(m, p.wet),
    decreases xs.len(),
{
    lemma_process_seq_shape(h, xs, p);
    crate::fixed::lemma_fx_scale_bound(m, p.fb, m);
    crate::fixed::lemma_fx_scale_mono(0, m, p.fb);
    crate::fixed::lemma_fx_scale_mono(0, m, p.wet);
    if xs.len() > 0 {
        crate::fixed::lemma_div_strict_upper(p.off, h.len() - 1, UNIT as int);
        crate::interp::lemma_read_bound(h, p.off, m);
        let d = read_spec(h, p.off);
        crate::fixed::lemma_fx_scale_mag(d, p.fb, m);
        crate::fixed::lemma_fx_scale_mag(d, p.wet, m);
        assert(step_write(h, xs[0], p) == sat(fx_scale(d, p.fb)));
        assert(step_out(h, xs[0], p) == sat(fx_scale(d, p.wet))) by {
            assert(fx_scale(xs[0] as int, p.dry) == 0);
        }
        let h1 = step_hist(h, xs[0], p);
        lemma_step_ok(h, xs[0], p);
        assert(peak_bounded(h1, m)) by {
            assert(forall|j: int| 1 <= j < h1.len() ==> h1[j] == h[j - 1]);
        }
        lemma_silence_decay(h1, xs.drop_first(), p, m);
        let h2 = process_seq(h, xs, p).0;
        assert(h2 == process_seq(h1, xs.drop_first(), p).0);
        assert forall|j: int| 0 <= j < h.len() implies {
            let v = #[trigger] h2[j] as int;
            if j < xs.len() {
                -fx_scale(m, p.fb) <= v <= fx_scale(m, p.fb)
            } else {
                v == h[j - xs.len()] as int
            }
        } by {
            if j < xs.drop_first().len() {
            } else if j < xs.len() {
                assert(h2[j] == h1[j - xs.drop_first().len()]);
                assert(h1[0] as int == sat(fx_scale(d, p.fb)));
            } else {
                assert(h2[j] == h1[j - xs.drop_first().len()]);
                assert(h1[j - xs.len() + 1] == h[j - xs.len()]);
            }
        }
    }
}

/// Once a silent pass has rewritten the whole line, a nonzero peak has
/// strictly shrunk whenever the feedback gain is below unity, so repeated
/// silent blocks drive the echo tail to exact zero.
pub proof fn lemma_silence_decay_strict(h: Seq<i64>, xs: Seq<i64>, p: BlockParams, m: int)
    requires
        hist_ok(h),
        params_ok(p),
        p.fb < UNIT,
        off_in_range(p.off, h.len() as int),
        peak_bounded(h, m),
        1 <= m <= SAMPLE_LIMIT,
        xs.len() >= h.len(),
        forall|i: int| 0 <= i < xs.len() ==> #[trigger] xs[i] == 0i64,
    ensures
        peak_bounded(process_seq(h, xs, p).0, fx_scale(m, p.fb)),
        fx_scale(m, p.fb) < m,
{
    lemma_silence_decay(h, xs, p, m);
    crate::fixed::lemma_fx_scale_strict(m, p.fb);
}

/// Running `n` silent samples over a history whose next `n` read positions
/// are zero produces pure silence and merely shifts the history deeper.
proof fn lemma_quiet_run(h: Seq<i64>, k: int, n: int, p: BlockParams)
    requires
        hist_ok(h),
        params_ok(p),
        p.off == k * (UNIT as int),
        0 <= k,
        k + 1 < h.len(),
        0 <= n <= k + 1,
        forall|j: int| k - n < j <= k ==> #[trigger] h[j] == 0i64,
    ensures
        process_seq(h, silence(n as nat), p).0.len() == h.len(),
        forall|j: int| 0 <= j < n ==> #[trigger] process_seq(h, silence(n as nat), p).0[j] == 0i64,
        forall|j: int| n <= j < h.len() ==>
            #[trigger] process_seq(h, silence(n as nat), p).0[j] == h[j - n],
        forall|i: int| 0 <= i < n ==> #[trigger] process_seq(h, silence(n as nat), p).1[i] == 0i64,
    decreases n,
{
    lemma_process_seq_shape(h, silence(n as nat), p);
    if n > 0 {
        crate::interp::lemma_read_integer(h, k);
        assert(h[k] == 0i64);
        assert(read_spec(h, p.off) == 0);
        assert(step_write(h, 0i64, p) == 0);
        assert(step_out(h, 0i64, p) == 0);
        let h1 = step_hist(h, 0i64, p);
        lemma_step_ok(h, 0i64, p);
        assert(forall|j: int| 1 <= j < h1.len() ==> #[trigger] h1[j] == h[j - 1]);
        assert(forall|j: int| k - (n - 1) < j <= k ==> #[trigger] h1[j] == 0i64);
        assert(silence(n as nat)[0] == 0i64);
        assert(silence(n as nat).drop_first() =~= silence((n - 1) as nat));
        lemma_quiet_run(h1, k, n - 1, p);
        let h2 = process_seq(h, silence(n as nat), p).0;
        assert(h2 == process_seq(h1, silence((n - 1) as nat), p).0);
        assert forall|j: int| n <= j < h.len() implies #[trigger] h2[j] == h[j - n] by {
            assert(h2[j] == h1[j - (n - 1)]);
        }
        assert forall|j: int| 0 <= j < n implies #[trigger] h2[j] == 0i64 by {
            if j >= n - 1 {
                assert(h2[j] == h1[j - (n - 1)]);
            }
        }
    }
}

/// One echo period of the feedback decay law.  With the delay at a whole
/// number `k` of samples and an otherwise silent line carrying one echo of
/// amplitude `e` at the read position, the next `k + 1` silent samples
/// output that echo once, scaled by the wet gain, and leave the line in
/// the same shape with the echo scaled by the feedback gain.  Iterating
/// this period `n` times is exactly the `n`-th echo at `fb_pow(e, fb, n)`.
pub proof fn lemma_echo_period(h: Seq<i64>, k: int, e: i64, p: BlockParams)
    requires
        hist_ok(h),
        params_ok(p),
        p.wet <= UNIT,
        p.off == k * (UNIT as int),
        0 <= k,
        k + 1 < h.len(),
        forall|j: int| 0 <= j < k ==> #[trigger] h[j] == 0i64,
        h[k] == e,
    ensures
        process_seq(h, silence((k + 1) as nat), p).1.len() == k + 1,
        process_seq(h, silence((k + 1) as nat), p).1[0] as int == fx_scale(e as int, p.wet),
        p.wet == UNIT ==> process_seq(h, silence((k + 1) as nat), p).1[0] == e,
        forall|i: int| 1 <= i <= k ==>
            #[trigger] process_seq(h, silence((k + 1) as nat), p).1[i] == 0i64,
        process_seq(h, silence((k + 1) as nat), p).0.len() == h.len(),
        forall|j: int| 0 <= j < k ==>
            #[trigger] process_seq(h, silence((k + 1) as nat), p).0[j] == 0i64,
        process_seq(h, silence((k + 1) as nat), p).0[k] as int == fx_scale(e as int, p.fb),
{
    lemma_process_seq_shape(h, silence((k + 1) as nat), p);
    crate::interp::lemma_read_integer(h, k);
    assert(read_spec(h, p.off) == e as int);
    crate::fixed::lemma_fx_scale_unit(e as int);
    crate::fixed::lemma_fx_scale_bound(e as int, p.fb, SAMPLE_LIMIT as int);
    crate::fixed::lemma_fx_scale_bound(e as int, p.wet, SAMPLE_LIMIT as int);
    let w0 = step_write(h, 0i64, p);
    let y0 = step_out(h, 0i64, p);
    assert(w0 == fx_scale(e as int, p.fb));
    assert(y0 == fx_scale(e as int, p.wet)) by {
        assert(fx_scale(0, p.dry) == 0);
    }
    let h1 = step_hist(h, 0i64, p);
    lemma_step_ok(h, 0i64, p);
    assert(forall|j: int| 1 <= j < h1.len() ==> #[trigger] h1[j] == h[j - 1]);
    assert(silence((k + 1) as nat)[0] == 0i64);
    assert(silence((k + 1) as nat).drop_first() =~= silence(k as nat));
    assert(forall|j: int| k - k < j <= k ==> #[trigger] h1[j] == 0i64);
    lemma_quiet_run(h1, k, k, p);
    let h2 = process_seq(h, silence((k + 1) as nat), p).0;
    assert(h2 == process_seq(h1, silence(k as nat), p).0);
    assert(h2[k] == h1[0]);
    assert(h1[0] as int == w0);
}

/// Shifting the start of the iteration: one feedback application first,
/// then `n` more, is `n + 1` applications.
proof fn lemma_fb_pow_shift(e: int, fb: int, n: nat)
    ensures
        fb_pow(fx_scale(e, fb), fb, n) == fb_pow(e, fb, n + 1),
    decreases n,
{
    if n == 0 {
        assert(fb_pow(fx_scale(e, fb), fb, 0) == fx_scale(e, fb));
        assert(fb_pow(e, fb, 1) == fx_scale(fb_pow(e, fb, 0), fb));
    } else {
        let m: nat = (n - 1) as nat;
        lemma_fb_pow_shift(e, fb, m);
        assert(fb_pow(fx_scale(e, fb), fb, n)
            == fx_scale(fb_pow(fx_scale(e, fb), fb, m), fb));
        assert(m + 1 == n);
        assert(fb_pow(e, fb, m + 1) == fb_pow(e, fb, n));
        assert(((n + 1) - 1) as nat == n);
        assert(fb_pow(e, fb, n + 1) == fx_scale(fb_pow(e, fb, ((n + 1) - 1) as nat), fb));
        assert(fb_pow(e, fb, ((n + 1) - 1) as nat) == fb_pow(e, fb, n));
    }
}

/// The feedback decay law over a whole impulse response: with the delay a
/// whole number `k` of samples, an otherwise silent line carrying one echo
/// of amplitude `e`, and silent input, the `n`-th echo appears at output
/// index `n * (k + 1)` with amplitude `fb_pow(e, fb, n)` scaled by the wet
/// gain — the feedback gain applied `n` times — and every other output
/// sample is zero.
pub proof fn lemma_feedback_decay(h: Seq<i64>, k: int, e: i64, p: BlockParams, n: nat)
    requires
        hist_ok(h),
        params_ok(p),
        p.wet <= UNIT,
        p.off == k * (UNIT as int),
        0 <= k,
        k + 1 < h.len(),
        forall|j: int| 0 <= j < k ==> #[trigger] h[j] == 0i64,
        h[k] == e,
    ensures
        process_seq(h, silence(((k + 1) * n) as nat), p).1.len() == (k + 1) * n,
        forall|i: int| 0 <= i < n ==>
            #[trigger] process_seq(h, silence(((k + 1) * n) as nat), p).1[i * (k + 1)] as int
                == fx_scale(fb_pow(e as int, p.fb, i as nat), p.wet),
        forall|i: int, r: int| 0 <= i < n && 1 <= r <= k ==>
            #[trigger] process_seq(h, silence(((k + 1) * n) as nat), p).1[i * (k + 1) + r]
                == 0i64,
        process_seq(h, silence(((k + 1) * n) as nat), p).0.len() == h.len(),
        forall|j: int| 0 <= j < k ==>
            #[trigger] process_seq(h, silence(((k + 1) * n) as nat), p).0[j] == 0i64,
        process_seq(h, silence(((k + 1) * n) as nat), p).0[k] as int
            == fb_pow(e as int, p.fb, n),
    decreases n,
{
    lemma_process_seq_shape(h, silence(((k + 1) * n) as nat), p);
    if n == 0 {
        assert(silence(0) =~= Seq::<i64>::empty());
    } else {
        let m1: nat = (n - 1) as nat;
        let period = silence((k + 1) as nat);
        let tail = silence(((k + 1) * m1) as nat);
        assert((k + 1) * n == (k + 1) + (k + 1) * m1) by (nonlinear_arith)
            requires n >= 1 && m1 == n - 1;
        assert(silence(((k + 1) * n) as nat) =~= period + tail);
        lemma_process_seq_append(h, period, tail, p);
        lemma_echo_period(h, k, e, p);
        let h1 = process_seq(h, period, p).0;
        let ys1 = process_seq(h, period, p).1;
        lemma_process_seq_shape(h, period, p);
        crate::fixed::lemma_fx_scale_bound(e as int, p.fb, SAMPLE_LIMIT as int);
        let e1: i64 = fx_scale(e as int, p.fb) as i64;
        assert(e1 as int == fx_scale(e as int, p.fb));
        assert(h1[k] == e1);
        lemma_feedback_decay(h1, k, e1, p, m1);
        let ys2 = process_seq(h1, tail, p).1;
        let all = process_seq(h, silence(((k + 1) * n) as nat), p).1;
        assert(all =~= ys1 + ys2);
        let h2 = process_seq(h, silence(((k + 1) * n) as nat), p).0;
        assert(h2 == process_seq(h1, tail, p).0);
        lemma_fb_pow_shift(e as int, p.fb, m1);
        assert(h2[k] as int == fb_pow(e1 as int, p.fb, m1));
        assert(fb_pow(e1 as int, p.fb, m1) == fb_pow(fx_scale(e as int, p.fb), p.fb, m1));
        assert(fb_pow(fx_scale(e as int, p.fb), p.fb, m1) == fb_pow(e as int, p.fb, m1 + 1));
        assert(fb_pow(e as int, p.fb, m1 + 1) == fb_pow(e as int, p.fb, n));
        assert forall|j: int| 0 <= j < k implies #[trigger] h2[j] == 0i64 by {
            assert(h2[j] == process_seq(h1, tail, p).0[j]);
        }
        assert forall|i: int| 0 <= i < n implies
            #[trigger] all[i * (k + 1)] as int
                == fx_scale(fb_pow(e as int, p.fb, i as nat), p.wet) by {
            if i == 0 {
                assert(all[0] == ys1[0]);
            } else {
                assert(0 <= (i - 1) * (k + 1) < ys2.len() &&
                    i * (k + 1) == (k + 1) + (i - 1) * (k + 1)) by (nonlinear_arith)
                    requires 1 <= i < n && 0 <= k && m1 == n - 1 && ys2.len() == (k + 1) * m1;
                assert(all[i * (k + 1)] == ys2[(i - 1) * (k + 1)]);
                assert(ys2[(i - 1) * (k + 1)] as int
                    == fx_scale(fb_pow(e1 as int, p.fb, (i - 1) as nat), p.wet));
                lemma_fb_pow_shift(e as int, p.fb, (i - 1) as nat);
            }
        }
        assert forall|i: int, r: int| 0 <= i < n && 1 <= r <= k implies
            #[trigger] all[i * (k + 1) + r] == 0i64 by {
            if i == 0 {
                assert(all[r] == ys1[r]);
            } else {
                assert(0 <= (i - 1) * (k + 1) + r < ys2.len() &&
                    i * (k + 1) + r == (k + 1) + ((i - 1) * (k + 1) + r))
                    by (nonlinear_arith)
                    requires 1 <= i < n && 1 <= r <= k && m1 == n - 1
                        && ys2.len() == (k + 1) * m1;
                assert(all[i * (k + 1) + r] == ys2[(i - 1) * (k + 1) + r]);
            }
        }
    }
}

/// Processing one more sample after a prefix is the prefix's pass followed
/// by one step on its final history.
pub proof fn lemma_process_seq_snoc(h: Seq<i64>, xs: Seq<i64>, x: i64, p: BlockParams)
    ensures
        process_seq(h, xs.push(x), p).0
            == step_hist(process_seq(h, xs, p).0, x, p),
        process_seq(h, xs.push(x), p).1
            =~= process_seq(h, xs, p).1.push(step_out(process_seq(h, xs, p).0, x, p) as i64),
    decreases xs.len(),
{
    if xs.len() == 0 {
        reveal_with_fuel(process_seq, 2);
        assert(xs.push(x)[0] == x);
        assert(xs.push(x).drop_first() =~= Seq::<i64>::empty());
        assert(process_seq(h, xs.push(x), p).0 == process_seq(step_hist(h, x, p),
            Seq::<i64>::empty(), p).0);
        assert(process_seq(h, xs.push(x), p).1
            =~= process_seq(h, xs, p).1.push(step_out(h, x, p) as i64));
    } else {
        assert(xs.push(x)[0] == xs[0]);
        assert(xs.push(x).drop_first() =~= xs.drop_first().push(x));
        let h1 = step_hist(h, xs[0], p);
        let y0 = step_out(h, xs[0], p) as i64;
        lemma_process_seq_snoc(h1, xs.drop_first(), x, p);
        assert(process_seq(h, xs.push(x), p).1
            =~= seq![y0] + process_seq(h1, xs.drop_first().push(x), p).1);
        assert(process_seq(h, xs, p).1 =~= seq![y0] + process_seq(h1, xs.drop_first(), p).1);
        assert(seq![y0] + process_seq(h1, xs.drop_first(), p).1.push(
            step_out(process_seq(h1, xs.drop_first(), p).0, x, p) as i64)
            =~= (seq![y0] + process_seq(h1, xs.drop_first(), p).1).push(
                step_out(process_seq(h, xs, p).0, x, p) as i64));
    }
}

} // verus!
