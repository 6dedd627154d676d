//! A fixed-capacity circular sample buffer with a write cursor.
//!
//! The line holds the most recent `capacity` samples.  Its mathematical
//! model is `history()`: the stored samples ordered newest first, so
//! `history()[j]` is the sample written `j` writes ago.  A write shifts a
//! new sample in at position 0 and drops the oldest; a fractional read
//! interpolates between two neighbouring history entries and mutates
//! nothing.  The buffer is allocated once and never reallocated afterwards.

use vstd::prelude::*;

verus! {

use crate::error::DelayError;
use crate::fixed::SAMPLE_LIMIT;
use crate::fixed::UNIT;
use crate::interp;
use crate::interp::read_spec;
use vstd::arithmetic::div_mod::lemma_div_pos_is_pos;
use vstd::arithmetic::div_mod::lemma_fundamental_div_mod;

/// Largest delay-line capacity the engine accepts (a machine limit: it
/// keeps every cursor computation inside `usize` and `i64`).
pub const MAX_CAPACITY: usize = 1073741824;

/// The newest history entry after shifting `s` into `h`.
pub open spec fn shift_in(h: Seq<i64>, s: i64) -> Seq<i64> {
    seq![s] + h.take(h.len() - 1)
}

/// All entries of `h` lie within the engine's headroom.
pub open spec fn hist_ok(h: Seq<i64>) -> bool {
    forall|i: int| 0 <= i < h.len() ==> -SAMPLE_LIMIT <= #[trigger] h[i] as int <= SAMPLE_LIMIT
}

/// A fixed-capacity circular delay buffer for one channel.
pub struct DelayLine {
    samples: Vec<i64>,
    cursor: usize,
}

impl DelayLine {
    /// How many samples the line stores.
    pub closed spec fn capacity(self) -> int {
        self.samples@.len() as int
    }

    /// Where the next write lands; exposed so that a cleared line is a
    /// single, fully determined state.
    pub closed spec fn cursor_pos(self) -> int {
        self.cursor as int
    }

    /// Well-formedness: a positive, bounded capacity, a cursor inside the
    /// buffer, and every stored sample within headroom.
    pub closed spec fn wf(self) -> bool {
        &&& 1 <= self.samples@.len() <= MAX_CAPACITY
        &&& self.cursor < self.samples@.len()
        &&& hist_ok(self.samples@)
    }

    /// The stored samples, newest first: `history()[j]` was written `j`
    /// writes ago (entries never written are zero).
    pub closed spec fn history(self) -> Seq<i64> {
        let n = self.samples@.len() as int;
        let c = self.cursor as int;
        Seq::new(n as nat, |j: int|
            if j < c {
                self.samples@[c - 1 - j]
            } else {
                self.samples@[c - 1 - j + n]
            })
    }

    /// A well-formed line's history has one entry per stored sample,
    /// every entry lies within the engine's headroom, and the cursor sits
    /// inside the buffer.
    pub proof fn lemma_wf_history(self)
        requires
            self.wf(),
        ensures
            self.history().len() == self.capacity(),
            hist_ok(self.history()),
            0 <= self.cursor_pos() < self.capacity(),
    {
        let h = self.history();
        assert forall|i: int| 0 <= i < h.len() implies
            -SAMPLE_LIMIT <= #[trigger] h[i] as int <= SAMPLE_LIMIT by {
            let n = self.samples@.len() as int;
            let c = self.cursor as int;
            if i < c {
                assert(h[i] == self.samples@[c - 1 - i]);
            } else {
                assert(h[i] == self.samples@[c - 1 - i + n]);
            }
        }
    }

    /// Creates a line of `capacity` zero samples with the cursor at 0.
    /// Refuses a zero capacity with `InvalidCapacity`.
    pub fn create(capacity: usize) -> (r: Result<DelayLine, DelayError>)
        requires
            capacity <= MAX_CAPACITY,
        ensures
            capacity == 0 <==> r == Result::<DelayLine, DelayError>::Err(
                DelayError::InvalidCapacity),
            r matches Err(e) ==> capacity == 0 && e == DelayError::InvalidCapacity,
            r matches Ok(d) ==> {
                &&& d.wf()
                &&& d.capacity() == capacity
                &&& d.cursor_pos() == 0
                &&& d.history() =~= Seq::new(capacity as nat, |j: int| 0i64)
            },
    {
        if capacity == 0 {
            return Err(DelayError::InvalidCapacity);
        }
        let mut samples: Vec<i64> = Vec::new();
        let mut i: usize = 0;
        while i < capacity
            invariant
                i <= capacity,
                samples@.len() == i,
                forall|k: int| 0 <= k < i ==> samples@[k] == 0i64,
            decreases capacity - i,
        {
            samples.push(0i64);
            i = i + 1;
        }
        let d = DelayLine { samples, cursor: 0 };
        proof {
            assert(d.history() =~= Seq::new(capacity as nat, |j: int| 0i64));
        }
        Ok(d)
    }

    /// Executable capacity.
    pub fn len(&self) -> (n: usize)
        ensures
            n == self.capacity(),
    {
        self.samples.len()
    }

    /// The stored sample `j` writes behind the newest one.
    fn sample_behind(&self, j: usize) -> (s: i64)
        requires
            self.wf(),
            j < self.capacity(),
        ensures
            s == self.history()[j as int],
    {
        let n = self.samples.len();
        if j < self.cursor {
            self.samples[self.cursor - 1 - j]
        } else {
            self.samples[self.cursor + (n - 1 - j)]
        }
    }

    /// Stores `s` at the cursor and advances the cursor by one, wrapping:
    /// the history gains `s` in front and loses its oldest entry.
    pub fn write(&mut self, s: i64)
        requires
            old(self).wf(),
            -SAMPLE_LIMIT <= s <= SAMPLE_LIMIT,
        ensures
            final(self).wf(),
            final(self).capacity() == old(self).capacity(),
            final(self).cursor_pos() == if old(self).cursor_pos() + 1
                == old(self).capacity() { 0int } else { old(self).cursor_pos() + 1 },
            final(self).history() =~= shift_in(old(self).history(), s),
    {
        let n = self.samples.len();
        self.samples[self.cursor] = s;
        if self.cursor + 1 == n {
            self.cursor = 0;
        } else {
            self.cursor = self.cursor + 1;
        }
    }

    /// Interpolated value `off / UNIT` samples behind the newest write.
    /// The offset must leave one sample of interpolation margin.
    pub fn read_at_offset(&self, off: i64) -> (r: i64)
        requires
            self.wf(),
            0 <= off,
            off < (self.capacity() - 1) * UNIT,
        ensures
            r == read_spec(self.history(), off as int),
            -SAMPLE_LIMIT <= r <= SAMPLE_LIMIT,
    {
        proof {
            lemma_div_pos_is_pos(off as int, UNIT as int);
            lemma_fundamental_div_mod(off as int, UNIT as int);
            crate::fixed::lemma_div_strict_upper(
                off as int, self.capacity() - 1, UNIT as int);
        }
        let k: usize = ((off as u64) / (UNIT as u64)) as usize;
        let t: i64 = ((off as u64) % (UNIT as u64)) as i64;
        let a = self.sample_behind(k);
        let b = self.sample_behind(k + 1);
        interp::lerp(a, b, t)
    }

    /// Resets every stored sample to zero and the cursor to 0; capacity is
    /// unchanged.  The cleared state is the same whatever came before.
    pub fn clear(&mut self)
        requires
            old(self).wf(),
        ensures
            final(self).wf(),
            final(self).capacity() == old(self).capacity(),
            final(self).cursor_pos() == 0,
            final(self).history() =~= Seq::new(old(self).capacity() as nat, |j: int| 0i64),
    {
        let n = self.samples.len();
        let mut i: usize = 0;
        while i < n
            invariant
                i <= n,
                self.samples@.len() == n,
                forall|k: int| 0 <= k < i ==> self.samples@[k] == 0i64,
                forall|k: int| i <= k < n ==>
                    -SAMPLE_LIMIT <= #[trigger] self.samples@[k] as int <= SAMPLE_LIMIT,
            decreases n - i,
        {
            self.samples[i] = 0i64;
            i = i + 1;
        }
        self.cursor = 0;
    }
}

} // verus!
