//! Frames-per-second smoothing: the last few measures kept in a ring buffer,
//! shown as their average.
use vstd::prelude::*;

verus! {

/// Sum of a sequence of measures.
pub open spec fn seq_sum(s: Seq<i32>) -> int
    decreases s.len(),
{
    if s.len() == 0 {
        0
    } else {
        seq_sum(s.drop_last()) + s.last()
    }
}

/// `a / b` rounded toward zero, as Rust's integer division does.
pub open spec fn trunc_div(a: int, b: int) -> int {
    if a >= 0 {
        a / b
    } else {
        -((-a) / b)
    }
}

/// The last `smoothing` frame rates, written round-robin.
pub struct FPSDisplay {
    last_measures: Vec<i32>,
    current: usize,
    smoothing: usize,
}

impl FPSDisplay {
    /// The buffer holds `smoothing` measures and the next slot is inside it.
    #[verifier::type_invariant]
    spec fn wf(self) -> bool {
        &&& self.last_measures@.len() == self.smoothing
        &&& (self.smoothing > 0 ==> self.current < self.smoothing)
        &&& (self.smoothing == 0 ==> self.current == 0)
    }

    /// The measures kept, in buffer order.
    pub closed spec fn measures(self) -> Seq<i32> {
        self.last_measures@
    }

    /// The slot the next measure goes to.
    pub closed spec fn slot(self) -> int {
        self.current as int
    }

    /// How many measures are averaged.
    pub closed spec fn spec_smoothing(self) -> int {
        self.smoothing as int
    }

    /// A display averaging the last `smoothing` measures, all starting at 0.
    pub fn new(smoothing: usize) -> (d: Self)
        ensures
            d.measures() == Seq::new(smoothing as nat, |i: int| 0i32),
            d.slot() == 0,
            d.spec_smoothing() == smoothing,
    {
        let mut last_measures: Vec<i32> = Vec::new();
        let mut i: usize = 0;
        while i < smoothing
            invariant
                i <= smoothing,
                last_measures@ == Seq::new(i as nat, |j: int| 0i32),
            decreases smoothing - i,
        {
            last_measures.push(0);
            i += 1;
        }
        Self { last_measures, current: 0, smoothing }
    }

    /// Stores a new measure in place of the oldest one.
    pub fn record(&mut self, fps: i32)
        requires
            old(self).spec_smoothing() > 0,
        ensures
            final(self).measures() == old(self).measures().update(old(self).slot(), fps),
            final(self).slot() == (old(self).slot() + 1) % old(self).spec_smoothing(),
            final(self).spec_smoothing() == old(self).spec_smoothing(),
    {
        proof {
            use_type_invariant(&*self);
        }
        let slot = self.current;
        let smoothing = self.smoothing;
        let mut measures = self.last_measures.clone();
        proof {
            assert(measures@ =~= self.last_measures@);
        }
        measures.set(slot, fps);
        *self = FPSDisplay { last_measures: measures, current: (slot + 1) % smoothing, smoothing };
    }

    /// Whether the kept measures add up to a value that fits in an `i32`, as
    /// [`FPSDisplay::average`] requires.
    pub fn sum_fits_i32(&self) -> (b: bool)
        ensures
            b == (i32::MIN <= seq_sum(self.measures()) <= i32::MAX),
    {
        let n = self.last_measures.len();
        let mut sum: i128 = 0;
        let mut i: usize = 0;
        while i < n
            invariant
                n == self.last_measures@.len(),
                i <= n,
                sum == seq_sum(self.last_measures@.take(i as int)),
                -0x8000_0000 * i <= sum <= 0x7fff_ffff * i,
            decreases n - i,
        {
            assert(self.last_measures@.take(i + 1).drop_last() == self.last_measures@.take(
                i as int,
            ));
            sum = sum + self.last_measures[i] as i128;
            i += 1;
        }
        assert(self.last_measures@.take(n as int) == self.last_measures@);
        -0x8000_0000 <= sum && sum <= 0x7fff_ffff
    }

    /// The average of the kept measures, rounded toward zero.
    pub fn average(&self) -> (avg: i32)
        requires
            self.spec_smoothing() > 0,
            i32::MIN <= seq_sum(self.measures()) <= i32::MAX,
        ensures
            avg == trunc_div(seq_sum(self.measures()), self.spec_smoothing()),
    {
        proof {
            use_type_invariant(self);
        }
        let n = self.last_measures.len();
        let mut sum: i128 = 0;
        let mut i: usize = 0;
        while i < n
            invariant
                n == self.last_measures@.len(),
                n <= usize::MAX,
                i <= n,
                sum == seq_sum(self.last_measures@.take(i as int)),
                -0x8000_0000 * i <= sum <= 0x7fff_ffff * i,
            decreases n - i,
        {
            assert(self.last_measures@.take(i + 1).drop_last() == self.last_measures@.take(
                i as int,
            ));
            sum = sum + self.last_measures[i] as i128;
            i += 1;
        }
        assert(self.last_measures@.take(n as int) == self.last_measures@);
        let s = self.smoothing as i128;
        if sum >= 0 {
            (sum / s) as i32
        } else {
            -((-sum) / s) as i32
        }
    }
}

} // verus!
