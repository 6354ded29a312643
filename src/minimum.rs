use vstd::prelude::*;
use crate::errors::TaError;
use crate::traits::Low;
use crate::window::{is_extreme_of, slide, Direction, WindowExtremum};

verus! {

/// The lowest of the last `period` samples (integer greater than 0;
/// 14 by default). Samples are binary64 values given as their bit patterns.
#[derive(Clone)]
pub struct Minimum {
    tracker: WindowExtremum,
}

impl Minimum {
    pub open spec fn wf(&self) -> bool {
        self.tracker().wf() && self.tracker().direction() == Direction::Lowest
    }

    pub open spec fn capacity(&self) -> nat {
        self.tracker().capacity()
    }

    /// The samples the minimum is taken over, oldest first.
    pub open spec fn window(&self) -> Seq<u64> {
        self.tracker().window()
    }

    /// The tracker underneath, whose contracts give the exact step.
    pub closed spec fn tracker(&self) -> WindowExtremum {
        self.tracker
    }

    /// As construction leaves it: nothing resident, all slots padded.
    pub open spec fn is_initial(&self) -> bool {
        self.tracker().is_initial()
    }

    /// Fails with `InvalidParameter` exactly when `period` is 0.
    pub fn new(period: usize) -> (r: Result<Minimum, TaError>)
        ensures
            period == 0 <==> r is Err,
            r is Err ==> r == Err::<Minimum, _>(TaError::InvalidParameter),
            r matches Ok(m) ==> m.wf() && m.is_initial() && m.capacity() == period
                && m.window() == Seq::<u64>::empty(),
    {
        match WindowExtremum::new(Direction::Lowest, period) {
            Ok(tracker) => Ok(Minimum { tracker }),
            Err(e) => Err(e),
        }
    }

    pub fn period(&self) -> (r: usize)
        requires
            self.wf(),
        ensures
            r == self.capacity(),
            r >= 1,
    {
        self.tracker.period()
    }

    /// Takes in `input` and returns the lowest sample of the window that
    /// now ends with it.
    pub fn next(&mut self, input: u64) -> (r: u64)
        requires
            old(self).wf(),
        ensures
            final(self).wf(),
            final(self).capacity() == old(self).capacity(),
            final(self).window() == slide(old(self).window(), input, old(self).capacity()),
            is_extreme_of(Direction::Lowest, final(self).window(), r),
            old(self).tracker().steps_to(final(self).tracker(), input, r),
    {
        self.tracker.next(input)
    }

    /// Takes in the low of `bar`, unchanged, as `next` does.
    pub fn next_bar<T: Low>(&mut self, bar: &T) -> (r: u64)
        requires
            old(self).wf(),
        ensures
            final(self).wf(),
            final(self).capacity() == old(self).capacity(),
            final(self).window() == slide(old(self).window(), bar.low_value(), old(self).capacity()),
            is_extreme_of(Direction::Lowest, final(self).window(), r),
            old(self).tracker().steps_to(final(self).tracker(), bar.low_value(), r),
    {
        let v = bar.low();
        self.next(v)
    }

    /// Discards every sample taken in.
    pub fn reset(&mut self)
        requires
            old(self).wf(),
        ensures
            final(self).wf(),
            final(self).is_initial(),
            final(self).capacity() == old(self).capacity(),
            final(self).window() == Seq::<u64>::empty(),
    {
        self.tracker.reset()
    }
}

impl Default for Minimum {
    /// A minimum over the last 14 samples.
    fn default() -> (r: Minimum)
        ensures
            r.wf(),
            r.is_initial(),
            r.capacity() == 14,
            r.window() == Seq::<u64>::empty(),
    {
        Minimum { tracker: WindowExtremum::with_period(Direction::Lowest, 14) }
    }
}

} // verus!
