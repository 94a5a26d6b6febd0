//! Work of a chosen length on the processor.
use vstd::prelude::*;

use crate::duration::Duration;

verus! {

/// `std::hint::spin_loop`: a hint to the processor, without a result.
pub assume_specification[ std::hint::spin_loop ]()
;

/// The number of iterations that a search starts from.
pub const INITIAL_ITERATIONS: u64 = 1_000_000;

/// A search for the number of iterations that take a given time.
///
/// Each try is measured; the number then moves towards the target by a step
/// that halves from try to try.
#[derive(Clone, Copy, Debug, PartialEq, Eq, Structural)]
pub struct Calibration {
    /// The number of iterations to try.
    pub iterations: u64,
    /// The last step.
    pub step_size: u64,
}

/// What a measurement leads to.
pub open spec fn adjusted(
    search: Calibration,
    elapsed: int,
    target: int,
    close: bool,
) -> (Calibration, bool) {
    let step = (search.step_size / 2) as u64;
    if elapsed > target {
        if step == 0 {
            (Calibration { step_size: 0, ..search }, true)
        } else {
            (
                Calibration { iterations: (search.iterations - step) as u64, step_size: step },
                close,
            )
        }
    } else if elapsed < target {
        (Calibration { iterations: (search.iterations + step) as u64, step_size: step }, close)
    } else {
        (search, true)
    }
}

impl Calibration {
    /// Runs idly for a number of iterations.
    pub fn calibrated_work(iterations: u64) {
        let mut done: u64 = 0;
        while done < iterations
            invariant
                done <= iterations,
            decreases iterations - done,
        {
            std::hint::spin_loop();
            done = done + 1;
        }
    }

    /// The next step stays within the iterations.
    pub open spec fn wf(self) -> bool {
        &&& 1 <= self.iterations
        &&& self.step_size <= self.iterations
        &&& self.iterations + self.step_size <= 2 * INITIAL_ITERATIONS
    }

    /// A search at its start.
    pub fn new() -> (search: Self)
        ensures
            search.wf(),
            search == (Calibration {
                iterations: INITIAL_ITERATIONS,
                step_size: INITIAL_ITERATIONS,
            }),
    {
        Calibration { iterations: INITIAL_ITERATIONS, step_size: INITIAL_ITERATIONS }
    }

    /// Takes in how long the current number of iterations took, and whether
    /// that is close to the target; says whether the search is over.
    ///
    /// A try that took too long shortens the next one, one that was too short
    /// prolongs it. The search is over when the target is hit or close, and
    /// when no shorter step is left for a try that took too long.
    pub fn calibrate(&mut self, elapsed: &Duration, target: &Duration, close: bool) -> (done: bool)
        requires
            old(self).wf(),
            elapsed.wf(),
            target.wf(),
        ensures
            final(self).wf(),
            (*final(self), done) == adjusted(
                *old(self),
                elapsed.total_nanos(),
                target.total_nanos(),
                close,
            ),
    {
        let longer: bool = elapsed.secs > target.secs || (elapsed.secs == target.secs
            && elapsed.nanos > target.nanos);
        let shorter: bool = elapsed.secs < target.secs || (elapsed.secs == target.secs
            && elapsed.nanos < target.nanos);
        if longer {
            self.step_size = self.step_size / 2;
            if self.step_size == 0 {
                return true;
            }
            self.iterations = self.iterations - self.step_size;
            close
        } else if shorter {
            self.step_size = self.step_size / 2;
            self.iterations = self.iterations + self.step_size;
            close
        } else {
            true
        }
    }
}

/// However the tries turn out, a search stays between one iteration and twice
/// those that it starts from, and its steps halve.
pub proof fn law_calibration_stays_in_range(
    search: Calibration,
    elapsed: int,
    target: int,
    close: bool,
)
    requires
        search.wf(),
    ensures
        adjusted(search, elapsed, target, close).0.wf(),
        1 <= adjusted(search, elapsed, target, close).0.iterations <= 2 * INITIAL_ITERATIONS,
        elapsed != target ==> adjusted(search, elapsed, target, close).0.step_size
            == search.step_size / 2,
{
}

/// A try that took too long is never followed by a longer one, and one that
/// was too short never by a shorter one.
pub proof fn law_calibration_moves_towards_target(
    search: Calibration,
    elapsed: int,
    target: int,
    close: bool,
)
    requires
        search.wf(),
    ensures
        elapsed > target ==> adjusted(search, elapsed, target, close).0.iterations
            <= search.iterations,
        elapsed < target ==> adjusted(search, elapsed, target, close).0.iterations
            >= search.iterations,
{
}

/// The number of iterations moves by half of the last step, down after a try
/// that took too long and up after one that was too short; it stays where
/// the target is hit, and where half a step is none.
pub proof fn law_calibration_moves_by_half_a_step(
    search: Calibration,
    elapsed: int,
    target: int,
    close: bool,
)
    requires
        search.wf(),
    ensures
        ({
            let (after, done) = adjusted(search, elapsed, target, close);
            &&& after.iterations - search.iterations == (if elapsed > target {
                -(search.step_size as int / 2)
            } else if elapsed < target {
                search.step_size as int / 2
            } else {
                0
            })
            &&& done <==> elapsed == target || close || (elapsed > target && search.step_size < 2)
            &&& elapsed == target ==> after == search
        }),
{
}

} // verus!
