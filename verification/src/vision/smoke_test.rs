//! Bookkeeping of the trial run of a model.

use crate::vision::worker::{DETECTOR_ROWS, DETECTOR_ROW_WIDTH};
use vstd::prelude::*;

verus! {

/// Inferences that are measured.
pub const BENCHMARK_RUNS: u32 = 10;

/// The shape of an answer of the model that the detectors were made for.
pub fn is_end_to_end_shape(shape: &Vec<i64>) -> (r: bool)
    ensures
        r == (shape@ == seq![1i64, DETECTOR_ROWS, DETECTOR_ROW_WIDTH]),
{
    let r = shape.len() == 3 && shape[0] == 1 && shape[1] == DETECTOR_ROWS && shape[2]
        == DETECTOR_ROW_WIDTH;
    assert(r ==> shape@ =~= seq![1i64, DETECTOR_ROWS, DETECTOR_ROW_WIDTH]);
    r
}

/// What is said of a model that answered with nothing.
pub fn refusal_message() -> (r: &'static str)
    ensures
        r@ == "YOLO model returned no outputs"@,
{
    "YOLO model returned no outputs"
}

/// Times of the measured inferences, in nanoseconds.
#[derive(Copy, Clone, Debug, Eq, PartialEq, Structural)]
pub struct Benchmark {
    pub runs: u32,
    pub total: u128,
    /// The shortest; none before the first.
    pub minimum: Option<u128>,
    pub maximum: u128,
}

/// Sum of the times.
pub open spec fn total_time(times: Seq<u128>) -> int
    decreases times.len(),
{
    if times.len() == 0 {
        0
    } else {
        total_time(times.drop_last()) + times.last()
    }
}

impl Benchmark {
    /// The benchmark is that of these times.
    pub open spec fn of(self, times: Seq<u128>) -> bool {
        &&& self.runs == times.len()
        &&& self.total == total_time(times)
        &&& forall|i: int| 0 <= i < times.len() ==> #[trigger] times[i] <= self.maximum
        &&& times.len() == 0 ==> self.minimum is None && self.maximum == 0
        &&& times.len() > 0 ==> {
            &&& times.contains(self.maximum)
            &&& self.minimum matches Some(minimum)
            &&& times.contains(minimum)
            &&& forall|i: int| 0 <= i < times.len() ==> minimum <= #[trigger] times[i]
        }
    }

    /// Nothing was measured.
    pub open spec fn fresh() -> Benchmark {
        Benchmark { runs: 0, total: 0, minimum: None, maximum: 0 }
    }

    /// One more time was measured.
    pub open spec fn with(self, time: u128) -> Benchmark {
        Benchmark {
            runs: (self.runs + 1) as u32,
            total: (self.total + time) as u128,
            minimum: match self.minimum {
                Some(minimum) => if time < minimum {
                    Some(time)
                } else {
                    Some(minimum)
                },
                None => Some(time),
            },
            maximum: if time > self.maximum {
                time
            } else {
                self.maximum
            },
        }
    }

    pub fn new() -> (r: Benchmark)
        ensures
            r == Benchmark::fresh(),
            r.of(Seq::empty()),
    {
        Benchmark { runs: 0, total: 0, minimum: None, maximum: 0 }
    }

    /// Takes in the time of one more inference.
    pub fn record(&mut self, time: u128)
        requires
            old(self).runs < u32::MAX,
            old(self).total + time <= u128::MAX,
        ensures
            *final(self) == old(self).with(time),
            forall|times: Seq<u128>| #[trigger]
                old(self).of(times) ==> final(self).of(times.push(time)),
    {
        let ghost before = *self;
        self.runs = self.runs + 1;
        self.total = self.total + time;
        let shorter = match self.minimum {
            Some(minimum) => time < minimum,
            None => true,
        };
        if shorter {
            self.minimum = Some(time);
        }
        if time > self.maximum {
            self.maximum = time;
        }
        proof {
            assert forall|times: Seq<u128>| #[trigger] before.of(times) implies self.of(
                times.push(time),
            ) by {
                lemma_with(before, times, time);
            }
        }
    }
}

proof fn lemma_with(benchmark: Benchmark, times: Seq<u128>, time: u128)
    requires
        benchmark.of(times),
        benchmark.runs < u32::MAX,
        benchmark.total + time <= u128::MAX,
    ensures
        benchmark.with(time).of(times.push(time)),
{
    let after = times.push(time);
    assert(after.drop_last() =~= times);
    assert(after[times.len() as int] == time);
    assert forall|x: u128| times.contains(x) implies after.contains(x) by {
        let i = choose|i: int| 0 <= i < times.len() && times[i] == x;
        assert(after[i] == x);
    }
}

/// How far the trial has come.
#[derive(Copy, Clone, Debug, Eq, PartialEq, Structural)]
pub enum SmokeStage {
    /// The first inference, which is not measured.
    WarmingUp,
    /// The measured inference of this number, counted from one.
    Measuring(u32),
    Ended,
}

/// What is to be done next.
#[derive(Copy, Clone, Debug, Eq, PartialEq, Structural)]
pub enum SmokeAction {
    /// Run an inference.
    WarmUp,
    /// Run the inference of this number and measure its time.
    Measure(u32),
    /// The model answered with nothing.
    Refuse,
    Report(Benchmark),
}

/// The trial run of a model: one inference to warm up, then those that are
/// measured.
#[derive(Copy, Clone, Debug, Eq, PartialEq, Structural)]
pub struct SmokeTest {
    pub stage: SmokeStage,
    pub benchmark: Benchmark,
}

impl SmokeTest {
    pub open spec fn fresh() -> SmokeTest {
        SmokeTest { stage: SmokeStage::WarmingUp, benchmark: Benchmark::fresh() }
    }

    /// As many times were taken as inferences measured.
    pub open spec fn wf(self) -> bool {
        match self.stage {
            SmokeStage::WarmingUp => self.benchmark.runs == 0,
            SmokeStage::Measuring(run) => 1 <= run <= BENCHMARK_RUNS && self.benchmark.runs == run
                - 1,
            SmokeStage::Ended => true,
        }
    }

    pub open spec fn ended(self, action: SmokeAction) -> (SmokeTest, SmokeAction) {
        (SmokeTest { stage: SmokeStage::Ended, ..self }, action)
    }

    /// What an inference makes of the trial, and what is to be done next.
    pub open spec fn stepped(self, outputs: usize, time: u128) -> (SmokeTest, SmokeAction) {
        if outputs == 0 {
            self.ended(SmokeAction::Refuse)
        } else {
            match self.stage {
                SmokeStage::WarmingUp => (
                    SmokeTest { stage: SmokeStage::Measuring(1), ..self },
                    SmokeAction::Measure(1),
                ),
                SmokeStage::Measuring(run) => {
                    let benchmark = self.benchmark.with(time);
                    if run < BENCHMARK_RUNS {
                        (
                            SmokeTest { stage: SmokeStage::Measuring((run + 1) as u32), benchmark },
                            SmokeAction::Measure((run + 1) as u32),
                        )
                    } else {
                        (SmokeTest { benchmark, ..self }).ended(SmokeAction::Report(benchmark))
                    }
                },
                SmokeStage::Ended => self.ended(SmokeAction::Refuse),
            }
        }
    }

    /// A trial that has yet to warm up, and the first thing to do.
    pub fn new() -> (r: (SmokeTest, SmokeAction))
        ensures
            r == (SmokeTest::fresh(), SmokeAction::WarmUp),
            r.0.wf(),
    {
        (
            SmokeTest { stage: SmokeStage::WarmingUp, benchmark: Benchmark::new() },
            SmokeAction::WarmUp,
        )
    }

    /// Takes in an inference that gave so many outputs and took `time`.
    pub fn advance(&mut self, outputs: usize, time: u128) -> (r: SmokeAction)
        requires
            old(self).wf(),
            old(self).stage !is Ended,
            old(self).benchmark.total + time <= u128::MAX,
        ensures
            (*final(self), r) == old(self).stepped(outputs, time),
            final(self).wf(),
    {
        if outputs == 0 {
            self.stage = SmokeStage::Ended;
            return SmokeAction::Refuse;
        }
        match self.stage {
            SmokeStage::WarmingUp => {
                self.stage = SmokeStage::Measuring(1);
                SmokeAction::Measure(1)
            },
            SmokeStage::Measuring(run) => {
                self.benchmark.record(time);
                if run < BENCHMARK_RUNS {
                    self.stage = SmokeStage::Measuring(run + 1);
                    SmokeAction::Measure(run + 1)
                } else {
                    self.stage = SmokeStage::Ended;
                    SmokeAction::Report(self.benchmark)
                }
            },
            SmokeStage::Ended => SmokeAction::Refuse,
        }
    }
}

/// A trial whose inferences took these times and always gave an output.
pub open spec fn trial(times: Seq<u128>) -> (SmokeTest, SmokeAction)
    decreases times.len(),
{
    if times.len() == 0 {
        (SmokeTest::fresh(), SmokeAction::WarmUp)
    } else {
        trial(times.drop_last()).0.stepped(1, times.last())
    }
}

/// A model that always answers is warmed up once and then measured ten times; the
/// report is on the measured times alone.
pub proof fn warm_up_is_not_measured(times: Seq<u128>)
    requires
        times.len() <= BENCHMARK_RUNS + 1,
        total_time(times) <= u128::MAX,
    ensures
        ({
            let (test, action) = trial(times);
            let measured = times.skip(1);
            if times.len() == 0 {
                action == SmokeAction::WarmUp
            } else if times.len() <= BENCHMARK_RUNS {
                &&& action == SmokeAction::Measure(times.len() as u32)
                &&& test.stage == SmokeStage::Measuring(times.len() as u32)
                &&& test.benchmark.of(measured)
            } else {
                &&& test.stage is Ended
                &&& action matches SmokeAction::Report(benchmark)
                &&& benchmark.of(measured)
                &&& benchmark.runs == BENCHMARK_RUNS
            }
        }),
    decreases times.len(),
{
    if times.len() > 0 {
        let earlier = times.drop_last();
        lemma_total(earlier, 0, u128::MAX as int);
        warm_up_is_not_measured(earlier);
        if times.len() == 1 {
            assert(times.skip(1) =~= Seq::<u128>::empty());
        } else {
            let measured = earlier.skip(1);
            assert(times.skip(1) =~= measured.push(times.last()));
            lemma_total_from(earlier);
            lemma_with(trial(earlier).0.benchmark, measured, times.last());
        }
    }
}

/// The sum is the first time and the sum of the others.
proof fn lemma_total_from(times: Seq<u128>)
    requires
        times.len() > 0,
    ensures
        total_time(times.skip(1)) + times[0] == total_time(times),
    decreases times.len(),
{
    if times.len() > 1 {
        lemma_total_from(times.drop_last());
        assert(times.skip(1).drop_last() =~= times.drop_last().skip(1));
    } else {
        assert(times.skip(1) =~= Seq::<u128>::empty());
        assert(times.drop_last() =~= Seq::<u128>::empty());
    }
}

/// The total lies between what it would be if every time were the shortest and
/// if every time were the longest.
pub proof fn total_is_bounded(benchmark: Benchmark, times: Seq<u128>)
    requires
        benchmark.of(times),
        times.len() > 0,
    ensures
        benchmark.minimum->Some_0 * times.len() <= benchmark.total <= benchmark.maximum
            * times.len(),
{
    lemma_total(times, benchmark.minimum->Some_0 as int, benchmark.maximum as int);
}

proof fn lemma_total(times: Seq<u128>, low: int, high: int)
    requires
        forall|i: int| 0 <= i < times.len() ==> low <= #[trigger] times[i] <= high,
    ensures
        low * times.len() <= total_time(times) <= high * times.len(),
    decreases times.len(),
{
    if times.len() > 0 {
        let shorter = times.drop_last();
        assert forall|i: int| 0 <= i < shorter.len() implies low <= #[trigger] shorter[i] <= high by {
            assert(shorter[i] == times[i]);
        }
        lemma_total(shorter, low, high);
        let n = shorter.len() as int;
        assert(low * (n + 1) == low * n + low) by (nonlinear_arith);
        assert(high * (n + 1) == high * n + high) by (nonlinear_arith);
    } else {
        assert(low * 0 == 0 && high * 0 == 0) by (nonlinear_arith);
    }
}

/// A model that answers with nothing is refused, whenever that happens, and nothing is
/// reported; there are ten measured runs.
pub proof fn empty_answers_are_refused(test: SmokeTest, time: u128)
    ensures
        BENCHMARK_RUNS == 10,
        test.stepped(0, time).1 is Refuse,
        test.stepped(0, time).0.stage is Ended,
        test.stepped(0, time).0.benchmark == test.benchmark,
{
}

} // verus!
