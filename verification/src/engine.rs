//! The sampling engine: run configuration, run state, and the bounded
//! newest-first sample history.
//!
//! An engine is idle until `begin` starts a run, once; each tick of a run
//! then reads the counter (outside this crate), turns the reading into a
//! `Datapoint`, `push`es it into the history, and asks `how_long_to_sleep`
//! for the wait until the next aligned tick. The history always holds the at
//! most `num_samples` most recent samples, newest first.

use crate::clock;
use crate::errors::Error;
use crate::sched;
use crate::units::canonical_of;
use crate::units::div_toward_zero;
use crate::units::mWh;
use crate::units::uWh;
use std::collections::VecDeque;
use vstd::arithmetic::div_mod::lemma_div_nonincreasing;
use vstd::arithmetic::mul::lemma_mul_upper_bound;
use vstd::math::min;
use vstd::prelude::*;

verus! {

/// How many samples the history retains.
pub type NumSamples = usize;

/// One recorded sample: a power reading in the canonical unit, stamped with
/// the absolute time of the read, in milliseconds.
#[derive(Debug, Clone, Copy, PartialEq, Eq, Structural)]
pub struct Datapoint {
    pub power: mWh,
    pub time_ms: i64,
}

/// A sample a tick can have produced: its power came from a 32-bit counter
/// reading, so it counts between 0 and `u32::MAX` micro-watt-hours.
pub open spec fn sample_wf(dp: Datapoint) -> bool {
    0 <= dp.power.micros <= u32::MAX
}

impl Datapoint {
    /// The sample one tick records: the raw counter reading tagged with the
    /// source unit, converted to the canonical unit, stamped with the time
    /// of the read.
    pub fn from_reading(raw: u32, time_ms: i64) -> (dp: Datapoint)
        ensures
            dp == (Datapoint { power: canonical_of(uWh { micros: raw as i64 }), time_ms }),
            dp.power.micros == raw as int,
            sample_wf(dp),
    {
        let with_unit = uWh::from_raw(raw);
        Datapoint { power: mWh::from(with_unit), time_ms }
    }
}

/// What one tick leaves of a history `s` with capacity `cap`: the new sample
/// in front of the `min(s.len(), cap - 1)` newest retained samples, so the
/// oldest entries are dropped first and the length settles at `cap`.
pub open spec fn push_front_bounded(s: Seq<Datapoint>, dp: Datapoint, cap: nat) -> Seq<Datapoint>
    recommends
        cap >= 1,
{
    seq![dp] + s.take(min(s.len() as int, cap - 1))
}

/// The history a run leaves after recording `samples` in order (oldest
/// recorded first), starting from an empty history with capacity `cap`.
pub open spec fn run_history(samples: Seq<Datapoint>, cap: nat) -> Seq<Datapoint>
    decreases samples.len(),
{
    if samples.len() == 0 {
        Seq::empty()
    } else {
        push_front_bounded(run_history(samples.drop_last(), cap), samples.last(), cap)
    }
}

/// Law: one more tick folds into the run model as one bounded front-push,
/// which is exactly what `Measurement::push` promises of one call.
pub proof fn lemma_run_history_step(samples: Seq<Datapoint>, dp: Datapoint, cap: nat)
    ensures
        run_history(samples.push(dp), cap) == push_front_bounded(
            run_history(samples, cap),
            dp,
            cap,
        ),
{
    assert(samples.push(dp).drop_last() =~= samples);
}

/// Law: with capacity `cap >= 1`, after any number of ticks the history
/// holds `min(ticks, cap)` samples: it grows by one per tick, settles at
/// exactly `cap` once at least `cap` ticks have happened, and never exceeds
/// `cap` at any point (the bound holds of every prefix of the run too).
pub proof fn lemma_history_len(samples: Seq<Datapoint>, cap: nat)
    requires
        cap >= 1,
    ensures
        run_history(samples, cap).len() == min(samples.len() as int, cap as int),
    decreases samples.len(),
{
    if samples.len() > 0 {
        lemma_history_len(samples.drop_last(), cap);
    }
}

/// Law: after at least one tick, the front of the history is exactly the
/// sample the most recent tick recorded.
pub proof fn lemma_front_is_latest(samples: Seq<Datapoint>, cap: nat)
    requires
        cap >= 1,
        samples.len() >= 1,
    ensures
        run_history(samples, cap)[0] == samples.last(),
{
}

/// The sum of the pairwise power differences across a newest-first history,
/// each sample's power subtracted from the next older one's: the net energy
/// drawn over the span the history covers.
pub open spec fn diff_sum(s: Seq<Datapoint>) -> int
    decreases s.len(),
{
    if s.len() < 2 {
        0
    } else {
        diff_sum(s.drop_last()) + (s.last().power.micros - s[s.len() - 2].power.micros)
    }
}

/// Law: the pairwise differences telescope: the sum is the oldest sample's
/// power minus the newest's.
pub proof fn lemma_diff_sum_telescopes(s: Seq<Datapoint>)
    requires
        s.len() >= 1,
    ensures
        diff_sum(s) == s.last().power.micros - s[0].power.micros,
    decreases s.len(),
{
    if s.len() > 1 {
        lemma_diff_sum_telescopes(s.drop_last());
    }
}

/// The sampling engine. The run's configuration (`interval_ms`,
/// `num_samples`) is fixed for its lifetime; `begin` sets `start_time_ms`
/// once; the history is owned by the engine and read through `dataset`,
/// `front`, `get` and `len`.
#[derive(Debug)]
pub struct Measurement {
    /// When the run began, in milliseconds; meaningful once `started`.
    pub start_time_ms: i64,
    /// Whether a run has begun.
    pub started: bool,
    /// The sampling interval, in milliseconds; always positive.
    pub interval_ms: i64,
    /// The history's capacity; always at least one.
    pub num_samples: NumSamples,
    /// The recent samples, newest first; read it through `dataset`, `front`,
    /// `get` and `len`, and let `push` alone grow it.
    pub dataset: VecDeque<Datapoint>,
}

impl Measurement {
    /// The history as a sequence, newest first.
    pub open spec fn samples(&self) -> Seq<Datapoint> {
        self.dataset@
    }

    /// The engine's invariant: a positive interval, a positive capacity,
    /// and a history no longer than the capacity, holding only samples a
    /// tick can have produced.
    pub open spec fn wf(&self) -> bool {
        &&& self.interval_ms > 0
        &&& self.num_samples >= 1
        &&& self.samples().len() <= self.num_samples
        &&& forall|i: int|
            0 <= i < self.samples().len() ==> sample_wf(#[trigger] self.samples()[i])
    }

    /// A new, idle engine with the given interval and capacity, and an
    /// empty history.
    pub fn new(interval_ms: i64, num_samples: NumSamples) -> (m: Measurement)
        requires
            interval_ms > 0,
            num_samples >= 1,
        ensures
            m.wf(),
            !m.started,
            m.interval_ms == interval_ms,
            m.num_samples == num_samples,
            m.samples() == Seq::<Datapoint>::empty(),
    {
        Measurement {
            start_time_ms: 0,
            started: false,
            interval_ms,
            num_samples,
            dataset: VecDeque::with_capacity(num_samples),
        }
    }

    /// Starts the run: reads the clock once and makes it the start time all
    /// scheduling is relative to. The start time is whatever the clock
    /// gave; everything else is untouched.
    pub fn begin(&mut self)
        requires
            !old(self).started,
        ensures
            final(self).started,
            final(self).interval_ms == old(self).interval_ms,
            final(self).num_samples == old(self).num_samples,
            final(self).samples() == old(self).samples(),
            old(self).wf() ==> final(self).wf(),
    {
        self.start_time_ms = clock::now_ms();
        self.started = true;
    }

    /// Records one sample: truncates the history's tail to at most
    /// `num_samples - 1` entries, then inserts the sample at the front, so
    /// the length becomes `min(previous + 1, num_samples)` and the oldest
    /// entries are the ones evicted.
    pub fn push(&mut self, dp: Datapoint)
        requires
            old(self).wf(),
            sample_wf(dp),
        ensures
            final(self).wf(),
            final(self).samples() == push_front_bounded(
                old(self).samples(),
                dp,
                old(self).num_samples as nat,
            ),
            final(self).samples().len() == min(
                old(self).samples().len() as int,
                old(self).num_samples - 1,
            ) + 1,
            final(self).samples()[0] == dp,
            final(self).started == old(self).started,
            final(self).start_time_ms == old(self).start_time_ms,
            final(self).interval_ms == old(self).interval_ms,
            final(self).num_samples == old(self).num_samples,
    {
        self.dataset.truncate(self.num_samples - 1);
        self.dataset.push_front(dp);
        proof {
            assert(self.dataset@ =~= push_front_bounded(
                old(self).samples(),
                dp,
                old(self).num_samples as nat,
            ));
        }
    }

    /// One tick's record step, with the run's abort policy: a source that
    /// could not be read (`None`) ends the tick with the read error, text
    /// that is no reading ends it with the parse error, and either failure
    /// leaves the engine exactly as it was; a valid reading pushes exactly
    /// its sample, stamped `now_ms`, and succeeds.
    pub fn tick(&mut self, read: Option<&[u8]>, now_ms: i64) -> (r: Result<(), Error>)
        requires
            old(self).wf(),
        ensures
            final(self).wf(),
            match read {
                None => r == Err::<(), Error>(Error::SourceReadError) && *final(self) == *old(self),
                Some(bytes) => if crate::reading::valid_reading(bytes@) {
                    r == Ok::<(), Error>(()) && final(self).samples() == push_front_bounded(
                        old(self).samples(),
                        Datapoint {
                            power: mWh { micros: crate::reading::reading_value(bytes@) as i64 },
                            time_ms: now_ms,
                        },
                        old(self).num_samples as nat,
                    ) && final(self).started == old(self).started && final(self).start_time_ms
                        == old(self).start_time_ms && final(self).interval_ms == old(
                        self,
                    ).interval_ms && final(self).num_samples == old(self).num_samples
                } else {
                    r == Err::<(), Error>(Error::SourceParseError) && *final(self) == *old(self)
                },
            },
    {
        match read {
            None => Err(Error::SourceReadError),
            Some(bytes) => match crate::reading::parse_reading(bytes) {
                Err(e) => Err(e),
                Ok(raw) => {
                    let dp = Datapoint::from_reading(raw, now_ms);
                    self.push(dp);
                    Ok(())
                },
            },
        }
    }

    /// How long to sleep until the next aligned tick, recomputed from the
    /// absolute elapsed time so that one slow tick never shifts the rest of
    /// the schedule. Fails with the scheduling error exactly when the
    /// elapsed time cannot be represented: the clock reads before the start
    /// of the run, or impossibly far after it.
    pub fn how_long_to_sleep(&self, now_ms: i64) -> (r: Result<i64, Error>)
        requires
            self.wf(),
            self.started,
        ensures
            match r {
                Ok(w) => self.start_time_ms <= now_ms && now_ms - self.start_time_ms
                    <= i64::MAX && w == sched::wait_to_next_tick(
                    self.start_time_ms as int,
                    now_ms as int,
                    self.interval_ms as int,
                ) && 0 <= w < self.interval_ms,
                Err(e) => e == Error::SchedulingError && (now_ms < self.start_time_ms || now_ms
                    - self.start_time_ms > i64::MAX),
            },
    {
        match now_ms.checked_sub(self.start_time_ms) {
            None => Err(Error::SchedulingError),
            Some(elapsed) => {
                if elapsed < 0 {
                    Err(Error::SchedulingError)
                } else {
                    let rem = elapsed % self.interval_ms;
                    if rem == 0 {
                        Ok(0)
                    } else {
                        Ok(self.interval_ms - rem)
                    }
                }
            },
        }
    }

    /// How many samples the history holds.
    pub fn len(&self) -> (l: usize)
        ensures
            l == self.samples().len(),
    {
        self.dataset.len()
    }

    /// The most recent sample, or none before the first tick of a run.
    pub fn front(&self) -> (r: Option<&Datapoint>)
        ensures
            match r {
                Some(dp) => self.samples().len() > 0 && *dp == self.samples()[0],
                None => self.samples().len() == 0,
            },
    {
        if self.dataset.len() > 0 {
            Some(&self.dataset[0])
        } else {
            None
        }
    }

    /// The sample at position `i`, newest first, or none past the end.
    pub fn get(&self, i: usize) -> (r: Option<&Datapoint>)
        ensures
            match r {
                Some(dp) => i < self.samples().len() && *dp == self.samples()[i as int],
                None => i >= self.samples().len(),
            },
    {
        if i < self.dataset.len() {
            Some(&self.dataset[i])
        } else {
            None
        }
    }

    /// Read-only view of the history, newest first.
    pub fn dataset(&self) -> (r: &VecDeque<Datapoint>)
        ensures
            r@ == self.samples(),
    {
        &self.dataset
    }

    /// The net energy drawn over the history's span: the sum of the
    /// consecutive sample differences, which telescopes to the oldest
    /// power minus the newest. None with fewer than two samples, when no
    /// difference exists yet.
    pub fn power_delta_sum(&self) -> (r: Option<mWh>)
        requires
            self.wf(),
        ensures
            match r {
                Some(m) => self.samples().len() >= 2 && m.micros == diff_sum(self.samples())
                    && m.micros == self.samples().last().power.micros
                    - self.samples()[0].power.micros,
                None => self.samples().len() < 2,
            },
    {
        let len = self.dataset.len();
        if len < 2 {
            return None;
        }
        let mut sum: i64 = 0;
        let mut i: usize = 1;
        while i < len
            invariant
                self.wf(),
                len == self.samples().len(),
                2 <= len,
                1 <= i <= len,
                sum == self.samples()[i - 1].power.micros - self.samples()[0].power.micros,
                sum == diff_sum(self.samples().take(i as int)),
            decreases len - i,
        {
            proof {
                assert(self.samples().take(i + 1).drop_last() =~= self.samples().take(i as int));
                assert(self.samples().take(i + 1).last() == self.samples()[i as int]);
                assert(sample_wf(self.samples()[i as int]));
                assert(sample_wf(self.samples()[i - 1]));
                assert(sample_wf(self.samples()[0]));
            }
            let a = self.dataset[i].power.micros;
            let b = self.dataset[i - 1].power.micros;
            sum = sum + (a - b);
            i = i + 1;
        }
        proof {
            assert(self.samples().take(len as int) =~= self.samples());
            lemma_diff_sum_telescopes(self.samples());
        }
        Some(mWh { micros: sum })
    }

    /// The mean power draw over the history's span: the net energy delta
    /// divided by the seconds the history covers (`len - 1` whole
    /// intervals), kept in thousandths of a milli-watt-hour per second and
    /// rounded toward zero. None with fewer than two samples, when no span
    /// exists yet.
    pub fn average_power(&self) -> (r: Option<mWh>)
        requires
            self.wf(),
        ensures
            match r {
                Some(a) => self.samples().len() >= 2 && a.micros == div_toward_zero(
                    diff_sum(self.samples()) * 1000,
                    (self.samples().len() - 1) * self.interval_ms,
                ),
                None => self.samples().len() < 2,
            },
    {
        let sum = match self.power_delta_sum() {
            None => {
                return None;
            },
            Some(s) => s,
        };
        let len = self.dataset.len();
        proof {
            assert(sample_wf(self.samples()[0]));
            assert(sample_wf(self.samples()[len - 1]));
            assert((len - 1) * (self.interval_ms as int) >= 1 * 1) by (nonlinear_arith)
                requires
                    len >= 2,
                    self.interval_ms >= 1,
            ;
            lemma_mul_upper_bound(
                len - 1,
                usize::MAX as int,
                self.interval_ms as int,
                i64::MAX as int,
            );
        }
        let num: i128 = sum.micros as i128 * 1000;
        let den: i128 = (len - 1) as i128 * self.interval_ms as i128;
        proof {
            if num >= 0 {
                lemma_div_nonincreasing(num as int, den as int);
            } else {
                lemma_div_nonincreasing(-num as int, den as int);
            }
        }
        let q: i128 = num / den;
        Some(mWh { micros: q as i64 })
    }
}

/// Law: reading the history is idempotent: two walks over an engine whose
/// history was not changed in between see the same sequence of samples.
pub proof fn lemma_iteration_idempotent(
    m: Measurement,
    first: Seq<Datapoint>,
    second: Seq<Datapoint>,
)
    requires
        first == m.samples(),
        second == m.samples(),
    ensures
        first == second,
{
}

} // verus!
