//! Drift-corrected scheduling.
//!
//! A run's ticks are meant to land on the fixed grid `start + k * interval`.
//! Reading the counter and running the reporting hook take variable time, so
//! the wait before the next tick is recomputed from the absolute elapsed
//! time on every tick, never accumulated: a slow tick shortens the next wait
//! instead of shifting the whole schedule. A tick that overruns by more than
//! a full interval waits for the next future grid point rather than bursting
//! to catch up.

use vstd::arithmetic::div_mod::lemma_fundamental_div_mod;
use vstd::arithmetic::div_mod::lemma_fundamental_div_mod_converse_mod;
use vstd::arithmetic::div_mod::lemma_mod_multiples_basic;
use vstd::prelude::*;

verus! {

/// How long to wait from `now` until the next tick of the grid
/// `start + k * interval`: zero when `now` lies on the grid, otherwise the
/// distance to the first grid point after `now`.
pub open spec fn wait_to_next_tick(start: int, now: int, interval: int) -> int
    recommends
        interval > 0,
        now >= start,
{
    let elapsed = now - start;
    if elapsed % interval == 0 {
        0
    } else {
        interval - elapsed % interval
    }
}

/// Law: the computed wait always points at the next future grid point. It is
/// shorter than one interval, waiting for it reaches the grid exactly, and no
/// earlier moment lies on the grid; so a tick that overran several grid
/// points skips them instead of bursting to catch up.
pub proof fn lemma_wait_reaches_next_tick(start: int, now: int, interval: int)
    requires
        interval > 0,
        now >= start,
    ensures
        0 <= wait_to_next_tick(start, now, interval) < interval,
        (now - start + wait_to_next_tick(start, now, interval)) % interval == 0,
        forall|v: int|
            0 <= v < wait_to_next_tick(start, now, interval) ==> #[trigger] ((now - start + v)
                % interval) != 0,
{
    let elapsed = now - start;
    let q = elapsed / interval;
    let r = elapsed % interval;
    lemma_fundamental_div_mod(elapsed, interval);
    if r != 0 {
        let w = interval - r;
        assert(elapsed + w == (q + 1) * interval) by (nonlinear_arith)
            requires
                elapsed == interval * q + r,
                w == interval - r,
        ;
        lemma_mod_multiples_basic(q + 1, interval);
        assert forall|v: int| 0 <= v < w implies #[trigger] ((elapsed + v) % interval) != 0 by {
            assert(elapsed + v == q * interval + (r + v)) by (nonlinear_arith)
                requires
                    elapsed == interval * q + r,
            ;
            lemma_fundamental_div_mod_converse_mod(elapsed + v, interval, q, r + v);
        }
    }
}

/// Law: the schedule is absolute, not relative. When a tick fires `d` late
/// (by less than one interval) after grid point `k`, the computed wait
/// shrinks by exactly `d`, so the next tick still lands on grid point
/// `k + 1`; a tick exactly on the grid waits nothing.
pub proof fn lemma_schedule_is_absolute(start: int, interval: int, k: nat, d: int)
    requires
        interval > 0,
        0 <= d < interval,
    ensures
        ({
            let now = start + k * interval + d;
            now + wait_to_next_tick(start, now, interval) == if d == 0 {
                start + k * interval
            } else {
                start + (k + 1) * interval
            }
        }),
{
    let now = start + k * interval + d;
    let elapsed = now - start;
    assert(elapsed == k * interval + d);
    lemma_fundamental_div_mod_converse_mod(elapsed, interval, k as int, d);
    assert(elapsed % interval == d);
    if d != 0 {
        assert((k + 1) * interval == k * interval + interval) by (nonlinear_arith);
    }
}

} // verus!
