//! The run's configuration, as validated from the command line's raw values.
//!
//! The interval comes in as decimal seconds (for example `1` or `0.5`); it
//! is parsed exactly into whole milliseconds, with fraction digits past the
//! millisecond truncated, and must come to at least one millisecond. How the
//! raw text is collected from the command line is the caller's business.

use crate::engine::NumSamples;
use crate::reading::all_digits;
use crate::reading::dec_value;
use crate::reading::is_digit;
use crate::reading::lemma_dec_value_nonneg;
use crate::reading::lemma_dec_value_take_le;
use vstd::prelude::*;

verus! {

/// The most whole seconds an interval may name; a bound this side of what
/// an `i64` count of milliseconds can carry.
pub const MAX_DELTA_SECS: u64 = 999_999_999_999;

/// A validated run configuration.
pub struct Args {
    /// The sampling interval, in milliseconds; always positive.
    pub interval_ms: i64,
    /// How many samples the history retains; always at least one.
    pub num_samples: NumSamples,
}

/// The index of the first decimal point in `s`, or `s.len()` if none.
pub open spec fn first_dot(s: Seq<u8>) -> int
    decreases s.len(),
{
    if s.len() == 0 {
        0
    } else if s[0] == 0x2e {
        0
    } else {
        1 + first_dot(s.drop_first())
    }
}

/// The whole-seconds digits of a delta text: what stands before the first
/// decimal point.
pub open spec fn whole_of(s: Seq<u8>) -> Seq<u8> {
    s.take(first_dot(s))
}

/// The fraction digits of a delta text: what stands after the first decimal
/// point, or nothing when there is no point.
pub open spec fn frac_of(s: Seq<u8>) -> Seq<u8> {
    if first_dot(s) == s.len() {
        Seq::empty()
    } else {
        s.skip(first_dot(s) + 1)
    }
}

/// The milliseconds the fraction digits name: the first three fraction
/// digits read as hundreds, tens and ones of milliseconds; digits past the
/// millisecond are truncated.
pub open spec fn frac_ms(f: Seq<u8>) -> int {
    if f.len() == 0 {
        0
    } else if f.len() == 1 {
        (f[0] - 0x30) * 100
    } else if f.len() == 2 {
        dec_value(f) * 10
    } else {
        dec_value(f.take(3))
    }
}

/// When text names a usable interval: whole-second digits, optionally a
/// decimal point and fraction digits, at least one digit in all; the whole
/// seconds within `MAX_DELTA_SECS`; and the named span at least one
/// millisecond.
pub open spec fn valid_delta(s: Seq<u8>) -> bool {
    &&& all_digits(whole_of(s))
    &&& all_digits(frac_of(s))
    &&& whole_of(s).len() + frac_of(s).len() > 0
    &&& dec_value(whole_of(s)) <= MAX_DELTA_SECS
    &&& delta_ms(s) >= 1
}

/// The milliseconds a delta text names.
pub open spec fn delta_ms(s: Seq<u8>) -> int {
    dec_value(whole_of(s)) * 1000 + frac_ms(frac_of(s))
}

/// The first decimal point is where no earlier byte is one.
proof fn lemma_first_dot_at(s: Seq<u8>, k: int)
    requires
        0 <= k <= s.len(),
        forall|j: int| 0 <= j < k ==> #[trigger] s[j] != 0x2e,
        k == s.len() || s[k] == 0x2e,
    ensures
        first_dot(s) == k,
    decreases k,
{
    if k > 0 {
        lemma_first_dot_at(s.drop_first(), k - 1);
    }
}

/// Validates the command line's raw values into a run configuration:
/// exactly when the delta text names a usable interval and the capacity is
/// positive, the configuration with that interval in milliseconds and that
/// capacity.
pub fn parse(delta: &[u8], num_samples: NumSamples) -> (r: Option<Args>)
    ensures
        match r {
            Some(a) => {
                &&& valid_delta(delta@)
                &&& num_samples >= 1
                &&& a.interval_ms == delta_ms(delta@)
                &&& a.interval_ms >= 1
                &&& a.num_samples == num_samples
            },
            None => !valid_delta(delta@) || num_samples == 0,
        },
{
    if num_samples == 0 {
        return None;
    }
    let n = delta.len();
    let mut dot: usize = 0;
    while dot < n && delta[dot] != 0x2e
        invariant
            n == delta@.len(),
            dot <= n,
            forall|j: int| 0 <= j < dot ==> #[trigger] delta@[j] != 0x2e,
        decreases n - dot,
    {
        dot = dot + 1;
    }
    proof {
        lemma_first_dot_at(delta@, dot as int);
    }
    let ghost w = whole_of(delta@);
    let ghost f = frac_of(delta@);
    let fstart: usize = if dot < n {
        dot + 1
    } else {
        dot
    };
    proof {
        assert(w =~= delta@.subrange(0, dot as int));
        if dot < n {
            assert(f =~= delta@.subrange(fstart as int, n as int));
        } else {
            assert(f =~= delta@.subrange(fstart as int, n as int));
        }
    }
    if dot == 0 && fstart >= n {
        return None;
    }
    // the whole-seconds digits
    let mut wv: u64 = 0;
    let mut i: usize = 0;
    while i < dot
        invariant
            n == delta@.len(),
            i <= dot <= n,
            w == whole_of(delta@),
            w == delta@.subrange(0, dot as int),
            forall|j: int| 0 <= j < i ==> is_digit(#[trigger] delta@[j]),
            wv <= MAX_DELTA_SECS,
            wv == dec_value(delta@.subrange(0, i as int)),
        decreases dot - i,
    {
        let b = delta[i];
        if !(0x30 <= b && b <= 0x39) {
            proof {
                assert(w[i as int] == delta@[i as int]);
                assert(!all_digits(w));
            }
            return None;
        }
        proof {
            assert(delta@.subrange(0, i + 1).drop_last() =~= delta@.subrange(0, i as int));
            assert(delta@.subrange(0, i + 1).last() == delta@[i as int]);
        }
        wv = wv * 10 + ((b - 0x30) as u64);
        i = i + 1;
        if wv > MAX_DELTA_SECS {
            proof {
                if all_digits(w) {
                    assert(w.take(i as int) =~= delta@.subrange(0, i as int));
                    lemma_dec_value_take_le(w, i as int);
                }
            }
            return None;
        }
    }
    proof {
        assert(delta@.subrange(0, i as int) =~= w);
        assert(all_digits(w)) by {
            assert(forall|j: int| 0 <= j < w.len() ==> #[trigger] w[j] == delta@[j]);
        }
    }
    // the fraction digits must all be digits, even past the millisecond
    let mut k: usize = fstart;
    while k < n
        invariant
            n == delta@.len(),
            fstart <= k <= n,
            fstart >= dot,
            f == frac_of(delta@),
            f == delta@.subrange(fstart as int, n as int),
            forall|j: int| fstart <= j < k ==> is_digit(#[trigger] delta@[j]),
        decreases n - k,
    {
        let b = delta[k];
        if !(0x30 <= b && b <= 0x39) {
            proof {
                assert(f[k - fstart] == delta@[k as int]);
                assert(!all_digits(f));
            }
            return None;
        }
        k = k + 1;
    }
    proof {
        assert(all_digits(f)) by {
            assert(forall|j: int| 0 <= j < f.len() ==> #[trigger] f[j] == delta@[j + fstart]);
        }
    }
    // the first three fraction digits, as milliseconds
    let flen = n - fstart;
    let fv: u64 = if flen == 0 {
        0
    } else if flen == 1 {
        ((delta[fstart] - 0x30) as u64) * 100
    } else if flen == 2 {
        ((delta[fstart] - 0x30) as u64) * 100 + ((delta[fstart + 1] - 0x30) as u64) * 10
    } else {
        ((delta[fstart] - 0x30) as u64) * 100 + ((delta[fstart + 1] - 0x30) as u64) * 10 + ((
        delta[fstart + 2] - 0x30) as u64)
    };
    proof {
        if f.len() >= 1 {
            assert(f[0] == delta@[fstart as int]);
        }
        if f.len() == 2 {
            assert(f.drop_last() =~= seq![f[0]]);
            assert(seq![f[0]].drop_last() =~= Seq::<u8>::empty());
            assert(dec_value(Seq::<u8>::empty()) == 0);
            assert(dec_value(seq![f[0]]) == f[0] - 0x30);
            assert(f.last() == f[1]);
            assert(dec_value(f) == (f[0] - 0x30) * 10 + (f[1] - 0x30));
        }
        if f.len() >= 3 {
            let t3 = f.take(3);
            assert(t3.drop_last() =~= f.take(2));
            assert(f.take(2).drop_last() =~= f.take(1));
            assert(f.take(1).drop_last() =~= Seq::<u8>::empty());
            assert(t3.last() == f[2]);
            assert(f.take(2).last() == f[1]);
            assert(f.take(1).last() == f[0]);
            assert(dec_value(Seq::<u8>::empty()) == 0);
            assert(dec_value(f.take(1)) == f[0] - 0x30);
            assert(dec_value(f.take(2)) == (f[0] - 0x30) * 10 + (f[1] - 0x30));
            assert(dec_value(t3) == ((f[0] - 0x30) * 10 + (f[1] - 0x30)) * 10 + (f[2] - 0x30));
        }
        assert(fv == frac_ms(f));
        lemma_dec_value_nonneg(w);
    }
    let value: u64 = wv * 1000 + fv;
    if value == 0 {
        return None;
    }
    Some(Args { interval_ms: value as i64, num_samples })
}

} // verus!
