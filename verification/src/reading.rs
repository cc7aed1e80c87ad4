//! Parsing the energy source's contents.
//!
//! The source yields ASCII text that, after trimming whitespace, must spell
//! a non-negative decimal integer (the counter's reading in micro-watt-hours,
//! fitting 32 bits). Anything else is a parse error that aborts the run.

use crate::errors::Error;
use vstd::prelude::*;

verus! {

/// ASCII whitespace: space, tab, line feed, vertical tab, form feed,
/// carriage return.
pub open spec fn is_space(b: u8) -> bool {
    b == 0x20 || b == 0x09 || b == 0x0a || b == 0x0b || b == 0x0c || b == 0x0d
}

/// `s` with leading whitespace removed.
pub open spec fn trim_front(s: Seq<u8>) -> Seq<u8>
    decreases s.len(),
{
    if s.len() > 0 && is_space(s[0]) {
        trim_front(s.drop_first())
    } else {
        s
    }
}

/// `s` with trailing whitespace removed.
pub open spec fn trim_back(s: Seq<u8>) -> Seq<u8>
    decreases s.len(),
{
    if s.len() > 0 && is_space(s.last()) {
        trim_back(s.drop_last())
    } else {
        s
    }
}

/// `s` with whitespace removed at both ends.
pub open spec fn trimmed(s: Seq<u8>) -> Seq<u8> {
    trim_back(trim_front(s))
}

/// An ASCII decimal digit.
pub open spec fn is_digit(b: u8) -> bool {
    0x30 <= b <= 0x39
}

pub open spec fn all_digits(s: Seq<u8>) -> bool {
    forall|i: int| 0 <= i < s.len() ==> is_digit(#[trigger] s[i])
}

/// The number a string of decimal digits spells.
pub open spec fn dec_value(s: Seq<u8>) -> int
    decreases s.len(),
{
    if s.len() == 0 {
        0
    } else {
        dec_value(s.drop_last()) * 10 + (s.last() - 0x30)
    }
}

/// The digits of a trimmed reading: an optional leading plus sign is
/// accepted, as the unsigned-integer grammar has it.
pub open spec fn digits_of(t: Seq<u8>) -> Seq<u8> {
    if t.len() > 0 && t[0] == 0x2b {
        t.drop_first()
    } else {
        t
    }
}

/// When text encodes a counter reading: after trimming whitespace and an
/// optional plus sign, one or more decimal digits remain, and they spell a
/// value that fits the counter's 32 bits.
pub open spec fn valid_reading(s: Seq<u8>) -> bool {
    let d = digits_of(trimmed(s));
    d.len() > 0 && all_digits(d) && dec_value(d) <= u32::MAX
}

/// The reading a valid text spells.
pub open spec fn reading_value(s: Seq<u8>) -> int {
    dec_value(digits_of(trimmed(s)))
}

/// Trimming the front keeps the suffix that starts at the first non-space.
proof fn lemma_trim_front_subrange(s: Seq<u8>, lo: int)
    requires
        0 <= lo <= s.len(),
        forall|i: int| 0 <= i < lo ==> is_space(#[trigger] s[i]),
        lo == s.len() || !is_space(s[lo]),
    ensures
        trim_front(s) == s.subrange(lo, s.len() as int),
    decreases lo,
{
    if lo == 0 {
        assert(s.subrange(0, s.len() as int) =~= s);
    } else {
        let t = s.drop_first();
        lemma_trim_front_subrange(t, lo - 1);
        assert(t.subrange(lo - 1, t.len() as int) =~= s.subrange(lo, s.len() as int));
    }
}

/// Trimming the back keeps the prefix that ends at the last non-space.
proof fn lemma_trim_back_subrange(s: Seq<u8>, hi: int)
    requires
        0 <= hi <= s.len(),
        forall|i: int| hi <= i < s.len() ==> is_space(#[trigger] s[i]),
        hi == 0 || !is_space(s[hi - 1]),
    ensures
        trim_back(s) == s.subrange(0, hi),
    decreases s.len(),
{
    if hi == s.len() {
        assert(s.subrange(0, hi) =~= s);
    } else {
        let t = s.drop_last();
        lemma_trim_back_subrange(t, hi);
        assert(t.subrange(0, hi) =~= s.subrange(0, hi));
    }
}

/// A string of digits spells a non-negative number.
pub(crate) proof fn lemma_dec_value_nonneg(d: Seq<u8>)
    requires
        all_digits(d),
    ensures
        dec_value(d) >= 0,
    decreases d.len(),
{
    if d.len() > 0 {
        assert(all_digits(d.drop_last()));
        lemma_dec_value_nonneg(d.drop_last());
    }
}

/// Appending digits never shrinks the value a digit string spells.
pub(crate) proof fn lemma_dec_value_take_le(d: Seq<u8>, k: int)
    requires
        0 <= k <= d.len(),
        all_digits(d),
    ensures
        dec_value(d.take(k)) <= dec_value(d),
    decreases d.len() - k,
{
    if k == d.len() {
        assert(d.take(k) =~= d);
    } else {
        assert(d.take(k + 1).drop_last() =~= d.take(k));
        assert(d.take(k + 1).last() == d[k]);
        assert(all_digits(d.take(k))) by {
            assert(forall|i: int| 0 <= i < k ==> #[trigger] d.take(k)[i] == d[i]);
        }
        lemma_dec_value_nonneg(d.take(k));
        assert(dec_value(d.take(k)) <= dec_value(d.take(k + 1)));
        lemma_dec_value_take_le(d, k + 1);
    }
}

/// Reads a counter value from the source's raw contents: trims ASCII
/// whitespace, then parses what remains as a non-negative decimal integer.
/// Returns the parse error exactly when the text does not encode a reading.
pub fn parse_reading(bytes: &[u8]) -> (r: Result<u32, Error>)
    ensures
        match r {
            Ok(v) => valid_reading(bytes@) && v as int == reading_value(bytes@),
            Err(e) => e == Error::SourceParseError && !valid_reading(bytes@),
        },
{
    let n = bytes.len();
    let mut lo: usize = 0;
    while lo < n && (bytes[lo] == 0x20 || bytes[lo] == 0x09 || bytes[lo] == 0x0a || bytes[lo]
        == 0x0b || bytes[lo] == 0x0c || bytes[lo] == 0x0d)
        invariant
            n == bytes@.len(),
            lo <= n,
            forall|i: int| 0 <= i < lo ==> is_space(#[trigger] bytes@[i]),
        decreases n - lo,
    {
        lo = lo + 1;
    }
    let mut hi: usize = n;
    while hi > lo && (bytes[hi - 1] == 0x20 || bytes[hi - 1] == 0x09 || bytes[hi - 1] == 0x0a
        || bytes[hi - 1] == 0x0b || bytes[hi - 1] == 0x0c || bytes[hi - 1] == 0x0d)
        invariant
            n == bytes@.len(),
            lo <= hi <= n,
            forall|i: int| hi <= i < n ==> is_space(#[trigger] bytes@[i]),
        decreases hi,
    {
        hi = hi - 1;
    }
    proof {
        lemma_trim_front_subrange(bytes@, lo as int);
        let t = bytes@.subrange(lo as int, n as int);
        assert(forall|i: int|
            hi - lo <= i < t.len() ==> is_space(#[trigger] t[i]) == is_space(
                bytes@[i + lo as int],
            ));
        lemma_trim_back_subrange(t, hi - lo);
        assert(t.subrange(0, hi - lo) =~= bytes@.subrange(lo as int, hi as int));
    }
    let dlo: usize = if hi > lo && bytes[lo] == 0x2b {
        lo + 1
    } else {
        lo
    };
    let ghost d = bytes@.subrange(dlo as int, hi as int);
    proof {
        let tr = bytes@.subrange(lo as int, hi as int);
        if tr.len() > 0 && tr[0] == 0x2b {
            assert(tr.drop_first() =~= d);
        } else {
            assert(tr =~= d);
        }
        assert(digits_of(trimmed(bytes@)) == d);
    }
    if dlo == hi {
        return Err(Error::SourceParseError);
    }
    let mut v: u64 = 0;
    let mut i: usize = dlo;
    while i < hi
        invariant
            n == bytes@.len(),
            dlo <= i <= hi <= n,
            dlo < hi,
            d == bytes@.subrange(dlo as int, hi as int),
            d == digits_of(trimmed(bytes@)),
            forall|j: int| dlo <= j < i ==> is_digit(#[trigger] bytes@[j]),
            v <= u32::MAX,
            v == dec_value(bytes@.subrange(dlo as int, i as int)),
        decreases hi - i,
    {
        let b = bytes[i];
        if !(0x30 <= b && b <= 0x39) {
            proof {
                assert(d[i - dlo] == bytes@[i as int]);
                assert(!all_digits(d));
            }
            return Err(Error::SourceParseError);
        }
        proof {
            assert(bytes@.subrange(dlo as int, i + 1).drop_last() =~= bytes@.subrange(
                dlo as int,
                i as int,
            ));
            assert(bytes@.subrange(dlo as int, i + 1).last() == bytes@[i as int]);
        }
        v = v * 10 + ((b - 0x30) as u64);
        i = i + 1;
        if v > 0xffff_ffff {
            proof {
                if all_digits(d) {
                    assert(d.take(i - dlo) =~= bytes@.subrange(dlo as int, i as int));
                    lemma_dec_value_take_le(d, i - dlo);
                }
            }
            return Err(Error::SourceParseError);
        }
    }
    proof {
        assert(bytes@.subrange(dlo as int, i as int) =~= d);
        assert(all_digits(d)) by {
            assert(forall|j: int| 0 <= j < d.len() ==> #[trigger] d[j] == bytes@[j + dlo as int]);
        }
    }
    Ok(v as u32)
}

} // verus!
