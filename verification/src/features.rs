//! The integer side of feature extraction: how many samples an analysis
//! needs, which samples the spectrum is taken over, and how often a signal
//! crosses zero.

use vstd::prelude::*;

verus! {

/// The fewest samples a file must hold to be analysed.
pub const MIN_SAMPLES: usize = 128;

/// The smallest FFT size used.
pub const MIN_FFT_SIZE: usize = 1024;

/// The largest FFT size used: longer files are analysed on a centre segment
/// of this many samples.
pub const MAX_FFT_SIZE: usize = 16384;

/// Why a signal cannot be analysed.
#[derive(Debug, Clone, Copy, PartialEq, Eq)]
pub enum FeatureError {
    /// Fewer than `MIN_SAMPLES` samples.
    TooFewSamples { got: usize },
}

/// Check that a signal of `len` samples is long enough to analyse.
pub fn check_sample_count(len: usize) -> (r: Result<(), FeatureError>)
    ensures
        r is Ok <==> len >= MIN_SAMPLES,
        r is Err ==> r == Err::<(), FeatureError>(FeatureError::TooFewSamples { got: len }),
{
    if len < MIN_SAMPLES {
        Err(FeatureError::TooFewSamples { got: len })
    } else {
        Ok(())
    }
}

/// The sign of a sample as the zero-crossing count reads it: `>= 0`,
/// `< 0`, or neither (a NaN).
#[derive(Debug, Clone, Copy, PartialEq, Eq, Structural)]
pub enum SampleSign {
    NonNegative,
    Negative,
    Unordered,
}

/// Two consecutive samples cross zero: one is `>= 0` and the other `< 0`.
pub open spec fn crosses(a: SampleSign, b: SampleSign) -> bool {
    (a == SampleSign::NonNegative && b == SampleSign::Negative) || (a == SampleSign::Negative
        && b == SampleSign::NonNegative)
}

/// The number of consecutive pairs of `s` that cross zero.
pub open spec fn crossings(s: Seq<SampleSign>) -> nat
    decreases s.len(),
{
    if s.len() < 2 {
        0
    } else {
        crossings(s.drop_last()) + if crosses(s[s.len() - 2], s[s.len() - 1]) {
            1nat
        } else {
            0nat
        }
    }
}

proof fn lemma_crossings_bound(s: Seq<SampleSign>)
    ensures
        s.len() >= 1 ==> crossings(s) <= s.len() - 1,
        s.len() < 2 ==> crossings(s) == 0,
    decreases s.len(),
{
    if s.len() >= 2 {
        lemma_crossings_bound(s.drop_last());
    }
}

/// Count the zero crossings of a signal given by the signs of its samples.
/// The zero-crossing rate is this count divided by `len - 1`.
pub fn count_zero_crossings(signs: &[SampleSign]) -> (r: usize)
    ensures
        r == crossings(signs@),
        signs@.len() < 2 ==> r == 0,
        signs@.len() >= 2 ==> r <= signs@.len() - 1,
{
    proof {
        lemma_crossings_bound(signs@);
    }
    let n = signs.len();
    if n < 2 {
        return 0;
    }
    let mut count: usize = 0;
    let mut i: usize = 1;
    while i < n
        invariant
            n == signs@.len(),
            1 <= i <= n,
            count == crossings(signs@.take(i as int)),
            count <= i - 1,
        decreases n - i,
    {
        let ghost prefix = signs@.take(i as int + 1);
        assert(prefix.drop_last() =~= signs@.take(i as int));
        let a = signs[i - 1];
        let b = signs[i];
        let crossing = (a == SampleSign::NonNegative && b == SampleSign::Negative) || (a
            == SampleSign::Negative && b == SampleSign::NonNegative);
        if crossing {
            count = count + 1;
        }
        i = i + 1;
    }
    assert(signs@.take(n as int) =~= signs@);
    count
}

/// A signal that never changes sign never crosses zero.
pub proof fn lemma_constant_sign_no_crossings(s: Seq<SampleSign>, sign: SampleSign)
    requires
        forall|i: int| 0 <= i < s.len() ==> s[i] == sign,
    ensures
        crossings(s) == 0,
    decreases s.len(),
{
    if s.len() >= 2 {
        lemma_constant_sign_no_crossings(s.drop_last(), sign);
    }
}

/// A signal whose sign flips between every pair of samples crosses zero
/// between every pair.
pub proof fn lemma_alternating_crosses_everywhere(s: Seq<SampleSign>)
    requires
        s.len() >= 1,
        forall|i: int| 0 <= i < s.len() - 1 ==> crosses(#[trigger] s[i], s[i + 1]),
    ensures
        crossings(s) == s.len() - 1,
    decreases s.len(),
{
    if s.len() >= 2 {
        let t = s.drop_last();
        assert forall|i: int| 0 <= i < t.len() - 1 implies crosses(#[trigger] t[i], t[i + 1]) by {
            assert(crosses(s[i], s[i + 1]));
        }
        lemma_alternating_crosses_everywhere(t);
        assert(crosses(s[s.len() - 2], s[s.len() - 1]));
    }
}

/// Appending a sample adds one crossing exactly when it crosses the last
/// sample, whatever came before.
pub proof fn lemma_crossings_push(s: Seq<SampleSign>, x: SampleSign)
    requires
        s.len() > 0,
    ensures
        crossings(s.push(x)) == crossings(s) + if (s.last() == SampleSign::NonNegative && x
            == SampleSign::Negative) || (s.last() == SampleSign::Negative && x
            == SampleSign::NonNegative) {
            1nat
        } else {
            0nat
        },
{
    assert(s.push(x).drop_last() =~= s);
}

/// The crossings of two signals joined end to end are those of each part,
/// plus one when the join itself crosses zero.
pub proof fn lemma_crossings_concat(a: Seq<SampleSign>, b: Seq<SampleSign>)
    requires
        a.len() > 0,
        b.len() > 0,
    ensures
        crossings(a + b) == crossings(a) + crossings(b) + if (a.last() == SampleSign::NonNegative
            && b[0] == SampleSign::Negative) || (a.last() == SampleSign::Negative && b[0]
            == SampleSign::NonNegative) {
            1nat
        } else {
            0nat
        },
    decreases b.len(),
{
    if b.len() == 1 {
        assert(a + b =~= a.push(b[0]));
        lemma_crossings_push(a, b[0]);
        assert(crossings(b) == 0);
    } else {
        let b1 = b.drop_last();
        let x = b.last();
        lemma_crossings_concat(a, b1);
        assert(a + b =~= (a + b1).push(x));
        assert((a + b1).last() == b1.last());
        lemma_crossings_push(a + b1, x);
        assert(b =~= b1.push(x));
        lemma_crossings_push(b1, x);
    }
}

/// A signal that changes sign once, from `>= 0` to `< 0`, crosses zero
/// once, however long each run is.
pub proof fn lemma_one_sign_change(m: nat, n: nat)
    requires
        m > 0,
        n > 0,
    ensures
        crossings(
            Seq::new(m, |i: int| SampleSign::NonNegative) + Seq::new(n, |i: int| SampleSign::Negative),
        ) == 1,
{
    let a = Seq::new(m, |i: int| SampleSign::NonNegative);
    let b = Seq::new(n, |i: int| SampleSign::Negative);
    lemma_constant_sign_no_crossings(a, SampleSign::NonNegative);
    lemma_constant_sign_no_crossings(b, SampleSign::Negative);
    lemma_crossings_concat(a, b);
}

/// The smallest power of two, from `p` on by doubling, that is at least `n`.
pub open spec fn next_pow2_from(n: nat, p: nat) -> nat
    decreases (if p >= n {
        0
    } else {
        n - p
    }),
{
    if p == 0 || p >= n {
        if p == 0 {
            1
        } else {
            p
        }
    } else {
        next_pow2_from(n, 2 * p)
    }
}

/// `n` is a power of two.
pub open spec fn is_power_of_two(n: nat) -> bool
    decreases n,
{
    if n == 1 {
        true
    } else if n < 2 || n % 2 != 0 {
        false
    } else {
        is_power_of_two(n / 2)
    }
}

proof fn lemma_next_pow2_is_pow2(n: nat, p: nat)
    requires
        is_power_of_two(p),
    ensures
        is_power_of_two(next_pow2_from(n, p)),
    decreases (if p >= n {
        0
    } else {
        n - p
    }),
{
    if p != 0 && p < n {
        assert((2 * p) % 2 == 0 && (2 * p) / 2 == p);
        lemma_next_pow2_is_pow2(n, 2 * p);
    }
}

/// `usize::next_power_of_two`: the smallest power of two `>= n` (1 for 0).
pub open spec fn next_power_of_two(n: nat) -> nat {
    next_pow2_from(n, 1)
}

/// The FFT size for a signal of `len` samples: its next power of two,
/// clamped to `[MIN_FFT_SIZE, MAX_FFT_SIZE]`.
pub open spec fn fft_size_for(len: nat) -> nat {
    let p = next_power_of_two(len);
    if p < MIN_FFT_SIZE {
        MIN_FFT_SIZE as nat
    } else if p > MAX_FFT_SIZE {
        MAX_FFT_SIZE as nat
    } else {
        p
    }
}

/// The part of a signal whose spectrum is taken: `fft_size` points,
/// filled from `samples[start..end]` and padded with zeros.
#[derive(Debug, Clone, Copy, PartialEq, Eq)]
pub struct AnalysisWindow {
    pub fft_size: usize,
    pub start: usize,
    pub end: usize,
}

/// Choose the analysis window for a signal of `len` samples: a centre
/// segment when the signal is longer than the FFT size, else all of it.
pub fn analysis_window(len: usize) -> (w: AnalysisWindow)
    requires
        len <= usize::MAX / 2 + 1,
    ensures
        w.fft_size == fft_size_for(len as nat),
        w.start == if len > w.fft_size {
            (len - w.fft_size) / 2
        } else {
            0
        },
        w.end == if w.start + w.fft_size < len {
            w.start + w.fft_size
        } else {
            len as int
        },
        MIN_FFT_SIZE <= w.fft_size <= MAX_FFT_SIZE,
        is_power_of_two(w.fft_size as nat),
        w.start <= w.end <= len,
        w.end - w.start <= w.fft_size,
        len > w.fft_size ==> w.end - w.start == w.fft_size && len - w.end - w.start <= 1,
{
    let mut p: usize = 1;
    while p < len
        invariant
            1 <= p,
            len <= usize::MAX / 2 + 1,
            next_pow2_from(len as nat, 1) == next_pow2_from(len as nat, p as nat),
        decreases (if p >= len {
            0
        } else {
            len - p
        }),
    {
        p = p * 2;
    }
    proof {
        lemma_next_pow2_is_pow2(len as nat, 1);
        reveal_with_fuel(is_power_of_two, 16);
        assert(is_power_of_two(1024));
        assert(is_power_of_two(16384));
    }
    let n = if p < MIN_FFT_SIZE {
        MIN_FFT_SIZE
    } else if p > MAX_FFT_SIZE {
        MAX_FFT_SIZE
    } else {
        p
    };
    let start = if len > n {
        (len - n) / 2
    } else {
        0
    };
    let end = if start + n < len {
        start + n
    } else {
        len
    };
    AnalysisWindow { fft_size: n, start, end }
}

} // verus!
