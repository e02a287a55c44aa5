//! The dominant-frequency classifier: turn the per-probe complex
//! amplitudes produced by the correlation engine into a single detected
//! note with a confidence score, or report that nothing was detected.
//!
//! Amplitudes arrive as fixed-point integers (the correlation engine's
//! real numbers scaled by a constant factor); the classifier only ever
//! compares their squared magnitudes, so any uniform scale works.

use vstd::prelude::*;
use crate::note::Note;

verus! {

/// The complex amplitude estimated for every probe frequency, index-aligned
/// with the reference pitch table: one `(real, imaginary)` pair per probe,
/// in fixed-point.
#[derive(Clone, PartialEq, Debug)]
pub struct CorrelationResult {
    pub frequency_amplitudes: Vec<(i64, i64)>,
}

/// Peak squared magnitude over mean squared magnitude, kept as an exact
/// ratio: `num / den` with `num` the peak magnitude times the probe count
/// and `den` the magnitude total. A unitless discrimination score, not a
/// probability.
#[derive(Clone, Copy, PartialEq, Eq, Structural, Debug)]
pub struct Confidence {
    pub num: u128,
    pub den: u128,
}

/// What the classifier concluded for one window of audio.
#[derive(Clone, PartialEq, Debug)]
pub enum DetectionOutcome {
    Detected { index: usize, note: Note, confidence: Confidence },
    Inconclusive,
}

/// A detection counts only when the confidence ratio exceeds this
/// empirically chosen threshold.
pub const CONFIDENCE_THRESHOLD: u128 = 10;

/// The squared magnitude of one complex amplitude.
pub open spec fn magnitude(p: (i64, i64)) -> int {
    p.0 * p.0 + p.1 * p.1
}

/// The squared magnitudes of a whole amplitude vector.
pub open spec fn mags_of(amps: Seq<(i64, i64)>) -> Seq<int> {
    amps.map_values(|p: (i64, i64)| magnitude(p))
}

pub open spec fn sum_int(s: Seq<int>) -> int
    decreases s.len(),
{
    if s.len() == 0 {
        0
    } else {
        sum_int(s.drop_last()) + s.last()
    }
}

/// The index of the first maximum: a later entry displaces the running
/// maximum only when it is strictly greater, so on ties the earliest
/// (lowest-frequency) index wins.
pub open spec fn argmax_first(s: Seq<int>) -> int
    decreases s.len(),
{
    if s.len() <= 1 {
        0
    } else {
        let r = argmax_first(s.drop_last());
        if s.last() > s[r] {
            s.len() - 1
        } else {
            r
        }
    }
}

/// The index the classifier reports when it detects a note.
pub open spec fn detection_index(amps: Seq<(i64, i64)>) -> int {
    argmax_first(mags_of(amps))
}

/// Whether a window is classified as a detection: the magnitude total must
/// be positive (an all-zero window is inconclusive, never a division
/// error), and the peak-over-mean ratio must exceed the threshold.
pub open spec fn spec_detected(amps: Seq<(i64, i64)>) -> bool {
    let m = mags_of(amps);
    amps.len() > 0 && sum_int(m) > 0 && m[argmax_first(m)] * amps.len() > (
    CONFIDENCE_THRESHOLD as int) * sum_int(m)
}

pub proof fn lemma_argmax_first_props(s: Seq<int>)
    requires
        s.len() > 0,
    ensures
        0 <= argmax_first(s) < s.len(),
        forall|k: int| 0 <= k < s.len() ==> #[trigger] s[k] <= s[argmax_first(s)],
        forall|k: int| 0 <= k < argmax_first(s) ==> #[trigger] s[k] < s[argmax_first(s)],
    decreases s.len(),
{
    if s.len() > 1 {
        lemma_argmax_first_props(s.drop_last());
        assert(forall|k: int| 0 <= k < s.len() - 1 ==> s.drop_last()[k] == s[k]);
    }
}

pub proof fn lemma_sum_int_bounds(s: Seq<int>, lo: int, hi: int)
    requires
        forall|k: int| 0 <= k < s.len() ==> lo <= #[trigger] s[k] <= hi,
        lo <= 0,
        hi >= 0,
    ensures
        s.len() * lo <= sum_int(s) <= s.len() * hi,
    decreases s.len(),
{
    if s.len() > 0 {
        assert(forall|k: int| 0 <= k < s.len() - 1 ==> s.drop_last()[k] == s[k]);
        lemma_sum_int_bounds(s.drop_last(), lo, hi);
        assert((s.len() - 1) * lo + lo == s.len() * lo) by (nonlinear_arith);
        assert((s.len() - 1) * hi + hi == s.len() * hi) by (nonlinear_arith);
    }
}

/// An all-zero window has magnitude total zero, so it is never classified
/// as a detection: silence is the expected steady state, not an error.
pub proof fn lemma_silence_is_inconclusive(amps: Seq<(i64, i64)>)
    requires
        forall|k: int| 0 <= k < amps.len() ==> amps[k].0 == 0 && amps[k].1 == 0,
    ensures
        !spec_detected(amps),
{
    let m = mags_of(amps);
    assert(forall|k: int| 0 <= k < m.len() ==> 0 <= #[trigger] m[k] <= 0);
    lemma_sum_int_bounds(m, 0, 0);
}

/// On ties the classifier prefers the lower index: if entry `i` is maximal
/// and some later entry `j` equals it, the detected index is at most `i`.
pub proof fn lemma_tie_picks_lower_index(amps: Seq<(i64, i64)>, i: int, j: int)
    requires
        0 <= i < j < amps.len(),
        mags_of(amps)[i] == mags_of(amps)[j],
        forall|k: int| 0 <= k < amps.len() ==> mags_of(amps)[k] <= mags_of(amps)[i],
    ensures
        detection_index(amps) <= i,
{
    let m = mags_of(amps);
    lemma_argmax_first_props(m);
    let a = argmax_first(m);
    if a > i {
        assert(m[i] < m[a]);
        assert(m[a] <= m[i]);
    }
}

impl CorrelationResult {
    /// Classify one correlation spectrum against the probe table it was
    /// computed for. Returns `Detected` with the first-maximum index, the
    /// probe at that index, and the exact confidence ratio, precisely when
    /// `spec_detected` holds; otherwise `Inconclusive`. The amplitude
    /// bound keeps every intermediate product inside machine integers.
    pub fn classify(&self, probes: &Vec<Note>) -> (r: DetectionOutcome)
        requires
            self.frequency_amplitudes@.len() == probes@.len(),
            self.frequency_amplitudes@.len() <= 0x1_0000_0000,
            forall|k: int|
                0 <= k < self.frequency_amplitudes@.len() ==> -0x8000_0000 <= (
                #[trigger] self.frequency_amplitudes@[k]).0 <= 0x8000_0000 && -0x8000_0000
                    <= self.frequency_amplitudes@[k].1 <= 0x8000_0000,
        ensures
            r is Detected <==> spec_detected(self.frequency_amplitudes@),
            match r {
                DetectionOutcome::Detected { index, note, confidence } => {
                    let m = mags_of(self.frequency_amplitudes@);
                    &&& index == detection_index(self.frequency_amplitudes@)
                    &&& note.frequency_millihertz == probes@[index as int].frequency_millihertz
                    &&& note.name@ == probes@[index as int].name@
                    &&& confidence.num == m[index as int] * self.frequency_amplitudes@.len()
                    &&& confidence.den == sum_int(m)
                    &&& confidence.den > 0
                },
                DetectionOutcome::Inconclusive => true,
            },
    {
        let amps = &self.frequency_amplitudes;
        let ghost m = mags_of(amps@);
        if amps.len() == 0 {
            return DetectionOutcome::Inconclusive;
        }
        let mut mags: Vec<u64> = Vec::new();
        let mut i: usize = 0;
        while i < amps.len()
            invariant
                i <= amps@.len(),
                mags@.len() == i,
                m == mags_of(amps@),
                forall|k: int|
                    0 <= k < amps@.len() ==> -0x8000_0000 <= (#[trigger] amps@[k]).0
                        <= 0x8000_0000 && -0x8000_0000 <= amps@[k].1 <= 0x8000_0000,
                forall|k: int|
                    0 <= k < i ==> mags@[k] == m[k] && 0 <= m[k] <= 0x8000_0000_0000_0000,
            decreases amps@.len() - i,
        {
            let (re, im) = amps[i];
            proof {
                assert(0 <= (re as int) * (re as int) <= 0x4000_0000_0000_0000)
                    by (nonlinear_arith)
                    requires
                        -0x8000_0000 <= re as int <= 0x8000_0000,
                ;
                assert(0 <= (im as int) * (im as int) <= 0x4000_0000_0000_0000)
                    by (nonlinear_arith)
                    requires
                        -0x8000_0000 <= im as int <= 0x8000_0000,
                ;
            }
            let re2 = (re as i128) * (re as i128);
            let im2 = (im as i128) * (im as i128);
            let mag = (re2 + im2) as u64;
            mags.push(mag);
            i = i + 1;
        }
        // the first maximum: a later entry wins only when strictly greater
        let mut max_index: usize = 0;
        let mut max_mag: u64 = mags[0];
        let mut i: usize = 1;
        while i < mags.len()
            invariant
                1 <= i <= mags@.len(),
                mags@.len() == amps@.len(),
                0 < amps@.len(),
                m == mags_of(amps@),
                forall|k: int|
                    0 <= k < mags@.len() ==> mags@[k] == m[k]
                        && 0 <= m[k] <= 0x8000_0000_0000_0000,
                max_index < i,
                max_index == argmax_first(m.take(i as int)),
                max_mag == m[max_index as int],
            decreases mags@.len() - i,
        {
            proof {
                assert(m.take(i + 1).drop_last() =~= m.take(i as int));
                assert(m.take(i + 1).last() == m[i as int]);
                assert(forall|k: int| 0 <= k < i ==> m.take(i as int)[k] == m[k]);
            }
            if mags[i] > max_mag {
                max_index = i;
                max_mag = mags[i];
            }
            i = i + 1;
        }
        proof {
            assert(m.take(m.len() as int) =~= m);
        }
        // the magnitude total, for the mean
        let mut total: u128 = 0;
        let mut i: usize = 0;
        while i < mags.len()
            invariant
                i <= mags@.len(),
                mags@.len() == amps@.len(),
                amps@.len() <= 0x1_0000_0000,
                m == mags_of(amps@),
                forall|k: int|
                    0 <= k < mags@.len() ==> mags@[k] == m[k]
                        && 0 <= m[k] <= 0x8000_0000_0000_0000,
                total == sum_int(m.take(i as int)),
                total <= (i as int) * 0x8000_0000_0000_0000,
            decreases mags@.len() - i,
        {
            proof {
                assert(m.take(i + 1).drop_last() =~= m.take(i as int));
                assert(m.take(i + 1).last() == m[i as int]);
            }
            total = total + (mags[i] as u128);
            i = i + 1;
        }
        proof {
            assert(m.take(m.len() as int) =~= m);
        }
        if total == 0 {
            return DetectionOutcome::Inconclusive;
        }
        // peak over mean, compared as an exact cross-multiplication
        proof {
            assert((max_mag as int) * (amps@.len() as int) <= 0x8000_0000_0000_0000
                * 0x1_0000_0000) by (nonlinear_arith)
                requires
                    0 <= max_mag <= 0x8000_0000_0000_0000,
                    0 < amps@.len() <= 0x1_0000_0000,
            ;
            assert(total <= 0x1_0000_0000 * 0x8000_0000_0000_0000) by (nonlinear_arith)
                requires
                    total <= (amps@.len() as int) * 0x8000_0000_0000_0000,
                    0 < amps@.len() <= 0x1_0000_0000,
            ;
        }
        let num: u128 = (max_mag as u128) * (amps.len() as u128);
        if num > CONFIDENCE_THRESHOLD * total {
            let found = &probes[max_index];
            let note = Note {
                frequency_millihertz: found.frequency_millihertz,
                name: found.name.clone(),
            };
            proof {
                lemma_argmax_first_props(m);
            }
            DetectionOutcome::Detected {
                index: max_index,
                note,
                confidence: Confidence { num, den: total },
            }
        } else {
            DetectionOutcome::Inconclusive
        }
    }
}

} // verus!
