use vstd::prelude::*;
use crate::error::{Result, RhythmixError};
use crate::text::{decimal_string, decimal_text};

verus! {

/// Whether `n` is a power of two (1, 2, 4, ...).
pub open spec fn is_power_of_two(n: nat) -> bool
    decreases n,
{
    if n == 0 {
        false
    } else if n == 1 {
        true
    } else if n % 2 == 1 {
        false
    } else {
        is_power_of_two(n / 2)
    }
}

fn power_of_two(n: usize) -> (r: bool)
    ensures
        r == is_power_of_two(n as nat),
{
    let mut m = n;
    while m > 1 && m % 2 == 0
        invariant
            is_power_of_two(m as nat) == is_power_of_two(n as nat),
        decreases m,
    {
        m = m / 2;
    }
    m == 1
}

/// The error of an FFT window whose size is not a power of two.
pub open spec fn window_size_message() -> Seq<char> {
    "FFT window size must be a power of 2"@
}

/// Checks that an FFT window size is a power of two.
pub fn check_window_size(window_size: usize) -> (r: Result<()>)
    ensures
        r is Ok <==> is_power_of_two(window_size as nat),
        r matches Err(e) ==> e matches RhythmixError::FftProcessing(m) && m@ == window_size_message(),
{
    if !power_of_two(window_size) {
        return Err(RhythmixError::FftProcessing("FFT window size must be a power of 2".to_owned()));
    }
    Ok(())
}

/// The error of an input whose length differs from the window's.
pub open spec fn input_length_message(len: nat, window_size: nat) -> Seq<char> {
    "Input length "@ + decimal_text(len) + " does not match window size "@ + decimal_text(
        window_size,
    )
}

/// Checks that a block of samples fills the FFT window exactly.
pub fn check_input_length(len: usize, window_size: usize) -> (r: Result<()>)
    ensures
        r is Ok <==> len == window_size,
        r matches Err(e) ==> e matches RhythmixError::FftProcessing(m) && m@ == input_length_message(
            len as nat,
            window_size as nat,
        ),
{
    if len != window_size {
        let mut m = "Input length ".to_owned();
        m.append(decimal_string(len as u64).as_str());
        m.append(" does not match window size ");
        m.append(decimal_string(window_size as u64).as_str());
        return Err(RhythmixError::FftProcessing(m));
    }
    Ok(())
}

/// The smallest audio file worth decoding, in bytes.
pub const MIN_AUDIO_FILE_SIZE: u64 = 128;

/// The error of a file too small to hold audio.
pub open spec fn audio_too_small_message() -> Seq<char> {
    "File too small to be valid audio"@
}

/// Checks that an audio file is large enough to be decoded.
pub fn check_audio_size(file_size: u64) -> (r: Result<()>)
    ensures
        r is Ok <==> file_size >= MIN_AUDIO_FILE_SIZE,
        r matches Err(e) ==> e matches RhythmixError::AudioDecoding(m) && m@ == audio_too_small_message(),
{
    if file_size < MIN_AUDIO_FILE_SIZE {
        return Err(RhythmixError::AudioDecoding("File too small to be valid audio".to_owned()));
    }
    Ok(())
}

/// How many spectrum bins each band covers: an even share, at least one.
pub open spec fn bins_per_band(num_bins: nat, num_bands: nat) -> nat {
    if num_bins / num_bands >= 1 {
        num_bins / num_bands
    } else {
        1
    }
}

/// The bins of band `i`: its share, cut at the end of the spectrum.
pub open spec fn band_range(num_bins: nat, num_bands: nat, i: nat) -> (nat, nat) {
    let b = bins_per_band(num_bins, num_bands);
    let end = if (i + 1) * b <= num_bins {
        (i + 1) * b
    } else {
        num_bins
    };
    (i * b, end)
}

/// The bins that each of `num_bands` bands of a spectrum of `num_bins` bins
/// averages, as (start, end) ranges.
pub fn frequency_band_ranges(num_bins: usize, num_bands: usize) -> (r: Vec<(usize, usize)>)
    requires
        0 < num_bands <= num_bins + 1,
    ensures
        r@.len() == num_bands,
        forall|i: int|
            0 <= i < num_bands ==> #[trigger] r@[i].0 as nat == band_range(
                num_bins as nat,
                num_bands as nat,
                i as nat,
            ).0 && r@[i].1 as nat == band_range(num_bins as nat, num_bands as nat, i as nat).1,
        forall|i: int| 0 <= i < num_bands ==> #[trigger] r@[i].0 <= r@[i].1 <= num_bins,
{
    let q = num_bins / num_bands;
    let b: usize = if q >= 1 {
        q
    } else {
        1
    };
    assert(b as nat == bins_per_band(num_bins as nat, num_bands as nat));
    assert(q >= 1 ==> num_bands * b <= num_bins) by (nonlinear_arith)
        requires
            q == num_bins / num_bands,
            q >= 1 ==> b == q,
            num_bands > 0,
    ;
    let mut r: Vec<(usize, usize)> = Vec::new();
    let mut i: usize = 0;
    while i < num_bands
        invariant
            i <= num_bands,
            0 < num_bands <= num_bins + 1,
            q == num_bins / num_bands,
            b as nat == bins_per_band(num_bins as nat, num_bands as nat),
            b >= 1,
            q >= 1 ==> num_bands * b <= num_bins,
            q < 1 ==> b == 1,
            r@.len() == i,
            forall|k: int|
                0 <= k < i ==> #[trigger] r@[k].0 as nat == band_range(
                    num_bins as nat,
                    num_bands as nat,
                    k as nat,
                ).0 && r@[k].1 as nat == band_range(num_bins as nat, num_bands as nat, k as nat).1,
            forall|k: int| 0 <= k < i ==> #[trigger] r@[k].0 <= r@[k].1 <= num_bins,
        decreases num_bands - i,
    {
        assert((i + 1) * b <= num_bands * b) by (nonlinear_arith)
            requires
                i + 1 <= num_bands,
                b >= 1,
        ;
        assert(i * b <= (i + 1) * b) by (nonlinear_arith)
            requires
                b >= 1,
        ;
        assert(num_bands * b <= usize::MAX) by (nonlinear_arith)
            requires
                q >= 1 ==> num_bands * b <= num_bins,
                q < 1 ==> b == 1,
                num_bands <= usize::MAX,
                num_bins <= usize::MAX,
        ;
        let start = i * b;
        let next = (i + 1) * b;
        let end = if next <= num_bins {
            next
        } else {
            num_bins
        };
        if next > num_bins {
            assert(b == 1);
        }
        r.push((start, end));
        i = i + 1;
    }
    r
}

/// How many windows of `window` samples, `hop` samples apart and starting
/// at the first sample, fit in `len` samples.
pub open spec fn window_count(len: nat, window: nat, hop: nat) -> nat {
    if window > len {
        0
    } else {
        ((len - window) as nat / hop) + 1
    }
}

/// The starts of the windows of `window` samples, `hop` samples apart from
/// the first sample on, that fit in `len` samples.
pub fn window_starts(len: usize, window: usize, hop: usize) -> (r: Vec<usize>)
    requires
        hop > 0,
    ensures
        r@.len() == window_count(len as nat, window as nat, hop as nat),
        forall|k: int| 0 <= k < r@.len() ==> #[trigger] r@[k] as int == k * hop,
        forall|k: int| 0 <= k < r@.len() ==> #[trigger] r@[k] + window <= len,
{
    let mut r: Vec<usize> = Vec::new();
    if window > len {
        return r;
    }
    let last = len - window;
    let mut start: usize = 0;
    assert(0 * hop == 0) by (nonlinear_arith);
    loop
        invariant_except_break
            start as int == r@.len() * hop,
        invariant
            hop > 0,
            last == len - window,
            start <= last,
            forall|k: int| 0 <= k < r@.len() ==> #[trigger] r@[k] as int == k * hop,
            forall|k: int| 0 <= k < r@.len() ==> #[trigger] r@[k] + window <= len,
        ensures
            r@.len() == window_count(len as nat, window as nat, hop as nat),
            forall|k: int| 0 <= k < r@.len() ==> #[trigger] r@[k] as int == k * hop,
            forall|k: int| 0 <= k < r@.len() ==> #[trigger] r@[k] + window <= len,
        decreases last - start,
    {
        let ghost n0 = r@.len();
        r.push(start);
        let ghost n = r@.len();
        assert(start + hop == n * hop) by (nonlinear_arith)
            requires
                start == n0 * hop,
                n == n0 + 1,
        ;
        if hop > last - start {
            assert((last as nat) / (hop as nat) == n - 1) by (nonlinear_arith)
                requires
                    (n - 1) * hop <= last,
                    last < n * hop,
                    hop > 0,
                    n >= 1,
            ;
            break;
        }
        start = start + hop;
    }
    r
}


/// One frame of the onset gate that counts every frame without an onset: a
/// candidate onset is accepted once at least `min_interval` frames have
/// passed since the last one, which resets the count.
pub open spec fn counting_gate_step(frames: nat, min_interval: nat, candidate: bool) -> (bool, nat) {
    if candidate && frames >= min_interval {
        (true, 0)
    } else {
        (false, frames + 1)
    }
}

/// Decides whether a candidate onset is accepted and gives the new count of
/// frames since the last onset.
pub fn counting_gate(frames_since_onset: usize, min_interval: usize, candidate: bool) -> (r: (bool, usize))
    requires
        frames_since_onset < usize::MAX,
    ensures
        (r.0, r.1 as nat) == counting_gate_step(frames_since_onset as nat, min_interval as nat, candidate),
{
    if candidate && frames_since_onset >= min_interval {
        (true, 0)
    } else {
        (false, frames_since_onset + 1)
    }
}

/// One frame of the onset gate that stops counting once the interval has
/// passed: a candidate onset is accepted when the count has reached
/// `min_interval`, which resets it; below it the count grows by one.
pub open spec fn holding_gate_step(frames: nat, min_interval: nat, candidate: bool) -> (bool, nat) {
    if frames >= min_interval {
        if candidate {
            (true, 0)
        } else {
            (false, frames)
        }
    } else {
        (false, frames + 1)
    }
}

/// Decides whether a strong enough candidate onset is accepted and gives the
/// new count of frames since the last onset.
pub fn holding_gate(frames_since_onset: usize, min_interval: usize, candidate: bool) -> (r: (bool, usize))
    ensures
        (r.0, r.1 as nat) == holding_gate_step(frames_since_onset as nat, min_interval as nat, candidate),
{
    if frames_since_onset >= min_interval {
        if candidate {
            (true, 0)
        } else {
            (false, frames_since_onset)
        }
    } else {
        (false, frames_since_onset + 1)
    }
}

/// The step of either gate.
pub open spec fn gate_step(holding: bool, frames: nat, min_interval: nat, candidate: bool) -> (bool, nat) {
    if holding {
        holding_gate_step(frames, min_interval, candidate)
    } else {
        counting_gate_step(frames, min_interval, candidate)
    }
}

/// The count of a gate after the frames whose candidates are given, from
/// the count `start`.
pub open spec fn gate_count(holding: bool, start: nat, min_interval: nat, candidates: Seq<bool>) -> nat
    decreases candidates.len(),
{
    if candidates.len() == 0 {
        start
    } else {
        gate_step(
            holding,
            gate_count(holding, start, min_interval, candidates.drop_last()),
            min_interval,
            candidates.last(),
        ).1
    }
}

/// Whether a gate accepts an onset at frame `t` of a run.
pub open spec fn gate_fires(holding: bool, start: nat, min_interval: nat, candidates: Seq<bool>, t: int) -> bool {
    gate_step(
        holding,
        gate_count(holding, start, min_interval, candidates.take(t)),
        min_interval,
        candidates[t],
    ).0
}

proof fn lemma_gate_count_after_fire(
    holding: bool,
    start: nat,
    min_interval: nat,
    candidates: Seq<bool>,
    t1: int,
    t: int,
)
    requires
        0 <= t1 < t <= candidates.len(),
        gate_fires(holding, start, min_interval, candidates, t1),
    ensures
        gate_count(holding, start, min_interval, candidates.take(t)) <= t - t1 - 1,
    decreases t - t1,
{
    let prefix = candidates.take(t);
    assert(prefix.drop_last() =~= candidates.take(t - 1));
    assert(prefix.last() == candidates[t - 1]);
    if t == t1 + 1 {
    } else {
        lemma_gate_count_after_fire(holding, start, min_interval, candidates, t1, t - 1);
    }
}

/// Two onsets that a gate accepts are more than `min_interval` frames apart:
/// the configured minimum time between onsets always holds.
pub proof fn lemma_onsets_spaced(
    holding: bool,
    start: nat,
    min_interval: nat,
    candidates: Seq<bool>,
    t1: int,
    t2: int,
)
    requires
        0 <= t1 < t2 < candidates.len(),
        gate_fires(holding, start, min_interval, candidates, t1),
        gate_fires(holding, start, min_interval, candidates, t2),
    ensures
        t2 - t1 > min_interval,
{
    lemma_gate_count_after_fire(holding, start, min_interval, candidates, t1, t2);
}

/// The count of a gate after its first `n` frames, from the count `start`,
/// when frame `k` has its own minimum interval `intervals[k]`.
pub open spec fn varying_gate_count(
    holding: bool,
    start: nat,
    intervals: Seq<nat>,
    candidates: Seq<bool>,
    n: nat,
) -> nat
    decreases n,
{
    if n == 0 {
        start
    } else {
        gate_step(
            holding,
            varying_gate_count(holding, start, intervals, candidates, (n - 1) as nat),
            intervals[n - 1],
            candidates[n - 1],
        ).1
    }
}

/// Whether a gate whose minimum interval changes from frame to frame accepts
/// an onset at frame `t`.
pub open spec fn varying_gate_fires(
    holding: bool,
    start: nat,
    intervals: Seq<nat>,
    candidates: Seq<bool>,
    t: int,
) -> bool {
    gate_step(
        holding,
        varying_gate_count(holding, start, intervals, candidates, t as nat),
        intervals[t],
        candidates[t],
    ).0
}

proof fn lemma_varying_count_after_fire(
    holding: bool,
    start: nat,
    intervals: Seq<nat>,
    candidates: Seq<bool>,
    t1: int,
    t: int,
)
    requires
        0 <= t1 < t,
        varying_gate_fires(holding, start, intervals, candidates, t1),
    ensures
        varying_gate_count(holding, start, intervals, candidates, t as nat) <= t - t1 - 1,
    decreases t - t1,
{
    if t > t1 + 1 {
        lemma_varying_count_after_fire(holding, start, intervals, candidates, t1, t - 1);
    }
}

/// Two onsets that a gate accepts are more than `m` frames apart when the
/// minimum interval of every frame is at least `m`, however it changes from
/// frame to frame (as when strong onsets lower it).
pub proof fn lemma_onsets_spaced_varying(
    holding: bool,
    start: nat,
    intervals: Seq<nat>,
    candidates: Seq<bool>,
    m: nat,
    t1: int,
    t2: int,
)
    requires
        intervals.len() == candidates.len(),
        forall|k: int| 0 <= k < intervals.len() ==> #[trigger] intervals[k] >= m,
        0 <= t1 < t2 < candidates.len(),
        varying_gate_fires(holding, start, intervals, candidates, t1),
        varying_gate_fires(holding, start, intervals, candidates, t2),
    ensures
        t2 - t1 > m,
{
    lemma_varying_count_after_fire(holding, start, intervals, candidates, t1, t2);
    assert(intervals[t2] >= m);
}

/// One frame of either gate: below the minimum interval the count grows by
/// one on every frame, candidate or not, and nothing is accepted; an onset is
/// accepted only for a candidate at or past the interval, and then the count
/// starts again from zero; at or past the interval a candidate is always
/// accepted.
pub proof fn lemma_gate_step(holding: bool, frames: nat, min_interval: nat, candidate: bool)
    ensures
        frames < min_interval ==> gate_step(holding, frames, min_interval, candidate) == (
        false,
        frames + 1,
        ),
        gate_step(holding, frames, min_interval, candidate).0 <==> (candidate && frames
            >= min_interval),
        gate_step(holding, frames, min_interval, candidate).0 ==> gate_step(
            holding,
            frames,
            min_interval,
            candidate,
        ).1 == 0,
        !gate_step(holding, frames, min_interval, candidate).0 ==> gate_step(
            holding,
            frames,
            min_interval,
            candidate,
        ).1 >= frames,
        !holding && !gate_step(holding, frames, min_interval, candidate).0 ==> gate_step(
            holding,
            frames,
            min_interval,
            candidate,
        ).1 == frames + 1,
{
}

proof fn lemma_gate_count_grows(
    holding: bool,
    start: nat,
    min_interval: nat,
    candidates: Seq<bool>,
    t1: int,
    t: int,
)
    requires
        0 <= t1 < t <= candidates.len(),
        gate_fires(holding, start, min_interval, candidates, t1),
        forall|u: int| t1 < u < t ==> !#[trigger] gate_fires(holding, start, min_interval, candidates, u),
    ensures
        gate_count(holding, start, min_interval, candidates.take(t)) >= if t - t1 - 1 < min_interval {
            t - t1 - 1
        } else {
            min_interval as int
        },
    decreases t - t1,
{
    let prefix = candidates.take(t);
    assert(prefix.drop_last() =~= candidates.take(t - 1));
    assert(prefix.last() == candidates[t - 1]);
    if t > t1 + 1 {
        lemma_gate_count_grows(holding, start, min_interval, candidates, t1, t - 1);
        assert(!gate_fires(holding, start, min_interval, candidates, t - 1));
    }
}

/// A gate that accepted an onset at frame `t1` accepts the next candidate
/// that comes at least `min_interval + 1` frames later: quiet frames in
/// between count towards the interval.
pub proof fn lemma_gate_accepts_after_interval(
    holding: bool,
    start: nat,
    min_interval: nat,
    candidates: Seq<bool>,
    t1: int,
    t2: int,
)
    requires
        0 <= t1,
        t1 + min_interval + 1 <= t2 < candidates.len(),
        gate_fires(holding, start, min_interval, candidates, t1),
        candidates[t2],
        forall|u: int| t1 < u < t2 ==> !#[trigger] gate_fires(holding, start, min_interval, candidates, u),
    ensures
        gate_fires(holding, start, min_interval, candidates, t2),
{
    lemma_gate_count_grows(holding, start, min_interval, candidates, t1, t2);
}

proof fn lemma_power_of_two_recursive(n: nat)
    ensures
        is_power_of_two(n) == vstd::arithmetic::power2::is_pow2(n as int),
    decreases n,
{
    reveal(vstd::arithmetic::power2::is_pow2);
    if n > 1 && n % 2 == 0 {
        lemma_power_of_two_recursive(n / 2);
    }
}

/// A window size is accepted exactly when it is 2 raised to some power.
pub proof fn lemma_power_of_two_exists(n: nat)
    ensures
        is_power_of_two(n) <==> exists|k: nat| vstd::arithmetic::power::pow(2, k) == n,
{
    lemma_power_of_two_recursive(n);
    vstd::arithmetic::power2::is_pow2_equiv(n as int);
}

/// The windows counted are exactly those that fit: the last counted window
/// ends within the samples, and one more would not.
pub proof fn lemma_window_count_fits(len: nat, window: nat, hop: nat)
    requires
        hop > 0,
    ensures
        window_count(len, window, hop) > 0 ==> (window_count(len, window, hop) - 1) * hop + window
            <= len,
        window_count(len, window, hop) * hop + window > len,
{
    if window <= len {
        let d = (len - window) as nat;
        let q = d / hop;
        assert(q * hop <= d && d < (q + 1) * hop) by (nonlinear_arith)
            requires
                hop > 0,
                q == d / hop,
        ;
        assert(window_count(len, window, hop) == q + 1);
    } else {
        assert(window_count(len, window, hop) == 0);
    }
}

/// Each band's share of the bins is the largest even share: as many bins as
/// fit `num_bands` times into the spectrum, and one bin when there are more
/// bands than bins. Band `i` starts `i` shares into the spectrum and ends one
/// share later, or at the end of the spectrum.
pub proof fn lemma_band_share(num_bins: nat, num_bands: nat, i: nat)
    requires
        num_bands > 0,
    ensures
        bins_per_band(num_bins, num_bands) >= 1,
        num_bands <= num_bins ==> bins_per_band(num_bins, num_bands) * num_bands <= num_bins < (
        bins_per_band(num_bins, num_bands) + 1) * num_bands,
        num_bands > num_bins ==> bins_per_band(num_bins, num_bands) == 1,
        band_range(num_bins, num_bands, i).0 == i * bins_per_band(num_bins, num_bands),
        band_range(num_bins, num_bands, i).1 <= num_bins,
        band_range(num_bins, num_bands, i).1 <= (i + 1) * bins_per_band(num_bins, num_bands),
        (i + 1) * bins_per_band(num_bins, num_bands) <= num_bins ==> band_range(
            num_bins,
            num_bands,
            i,
        ).1 == band_range(num_bins, num_bands, i + 1).0,
{
    let q = num_bins / num_bands;
    assert(q * num_bands <= num_bins < (q + 1) * num_bands) by (nonlinear_arith)
        requires
            num_bands > 0,
            q == num_bins / num_bands,
    ;
    if num_bands <= num_bins {
        assert(q >= 1) by (nonlinear_arith)
            requires
                num_bands > 0,
                num_bands <= num_bins,
                q == num_bins / num_bands,
        ;
    } else {
        assert(q == 0) by (nonlinear_arith)
            requires
                num_bands > num_bins,
                q == num_bins / num_bands,
        ;
    }
}

} // verus!
