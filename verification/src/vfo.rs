//! VFO tuning: the digits of the displayed frequency, each of which tunes
//! by its own weight, and the tuning step, which never goes below 100 kHz.

use vstd::prelude::*;

verus! {

/// The lowest frequency a tuning step reaches, in Hz.
pub const MIN_TUNED_HZ: i64 = 100_000;

/// Number of tuning digits, from 100 MHz down to 1 Hz.
pub const TUNING_DIGITS: usize = 9;

/// The weight in Hz of tuning digit `k`: 100 MHz for the first, 1 Hz for
/// the last.
pub open spec fn digit_weight(k: int) -> nat {
    if k == 0 {
        100_000_000
    } else if k == 1 {
        10_000_000
    } else if k == 2 {
        1_000_000
    } else if k == 3 {
        100_000
    } else if k == 4 {
        10_000
    } else if k == 5 {
        1_000
    } else if k == 6 {
        100
    } else if k == 7 {
        10
    } else {
        1
    }
}

/// The weight in Hz of tuning digit `k`: one scroll step of that digit.
pub fn tuning_weight(k: usize) -> (w: i64)
    requires
        k < TUNING_DIGITS,
    ensures
        w == digit_weight(k as int),
{
    match k {
        0 => 100_000_000,
        1 => 10_000_000,
        2 => 1_000_000,
        3 => 100_000,
        4 => 10_000,
        5 => 1_000,
        6 => 100,
        7 => 10,
        _ => 1,
    }
}

/// The digits the VFO shows for `f` Hz, from the 100 MHz digit down to the
/// 1 Hz digit.
pub fn tuning_digits(f: u64) -> (d: Vec<u64>)
    ensures
        d@.len() == TUNING_DIGITS,
        forall|k: int| 0 <= k < TUNING_DIGITS ==> #[trigger] d@[k] == (f as nat / digit_weight(k)) % 10,
{
    let mut d: Vec<u64> = Vec::new();
    let mut k: usize = 0;
    while k < TUNING_DIGITS
        invariant
            k <= TUNING_DIGITS,
            d@.len() == k,
            forall|j: int| 0 <= j < k ==> #[trigger] d@[j] == (f as nat / digit_weight(j)) % 10,
        decreases TUNING_DIGITS - k,
    {
        let w: u64 = tuning_weight(k) as u64;
        d.push((f / w) % 10);
        k = k + 1;
    }
    d
}

/// Whether the two leading digits are shown dimmed: the 100 MHz digit below
/// 100 MHz, the 10 MHz digit below 10 MHz.
pub fn dimmed_digits(f: u64) -> (r: (bool, bool))
    ensures
        r.0 == (f < 100_000_000),
        r.1 == (f < 10_000_000),
{
    (f < 100_000_000, f < 10_000_000)
}

/// The frequency after a tuning step of `step` Hz from `current`: the sum,
/// but not below `MIN_TUNED_HZ`. `current` is read as a signed number, as
/// the radio state keeps it.
pub open spec fn stepped(current: u64, step: int) -> u64 {
    let next = (current as i64) + step;
    (if next < MIN_TUNED_HZ { MIN_TUNED_HZ as int } else { next }) as u64
}

/// Tunes `current` by `step` Hz, stopping at `MIN_TUNED_HZ`.
pub fn step_frequency(current: u64, step: i64) -> (next: u64)
    requires
        i64::MIN <= (current as i64) + step <= i64::MAX,
    ensures
        next == stepped(current, step as int),
        next >= MIN_TUNED_HZ,
{
    let c: i64 = current as i64;
    let n: i64 = c + step;
    if n < MIN_TUNED_HZ {
        MIN_TUNED_HZ as u64
    } else {
        n as u64
    }
}

/// The value spelled by tuning digits `k..` of `f`: each digit times its
/// weight.
pub open spec fn spelled_from(f: nat, k: int) -> nat
    decreases TUNING_DIGITS - k,
{
    if k >= TUNING_DIGITS {
        0
    } else {
        ((f / digit_weight(k)) % 10) * digit_weight(k) + spelled_from(f, k + 1)
    }
}

proof fn lemma_spelled_tail(f: nat, k: int)
    requires
        0 <= k <= TUNING_DIGITS,
    ensures
        spelled_from(f, k) == f % (if k == 0 { 10 * digit_weight(0) } else { digit_weight(k - 1) }),
    decreases TUNING_DIGITS - k,
{
    if k < TUNING_DIGITS {
        lemma_spelled_tail(f, k + 1);
        let w = digit_weight(k) as int;
        vstd::arithmetic::div_mod::lemma_breakdown(f as int, w, 10);
        assert(w * 10 == (if k == 0 { 10 * digit_weight(0) } else { digit_weight(k - 1) }));
        let dw = digit_weight(k);
        assert(w * ((f as int / w) % 10) == ((f / dw) % 10) * dw) by (nonlinear_arith)
            requires
                w == dw as int,
                w > 0,
        ;
    } else {
        assert(f % 1 == 0);
    }
}

/// The nine digits spell the frequency below 1 GHz: each digit times its
/// weight, summed, gives `f` modulo 1 GHz.
pub proof fn lemma_digits_spell_frequency(f: nat)
    ensures
        spelled_from(f, 0) == f % 1_000_000_000,
{
    lemma_spelled_tail(f, 0);
}

/// From a frequency at or above `MIN_TUNED_HZ`, a step up and the same step
/// down give the frequency back.
pub proof fn lemma_step_up_then_down(current: u64, w: int)
    requires
        MIN_TUNED_HZ <= current <= i64::MAX,
        0 <= w,
        current + w <= i64::MAX,
    ensures
        stepped(stepped(current, w), -w) == current,
{
    assert((current as i64) == current);
    let up = stepped(current, w);
    assert(up == current + w);
    assert((up as i64) == up);
}

/// A step down and the same step up give the frequency back, when the step
/// down stays at or above `MIN_TUNED_HZ`.
pub proof fn lemma_step_down_then_up(current: u64, w: int)
    requires
        current <= i64::MAX,
        0 <= w,
        current - w >= MIN_TUNED_HZ,
    ensures
        stepped(stepped(current, -w), w) == current,
{
    assert((current as i64) == current);
    let down = stepped(current, -w);
    assert(down == current - w);
    assert((down as i64) == down);
}


/// Number of quick-band buttons.
pub const QUICK_BANDS: usize = 12;

/// Quick-band button `k`: the band's name, the frequency it tunes to in Hz
/// and the mode it sets, from 160 m to 70 cm.
pub open spec fn quick_band_spec(k: int) -> (Seq<char>, u64, Seq<char>) {
    if k == 0 {
        ("160m"@, 1840000u64, "LSB"@)
    } else if k == 1 {
        ("80m"@, 3710000u64, "LSB"@)
    } else if k == 2 {
        ("40m"@, 7150000u64, "LSB"@)
    } else if k == 3 {
        ("30m"@, 10136000u64, "USB"@)
    } else if k == 4 {
        ("20m"@, 14195000u64, "USB"@)
    } else if k == 5 {
        ("17m"@, 18130000u64, "USB"@)
    } else if k == 6 {
        ("15m"@, 21250000u64, "USB"@)
    } else if k == 7 {
        ("12m"@, 24950000u64, "USB"@)
    } else if k == 8 {
        ("10m"@, 28500000u64, "USB"@)
    } else if k == 9 {
        ("6m"@, 50150000u64, "USB"@)
    } else if k == 10 {
        ("2m"@, 144300000u64, "USB"@)
    } else {
        ("70cm"@, 432200000u64, "USB"@)
    }
}

/// Quick-band button `k`: the band, the frequency in Hz and the mode that
/// one click sets on the VFO.
pub fn quick_band(k: usize) -> (r: (&'static str, u64, &'static str))
    requires
        k < QUICK_BANDS,
    ensures
        (r.0@, r.1, r.2@) == quick_band_spec(k as int),
{
    match k {
        0 => ("160m", 1840000, "LSB"),
        1 => ("80m", 3710000, "LSB"),
        2 => ("40m", 7150000, "LSB"),
        3 => ("30m", 10136000, "USB"),
        4 => ("20m", 14195000, "USB"),
        5 => ("17m", 18130000, "USB"),
        6 => ("15m", 21250000, "USB"),
        7 => ("12m", 24950000, "USB"),
        8 => ("10m", 28500000, "USB"),
        9 => ("6m", 50150000, "USB"),
        10 => ("2m", 144300000, "USB"),
        _ => ("70cm", 432200000, "USB"),
    }
}

/// A tuning step lands on the sum when that is 100 kHz or more, and on
/// exactly 100 kHz otherwise.
pub proof fn lemma_step_floor(current: u64, step: int)
    requires
        current <= i64::MAX,
    ensures
        current + step >= 100_000 ==> stepped(current, step) == current + step || current + step > i64::MAX,
        current + step < 100_000 ==> stepped(current, step) == 100_000,
{
    assert((current as i64) == current);
}

} // verus!
