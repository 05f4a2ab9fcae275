//! Busy-wait delays measured with the CPU time stamp counter (TSC).
//!
//! Reading the counter is the caller's part: a delay is a value that says,
//! for each counter reading, whether the wait is over. Accurate millisecond
//! delays require a calibrated TSC frequency.
use vstd::prelude::*;

verus! {

/// Counter ticks from reading `start` to reading `now`, counting across a
/// wrap of the 64-bit counter (what `now.wrapping_sub(start)` computes).
pub open spec fn ticks_between(start: u64, now: u64) -> int {
    if now >= start {
        now - start
    } else {
        now - start + 0x1_0000_0000_0000_0000
    }
}

/// Counter ticks in `ms` milliseconds at `tsc_hz` ticks per second. From
/// 1 kHz up, the frequency is taken in whole kHz (`ms * (tsc_hz / 1000)`),
/// capped at `u64::MAX`; below 1 kHz, where whole kHz would round to no wait
/// at all, it is `ms * tsc_hz / 1000` rounded down, which always fits.
pub open spec fn delay_ticks(ms: u64, tsc_hz: u64) -> u64 {
    if tsc_hz >= 1000 {
        let ticks = ms * (tsc_hz / 1000);
        if ticks <= u64::MAX {
            ticks as u64
        } else {
            u64::MAX
        }
    } else {
        (ms * tsc_hz / 1000) as u64
    }
}

/// A wait of `cycles` counter ticks from the reading `start`.
pub struct CycleDelay {
    start: u64,
    cycles: u64,
}

impl View for CycleDelay {
    type V = (u64, u64);

    /// The starting reading and the number of ticks to wait.
    closed spec fn view(&self) -> (u64, u64) {
        (self.start, self.cycles)
    }
}

impl CycleDelay {
    /// Whether the wait is over at counter reading `now`: at least `cycles`
    /// ticks have passed since `start`.
    pub fn is_done(&self, now: u64) -> (done: bool)
        ensures
            done == (ticks_between(self@.0, now) >= self@.1),
    {
        !(now.wrapping_sub(self.start) < self.cycles)
    }
}

/// Simple timer using the CPU Time Stamp Counter.
pub struct Timer;

impl Timer {
    pub fn init() -> (timer: Self) {
        Timer
    }

    /// Busy-wait for approximately `cycles` TSC ticks from the reading
    /// `start`: the caller spins until the returned delay is done.
    pub fn delay_cycles(&self, start: u64, cycles: u64) -> (delay: CycleDelay)
        ensures
            delay@ == (start, cycles),
    {
        CycleDelay { start, cycles }
    }

    /// Delay for approximately `ms` milliseconds given the `tsc_hz`
    /// frequency in Hz: the number of ticks to wait, or `None` when the
    /// frequency is unknown (0) and there is nothing to wait for. From
    /// 1 kHz up the frequency is taken in whole kHz, `ms * (tsc_hz / 1000)`
    /// ticks capped at `u64::MAX`. Below 1 kHz, where whole kHz would give no
    /// wait at all, the wait is `ms * tsc_hz / 1000` ticks, rounded down.
    pub fn delay_ms(&self, ms: u64, tsc_hz: u64) -> (cycles: Option<u64>)
        ensures
            tsc_hz == 0 ==> cycles is None,
            tsc_hz != 0 ==> cycles == Some(delay_ticks(ms, tsc_hz)),
    {
        if tsc_hz == 0 {
            return None;
        }
        if tsc_hz >= 1000 {
            let cycles = match ms.checked_mul(tsc_hz / 1000) {
                Some(product) => product,
                None => u64::MAX,
            };
            Some(cycles)
        } else {
            let whole_seconds: u64 = ms / 1000;
            let rest_ms: u64 = ms % 1000;
            proof {
                lemma_sub_khz_split(ms as int, tsc_hz as int);
            }
            Some(whole_seconds * tsc_hz + rest_ms * tsc_hz / 1000)
        }
    }
}

/// Below 1 kHz, `ms * tsc_hz / 1000` splits into whole seconds and the
/// remaining milliseconds, and stays below `ms + 1`.
proof fn lemma_sub_khz_split(ms: int, tsc_hz: int)
    requires
        0 <= ms,
        0 < tsc_hz < 1000,
    ensures
        ms * tsc_hz / 1000 == (ms / 1000) * tsc_hz + (ms % 1000) * tsc_hz / 1000,
        (ms / 1000) * tsc_hz <= ms,
        (ms % 1000) * tsc_hz / 1000 < 1000,
        ms * tsc_hz / 1000 <= ms,
{
    assert(ms == 1000 * (ms / 1000) + ms % 1000) by (nonlinear_arith)
        requires
            0 <= ms,
    ;
    assert(ms * tsc_hz == 1000 * ((ms / 1000) * tsc_hz) + (ms % 1000) * tsc_hz)
        by (nonlinear_arith)
        requires
            ms == 1000 * (ms / 1000) + ms % 1000,
    ;
    assert(0 <= ms % 1000 < 1000) by (nonlinear_arith)
        requires
            0 <= ms,
    ;
    assert(0 <= (ms % 1000) * tsc_hz < 1000 * 1000) by (nonlinear_arith)
        requires
            0 <= ms % 1000 < 1000,
            0 < tsc_hz < 1000,
    ;
    assert(ms * tsc_hz / 1000 == (ms / 1000) * tsc_hz + (ms % 1000) * tsc_hz / 1000)
        by (nonlinear_arith)
        requires
            ms * tsc_hz == 1000 * ((ms / 1000) * tsc_hz) + (ms % 1000) * tsc_hz,
            (ms % 1000) * tsc_hz >= 0,
    ;
    assert((ms / 1000) * tsc_hz <= (ms / 1000) * 1000) by (nonlinear_arith)
        requires
            ms / 1000 >= 0,
            tsc_hz < 1000,
    ;
    assert(ms * tsc_hz / 1000 <= ms) by (nonlinear_arith)
        requires
            0 <= ms,
            0 < tsc_hz < 1000,
    ;
}

/// A delay of no ticks is over at once, and the ticks counted between two
/// readings always fit the 64-bit counter.
pub proof fn lemma_zero_delay_is_done(start: u64, cycles: u64, now: u64)
    ensures
        cycles == 0 ==> ticks_between(start, now) >= cycles,
        0 <= ticks_between(start, now) <= u64::MAX,
{
}

/// A longer delay in milliseconds is never shorter in ticks, and neither is
/// the same delay at a faster counter.
pub proof fn lemma_delay_ticks_monotonic(ms1: u64, ms2: u64, hz1: u64, hz2: u64)
    requires
        ms1 <= ms2,
        hz1 <= hz2,
    ensures
        delay_ticks(ms1, hz1) <= delay_ticks(ms2, hz2),
{
    if hz1 >= 1000 {
        assert(ms1 * (hz1 / 1000) <= ms2 * (hz2 / 1000)) by (nonlinear_arith)
            requires
                ms1 <= ms2,
                hz1 <= hz2,
                ms1 >= 0,
                hz1 >= 1000,
        ;
    } else if hz2 < 1000 {
        assert(ms1 * hz1 / 1000 <= ms2 * hz2 / 1000) by (nonlinear_arith)
            requires
                ms1 <= ms2,
                hz1 <= hz2,
                ms1 >= 0,
                hz1 >= 0,
        ;
        assert(ms2 * hz2 / 1000 <= ms2) by (nonlinear_arith)
            requires
                0 <= ms2,
                0 <= hz2 < 1000,
        ;
    } else {
        assert(ms1 * hz1 / 1000 <= ms1) by (nonlinear_arith)
            requires
                0 <= ms1,
                0 <= hz1 < 1000,
        ;
        assert(ms2 <= ms2 * (hz2 / 1000)) by (nonlinear_arith)
            requires
                0 <= ms2,
                hz2 >= 1000,
        ;
    }
}

/// A delay never asks for more ticks than `ms` milliseconds hold at
/// `tsc_hz`. Below the cap it falls short by less than a tick per
/// millisecond from 1 kHz up (the frequency is taken in whole kHz), and by
/// less than one tick below 1 kHz.
pub proof fn lemma_delay_ticks_close(ms: u64, tsc_hz: u64)
    ensures
        1000 * delay_ticks(ms, tsc_hz) <= ms * tsc_hz,
        tsc_hz >= 1000 && ms * (tsc_hz / 1000) <= u64::MAX ==> ms * tsc_hz < 1000 * (
        delay_ticks(ms, tsc_hz) + ms) || ms == 0,
        tsc_hz < 1000 ==> ms * tsc_hz < 1000 * (delay_ticks(ms, tsc_hz) + 1),
{
    if tsc_hz >= 1000 {
        assert(1000 * (tsc_hz / 1000) <= tsc_hz < 1000 * (tsc_hz / 1000) + 1000)
            by (nonlinear_arith)
            requires
                tsc_hz >= 0,
        ;
        assert(1000 * (ms * (tsc_hz / 1000)) <= ms * tsc_hz) by (nonlinear_arith)
            requires
                1000 * (tsc_hz / 1000) <= tsc_hz,
                ms >= 0,
        ;
        assert(ms > 0 ==> ms * tsc_hz < 1000 * (ms * (tsc_hz / 1000) + ms)) by (nonlinear_arith)
            requires
                tsc_hz < 1000 * (tsc_hz / 1000) + 1000,
                ms >= 0,
        ;
        if ms * (tsc_hz / 1000) > u64::MAX {
            assert(1000 * 0xffff_ffff_ffff_ffffint <= 1000 * (ms * (tsc_hz / 1000)));
        }
    } else if tsc_hz > 0 {
        lemma_sub_khz_split(ms as int, tsc_hz as int);
        assert(1000 * (ms * tsc_hz / 1000) <= ms * tsc_hz < 1000 * (ms * tsc_hz / 1000 + 1))
            by (nonlinear_arith)
            requires
                ms * tsc_hz >= 0,
        ;
    }
}

} // verus!
