//! Periodic / one-shot timer. The counter advances once per machine cycle
//! and the timer asserts its IRQ line when the counter reaches the period.

use vstd::prelude::*;

verus! {

/// Control bit: the timer is running.
pub const TIMER_ENABLED: u32 = 0x1;
/// Control bit: raise the IRQ line on timeout.
pub const TIMER_IRQ_ENABLED: u32 = 0x2;
/// Control bit: stop after the first timeout instead of reloading.
pub const TIMER_ONE_SHOT: u32 = 0x4;

pub struct Timer {
    /// Control register (`TIMER_*` bits).
    pub ctrl: u32,
    /// Current count.
    pub counter: u32,
    /// Period the counter counts towards.
    pub period: u32,
    /// IRQ line.
    pub irq: bool,
}

/// What one tick does, as a pure function of the timer state:
/// a disabled or period-zero timer is unchanged; otherwise the counter
/// advances, and on reaching the period the timer raises its IRQ line
/// (when so enabled) and either stops (one-shot) or reloads.
pub open spec fn spec_tick(t: Timer) -> Timer {
    if t.period == 0 || t.ctrl & TIMER_ENABLED == 0 {
        t
    } else {
        let c = vstd::wrapping::u32_specs::wrapping_add(t.counter, 1);
        if c >= t.period {
            Timer {
                irq: if t.ctrl & TIMER_IRQ_ENABLED != 0 { true } else { t.irq },
                ctrl: if t.ctrl & TIMER_ONE_SHOT != 0 { t.ctrl & !TIMER_ENABLED } else { t.ctrl },
                counter: if t.ctrl & TIMER_ONE_SHOT != 0 { c } else { 0 },
                period: t.period,
            }
        } else {
            Timer { counter: c, ..t }
        }
    }
}

/// `spec_tick` iterated `n` times.
pub open spec fn spec_tick_n(t: Timer, n: nat) -> Timer
    decreases n,
{
    if n == 0 {
        t
    } else {
        spec_tick(spec_tick_n(t, (n - 1) as nat))
    }
}

impl Timer {
    pub open spec fn spec_ctrl(&self) -> u32 {
        self.ctrl
    }

    pub open spec fn spec_counter(&self) -> u32 {
        self.counter
    }

    pub open spec fn spec_period(&self) -> u32 {
        self.period
    }

    pub open spec fn spec_irq(&self) -> bool {
        self.irq
    }

    /// Reset state: enabled, IRQ on timeout, period and counter zero.
    pub fn new() -> (t: Timer)
        ensures
            t.ctrl == TIMER_ENABLED | TIMER_IRQ_ENABLED,
            t.counter == 0,
            t.period == 0,
            !t.irq,
    {
        Timer { ctrl: TIMER_ENABLED | TIMER_IRQ_ENABLED, counter: 0, period: 0, irq: false }
    }

    pub fn period(&self) -> (r: u32)
        ensures
            r == self.period,
    {
        self.period
    }

    pub fn ctrl(&self) -> (r: u32)
        ensures
            r == self.ctrl,
    {
        self.ctrl
    }

    pub fn count(&self) -> (r: u32)
        ensures
            r == self.counter,
    {
        self.counter
    }

    pub fn irq(&self) -> (r: bool)
        ensures
            r == self.irq,
    {
        self.irq
    }

    /// Write-any to the RESET register: clear the counter, nothing else.
    pub fn reset(&mut self)
        ensures
            *final(self) == (Timer { counter: 0, ..*old(self) }),
    {
        self.counter = 0;
    }

    pub fn set_ctrl(&mut self, ctrl: u32)
        ensures
            *final(self) == (Timer { ctrl: ctrl, ..*old(self) }),
    {
        self.ctrl = ctrl;
    }

    /// Writing the period also restarts the count.
    pub fn set_period(&mut self, period: u32)
        ensures
            *final(self) == (Timer { period: period, counter: 0, ..*old(self) }),
    {
        self.period = period;
        self.counter = 0;
    }

    /// Advance the timer by one machine cycle.
    pub fn tick(&mut self)
        ensures
            *final(self) == spec_tick(*old(self)),
    {
        if self.period == 0 {
            return ;
        }
        if self.ctrl & TIMER_ENABLED == 0 {
            return ;
        }

        self.counter = self.counter.wrapping_add(1);

        if self.counter >= self.period {
            if self.ctrl & TIMER_IRQ_ENABLED != 0 {
                self.irq = true;
            }
            if self.ctrl & TIMER_ONE_SHOT != 0 {
                self.ctrl = self.ctrl & !TIMER_ENABLED;
            } else {
                self.counter = 0;
            }
        }
    }

    /// Write-any to the ACK register: drop the IRQ line.
    pub fn ack_irq(&mut self)
        ensures
            *final(self) == (Timer { irq: false, ..*old(self) }),
    {
        self.irq = false;
    }
}

/// Law: a periodic timer with period `n`, started from a zero count with
/// enable and IRQ-enable set and one-shot clear, holds its IRQ line low for
/// the first `n - 1` ticks, asserts it exactly at the `n`-th tick, and is
/// then back at a zero count with an unchanged control register — so the
/// pattern repeats every `n` ticks.
pub proof fn lemma_timer_fires_every_period(t: Timer, n: nat, k: nat)
    requires
        t.spec_period() == n,
        n > 0,
        t.spec_counter() == 0,
        !t.spec_irq(),
        t.spec_ctrl() & TIMER_ENABLED != 0,
        t.spec_ctrl() & TIMER_IRQ_ENABLED != 0,
        t.spec_ctrl() & TIMER_ONE_SHOT == 0,
        k <= n,
    ensures
        k < n ==> spec_tick_n(t, k) == (Timer { counter: k as u32, ..t }),
        k == n ==> spec_tick_n(t, k) == (Timer { counter: 0, irq: true, ..t }),
    decreases k,
{
    if k > 0 {
        lemma_timer_fires_every_period(t, n, (k - 1) as nat);
    }
}

} // verus!
