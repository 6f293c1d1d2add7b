use vstd::prelude::*;

use crate::arch::x86_64::apic::{ApicState, RegisterWrite, is_initialized};

verus! {

/// External IRQ vector of the LAPIC timer interrupt.
///
/// It lies above the CPU exception range, inside the conventional remapped-IRQ
/// window, so external interrupts stay separate from synchronous CPU faults.
pub const TIMER_IRQ_VECTOR: u8 = 32;

pub const LAPIC_TIMER_LVT_OFFSET: u64 = 0x320;

pub const LAPIC_TIMER_INITIAL_COUNT_OFFSET: u64 = 0x380;

pub const LAPIC_TIMER_DIVIDE_CONFIGURATION_OFFSET: u64 = 0x3e0;

/// Periodic-mode bit (bit 17) of the LAPIC timer local vector table entry.
pub const LAPIC_TIMER_PERIODIC_MODE_BIT: u32 = 0x2_0000;

pub const LAPIC_TIMER_DIVIDE_BY_16: u32 = 0x3;

pub const LAPIC_TIMER_INITIAL_COUNT: u32 = 100_000;

/// Reports failure while configuring the LAPIC timer path.
#[derive(Debug, Clone, Copy, PartialEq, Eq, Structural)]
pub enum TimerInitError {
    LapicNotInitialized,
}

/// Shared timer bookkeeping: ticks seen and whether a real tick arrived yet.
pub struct TimerState {
    pub tick_count: u64,
    pub first_tick_observed: bool,
}

impl TimerState {
    /// The state before any tick.
    pub fn new() -> (r: Self)
        ensures
            r.tick_count == 0,
            !r.first_tick_observed,
    {
        TimerState { tick_count: 0, first_tick_observed: false }
    }
}

/// Resets the shared timer state before a fresh normal-boot run.
pub fn reset_timer_state(state: &mut TimerState)
    ensures
        final(state).tick_count == 0,
        !final(state).first_tick_observed,
{
    state.tick_count = 0;
    state.first_tick_observed = false;
}

/// Returns the total number of timer ticks observed so far.
pub fn tick_count(state: &TimerState) -> (r: u64)
    ensures
        r == state.tick_count,
{
    state.tick_count
}

/// Returns whether the timer path has observed at least one real interrupt.
pub fn first_tick_observed(state: &TimerState) -> (r: bool)
    ensures
        r == state.first_tick_observed,
{
    state.first_tick_observed
}

/// Records one timer interrupt and returns the resulting total tick count.
pub fn record_timer_tick(state: &mut TimerState) -> (r: u64)
    requires
        old(state).tick_count < u64::MAX,
    ensures
        final(state).tick_count == old(state).tick_count + 1,
        final(state).first_tick_observed,
        r == final(state).tick_count,
{
    state.tick_count = state.tick_count + 1;
    state.first_tick_observed = true;
    state.tick_count
}

/// The LAPIC timer register writes that select periodic mode on
/// `TIMER_IRQ_VECTOR`, divide by 16 and the initial count, in that order.
pub open spec fn timer_setup_writes() -> Seq<RegisterWrite> {
    seq![
        RegisterWrite {
            offset: LAPIC_TIMER_LVT_OFFSET,
            value: TIMER_IRQ_VECTOR as u32 | LAPIC_TIMER_PERIODIC_MODE_BIT,
        },
        RegisterWrite {
            offset: LAPIC_TIMER_DIVIDE_CONFIGURATION_OFFSET,
            value: LAPIC_TIMER_DIVIDE_BY_16,
        },
        RegisterWrite {
            offset: LAPIC_TIMER_INITIAL_COUNT_OFFSET,
            value: LAPIC_TIMER_INITIAL_COUNT,
        },
    ]
}

/// Programs the LAPIC timer in periodic mode on the timer IRQ vector: returns
/// the register writes to perform, or an error if the LAPIC is not up yet.
pub fn initialize(apic: &ApicState) -> (r: Result<[RegisterWrite; 3], TimerInitError>)
    ensures
        !apic.initialized ==> r == Err::<[RegisterWrite; 3], TimerInitError>(
            TimerInitError::LapicNotInitialized,
        ),
        apic.initialized ==> (r matches Ok(w) && w@ == timer_setup_writes()),
{
    if !is_initialized(apic) {
        return Err(TimerInitError::LapicNotInitialized);
    }
    let writes = [
        RegisterWrite {
            offset: LAPIC_TIMER_LVT_OFFSET,
            value: TIMER_IRQ_VECTOR as u32 | LAPIC_TIMER_PERIODIC_MODE_BIT,
        },
        RegisterWrite {
            offset: LAPIC_TIMER_DIVIDE_CONFIGURATION_OFFSET,
            value: LAPIC_TIMER_DIVIDE_BY_16,
        },
        RegisterWrite { offset: LAPIC_TIMER_INITIAL_COUNT_OFFSET, value: LAPIC_TIMER_INITIAL_COUNT },
    ];
    assert(writes@ =~= timer_setup_writes());
    Ok(writes)
}

/// The timer bookkeeping is consistent: a tick has been observed exactly when
/// the tick count is non-zero.
pub open spec fn timer_state_consistent(state: TimerState) -> bool {
    state.first_tick_observed == (state.tick_count > 0)
}

/// The timer state that `reset_timer_state` and `TimerState::new` produce is
/// consistent, and `record_timer_tick` keeps a consistent state consistent; so
/// in every state reached through those calls a tick has been observed exactly
/// when the tick count is non-zero.
pub proof fn lemma_timer_state_stays_consistent(before: TimerState, after: TimerState)
    requires
        timer_state_consistent(before),
        after.tick_count == before.tick_count + 1,
        after.first_tick_observed,
    ensures
        timer_state_consistent(TimerState { tick_count: 0, first_tick_observed: false }),
        timer_state_consistent(after),
{
}

} // verus!
