//! The timer shared between the foreground loop and its interrupt handler
//! through a `GatedCell`, and the hardware's dispatch of that handler.

use vstd::prelude::*;
use crate::critical::{CriticalSection, Interrupts};
use crate::gated::GatedCell;
use crate::timer::{Poll, Timer, TimerState, match_outcome, poll_outcome, requests_irq};

verus! {

/// The timer in a filled cell.
pub open spec fn shared_state(cell: Option<Timer>) -> TimerState {
    cell->Some_0@
}

/// The body of the timer's interrupt handler: open the cell with the
/// handler's token and signal the match.
pub fn timer_interrupt(cs: &CriticalSection, cell: &mut GatedCell<Timer>)
    requires
        old(cell)@ is Some,
    ensures
        final(cell)@ is Some,
        shared_state(final(cell)@) == match_outcome(shared_state(old(cell)@)),
{
    cell.get_mut(cs).on_match();
}

/// The foreground's poll of the shared timer, inside a critical section.
pub fn poll_timer(cs: &CriticalSection, cell: &mut GatedCell<Timer>) -> (r: Poll)
    requires
        old(cell)@ is Some,
    ensures
        final(cell)@ is Some,
        (shared_state(final(cell)@), r) == poll_outcome(shared_state(old(cell)@)),
{
    cell.get_mut(cs).poll()
}

/// The shared timer after the hardware had the chance to dispatch its
/// interrupt: the handler runs only if interrupts are enabled and the timer
/// requests it.
pub open spec fn dispatch_outcome(enabled: bool, s: TimerState) -> TimerState {
    if enabled && requests_irq(s.block) {
        match_outcome(s)
    } else {
        s
    }
}

/// What the hardware does between two foreground instructions: if interrupts
/// are enabled and the timer requests its handler, mask interrupts, run the
/// handler with the token that gives, and restore them on return. Reports
/// whether the handler ran.
pub fn dispatch_timer_interrupt(irq: &mut Interrupts, cell: &mut GatedCell<Timer>) -> (ran: bool)
    requires
        old(cell)@ is Some,
    ensures
        ran == (old(irq).is_enabled_spec() && requests_irq(shared_state(old(cell)@).block)),
        final(irq).is_enabled_spec() == old(irq).is_enabled_spec(),
        final(cell)@ is Some,
        shared_state(final(cell)@) == dispatch_outcome(old(irq).is_enabled_spec(), shared_state(old(cell)@)),
{
    if !irq.is_enabled() {
        return false;
    }
    let requested = {
        let cs = irq.enter();
        let requested = cell.get_mut(&cs).block().irq_requested();
        irq.leave(cs);
        requested
    };
    if !requested {
        return false;
    }
    let cs = irq.handler_entry();
    timer_interrupt(&cs, cell);
    irq.leave(cs);
    true
}

/// The shared timer after `n` chances for the hardware to dispatch its
/// interrupt, with the interrupt flag at `enabled` throughout.
pub open spec fn dispatches(enabled: bool, s: TimerState, n: nat) -> TimerState
    decreases n,
{
    if n == 0 {
        s
    } else {
        dispatches(enabled, dispatch_outcome(enabled, s), (n - 1) as nat)
    }
}

/// While a critical section is open interrupts are masked, so the handler
/// cannot run: any number of dispatch chances leave the shared timer as it
/// was, and a poll inside the critical section sees and leaves exactly what
/// it would with no interrupt pending at all.
pub proof fn lemma_masked_dispatch_invisible(s: TimerState, before: nat, after: nat)
    ensures
        dispatches(false, s, before) == s,
        dispatches(false, poll_outcome(dispatches(false, s, before)).0, after) == poll_outcome(s).0,
    decreases before + after,
{
    if before > 0 {
        lemma_masked_dispatch_invisible(s, (before - 1) as nat, 0);
    }
    if after > 0 {
        lemma_masked_dispatch_invisible(poll_outcome(s).0, (after - 1) as nat, 0);
    }
}

} // verus!
