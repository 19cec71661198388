//! A periodic countdown timer whose completion an interrupt handler signals.
//!
//! `TimerBlock` holds, as plain values, the timer registers this logic reads
//! and writes: the compare register, the clock-source and mode selection, the
//! compare channel's interrupt enable and pending bits, and the counter.
//! `TimerBlock::tick` is one edge of the timer clock in up mode, so that the
//! whole signalling path can be run without hardware.

use vstd::prelude::*;

verus! {

/// The timer peripheral's registers, as far as this logic uses them.
#[derive(Clone, Copy, Debug, PartialEq, Eq, Structural)]
pub struct TimerBlock {
    /// Value the counter counts up to before starting over.
    pub compare: u16,
    /// The counter is clocked from the auxiliary clock.
    pub aux_clock: bool,
    /// The counter runs in up mode.
    pub up_mode: bool,
    /// A compare match raises an interrupt.
    pub match_irq_enabled: bool,
    /// A compare match happened and has not been acknowledged.
    pub match_pending: bool,
    /// The counter.
    pub count: u16,
}

/// What a non-blocking poll reports.
#[derive(Clone, Copy, Debug, PartialEq, Eq, Structural)]
pub enum Poll {
    Ready,
    WouldBlock,
}

/// The registers after one timer clock edge. In up mode the counter runs
/// from zero to `compare` and then back to zero, which is the match that sets
/// the pending bit; a compare value of zero, or another mode, stops it.
pub open spec fn tick_block(b: TimerBlock) -> TimerBlock {
    if !b.up_mode || b.compare == 0 {
        b
    } else if b.count >= b.compare {
        TimerBlock { count: 0, match_pending: true, ..b }
    } else {
        TimerBlock { count: (b.count + 1) as u16, ..b }
    }
}

/// Whether the timer is asking for its interrupt handler.
pub open spec fn requests_irq(b: TimerBlock) -> bool {
    b.match_pending && b.match_irq_enabled
}

impl TimerBlock {
    /// The registers after reset: everything clear, the counter stopped.
    pub fn reset() -> (b: TimerBlock)
        ensures
            b == (TimerBlock {
                compare: 0,
                aux_clock: false,
                up_mode: false,
                match_irq_enabled: false,
                match_pending: false,
                count: 0,
            }),
    {
        TimerBlock {
            compare: 0,
            aux_clock: false,
            up_mode: false,
            match_irq_enabled: false,
            match_pending: false,
            count: 0,
        }
    }

    /// One edge of the timer clock.
    pub fn tick(&mut self)
        ensures
            *final(self) == tick_block(*old(self)),
    {
        if self.up_mode && self.compare != 0 {
            if self.count >= self.compare {
                self.count = 0;
                self.match_pending = true;
            } else {
                self.count = self.count + 1;
            }
        }
    }

    /// Whether the timer is asking for its interrupt handler.
    pub fn irq_requested(&self) -> (r: bool)
        ensures
            r == requests_irq(*self),
    {
        self.match_pending && self.match_irq_enabled
    }
}

/// The state of a `Timer`: its registers and the completion flag.
pub struct TimerState {
    pub block: TimerBlock,
    pub elapsed: bool,
}

/// The state after `poll`, and what it reports.
pub open spec fn poll_outcome(s: TimerState) -> (TimerState, Poll) {
    if s.elapsed {
        (TimerState { elapsed: false, ..s }, Poll::Ready)
    } else {
        (s, Poll::WouldBlock)
    }
}

/// The state after the interrupt handler's `on_match`.
pub open spec fn match_outcome(s: TimerState) -> TimerState {
    TimerState { block: TimerBlock { match_pending: false, ..s.block }, elapsed: true }
}

/// A non-blocking periodic timer. The interrupt handler calls `on_match`;
/// the foreground calls `poll`, which reports `Ready` once per match.
pub struct Timer {
    block: TimerBlock,
    elapsed: bool,
}

impl View for Timer {
    type V = TimerState;

    closed spec fn view(&self) -> TimerState {
        TimerState { block: self.block, elapsed: self.elapsed }
    }
}

impl Timer {
    /// Take over the timer: clock it from the auxiliary clock in up mode and
    /// enable the compare-match interrupt. The other registers are kept.
    pub fn new(block: TimerBlock) -> (t: Timer)
        ensures
            t@.block == (TimerBlock { aux_clock: true, up_mode: true, match_irq_enabled: true, ..block }),
            !t@.elapsed,
    {
        let mut block = block;
        block.aux_clock = true;
        block.up_mode = true;
        block.match_irq_enabled = true;
        Timer { block, elapsed: false }
    }

    /// Program the period, in timer clock ticks. Writing the compare register
    /// cannot fail.
    pub fn start(&mut self, period: u16)
        ensures
            final(self)@ == (TimerState {
                block: TimerBlock { compare: period, ..old(self)@.block },
                ..old(self)@
            }),
    {
        self.block.compare = period;
    }

    /// Report `Ready`, and clear the completion flag, if a match was signalled
    /// since the last `Ready`; otherwise `WouldBlock`. Never waits.
    pub fn poll(&mut self) -> (r: Poll)
        ensures
            (final(self)@, r) == poll_outcome(old(self)@),
    {
        if self.elapsed {
            self.elapsed = false;
            return Poll::Ready;
        }
        Poll::WouldBlock
    }

    /// Called by the interrupt handler on a compare match: set the completion
    /// flag and acknowledge the match, so the handler does not fire again at
    /// once. A match that comes before the last one was polled is merged
    /// with it.
    pub fn on_match(&mut self)
        ensures
            final(self)@ == match_outcome(old(self)@),
    {
        self.elapsed = true;
        self.block.match_pending = false;
    }

    /// The registers as they stand.
    pub fn block(&self) -> (b: TimerBlock)
        ensures
            b == self@.block,
    {
        self.block
    }

    /// One edge of the timer clock.
    pub fn tick(&mut self)
        ensures
            final(self)@ == (TimerState { block: tick_block(old(self)@.block), ..old(self)@ }),
    {
        self.block.tick();
    }
}

/// The state after `n` polls with no match in between, and how many of them
/// reported `Ready`.
pub open spec fn polls(s: TimerState, n: nat) -> (TimerState, nat)
    decreases n,
{
    if n == 0 {
        (s, 0)
    } else {
        let (next, r) = poll_outcome(s);
        let (last, ready) = polls(next, (n - 1) as nat);
        (last, ready + if r == Poll::Ready { 1nat } else { 0nat })
    }
}

/// A poll right after another poll, with no match between them, reports
/// `WouldBlock`.
pub proof fn lemma_poll_after_poll_blocks(s: TimerState)
    ensures
        poll_outcome(poll_outcome(s).0).1 == Poll::WouldBlock,
{
}

/// Polls with no match in between report `Ready` at most once, and not at
/// all once the flag is clear.
pub proof fn lemma_polls_without_match(s: TimerState, n: nat)
    ensures
        polls(s, n).1 <= 1,
        !s.elapsed ==> polls(s, n).1 == 0,
        n >= 1 ==> !polls(s, n).0.elapsed,
    decreases n,
{
    if n > 0 {
        lemma_polls_without_match(poll_outcome(s).0, (n - 1) as nat);
    }
}

/// Exactly one `Ready` per match: however many polls came before it, one or
/// more polls after a match report `Ready` exactly once.
pub proof fn lemma_one_ready_per_match(s: TimerState, before: nat, after: nat)
    requires
        after >= 1,
    ensures
        polls(match_outcome(polls(s, before).0), after).1 == 1,
    decreases after,
{
    let m = match_outcome(polls(s, before).0);
    assert(poll_outcome(m).1 == Poll::Ready);
    lemma_polls_without_match(poll_outcome(m).0, (after - 1) as nat);
}

} // verus!
