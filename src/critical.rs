//! The global interrupt-enable flag and the critical-section token.
//!
//! A `CriticalSection` can only be obtained from `Interrupts::enter` (the
//! foreground masks interrupts) or `Interrupts::handler_entry` (the hardware
//! masked them on handler entry). Holding one is therefore evidence that no
//! interrupt handler can run. Critical sections nest, and are left in the
//! reverse order of entry; interrupts are enabled only outside all of them.

use vstd::prelude::*;

verus! {

/// The processor's global interrupt-enable flag, with the number of critical
/// sections currently open.
pub struct Interrupts {
    enabled: bool,
    depth: Ghost<nat>,
}

/// Evidence that interrupts are masked. It is neither `Copy` nor `Clone`, and
/// it remembers the flag's state from before it was taken, so that leaving
/// restores exactly that state.
pub struct CriticalSection {
    restore: bool,
    level: Ghost<nat>,
}

impl CriticalSection {
    /// Only the outermost critical section can have found interrupts enabled.
    #[verifier::type_invariant]
    spec fn inv(&self) -> bool {
        self.level@ >= 1 && (self.restore ==> self.level@ == 1)
    }

    /// Whether leaving this critical section re-enables interrupts.
    pub closed spec fn restores(&self) -> bool {
        self.restore
    }

    /// How many critical sections were open, this one included, when it was
    /// entered.
    pub closed spec fn level(&self) -> nat {
        self.level@
    }
}

impl Interrupts {
    /// Interrupts are never enabled inside a critical section.
    #[verifier::type_invariant]
    spec fn inv(&self) -> bool {
        self.enabled ==> self.depth@ == 0
    }

    pub closed spec fn is_enabled_spec(&self) -> bool {
        self.enabled
    }

    /// The number of critical sections open.
    pub closed spec fn depth(&self) -> nat {
        self.depth@
    }

    /// The flag after reset: interrupts disabled, no critical section open.
    pub fn new() -> (r: Interrupts)
        ensures
            !r.is_enabled_spec(),
            r.depth() == 0,
    {
        Interrupts { enabled: false, depth: Ghost(0) }
    }

    /// Whether interrupts are enabled; they never are inside a critical
    /// section.
    pub fn is_enabled(&self) -> (r: bool)
        ensures
            r == self.is_enabled_spec(),
            r ==> self.depth() == 0,
    {
        proof {
            use_type_invariant(self);
        }
        self.enabled
    }

    /// Turn interrupts on, outside any critical section (done once, after
    /// initialization).
    pub fn enable(&mut self)
        requires
            old(self).depth() == 0,
        ensures
            final(self).is_enabled_spec(),
            final(self).depth() == 0,
    {
        self.enabled = true;
    }

    /// Mask interrupts and hand out the token. The token records whether they
    /// were enabled before, so a nested critical section does not re-enable
    /// them early when it ends.
    pub fn enter(&mut self) -> (cs: CriticalSection)
        ensures
            !final(self).is_enabled_spec(),
            final(self).depth() == old(self).depth() + 1,
            cs.restores() == old(self).is_enabled_spec(),
            cs.level() == final(self).depth(),
    {
        proof {
            use_type_invariant(&*self);
        }
        let was = self.enabled;
        self.enabled = false;
        let level = Ghost(self.depth@ + 1);
        self.depth = level;
        CriticalSection { restore: was, level }
    }

    /// The token an interrupt handler holds for its whole body: the hardware
    /// masked interrupts on entry, and restores them on return.
    pub fn handler_entry(&mut self) -> (cs: CriticalSection)
        requires
            old(self).is_enabled_spec(),
        ensures
            !final(self).is_enabled_spec(),
            final(self).depth() == 1,
            cs.restores(),
            cs.level() == 1,
    {
        proof {
            use_type_invariant(&*self);
        }
        self.enter()
    }

    /// End the innermost critical section, restoring the flag to what it was
    /// when its token was taken.
    pub fn leave(&mut self, cs: CriticalSection)
        requires
            cs.level() == old(self).depth(),
        ensures
            final(self).is_enabled_spec() == cs.restores(),
            final(self).depth() == old(self).depth() - 1,
    {
        proof {
            use_type_invariant(&cs);
        }
        let depth = Ghost((self.depth@ - 1) as nat);
        *self = Interrupts { enabled: cs.restore, depth };
    }
}

} // verus!
