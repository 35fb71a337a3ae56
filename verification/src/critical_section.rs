//! The critical-section guard: what it remembers on entry, and what it
//! decides on exit.
//!
//! The shared state of the scheduler is touched only while interrupts are
//! masked. A guard stands for one such stretch. Reading and writing the
//! processor's interrupt mask is the caller's part: it reads the mask, masks
//! interrupts and creates the guard; when the guard goes, it asks the guard
//! whether to unmask.

use vstd::prelude::*;
use cortex_m::register::primask::Primask;

verus! {

/// The state of the processor's priority mask, as `cortex_m` reads it:
/// `Active` while interrupts are delivered, `Inactive` while they are masked.
/// Verus reads its variants.
#[verifier::external_type_specification]
pub struct ExPrimask(Primask);

/// `Primask::is_active`: whether the mask is `Active`.
pub assume_specification[ Primask::is_active ](primask: Primask) -> (active: bool)
    ensures
        active == (primask == Primask::Active),
;

/// The mask right after a guard was created: interrupts are masked.
pub open spec fn entered() -> Primask {
    Primask::Inactive
}

/// Whether a guard that found the mask `found` on entry has interrupts
/// unmasked on exit: only if they were delivered on entry.
pub open spec fn unmasks(found: Primask) -> bool {
    found == Primask::Active
}

/// The mask after a guard went that had found the mask `found` on entry,
/// where the mask is `current` at that moment.
pub open spec fn left(found: Primask, current: Primask) -> Primask {
    if unmasks(found) {
        Primask::Active
    } else {
        current
    }
}

/// A critical section that restores the interrupt mask it found.
///
/// Its view is the mask that was read on entry.
pub struct CsGuard {
    primask: Primask,
}

impl View for CsGuard {
    type V = Primask;

    closed spec fn view(&self) -> Primask {
        self.primask
    }
}

impl CsGuard {
    /// The guard of a critical section that was entered while the mask was
    /// `primask`.
    pub fn new(primask: Primask) -> (guard: Self)
        ensures
            guard@ == primask,
    {
        Self { primask }
    }

    /// Whether interrupts are to be unmasked on exit: only if they were
    /// delivered on entry.
    pub fn restore_inner(&self) -> (unmask: bool)
        ensures
            unmask == unmasks(self@),
    {
        self.primask.is_active()
    }
}

/// A critical section leaves the mask as it found it.
pub proof fn lemma_guard_restores(found: Primask)
    ensures
        left(found, entered()) == found,
{
}

/// A critical section inside another leaves interrupts masked, and the outer
/// one then restores the mask that it had found.
pub proof fn lemma_guards_nest(found: Primask)
    ensures
        left(entered(), entered()) == entered(),
        left(found, left(entered(), entered())) == found,
{
}

} // verus!
