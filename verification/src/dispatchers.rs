//! The dispatchers: a fixed chain of interrupt vectors, one per preemption
//! level, each of which runs the task that was placed in its slot.

use vstd::prelude::*;
use atsamd_hal::pac::Interrupt;

verus! {

/// The number of preemption levels, and of dispatcher interrupts.
pub const NUM_DISPATCHERS: usize = 3;

/// The number of priorities that the interrupt controller tells apart.
pub const NVIC_PRIORITIES: u8 = 8;

/// The enumeration of the device's interrupts, as the peripheral access crate
/// declares it. Verus reads its variants.
#[verifier::external_type_specification]
pub struct ExInterrupt(Interrupt);

/// `cortex_m::interrupt::InterruptNumber::number` on the device's
/// interrupts: the position of the vector among the external interrupts. The
/// contract gives it for the three vectors that serve as dispatchers.
#[verifier::external_body]
fn interrupt_number(interrupt: Interrupt) -> (number: u16)
    ensures
        interrupt == Interrupt::SERCOM0_0 ==> number == 46,
        interrupt == Interrupt::SERCOM0_1 ==> number == 47,
        interrupt == Interrupt::SERCOM0_2 ==> number == 48,
{
    cortex_m::interrupt::InterruptNumber::number(interrupt)
}

/// The interrupt that dispatches tasks of level `level`.
pub open spec fn dispatcher_of(level: u8) -> Interrupt {
    if level == 0 {
        Interrupt::SERCOM0_0
    } else if level == 1 {
        Interrupt::SERCOM0_1
    } else {
        Interrupt::SERCOM0_2
    }
}

/// The priority that the interrupt controller is given for the dispatcher of
/// level `level`. A smaller number is a more urgent priority.
pub open spec fn nvic_priority(level: u8) -> int {
    (NVIC_PRIORITIES - (level + 1)) * 16
}

/// The interrupt that dispatches tasks of level `level`.
pub fn dispatcher(level: u8) -> (interrupt: Interrupt)
    requires
        level < NUM_DISPATCHERS,
    ensures
        interrupt == dispatcher_of(level),
{
    if level == 0 {
        Interrupt::SERCOM0_0
    } else if level == 1 {
        Interrupt::SERCOM0_1
    } else {
        Interrupt::SERCOM0_2
    }
}

/// The place of the dispatcher of level `level` in the vector table, which
/// starts with the sixteen system exceptions.
pub fn dispatcher_irq(level: u8) -> (irq: usize)
    requires
        level < NUM_DISPATCHERS,
    ensures
        irq == 62 + level,
{
    interrupt_number(dispatcher(level)) as usize + 16
}

/// The priority to give the interrupt controller for the dispatcher of level
/// `level`.
pub fn dispatcher_priority(level: u8) -> (priority: u8)
    requires
        level < NUM_DISPATCHERS,
    ensures
        priority == nvic_priority(level),
{
    let steps: u8 = NVIC_PRIORITIES - (level + 1);
    assert(steps << 4 == steps * 16) by (bit_vector)
        requires
            steps < 8,
    ;
    steps << 4
}

/// The dispatchers form a strict chain: a higher level has the more urgent
/// priority, so that its dispatcher preempts those of all lower levels.
pub proof fn lemma_priority_chain(lower: u8, higher: u8)
    requires
        lower < higher < NUM_DISPATCHERS,
    ensures
        0 <= nvic_priority(higher) < nvic_priority(lower) <= u8::MAX,
{
}

/// No two levels share a dispatcher interrupt.
pub proof fn lemma_dispatchers_distinct(a: u8, b: u8)
    requires
        a < NUM_DISPATCHERS,
        b < NUM_DISPATCHERS,
        a != b,
    ensures
        dispatcher_of(a) != dispatcher_of(b),
{
}

} // verus!
