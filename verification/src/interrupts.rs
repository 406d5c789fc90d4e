//! The exception/interrupt dispatch table, the legacy interrupt-controller
//! remapping, the periodic-timer programming, and the handler-side effects
//! (the millisecond clock, controller acknowledgment).
//!
//! The descriptor table the CPU loads and the controller chips themselves are
//! hardware; what is held here is the kernel's own record of them: which
//! vector is bound to which handler, whether the table has been loaded,
//! which vectors the controllers deliver and whether each interrupt was
//! acknowledged. The port writes that realise these records are performed at
//! the hardware edge, which hands bytes computed here to the devices.

use vstd::prelude::*;

use crate::task::keyboard::ScancodeDelivery;
use crate::task::keyboard::ScancodeStream;
use crate::task::keyboard::add_scancode;
use crate::task::keyboard::spec_push_model;

verus! {

/// First vector of the primary interrupt controller: hardware interrupts are
/// remapped past the 32 reserved CPU-exception vectors.
pub const PIC_1_OFFSET: u8 = 32;
/// First vector of the secondary (chained) interrupt controller.
pub const PIC_2_OFFSET: u8 = PIC_1_OFFSET + 8;

/// Milliseconds represented by one timer interrupt at the configured rate.
pub const PIT_MS_PER_INTERRUPT: u32 = 1;

/// CPU-exception vector numbers bound by this kernel.
pub const BREAKPOINT_VECTOR: u8 = 3;
pub const DOUBLE_FAULT_VECTOR: u8 = 8;
pub const PAGE_FAULT_VECTOR: u8 = 14;

/// Index in the interrupt table for each device the controllers deliver.
#[derive(Debug, Clone, Copy, PartialEq, Eq, Structural)]
pub enum InterruptIndex {
    Timer,
    Keyboard,
}

impl InterruptIndex {
    /// The vector number this device's interrupts arrive on.
    pub open spec fn spec_vector(self) -> u8 {
        match self {
            InterruptIndex::Timer => PIC_1_OFFSET,
            InterruptIndex::Keyboard => (PIC_1_OFFSET + 1) as u8,
        }
    }

    pub fn as_u8(self) -> (r: u8)
        ensures
            r == self.spec_vector(),
    {
        match self {
            InterruptIndex::Timer => PIC_1_OFFSET,
            InterruptIndex::Keyboard => PIC_1_OFFSET + 1,
        }
    }

    pub fn as_usize(self) -> (r: usize)
        ensures
            r == self.spec_vector(),
    {
        let v: u8 = self.as_u8();
        v as usize
    }
}

/// The handlers this kernel installs; each is bound to exactly one vector.
#[derive(Debug, Clone, Copy, PartialEq, Eq, Structural)]
pub enum HandlerKind {
    Breakpoint,
    DoubleFault,
    PageFault,
    Timer,
    Keyboard,
}

/// What the kernel does after a handler runs: breakpoints are diagnostic and
/// execution resumes; page faults and double faults are unrecoverable and
/// park the CPU. Device interrupts resume after acknowledgment.
#[derive(Debug, Clone, Copy, PartialEq, Eq, Structural)]
pub enum FaultResponse {
    Resume,
    Halt,
}

/// The response owed to each handler's class of event.
pub fn exception_response(h: HandlerKind) -> (r: FaultResponse)
    ensures
        r is Resume <==> (h is Breakpoint || h is Timer || h is Keyboard),
        r is Halt <==> (h is DoubleFault || h is PageFault),
{
    match h {
        HandlerKind::Breakpoint => FaultResponse::Resume,
        HandlerKind::DoubleFault => FaultResponse::Halt,
        HandlerKind::PageFault => FaultResponse::Halt,
        HandlerKind::Timer => FaultResponse::Resume,
        HandlerKind::Keyboard => FaultResponse::Resume,
    }
}

/// The kernel's record of the interrupt descriptor table: which vector is
/// bound to which handler, whether the double-fault handler runs on its
/// dedicated alternate stack, and whether the table has been handed to the
/// CPU. A vector is bound at most once, and the table is loaded exactly once.
pub struct InterruptTable {
    pub handlers: Vec<Option<HandlerKind>>,
    pub double_fault_stack: bool,
    pub loaded: bool,
}

impl InterruptTable {
    /// The table always covers the full 256-vector space.
    pub open spec fn wf(self) -> bool {
        self.handlers@.len() == 256
    }

    /// The handler bound to a vector, if any.
    pub open spec fn handler(self, vector: u8) -> Option<HandlerKind>
        recommends
            self.wf(),
    {
        self.handlers@[vector as int]
    }

    pub open spec fn is_loaded(self) -> bool {
        self.loaded
    }

    /// Whether the double-fault handler was given its dedicated stack, so it
    /// can run even when the normal stack is exhausted.
    pub open spec fn has_double_fault_stack(self) -> bool {
        self.double_fault_stack
    }

    /// An empty table: no vector bound, nothing loaded.
    pub fn new() -> (t: InterruptTable)
        ensures
            t.wf(),
            !t.is_loaded(),
            !t.has_double_fault_stack(),
            forall|v: u8| t.handler(v) is None,
    {
        let mut handlers: Vec<Option<HandlerKind>> = Vec::new();
        let mut i: usize = 0;
        while i < 256
            invariant
                i <= 256,
                handlers@.len() == i,
                forall|j: int| 0 <= j < i ==> handlers@[j] is None,
            decreases 256 - i,
        {
            handlers.push(None);
            i = i + 1;
        }
        InterruptTable { handlers, double_fault_stack: false, loaded: false }
    }

    /// Bind a handler to a vector. The binding is immutable: a vector that
    /// already has a handler cannot be bound again, and nothing can be bound
    /// after the table was loaded.
    pub fn set_handler(&mut self, vector: u8, h: HandlerKind)
        requires
            old(self).wf(),
            !old(self).is_loaded(),
            old(self).handler(vector) is None,
        ensures
            final(self).wf(),
            !final(self).is_loaded(),
            final(self).handler(vector) == Some(h),
            forall|v: u8| v != vector ==> final(self).handler(v) == old(self).handler(v),
            final(self).has_double_fault_stack() == old(self).has_double_fault_stack(),
    {
        self.handlers.set(vector as usize, Some(h));
    }

    /// Route the double-fault handler to the dedicated alternate stack that
    /// the segmentation setup reserves for it.
    pub fn set_double_fault_stack(&mut self)
        requires
            old(self).wf(),
            !old(self).is_loaded(),
        ensures
            final(self).wf(),
            !final(self).is_loaded(),
            final(self).has_double_fault_stack(),
            forall|v: u8| final(self).handler(v) == old(self).handler(v),
    {
        self.double_fault_stack = true;
    }

    /// Hand the table to the CPU. Loading twice is a programming error.
    pub fn load(&mut self)
        requires
            old(self).wf(),
            !old(self).is_loaded(),
        ensures
            final(self).wf(),
            final(self).is_loaded(),
            forall|v: u8| final(self).handler(v) == old(self).handler(v),
            final(self).has_double_fault_stack() == old(self).has_double_fault_stack(),
    {
        self.loaded = true;
    }
}

/// Build and load the interrupt descriptor table: breakpoint, double fault
/// (on its dedicated stack), page fault, timer and keyboard, each bound
/// exactly once, and the table loaded exactly once.
pub fn init_idt() -> (t: InterruptTable)
    ensures
        t.wf(),
        t.is_loaded(),
        t.has_double_fault_stack(),
        t.handler(BREAKPOINT_VECTOR) == Some(HandlerKind::Breakpoint),
        t.handler(DOUBLE_FAULT_VECTOR) == Some(HandlerKind::DoubleFault),
        t.handler(PAGE_FAULT_VECTOR) == Some(HandlerKind::PageFault),
        t.handler(InterruptIndex::Timer.spec_vector()) == Some(HandlerKind::Timer),
        t.handler(InterruptIndex::Keyboard.spec_vector()) == Some(HandlerKind::Keyboard),
{
    let mut t = InterruptTable::new();
    t.set_handler(BREAKPOINT_VECTOR, HandlerKind::Breakpoint);
    t.set_handler(DOUBLE_FAULT_VECTOR, HandlerKind::DoubleFault);
    t.set_double_fault_stack();
    t.set_handler(PAGE_FAULT_VECTOR, HandlerKind::PageFault);
    t.set_handler(InterruptIndex::Timer.as_u8(), HandlerKind::Timer);
    t.set_handler(InterruptIndex::Keyboard.as_u8(), HandlerKind::Keyboard);
    t.load();
    t
}

/// The kernel's record of the two chained legacy interrupt controllers:
/// the vector offsets they were remapped to, whether they were initialized,
/// and the vector of the interrupt most recently acknowledged. A handler
/// that does not acknowledge its interrupt silently stops all further
/// delivery, so every device handler's contract states the acknowledgment.
pub struct Pics {
    pub offset_primary: u8,
    pub offset_secondary: u8,
    pub initialized: bool,
    pub last_acknowledged: Option<u8>,
}

impl Pics {
    pub open spec fn spec_offset_primary(self) -> u8 {
        self.offset_primary
    }

    pub open spec fn spec_offset_secondary(self) -> u8 {
        self.offset_secondary
    }

    pub open spec fn is_initialized(self) -> bool {
        self.initialized
    }

    pub open spec fn spec_last_acknowledged(self) -> Option<u8> {
        self.last_acknowledged
    }

    /// Whether a vector belongs to one of the two 8-vector ranges the
    /// controllers were remapped to.
    pub open spec fn spec_handles(self, vector: u8) -> bool {
        ||| self.offset_primary <= vector < self.offset_primary + 8
        ||| self.offset_secondary <= vector < self.offset_secondary + 8
    }

    /// A controller pair remapped to the given offsets, not yet initialized.
    pub fn new(offset_primary: u8, offset_secondary: u8) -> (p: Pics)
        ensures
            p.spec_offset_primary() == offset_primary,
            p.spec_offset_secondary() == offset_secondary,
            !p.is_initialized(),
            p.spec_last_acknowledged() is None,
    {
        Pics { offset_primary, offset_secondary, initialized: false, last_acknowledged: None }
    }

    /// Reprogram the hardware controllers to the chosen offsets. Must happen
    /// before interrupts are enabled; initializing twice is a programming
    /// error.
    pub fn initialize(&mut self)
        requires
            !old(self).is_initialized(),
        ensures
            final(self).is_initialized(),
            final(self).spec_offset_primary() == old(self).spec_offset_primary(),
            final(self).spec_offset_secondary() == old(self).spec_offset_secondary(),
            final(self).spec_last_acknowledged() == old(self).spec_last_acknowledged(),
    {
        self.initialized = true;
    }

    /// Acknowledge an interrupt to the controller that delivered it, so the
    /// controller resumes delivering interrupts of that class.
    pub fn notify_end_of_interrupt(&mut self, vector: u8)
        requires
            old(self).is_initialized(),
            old(self).spec_handles(vector),
        ensures
            final(self).is_initialized(),
            final(self).spec_last_acknowledged() == Some(vector),
            final(self).spec_offset_primary() == old(self).spec_offset_primary(),
            final(self).spec_offset_secondary() == old(self).spec_offset_secondary(),
    {
        self.last_acknowledged = Some(vector);
    }
}

/// The monotonic millisecond counter advanced by the timer handler; the only
/// externally observable clock this kernel has.
pub struct Clock {
    pub milliseconds: u64,
}

impl Clock {
    pub open spec fn spec_milliseconds(self) -> u64 {
        self.milliseconds
    }

    pub fn new() -> (c: Clock)
        ensures
            c.spec_milliseconds() == 0,
    {
        Clock { milliseconds: 0 }
    }

    pub fn milliseconds_elapsed(&self) -> (r: u64)
        ensures
            r == self.spec_milliseconds(),
    {
        self.milliseconds
    }
}

/// The clock value after a number of timer ticks at the configured rate.
pub open spec fn spec_ticks_advance(start: u64, ticks: nat) -> int {
    start + ticks * PIT_MS_PER_INTERRUPT
}

/// The timer interrupt handler: advance the millisecond clock by one tick's
/// worth and acknowledge the interrupt to the controller.
pub fn timer_interrupt_handler(clock: &mut Clock, pics: &mut Pics)
    requires
        old(pics).is_initialized(),
        old(pics).spec_handles(InterruptIndex::Timer.spec_vector()),
        old(clock).spec_milliseconds() + PIT_MS_PER_INTERRUPT <= u64::MAX,
    ensures
        final(clock).spec_milliseconds() == old(clock).spec_milliseconds() + PIT_MS_PER_INTERRUPT,
        final(pics).is_initialized(),
        final(pics).spec_last_acknowledged() == Some(InterruptIndex::Timer.spec_vector()),
        final(pics).spec_offset_primary() == old(pics).spec_offset_primary(),
        final(pics).spec_offset_secondary() == old(pics).spec_offset_secondary(),
{
    clock.milliseconds = clock.milliseconds + PIT_MS_PER_INTERRUPT as u64;
    pics.notify_end_of_interrupt(InterruptIndex::Timer.as_u8());
}

/// After `ticks` timer interrupts the clock has advanced by exactly
/// `ticks * PIT_MS_PER_INTERRUPT` milliseconds: the counter tracks elapsed
/// time at the configured rate, tick for tick.
pub proof fn lemma_clock_tracks_ticks(start: u64, ticks: nat)
    requires
        start + ticks * PIT_MS_PER_INTERRUPT <= u64::MAX,
    ensures
        spec_ticks_advance(start, ticks) - start == ticks * PIT_MS_PER_INTERRUPT,
        ticks > 0 ==> spec_ticks_advance(start, ticks)
            == spec_ticks_advance(start, (ticks - 1) as nat) + PIT_MS_PER_INTERRUPT,
{
    assert(ticks > 0 ==> ticks * PIT_MS_PER_INTERRUPT
        == (ticks - 1) as nat * PIT_MS_PER_INTERRUPT + PIT_MS_PER_INTERRUPT) by (nonlinear_arith);
}

/// Numerator of the timer divisor formula: the controller's base clock of
/// 1,193,181.67 Hz scaled by 2^16, computed in 64 bits to avoid overflow.
pub const PIT_NUMERATOR: u64 = 3579545 * 256 / 3 * 256;

/// The frequency actually programmed: the request clamped to the divisor
/// range the controller can represent.
pub open spec fn spec_pit_clamped(frequency_in_hz: u32) -> u32 {
    if frequency_in_hz <= 18 {
        18
    } else if frequency_in_hz >= 1193181 {
        1193181
    } else {
        frequency_in_hz
    }
}

/// The scaled reload value for a requested timer frequency, truncated to the
/// 32 bits the caller splits into reload bytes.
pub open spec fn spec_pit_reload(frequency_in_hz: u32) -> u32 {
    (PIT_NUMERATOR / spec_pit_clamped(frequency_in_hz) as u64) as u32
}

/// Compute the reload value for the periodic timer: clamp the requested
/// frequency, then divide the scaled base clock by it.
pub fn pit_reload_value(frequency_in_hz: u32) -> (r: u32)
    ensures
        r == spec_pit_reload(frequency_in_hz),
{
    let freq: u32 = if frequency_in_hz <= 18 {
        18
    } else if frequency_in_hz >= 1193181 {
        1193181
    } else {
        frequency_in_hz
    };
    let temp: u64 = PIT_NUMERATOR;
    #[verifier::truncate]
    let reload_value: u32 = (temp / freq as u64) as u32;
    reload_value
}

/// The two bytes of the reload value that are transmitted to the timer's
/// data port, low transmit byte first. On this kernel's only target the
/// native byte order is little-endian, so these are byte 2 and byte 3 of the
/// reload value's native-endian encoding.
pub fn pit_reload_bytes(frequency_in_hz: u32) -> (r: (u8, u8))
    ensures
        r.0 == (spec_pit_reload(frequency_in_hz) >> 16) & 0xff,
        r.1 == (spec_pit_reload(frequency_in_hz) >> 24) & 0xff,
{
    let reload: u32 = pit_reload_value(frequency_in_hz);
    let b2: u8 = ((reload >> 16) & 0xff) as u8;
    let b3: u8 = ((reload >> 24) & 0xff) as u8;
    assert((reload >> 16) & 0xff < 256 && (reload >> 24) & 0xff < 256) by (bit_vector);
    (b2, b3)
}


/// The keyboard interrupt handler: forward the raw byte read from the
/// keyboard data port into the event bridge without decoding it (decoding
/// may need allocation, which interrupt context must never do), wake the
/// one registered waiting task if any, and acknowledge the interrupt so the
/// controller keeps delivering.
pub fn keyboard_interrupt_handler(
    scancode: u8,
    stream: &mut ScancodeStream,
    pics: &mut Pics,
) -> (r: ScancodeDelivery)
    requires
        old(pics).is_initialized(),
        old(pics).spec_handles(InterruptIndex::Keyboard.spec_vector()),
    ensures
        final(stream).capacity() == old(stream).capacity(),
        final(stream).contents() == spec_push_model(
            old(stream).contents(),
            old(stream).capacity(),
            scancode,
        ),
        old(stream).contents().len() < old(stream).capacity() ==> r == ScancodeDelivery::Queued(
            old(stream).waker,
        ) && final(stream).waker is None,
        old(stream).contents().len() >= old(stream).capacity() ==> r == ScancodeDelivery::Dropped
            && final(stream).waker == old(stream).waker,
        final(pics).is_initialized(),
        final(pics).spec_last_acknowledged() == Some(InterruptIndex::Keyboard.spec_vector()),
        final(pics).spec_offset_primary() == old(pics).spec_offset_primary(),
        final(pics).spec_offset_secondary() == old(pics).spec_offset_secondary(),
{
    let r = add_scancode(stream, scancode);
    pics.notify_end_of_interrupt(InterruptIndex::Keyboard.as_u8());
    r
}

} // verus!
