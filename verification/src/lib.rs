//! Core of a small x86-64 kernel: interrupt dispatch, physical frame
//! allocation, page-table mapping, heap bootstrap, a scancode event bridge,
//! and a cooperative task executor.
//!
//! Hardware access (port reads and writes, the real descriptor tables, the
//! physical address space) cannot be reasoned about directly, so the kernel
//! state is held in explicitly owned values: the firmware memory map, the
//! page-table tree, the interrupt table and the screen buffer are data that
//! the kernel owns and updates, and every update is specified and verified.
//! The hardware edge itself (reading a port, acknowledging the controller)
//! stays outside, handing plain bytes in and taking plain values out.

use vstd::prelude::*;

use crate::interrupts::HandlerKind;
use crate::interrupts::InterruptIndex;
use crate::interrupts::InterruptTable;
use crate::interrupts::Pics;
use crate::interrupts::BREAKPOINT_VECTOR;
use crate::interrupts::DOUBLE_FAULT_VECTOR;
use crate::interrupts::PAGE_FAULT_VECTOR;
use crate::task::executor::InterruptFlag;
use crate::vga_buffer::Writer;

pub mod allocator;
pub mod interrupts;
pub mod key_conversion;
pub mod memory;
pub mod pci;
pub mod task;
pub mod vga_buffer;

verus! {

/// Exit codes understood by the debug-exit device of the emulator the kernel
/// is tested under. The device takes the raw code as a 32-bit write.
#[derive(Debug, Clone, Copy, PartialEq, Eq, Structural)]
pub enum QemuExitCode {
    Success,
    Failure,
}

impl QemuExitCode {
    /// The raw value written to the debug-exit port for this exit code.
    pub fn code(self) -> (r: u32)
        ensures
            self is Success ==> r == 0x10,
            self is Failure ==> r == 0x11,
    {
        match self {
            QemuExitCode::Success => 0x10,
            QemuExitCode::Failure => 0x11,
        }
    }
}


/// Bring the kernel up in the one legal order: clear the screen, build and
/// load the exception/interrupt table exactly once, initialize the remapped
/// interrupt controllers, and only then enable interrupt delivery.
/// Enabling interrupts before the table is loaded, or initializing twice,
/// is a programming error and is ruled out by the preconditions.
pub fn init(writer: &mut Writer, pics: &mut Pics, interrupts: &mut InterruptFlag) -> (t:
    InterruptTable)
    requires
        old(writer).wf(),
        !old(pics).is_initialized(),
        !old(interrupts).enabled,
    ensures
        t.wf(),
        t.is_loaded(),
        t.has_double_fault_stack(),
        t.handler(BREAKPOINT_VECTOR) == Some(HandlerKind::Breakpoint),
        t.handler(DOUBLE_FAULT_VECTOR) == Some(HandlerKind::DoubleFault),
        t.handler(PAGE_FAULT_VECTOR) == Some(HandlerKind::PageFault),
        t.handler(InterruptIndex::Timer.spec_vector()) == Some(HandlerKind::Timer),
        t.handler(InterruptIndex::Keyboard.spec_vector()) == Some(HandlerKind::Keyboard),
        final(writer).wf(),
        final(writer).color_code == old(writer).color_code,
        final(pics).is_initialized(),
        final(pics).spec_offset_primary() == old(pics).spec_offset_primary(),
        final(pics).spec_offset_secondary() == old(pics).spec_offset_secondary(),
        final(interrupts).enabled,
{
    crate::vga_buffer::init(writer);
    let t = crate::interrupts::init_idt();
    pics.initialize();
    interrupts.enable();
    t
}


/// Something a kernel self-test can run.
pub trait Testable {
    fn run(&self);
}

/// Run each kernel self-test in order and report the exit code owed to the
/// debug-exit device: success once every test has returned.
pub fn test_runner(tests: &[&dyn Testable]) -> (r: QemuExitCode)
    ensures
        r is Success,
{
    let mut i: usize = 0;
    while i < tests.len()
        decreases tests.len() - i,
    {
        tests[i].run();
        i = i + 1;
    }
    QemuExitCode::Success
}

} // verus!
