//! Tests for the kernel core: frame allocation, mapping, heap bootstrap,
//! the event bridge, the executor, and the interrupt-side models.

use playground_os_rust::allocator::init_heap;
use playground_os_rust::allocator::Dummy;
use playground_os_rust::allocator::HEAP_SIZE;
use playground_os_rust::allocator::HEAP_START;
use playground_os_rust::interrupts::exception_response;
use playground_os_rust::interrupts::init_idt;
use playground_os_rust::interrupts::keyboard_interrupt_handler;
use playground_os_rust::interrupts::pit_reload_bytes;
use playground_os_rust::interrupts::pit_reload_value;
use playground_os_rust::interrupts::timer_interrupt_handler;
use playground_os_rust::interrupts::Clock;
use playground_os_rust::interrupts::FaultResponse;
use playground_os_rust::interrupts::HandlerKind;
use playground_os_rust::interrupts::InterruptIndex;
use playground_os_rust::interrupts::Pics;
use playground_os_rust::interrupts::PIC_1_OFFSET;
use playground_os_rust::interrupts::PIC_2_OFFSET;
use playground_os_rust::memory::create_example_mapping;
use playground_os_rust::memory::translate_addr;
use playground_os_rust::memory::BootInfoFrameAllocator;
use playground_os_rust::memory::EmptyFrameAllocator;
use playground_os_rust::memory::MapToError;
use playground_os_rust::memory::Mapper;
use playground_os_rust::memory::MemoryRegion;
use playground_os_rust::memory::MemoryRegionType;
use playground_os_rust::memory::PageTable;
use playground_os_rust::memory::FLAG_PRESENT;
use playground_os_rust::memory::FLAG_WRITABLE;
use playground_os_rust::task::executor::Executor;
use playground_os_rust::task::executor::InterruptFlag;
use playground_os_rust::task::keyboard::add_scancode;
use playground_os_rust::task::keyboard::ScancodeDelivery;
use playground_os_rust::task::keyboard::ScancodeStream;
use playground_os_rust::task::Computation;
use playground_os_rust::task::Poll;
use playground_os_rust::task::PollContext;
use playground_os_rust::task::Task;
use playground_os_rust::task::TaskId;
use playground_os_rust::key_conversion::keymap_us;

fn usable(start: u64, end: u64) -> MemoryRegion {
    MemoryRegion { start, end, region_type: MemoryRegionType::Usable }
}

fn reserved(start: u64, end: u64) -> MemoryRegion {
    MemoryRegion { start, end, region_type: MemoryRegionType::Reserved }
}

fn demo_map() -> Vec<MemoryRegion> {
    vec![
        usable(0x1000, 0x4000),
        reserved(0x4000, 0x8000),
        usable(0x10000, 0x12000),
    ]
}

#[test]
fn frames_are_distinct_and_usable() {
    let mut alloc = BootInfoFrameAllocator::init(demo_map());
    let mut seen = Vec::new();
    loop {
        match alloc.allocate_frame() {
            Some(f) => {
                assert_eq!(f % 4096, 0, "frame must be aligned");
                assert!(
                    (0x1000 <= f && f + 4096 <= 0x4000) || (0x10000 <= f && f + 4096 <= 0x12000),
                    "frame must lie in a usable region"
                );
                assert!(!seen.contains(&f), "no frame is handed out twice");
                seen.push(f);
            }
            None => break,
        }
    }
    assert_eq!(seen.len(), 5, "three frames in the first region, two in the second");
    assert_eq!(seen, vec![0x1000, 0x2000, 0x3000, 0x10000, 0x11000]);
    assert!(alloc.allocate_frame().is_none(), "exhaustion is permanent");
}

#[test]
fn empty_frame_allocator_is_empty() {
    let mut alloc = EmptyFrameAllocator;
    assert!(alloc.allocate_frame().is_none());
}

#[test]
fn empty_region_list_allocates_nothing() {
    let mut alloc = BootInfoFrameAllocator::init(Vec::new());
    assert!(alloc.allocate_frame().is_none());
}

#[test]
fn map_then_translate_round_trip() {
    let mut mapper = Mapper::new(PageTable::new_empty(), 0);
    let mut alloc = BootInfoFrameAllocator::init(vec![usable(0x100000, 0x200000)]);
    let page: u64 = 0x5000_0000;
    let frame: u64 = 0xb000;
    assert!(mapper.map_to(page, frame, FLAG_PRESENT | FLAG_WRITABLE, &mut alloc).is_ok());
    assert_eq!(translate_addr(&mapper, page), Some(frame));
    assert_eq!(translate_addr(&mapper, page + 0x123), Some(frame + 0x123));
    assert_eq!(translate_addr(&mapper, page + 0xfff), Some(frame + 0xfff));
    assert_eq!(translate_addr(&mapper, page + 0x1000), None, "the next page is unmapped");
    assert_eq!(translate_addr(&mapper, 0), None);
}

#[test]
fn remapping_a_mapped_page_fails() {
    let mut mapper = Mapper::new(PageTable::new_empty(), 0);
    let mut alloc = BootInfoFrameAllocator::init(vec![usable(0x100000, 0x200000)]);
    let page: u64 = 0x5000_0000;
    assert!(mapper.map_to(page, 0xb000, FLAG_PRESENT | FLAG_WRITABLE, &mut alloc).is_ok());
    assert_eq!(
        mapper.map_to(page, 0xc000, FLAG_PRESENT | FLAG_WRITABLE, &mut alloc),
        Err(MapToError::PageAlreadyMapped)
    );
    assert_eq!(translate_addr(&mapper, page), Some(0xb000), "the first mapping survives");
}

#[test]
fn mapping_without_frames_fails() {
    let mut mapper = Mapper::new(PageTable::new_empty(), 0);
    let mut alloc = BootInfoFrameAllocator::init(Vec::new());
    assert_eq!(
        mapper.map_to(0x5000_0000, 0xb000, FLAG_PRESENT | FLAG_WRITABLE, &mut alloc),
        Err(MapToError::FrameAllocationFailed)
    );
}

#[test]
fn example_mapping_reaches_display_frame() {
    let mut mapper = Mapper::new(PageTable::new_empty(), 0);
    let mut alloc = BootInfoFrameAllocator::init(vec![usable(0x100000, 0x200000)]);
    let page: u64 = 0xdead_b000 & !0xfff;
    create_example_mapping(page, &mut mapper, &mut alloc);
    assert_eq!(translate_addr(&mapper, page), Some(0xb8000));
}

#[test]
fn heap_window_is_fully_mapped() {
    let mut mapper = Mapper::new(PageTable::new_empty(), 0);
    // 25 heap pages plus the 3 intermediate tables of the fresh hierarchy
    let mut alloc = BootInfoFrameAllocator::init(vec![usable(0x100000, 0x100000 + 28 * 4096)]);
    assert!(init_heap(&mut mapper, &mut alloc).is_ok());
    assert!(translate_addr(&mapper, HEAP_START).is_some());
    assert!(translate_addr(&mapper, HEAP_START + 1234).is_some());
    assert!(translate_addr(&mapper, HEAP_START + HEAP_SIZE - 1).is_some());
    assert!(translate_addr(&mapper, HEAP_START + HEAP_SIZE).is_none());
    assert!(alloc.allocate_frame().is_none(), "exactly enough frames were consumed");
}

#[test]
fn heap_init_twice_fails_at_already_mapped() {
    let mut mapper = Mapper::new(PageTable::new_empty(), 0);
    let mut alloc = BootInfoFrameAllocator::init(vec![usable(0x100000, 0x500000)]);
    assert!(init_heap(&mut mapper, &mut alloc).is_ok());
    let before = translate_addr(&mapper, HEAP_START);
    assert_eq!(init_heap(&mut mapper, &mut alloc), Err(MapToError::PageAlreadyMapped));
    assert_eq!(translate_addr(&mapper, HEAP_START), before, "nothing was remapped");
}

#[test]
fn heap_pages_are_backed_by_distinct_frames() {
    let mut mapper = Mapper::new(PageTable::new_empty(), 0);
    let mut alloc = BootInfoFrameAllocator::init(vec![usable(0x100000, 0x100000 + 28 * 4096)]);
    assert!(init_heap(&mut mapper, &mut alloc).is_ok());
    let mut frames = Vec::new();
    for k in 0..25u64 {
        let f = translate_addr(&mapper, HEAP_START + k * 4096).expect("heap page is mapped");
        assert!(!frames.contains(&f), "no two heap pages share a frame");
        frames.push(f);
    }
    // the first page takes the allocator's first frame; later pages' frames
    // sit past the three intermediate tables the first walk consumed
    assert_eq!(frames[0], 0x100000);
    assert_eq!(frames[1], 0x100000 + 4 * 4096);
    assert_eq!(frames[24], 0x100000 + 27 * 4096);
}

#[test]
fn heap_init_without_enough_frames_fails() {
    let mut mapper = Mapper::new(PageTable::new_empty(), 0);
    let mut alloc = BootInfoFrameAllocator::init(vec![usable(0x100000, 0x100000 + 27 * 4096)]);
    assert_eq!(init_heap(&mut mapper, &mut alloc), Err(MapToError::FrameAllocationFailed));
}

#[test]
fn test_heap_box() {
    let b = Box::new(42);
    assert_eq!(*b, 42);
}

#[test]
fn test_heap_vec() {
    let mut v = Vec::new();
    v.push(42);
    v.push(31);
    assert_eq!(v[0], 42);
    assert_eq!(v[1], 31);
}

#[test]
fn dummy_allocator_refuses() {
    assert!(Dummy.allocate().is_none());
}

#[test]
fn interrupt_vectors_are_remapped() {
    assert_eq!(PIC_1_OFFSET, 32);
    assert_eq!(PIC_2_OFFSET, 40);
    assert_eq!(InterruptIndex::Timer.as_u8(), 32);
    assert_eq!(InterruptIndex::Keyboard.as_u8(), 33);
    assert_eq!(InterruptIndex::Timer.as_usize(), 32);
    assert_eq!(InterruptIndex::Keyboard.as_usize(), 33);
}

#[test]
fn idt_binds_every_required_handler() {
    let t = init_idt();
    assert!(t.loaded);
    assert!(t.double_fault_stack);
    assert_eq!(t.handlers[3], Some(HandlerKind::Breakpoint));
    assert_eq!(t.handlers[8], Some(HandlerKind::DoubleFault));
    assert_eq!(t.handlers[14], Some(HandlerKind::PageFault));
    assert_eq!(t.handlers[32], Some(HandlerKind::Timer));
    assert_eq!(t.handlers[33], Some(HandlerKind::Keyboard));
    assert_eq!(t.handlers[0], None);
    assert_eq!(t.handlers[255], None);
}

#[test]
fn fault_responses_match_the_design() {
    assert_eq!(exception_response(HandlerKind::Breakpoint), FaultResponse::Resume);
    assert_eq!(exception_response(HandlerKind::Timer), FaultResponse::Resume);
    assert_eq!(exception_response(HandlerKind::Keyboard), FaultResponse::Resume);
    assert_eq!(exception_response(HandlerKind::DoubleFault), FaultResponse::Halt);
    assert_eq!(exception_response(HandlerKind::PageFault), FaultResponse::Halt);
}

#[test]
fn pit_reload_values_are_exact() {
    assert_eq!(pit_reload_value(1000), 78196353);
    assert_eq!(pit_reload_value(0), 49274567, "low requests clamp to the slowest rate");
    assert_eq!(pit_reload_value(18), 49274567);
    assert_eq!(pit_reload_value(2_000_000), 65536, "high requests clamp to the base clock");
    assert_eq!(pit_reload_bytes(1000), (169, 4));
    assert_eq!(pit_reload_bytes(0), (239, 2));
    assert_eq!(pit_reload_bytes(2_000_000), (1, 0));
}

#[test]
fn timer_ticks_advance_the_clock() {
    let mut clock = Clock::new();
    let mut pics = Pics::new(PIC_1_OFFSET, PIC_2_OFFSET);
    pics.initialize();
    for _ in 0..250 {
        timer_interrupt_handler(&mut clock, &mut pics);
    }
    assert_eq!(clock.milliseconds_elapsed(), 250, "one millisecond per tick at this rate");
    assert_eq!(pics.last_acknowledged, Some(32), "every tick was acknowledged");
}

#[test]
fn scancode_queue_is_fifo() {
    let mut stream = ScancodeStream::new();
    for b in 0..60u8 {
        assert!(matches!(add_scancode(&mut stream, b), ScancodeDelivery::Queued(None)));
    }
    let consumer = TaskId(7);
    for b in 0..60u8 {
        match stream.poll_next(consumer) {
            Poll::Ready(Some(got)) => assert_eq!(got, b, "bytes come back in arrival order"),
            other => panic!("expected a byte, got {:?}", other),
        }
    }
    assert!(matches!(stream.poll_next(consumer), Poll::Pending));
}

#[test]
fn overflowing_the_queue_drops_only_the_excess() {
    let mut stream = ScancodeStream::new();
    let mut queued = 0;
    let mut dropped = 0;
    for i in 0..105u32 {
        match add_scancode(&mut stream, (i % 256) as u8) {
            ScancodeDelivery::Queued(_) => queued += 1,
            ScancodeDelivery::Dropped => dropped += 1,
        }
    }
    assert_eq!(queued, 100, "the queue holds exactly its capacity");
    assert_eq!(dropped, 5, "the newest bytes are dropped, nothing blocks");
    let consumer = TaskId(1);
    for i in 0..100u8 {
        match stream.poll_next(consumer) {
            Poll::Ready(Some(got)) => assert_eq!(got, i),
            other => panic!("expected a byte, got {:?}", other),
        }
    }
    assert!(matches!(stream.poll_next(consumer), Poll::Pending));
}

#[test]
fn registered_task_is_woken_exactly_once_per_push() {
    let mut stream = ScancodeStream::new();
    let waiting = TaskId(3);
    assert!(matches!(stream.poll_next(waiting), Poll::Pending), "nothing queued yet");
    // the first delivery wakes the registered task and clears the slot
    assert!(matches!(
        add_scancode(&mut stream, 0xAB),
        ScancodeDelivery::Queued(Some(TaskId(3)))
    ));
    // the next delivery finds no one registered: no duplicate wake
    assert!(matches!(add_scancode(&mut stream, 0xCD), ScancodeDelivery::Queued(None)));
    assert!(matches!(stream.poll_next(waiting), Poll::Ready(Some(0xAB))));
    assert!(matches!(stream.poll_next(waiting), Poll::Ready(Some(0xCD))));
}

#[test]
fn keyboard_interrupt_forwards_and_acknowledges() {
    let mut stream = ScancodeStream::new();
    let mut pics = Pics::new(PIC_1_OFFSET, PIC_2_OFFSET);
    pics.initialize();
    let r = keyboard_interrupt_handler(0x1E, &mut stream, &mut pics);
    assert!(matches!(r, ScancodeDelivery::Queued(None)));
    assert_eq!(pics.last_acknowledged, Some(33));
    assert!(matches!(stream.poll_next(TaskId(0)), Poll::Ready(Some(0x1E))));
}

#[test]
fn yield_once_tasks_all_complete() {
    let mut stream = ScancodeStream::new();
    let mut executor = Executor::new();
    let mut next_id: u64 = 0;
    for _ in 0..12 {
        let task = Task::new(Computation::YieldOnce { yielded: false }, &mut next_id);
        executor.spawn(task);
    }
    executor.run(&mut stream);
    assert_eq!(executor.ready.len(), 0, "run returns only once nothing is ready");
    assert_eq!(executor.tasks.len(), 0, "every task completed after one suspend/wake cycle");
    let mut interrupts = InterruptFlag::new(true);
    assert!(executor.sleep_if_idle(&mut interrupts), "an idle executor parks the CPU");
    assert!(interrupts.enabled);
}

#[test]
fn example_task_completes_without_suspending() {
    let mut stream = ScancodeStream::new();
    let mut executor = Executor::new();
    let mut next_id: u64 = 0;
    executor.spawn(Task::new(Computation::Example { value: 42, printed: false }, &mut next_id));
    executor.run(&mut stream);
    assert_eq!(executor.tasks.len(), 0);
}

#[test]
fn waking_a_ready_task_is_a_no_op() {
    let mut stream = ScancodeStream::new();
    let mut executor = Executor::new();
    let mut next_id: u64 = 0;
    let task = Task::new(Computation::YieldOnce { yielded: false }, &mut next_id);
    let id = task.id;
    executor.spawn(task);
    executor.wake(id);
    assert_eq!(executor.ready.len(), 1, "no duplicate queue entry for a ready task");
    executor.run(&mut stream);
    assert_eq!(executor.tasks.len(), 0);
    executor.wake(id);
    assert_eq!(executor.ready.len(), 0, "a wake for a completed task is dropped");
}

#[test]
fn poll_context_records_wakes() {
    let mut ctx = PollContext::new(TaskId(9));
    ctx.wake();
    assert_eq!(ctx.wakes.len(), 1);
    assert_eq!(ctx.wakes[0], TaskId(9));
}

#[test]
fn injected_scancodes_reach_the_consuming_task_in_order() {
    // the full path: interrupt-side delivery, wake, executor poll cycle
    let mut stream = ScancodeStream::new();
    let mut pics = Pics::new(PIC_1_OFFSET, PIC_2_OFFSET);
    pics.initialize();
    let mut executor = Executor::new();
    let mut next_id: u64 = 0;
    let task = Task::new(Computation::new_key_presses(keymap_us()), &mut next_id);
    executor.spawn(task);
    executor.run(&mut stream);
    assert_eq!(executor.tasks.len(), 1, "the consumer suspends, waiting for input");

    let injected: Vec<u8> = vec![0x1E, 0x9E, 0x30, 0xB0, 0x2E, 0xAE];
    for (i, b) in injected.iter().enumerate() {
        match keyboard_interrupt_handler(*b, &mut stream, &mut pics) {
            ScancodeDelivery::Queued(Some(id)) => {
                assert_eq!(i, 0, "only the registered task is woken, exactly once");
                executor.wake(id);
            }
            ScancodeDelivery::Queued(None) => assert!(i > 0),
            ScancodeDelivery::Dropped => panic!("queue cannot be full"),
        }
    }
    executor.run(&mut stream);
    assert_eq!(executor.tasks.len(), 1);
    match &executor.tasks[0].computation {
        Computation::KeyPresses { observed, actions, .. } => {
            assert_eq!(observed, &injected, "the task observes exactly the injected bytes");
            assert!(!actions.is_empty(), "the decoded key presses produced display actions");
        }
        _ => panic!("the consumer task is still owned"),
    }
}
