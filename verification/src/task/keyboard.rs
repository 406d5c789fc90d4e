//! The event bridge between interrupt context and task context: a bounded
//! lock-free byte queue the keyboard handler pushes raw scancodes into, a
//! single waker slot that remembers the one task waiting for input, and the
//! stream the consuming task polls.
//!
//! The queue itself is crossbeam's bounded `ArrayQueue`; its behaviour is
//! stated over two names, the queued bytes and the fixed capacity. The
//! scan-code decoding that turns bytes into keys is pc_keyboard's stateful
//! decoder, carried through opaquely; what the kernel decides about each
//! decoded key is verified here.

use vstd::prelude::*;

use crate::key_conversion::KeyConversionLayout;
use crate::task::TaskId;
use crate::task::Poll;

verus! {

#[verifier::external_type_specification]
#[verifier::external_body]
#[verifier::reject_recursive_types(T)]
pub struct ExArrayQueue<T>(crossbeam_queue::ArrayQueue<T>);

/// The bytes currently queued, front (next to be popped) first.
pub uninterp spec fn queue_contents(q: crossbeam_queue::ArrayQueue<u8>) -> Seq<u8>;

/// The fixed capacity the queue was created with.
pub uninterp spec fn queue_capacity(q: crossbeam_queue::ArrayQueue<u8>) -> nat;

/// Relies on crossbeam's ArrayQueue::new: a fresh bounded queue with the
/// given capacity, holding nothing. It panics on zero capacity, which the
/// precondition excludes.
#[verifier::external_body]
fn queue_new(capacity: usize) -> (q: crossbeam_queue::ArrayQueue<u8>)
    requires
        capacity > 0,
    ensures
        queue_contents(q) == Seq::<u8>::empty(),
        queue_capacity(q) == capacity,
{
    crossbeam_queue::ArrayQueue::new(capacity)
}

/// Outcome of a push: the unit on success, the rejected byte when the
/// queue was full.
pub type PushOutcome = Result<(), u8>;

/// Relies on ArrayQueue::push: appends the value at the tail when the queue
/// is below capacity, else hands the value back; never blocks and never
/// allocates. The kernel holds the queue exclusively for the call.
#[verifier::external_body]
fn queue_push(q: &mut crossbeam_queue::ArrayQueue<u8>, value: u8) -> (r: PushOutcome)
    ensures
        queue_contents(*old(q)).len() < queue_capacity(*old(q)) ==> r is Ok && queue_contents(
            *final(q),
        ) == queue_contents(*old(q)).push(value) && queue_capacity(*final(q)) == queue_capacity(
            *old(q),
        ),
        queue_contents(*old(q)).len() >= queue_capacity(*old(q)) ==> (r matches Err(b) && b
            == value) && queue_contents(*final(q)) == queue_contents(*old(q)) && queue_capacity(
            *final(q),
        ) == queue_capacity(*old(q)),
{
    match q.push(value) {
        Ok(()) => Ok(()),
        Err(crossbeam_queue::PushError(v)) => Err(v),
    }
}

/// Relies on ArrayQueue::pop: removes and returns the front element, or
/// reports the queue empty; never blocks. The kernel holds the queue
/// exclusively for the call.
#[verifier::external_body]
fn queue_pop(q: &mut crossbeam_queue::ArrayQueue<u8>) -> (r: Option<u8>)
    ensures
        queue_contents(*old(q)).len() > 0 ==> r == Some(queue_contents(*old(q))[0])
            && queue_contents(*final(q)) == queue_contents(*old(q)).drop_first()
            && queue_capacity(*final(q)) == queue_capacity(*old(q)),
        queue_contents(*old(q)).len() == 0 ==> r is None && queue_contents(*final(q))
            == queue_contents(*old(q)) && queue_capacity(*final(q)) == queue_capacity(*old(q)),
{
    match q.pop() {
        Ok(v) => Some(v),
        Err(crossbeam_queue::PopError) => None,
    }
}

/// Capacity of the scancode queue: enough for a burst of keystrokes
/// arriving while the consumer task is not scheduled.
pub const SCANCODE_QUEUE_CAPACITY: usize = 100;

/// The scancode stream: the bounded queue interrupts push into, plus the
/// single waker slot. At most one task waits for scancodes; registering
/// overwrites, waking clears. Constructed once during startup and owned by
/// the kernel, in place of a lazily initialised global.
pub struct ScancodeStream {
    pub queue: crossbeam_queue::ArrayQueue<u8>,
    pub waker: Option<TaskId>,
}

/// One push as the interrupt handler performs it: the byte is appended if
/// the queue has room, and dropped otherwise.
pub open spec fn spec_push_model(contents: Seq<u8>, capacity: nat, b: u8) -> Seq<u8> {
    if contents.len() < capacity {
        contents.push(b)
    } else {
        contents
    }
}

/// A whole burst of pushes, oldest first.
pub open spec fn spec_push_all_model(contents: Seq<u8>, capacity: nat, bytes: Seq<u8>) -> Seq<u8>
    decreases bytes.len(),
{
    if bytes.len() == 0 {
        contents
    } else {
        spec_push_all_model(
            spec_push_model(contents, capacity, bytes[0]),
            capacity,
            bytes.drop_first(),
        )
    }
}

/// What `add_scancode` reports back to the interrupt handler: the byte was
/// queued (waking at most the one registered task), or the queue was full
/// and the byte was dropped — a diagnostic, never a stall.
#[derive(Debug, Clone, Copy, PartialEq, Eq, Structural)]
pub enum ScancodeDelivery {
    Queued(Option<TaskId>),
    Dropped,
}

impl ScancodeStream {
    /// The bytes waiting to be consumed, oldest first.
    pub open spec fn contents(self) -> Seq<u8> {
        queue_contents(self.queue)
    }

    pub open spec fn capacity(self) -> nat {
        queue_capacity(self.queue)
    }

    /// Create the stream with its fixed-capacity queue and an empty waker
    /// slot.
    pub fn new() -> (s: ScancodeStream)
        ensures
            s.contents() == Seq::<u8>::empty(),
            s.capacity() == SCANCODE_QUEUE_CAPACITY,
            s.waker is None,
    {
        ScancodeStream { queue: queue_new(SCANCODE_QUEUE_CAPACITY), waker: None }
    }

    /// Poll for the next scancode on behalf of `task`. A non-blocking pop
    /// is tried first; if the queue looks empty the task's waker is
    /// registered and the queue is checked once more, closing the race
    /// against a byte delivered between the first check and the
    /// registration. Only then is "pending" reported, so a task is never
    /// left waiting for a byte that was already delivered.
    pub fn poll_next(&mut self, task: TaskId) -> (r: Poll<Option<u8>>)
        ensures
            final(self).capacity() == old(self).capacity(),
            old(self).contents().len() > 0 ==> r == Poll::<Option<u8>>::Ready(
                Some(old(self).contents()[0]),
            ) && final(self).contents() == old(self).contents().drop_first() && final(self).waker
                == old(self).waker,
            old(self).contents().len() == 0 ==> r == Poll::<Option<u8>>::Pending && final(self).contents() == old(self).contents() && final(self).waker == Some(task),
            !(r == Poll::<Option<u8>>::Ready(None)),
    {
        if let Some(scancode) = queue_pop(&mut self.queue) {
            return Poll::Ready(Some(scancode));
        }
        self.waker = Some(task);
        match queue_pop(&mut self.queue) {
            Some(scancode) => {
                // only reachable when a producer slipped a byte in between
                // the first check and the registration; the kernel holds the
                // queue exclusively here, so the re-check finds it empty
                self.waker = None;
                proof {
                    assert(false);
                }
                Poll::Ready(Some(scancode))
            },
            None => Poll::Pending,
        }
    }
}

/// Deliver one raw scancode from the keyboard interrupt handler: enqueue it
/// without blocking or allocating, and wake the registered waiting task, if
/// any, exactly once. On a full queue the byte is dropped and reported,
/// because stalling the handler is worse than losing input.
pub fn add_scancode(stream: &mut ScancodeStream, scancode: u8) -> (r: ScancodeDelivery)
    ensures
        final(stream).capacity() == old(stream).capacity(),
        final(stream).contents() == spec_push_model(
            old(stream).contents(),
            old(stream).capacity(),
            scancode,
        ),
        old(stream).contents().len() < old(stream).capacity() ==> r == ScancodeDelivery::Queued(
            old(stream).waker,
        ) && final(stream).waker is None,
        old(stream).contents().len() >= old(stream).capacity() ==> r == ScancodeDelivery::Dropped
            && final(stream).waker == old(stream).waker,
{
    match queue_push(&mut stream.queue, scancode) {
        Ok(()) => {
            let woken = stream.waker;
            stream.waker = None;
            ScancodeDelivery::Queued(woken)
        },
        Err(_) => ScancodeDelivery::Dropped,
    }
}

/// Pushing a burst that fits appends it whole: nothing is lost and the
/// arrival order is kept, so popping yields exactly the pushed bytes in
/// first-in-first-out order.
pub proof fn lemma_bridge_fifo(contents: Seq<u8>, capacity: nat, bytes: Seq<u8>)
    requires
        contents.len() + bytes.len() <= capacity,
    ensures
        spec_push_all_model(contents, capacity, bytes) == contents + bytes,
    decreases bytes.len(),
{
    if bytes.len() == 0 {
        assert(spec_push_all_model(contents, capacity, bytes) =~= contents + bytes);
    } else {
        lemma_bridge_fifo(contents.push(bytes[0]), capacity, bytes.drop_first());
        assert(contents.push(bytes[0]) + bytes.drop_first() =~= contents + bytes);
    }
}

/// Pushing more than the queue can hold keeps exactly the first
/// `capacity` bytes: the excess is dropped, nothing panics, nothing blocks,
/// and the bytes that were kept stay in order.
pub proof fn lemma_bridge_drop_excess(capacity: nat, bytes: Seq<u8>)
    requires
        bytes.len() >= capacity,
    ensures
        spec_push_all_model(Seq::<u8>::empty(), capacity, bytes) == bytes.take(capacity as int),
{
    lemma_bridge_drop_prefix(Seq::<u8>::empty(), capacity, bytes);
}

/// Generalisation over a partly filled queue: the queue fills up to
/// capacity with the oldest arrivals and drops the rest.
proof fn lemma_bridge_drop_prefix(contents: Seq<u8>, capacity: nat, bytes: Seq<u8>)
    requires
        contents.len() <= capacity,
        contents.len() + bytes.len() >= capacity,
    ensures
        spec_push_all_model(contents, capacity, bytes) == contents + bytes.take(
            capacity - contents.len(),
        ),
    decreases bytes.len(),
{
    if contents.len() == capacity {
        lemma_bridge_full_stays(contents, capacity, bytes);
        assert(contents + bytes.take(0) =~= contents);
    } else {
        lemma_bridge_drop_prefix(contents.push(bytes[0]), capacity, bytes.drop_first());
        assert(contents.push(bytes[0]) + bytes.drop_first().take(
            capacity - contents.len() - 1,
        ) =~= contents + bytes.take(capacity - contents.len()));
    }
}

/// A full queue ignores every further push.
proof fn lemma_bridge_full_stays(contents: Seq<u8>, capacity: nat, bytes: Seq<u8>)
    requires
        contents.len() >= capacity,
    ensures
        spec_push_all_model(contents, capacity, bytes) == contents,
    decreases bytes.len(),
{
    if bytes.len() > 0 {
        lemma_bridge_full_stays(contents, capacity, bytes.drop_first());
    }
}


#[verifier::external_type_specification]
#[verifier::external_body]
pub struct ExKeyEvent(pc_keyboard::KeyEvent);

#[verifier::external_type_specification]
#[verifier::external_body]
pub struct ExKeyCode(pc_keyboard::KeyCode);

#[verifier::external_type_specification]
#[verifier::external_body]
pub struct ExDecodedKey(pc_keyboard::DecodedKey);

/// The scan-code decoder this kernel drives: pc_keyboard's stateful decoder
/// for scan-code set 1 on the UK layout, control keys passed through. Its
/// generic bounds keep the decoder type itself from being declared to the
/// verifier, so it is held opaquely in a field instead.
#[verifier::external_body]
pub struct UkKeyboard {
    inner: pc_keyboard::Keyboard<pc_keyboard::layouts::Uk105Key, pc_keyboard::ScancodeSet1>,
}

/// Relies on pc_keyboard's Keyboard::new: a fresh decoder in its start
/// state, before any scancode byte has been seen.
#[verifier::external_body]
pub fn keyboard_new() -> (kb: UkKeyboard) {
    UkKeyboard {
        inner: pc_keyboard::Keyboard::new(
            pc_keyboard::layouts::Uk105Key,
            pc_keyboard::ScancodeSet1,
            pc_keyboard::HandleControl::Ignore,
        ),
    }
}

/// Relies on Keyboard::add_byte, the stateful scan-code state machine: one
/// byte may complete a key event, be consumed as a multi-byte prefix, or be
/// rejected as malformed; the latter two yield no event.
#[verifier::external_body]
fn keyboard_add_byte(kb: &mut UkKeyboard, scancode: u8) -> (r: Option<pc_keyboard::KeyEvent>) {
    kb.inner.add_byte(scancode).ok().flatten()
}

/// Relies on Keyboard::process_keyevent: tracks modifier state and yields a
/// decoded key for events that produce one.
#[verifier::external_body]
fn keyboard_process_keyevent(kb: &mut UkKeyboard, ev: pc_keyboard::KeyEvent) -> (r: Option<
    pc_keyboard::DecodedKey,
>) {
    kb.inner.process_keyevent(ev)
}

/// A decoded key as the kernel's own data: a character, or a raw key code
/// carried through opaquely for diagnostic display.
pub enum KeyOutput {
    Unicode(char),
    RawKey(pc_keyboard::KeyCode),
}

/// Relies on the two variants of pc_keyboard's DecodedKey: each is carried
/// over unchanged into the kernel's own enum.
#[verifier::external_body]
fn classify_decoded_key(key: pc_keyboard::DecodedKey) -> (r: KeyOutput) {
    match key {
        pc_keyboard::DecodedKey::Unicode(c) => KeyOutput::Unicode(c),
        pc_keyboard::DecodedKey::RawKey(k) => KeyOutput::RawKey(k),
    }
}

/// What the key-press task tells the display collaborator to do for one
/// decoded key.
pub enum OutputAction {
    Backspace,
    PrintChar(char),
    PrintRaw(pc_keyboard::KeyCode),
}

/// Decide the display action for one decoded key: characters go through the
/// configured layout conversion, the backspace character edits the screen
/// rather than printing, and raw keys are shown as diagnostics.
pub fn handle_decoded(key: KeyOutput, layout: &KeyConversionLayout) -> (r: OutputAction)
    ensures
        key matches KeyOutput::Unicode(c) ==> (layout.spec_convert(c) == '\u{8}' ==> r
            == OutputAction::Backspace) && (layout.spec_convert(c) != '\u{8}' ==> r
            == OutputAction::PrintChar(layout.spec_convert(c))),
        key matches KeyOutput::RawKey(k) ==> r == OutputAction::PrintRaw(k),
{
    match key {
        KeyOutput::Unicode(c) => {
            let converted = layout.convert_char(c);
            if converted == '\u{8}' {
                OutputAction::Backspace
            } else {
                OutputAction::PrintChar(converted)
            }
        },
        KeyOutput::RawKey(k) => OutputAction::PrintRaw(k),
    }
}

/// Feed one raw scancode through the decoder and decide what to show: most
/// bytes produce nothing (prefixes, releases, modifiers); a completed
/// key-down yields one display action.
pub fn process_scancode(
    kb: &mut UkKeyboard,
    layout: &KeyConversionLayout,
    scancode: u8,
) -> (r: Option<OutputAction>) {
    match keyboard_add_byte(kb, scancode) {
        Some(ev) => {
            match keyboard_process_keyevent(kb, ev) {
                Some(key) => Some(handle_decoded(classify_decoded_key(key), layout)),
                None => None,
            }
        },
        None => None,
    }
}

} // verus!
