//! The interrupt dispatch table and the per-interrupt service logic: a
//! registration table mapping vector numbers to handlers, loaded exactly
//! once after the double-fault stack is reserved, and the keyboard, timer
//! and mouse service steps. Every hardware interrupt handler must
//! acknowledge the controller exactly once, after its work: each service
//! step returns the vector that must be acknowledged.
use crate::console::spec_store;
use crate::console::Mailbox;
use crate::vga_buffer::spec_write_byte;
use crate::vga_buffer::Writer;
use vstd::prelude::*;

verus! {

/// Base vector of the interrupt controller's first eight lines.
pub const PIC_1_OFFSET: u8 = 32;

/// Base vector of the interrupt controller's second eight lines.
pub const PIC_2_OFFSET: u8 = 40;

/// The hardware interrupt lines this console serves.
#[derive(Debug, Clone, Copy)]
pub enum InterruptIndex {
    Timer,
    Keyboard,
    Mouse,
}

/// The vector number the controller delivers each line on: the timer on
/// the base vector, the keyboard and the mouse on the two lines after it.
pub open spec fn spec_vector(idx: InterruptIndex) -> u8 {
    match idx {
        InterruptIndex::Timer => 32,
        InterruptIndex::Keyboard => 33,
        InterruptIndex::Mouse => 34,
    }
}

impl InterruptIndex {
    /// The vector number of this interrupt line.
    pub fn as_u8(self) -> (v: u8)
        ensures
            v == spec_vector(self),
    {
        match self {
            InterruptIndex::Timer => 32,
            InterruptIndex::Keyboard => 33,
            InterruptIndex::Mouse => 34,
        }
    }
}

/// The stateful scancode decoder: pc_keyboard's PS/2 decoder over
/// scancode set 1 and the US 104-key layout. Its state is opaque here
/// (Verus refuses the generic declaration, whose type parameters are
/// bound by pc_keyboard's traits); the decoding itself is relied on
/// through the wrappers below.
#[verifier::external_body]
pub struct KeyboardDecoder {
    inner: pc_keyboard::PS2Keyboard<pc_keyboard::layouts::Us104Key, pc_keyboard::ScancodeSet1>,
}

/// pc_keyboard's key event: a key code together with its new state.
#[verifier::external_type_specification]
#[verifier::external_body]
pub struct ExKeyEvent(pc_keyboard::KeyEvent);

/// A decoded keypress as the console cares about it: a Unicode character,
/// or some key with no character (whose identity the console ignores).
#[derive(Debug, Clone, Copy)]
pub enum KeyPress {
    Character(char),
    Raw,
}

/// Relies on pc_keyboard::PS2Keyboard::new: a fresh decoder over scancode
/// set 1 and the US 104-key layout, with control keys left as they are.
#[verifier::external_body]
pub fn new_keyboard() -> KeyboardDecoder {
    KeyboardDecoder {
        inner: pc_keyboard::PS2Keyboard::new(
            pc_keyboard::ScancodeSet1::new(),
            pc_keyboard::layouts::Us104Key,
            pc_keyboard::HandleControl::Ignore,
        ),
    }
}

/// Relies on pc_keyboard::PS2Keyboard::add_byte: it advances the decoder
/// state by one raw scancode byte and completes a key event once a whole
/// multi-byte sequence has arrived. A decode error yields no event, which
/// is how the interrupt handler treats it.
#[verifier::external_body]
fn keyboard_add_byte(kb: &mut KeyboardDecoder, scancode: u8) -> Option<pc_keyboard::KeyEvent> {
    match kb.inner.add_byte(scancode) {
        Ok(ev) => ev,
        Err(_) => None,
    }
}

/// Relies on pc_keyboard::PS2Keyboard::process_keyevent: it folds the key
/// event into the decoder's modifier state and may produce a decoded key,
/// either a Unicode character (with shift and friends applied) or a raw
/// key code, which the console does not use further.
#[verifier::external_body]
fn keyboard_process_event(kb: &mut KeyboardDecoder, ev: pc_keyboard::KeyEvent) -> Option<KeyPress> {
    match kb.inner.process_keyevent(ev) {
        Some(pc_keyboard::DecodedKey::Unicode(character)) => Some(KeyPress::Character(character)),
        Some(pc_keyboard::DecodedKey::RawKey(_key)) => Some(KeyPress::Raw),
        None => None,
    }
}

/// Effect of delivering a decoded key to the mailbox: a Unicode character
/// is stored, overwriting an unread one; anything else changes nothing.
pub open spec fn spec_deliver(m: Option<char>, k: Option<KeyPress>) -> Option<char> {
    match k {
        Some(KeyPress::Character(c)) => spec_store(m, c),
        Some(KeyPress::Raw) => m,
        None => m,
    }
}

/// Delivers a decoded key to the mailbox: exactly the effect of
/// `spec_deliver`, for every value the decoder may have produced.
pub fn store_decoded(mb: &mut Mailbox, key: Option<KeyPress>)
    ensures
        final(mb)@ == spec_deliver(old(mb)@, key),
{
    match key {
        Some(KeyPress::Character(c)) => mb.store(c),
        Some(KeyPress::Raw) => (),
        None => (),
    }
}

/// Services one keyboard interrupt, given the scancode byte read from the
/// keyboard port: the byte goes to the decoder, a decoded character goes
/// to the mailbox (overwriting an unread one, never blocking), and the
/// returned vector must be acknowledged to the controller exactly once,
/// after this work.
pub fn keyboard_irq(kb: &mut KeyboardDecoder, mb: &mut Mailbox, scancode: u8) -> (eoi: u8)
    ensures
        eoi == spec_vector(InterruptIndex::Keyboard),
        exists|k: Option<KeyPress>| final(mb)@ == #[trigger] spec_deliver(old(mb)@, k),
{
    let key = match keyboard_add_byte(kb, scancode) {
        Some(ev) => keyboard_process_event(kb, ev),
        None => None,
    };
    store_decoded(mb, key);
    proof {
        assert(mb@ == spec_deliver(old(mb)@, key));
    }
    InterruptIndex::Keyboard.as_u8()
}

/// Services one timer interrupt: no work is done; the returned vector
/// must be acknowledged to the controller exactly once.
pub fn timer_irq() -> (eoi: u8)
    ensures
        eoi == spec_vector(InterruptIndex::Timer),
{
    InterruptIndex::Timer.as_u8()
}

/// Services one mouse interrupt: no data is decoded, a stub glyph is
/// written to the screen, and the returned vector must be acknowledged to
/// the controller exactly once.
pub fn mouse_irq(w: &mut Writer) -> (eoi: u8)
    requires
        old(w)@.wf(),
    ensures
        final(w)@.wf(),
        final(w)@ == spec_write_byte(old(w)@, 0x6b),
        eoi == spec_vector(InterruptIndex::Mouse),
{
    w.write_byte(0x6b);
    InterruptIndex::Mouse.as_u8()
}

/// What a registered handler serves.
#[derive(Debug, Clone, Copy, PartialEq, Eq, Structural)]
pub enum HandlerKind {
    Breakpoint,
    DoubleFault,
    PageFault,
    Timer,
    Keyboard,
    Mouse,
}

/// How a handler leaves the processor.
#[derive(Debug, Clone, Copy, PartialEq, Eq, Structural)]
pub enum Disposition {
    Resume,
    Halt,
}

/// The fate of the processor after each handler: the breakpoint exception
/// logs and resumes; a double fault is unconditionally terminal; a page
/// fault is logged and treated as terminal (no recovery is implemented);
/// the hardware interrupt lines are serviced, acknowledged and resumed.
pub open spec fn spec_disposition(h: HandlerKind) -> Disposition {
    match h {
        HandlerKind::Breakpoint => Disposition::Resume,
        HandlerKind::DoubleFault => Disposition::Halt,
        HandlerKind::PageFault => Disposition::Halt,
        HandlerKind::Timer => Disposition::Resume,
        HandlerKind::Keyboard => Disposition::Resume,
        HandlerKind::Mouse => Disposition::Resume,
    }
}

/// How a handler leaves the processor, as `spec_disposition` says.
pub fn handler_disposition(h: HandlerKind) -> (d: Disposition)
    ensures
        d == spec_disposition(h),
{
    match h {
        HandlerKind::Breakpoint => Disposition::Resume,
        HandlerKind::DoubleFault => Disposition::Halt,
        HandlerKind::PageFault => Disposition::Halt,
        HandlerKind::Timer => Disposition::Resume,
        HandlerKind::Keyboard => Disposition::Resume,
        HandlerKind::Mouse => Disposition::Resume,
    }
}

/// The fixed registrations of this console: the breakpoint exception on
/// vector 3, the double fault on vector 8, the page fault on vector 14,
/// and the three hardware lines on their controller vectors.
pub open spec fn spec_idt_entries() -> Seq<Option<HandlerKind>> {
    Seq::new(
        256,
        |i: int|
            if i == 3 {
                Some(HandlerKind::Breakpoint)
            } else if i == 8 {
                Some(HandlerKind::DoubleFault)
            } else if i == 14 {
                Some(HandlerKind::PageFault)
            } else if i == 32 {
                Some(HandlerKind::Timer)
            } else if i == 33 {
                Some(HandlerKind::Keyboard)
            } else if i == 34 {
                Some(HandlerKind::Mouse)
            } else {
                None
            },
    )
}

/// The interrupt dispatch table: one possible handler per vector, the
/// stack index reserved for the double fault, and whether the table has
/// been handed to the processor. Loading is one-way and happens once.
pub struct DispatchTable {
    entries: Vec<Option<HandlerKind>>,
    double_fault_stack: Option<u8>,
    loaded: bool,
}

impl DispatchTable {
    /// There is one entry per interrupt vector.
    pub closed spec fn wf(self) -> bool {
        self.entries@.len() == 256
    }

    /// The handler registered on each vector.
    pub closed spec fn spec_entries(self) -> Seq<Option<HandlerKind>> {
        self.entries@
    }

    /// The stack index reserved for the double fault handler, if any.
    pub closed spec fn spec_fault_stack(self) -> Option<u8> {
        self.double_fault_stack
    }

    /// Whether the table has been handed to the processor.
    pub closed spec fn is_loaded(self) -> bool {
        self.loaded
    }

    /// A fresh table: nothing registered, nothing loaded.
    pub fn new() -> (t: DispatchTable)
        ensures
            t.wf(),
            t.spec_entries() =~= Seq::new(256, |i: int| None::<HandlerKind>),
            t.spec_fault_stack() is None,
            !t.is_loaded(),
    {
        let entries: Vec<Option<HandlerKind>> = vec![None;256];
        DispatchTable { entries, double_fault_stack: None, loaded: false }
    }

    /// Registers a handler on a vector. Registrations are fixed before
    /// the table is loaded; reloading is not supported.
    pub fn set_handler(&mut self, vector: u8, h: HandlerKind)
        requires
            old(self).wf(),
            !old(self).is_loaded(),
        ensures
            final(self).wf(),
            final(self).spec_entries() == old(self).spec_entries().update(vector as int, Some(h)),
            final(self).spec_fault_stack() == old(self).spec_fault_stack(),
            !final(self).is_loaded(),
    {
        self.entries.set(vector as usize, Some(h));
    }

    /// Registers the double fault handler on its fixed vector together
    /// with the index of its dedicated, pre-reserved stack, so that a
    /// fault caused by stack exhaustion can still be serviced.
    pub fn set_double_fault_handler(&mut self, stack_index: u8)
        requires
            old(self).wf(),
            !old(self).is_loaded(),
        ensures
            final(self).wf(),
            final(self).spec_entries() == old(self).spec_entries().update(
                8,
                Some(HandlerKind::DoubleFault),
            ),
            final(self).spec_fault_stack() == Some(stack_index),
            !final(self).is_loaded(),
    {
        self.entries.set(8, Some(HandlerKind::DoubleFault));
        self.double_fault_stack = Some(stack_index);
    }

    /// Hands the table to the processor, exactly once. The double fault
    /// handler must be registered with its dedicated stack first: without
    /// a separate stack, a double fault during stack overflow would reset
    /// the machine silently.
    pub fn load(&mut self)
        requires
            old(self).wf(),
            !old(self).is_loaded(),
            old(self).spec_entries()[8] == Some(HandlerKind::DoubleFault),
            old(self).spec_fault_stack() is Some,
        ensures
            final(self).wf(),
            final(self).spec_entries() == old(self).spec_entries(),
            final(self).spec_fault_stack() == old(self).spec_fault_stack(),
            final(self).is_loaded(),
    {
        self.loaded = true;
    }

    /// The handler registered on a vector.
    pub fn handler_for(&self, vector: u8) -> (h: Option<HandlerKind>)
        requires
            self.wf(),
        ensures
            h == self.spec_entries()[vector as int],
    {
        self.entries[vector as usize]
    }

    /// Whether the table has been loaded.
    pub fn loaded(&self) -> (b: bool)
        ensures
            b == self.is_loaded(),
    {
        self.loaded
    }
}

/// Builds the dispatch table with the fixed registrations of this console
/// and loads it, given the stack index the descriptor-table setup has
/// reserved for the double fault.
pub fn init_idt(double_fault_stack_index: u8) -> (t: DispatchTable)
    ensures
        t.wf(),
        t.spec_entries() =~= spec_idt_entries(),
        t.spec_fault_stack() == Some(double_fault_stack_index),
        t.is_loaded(),
{
    let mut t = DispatchTable::new();
    t.set_handler(3, HandlerKind::Breakpoint);
    t.set_double_fault_handler(double_fault_stack_index);
    t.set_handler(14, HandlerKind::PageFault);
    t.set_handler(32, HandlerKind::Timer);
    t.set_handler(33, HandlerKind::Keyboard);
    t.set_handler(34, HandlerKind::Mouse);
    t.load();
    t
}

} // verus!
