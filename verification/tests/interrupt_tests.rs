use mold_console::console::Mailbox;
use mold_console::interrupts::handler_disposition;
use mold_console::interrupts::init_idt;
use mold_console::interrupts::keyboard_irq;
use mold_console::interrupts::mouse_irq;
use mold_console::interrupts::new_keyboard;
use mold_console::interrupts::store_decoded;
use mold_console::interrupts::timer_irq;
use mold_console::interrupts::Disposition;
use mold_console::interrupts::DispatchTable;
use mold_console::interrupts::HandlerKind;
use mold_console::interrupts::InterruptIndex;
use mold_console::interrupts::KeyPress;
use mold_console::interrupts::PIC_1_OFFSET;
use mold_console::interrupts::PIC_2_OFFSET;
use mold_console::vga_buffer::Writer;

#[test]
fn interrupt_vectors_follow_the_controller_offsets() {
    assert_eq!(PIC_1_OFFSET, 32);
    assert_eq!(PIC_2_OFFSET, 40);
    assert_eq!(InterruptIndex::Timer.as_u8(), 32);
    assert_eq!(InterruptIndex::Keyboard.as_u8(), 33);
    assert_eq!(InterruptIndex::Mouse.as_u8(), 34);
}

#[test]
fn keyboard_irq_decodes_a_letter_into_the_mailbox() {
    let mut kb = new_keyboard();
    let mut mb = Mailbox::new();
    // scancode set 1 make code for the H key
    let eoi = keyboard_irq(&mut kb, &mut mb, 0x23);
    assert_eq!(eoi, 33);
    assert_eq!(mb.take(), Some('h'));
}

#[test]
fn keyboard_irq_applies_shift() {
    let mut kb = new_keyboard();
    let mut mb = Mailbox::new();
    // left shift down, then the H key
    keyboard_irq(&mut kb, &mut mb, 0x2A);
    keyboard_irq(&mut kb, &mut mb, 0x23);
    assert_eq!(mb.take(), Some('H'));
}

#[test]
fn keyboard_irq_overwrites_an_unread_key() {
    let mut kb = new_keyboard();
    let mut mb = Mailbox::new();
    // the H key, then the I key, with no take in between
    keyboard_irq(&mut kb, &mut mb, 0x23);
    keyboard_irq(&mut kb, &mut mb, 0x17);
    assert_eq!(mb.take(), Some('i'));
    assert_eq!(mb.take(), None);
}

#[test]
fn key_release_stores_nothing() {
    let mut kb = new_keyboard();
    let mut mb = Mailbox::new();
    // break code of the H key (make code with the high bit set)
    let eoi = keyboard_irq(&mut kb, &mut mb, 0xA3);
    assert_eq!(eoi, 33);
    assert_eq!(mb.take(), None);
}

#[test]
fn store_decoded_only_stores_characters() {
    let mut mb = Mailbox::new();
    store_decoded(&mut mb, None);
    assert_eq!(mb.take(), None);
    store_decoded(&mut mb, Some(KeyPress::Raw));
    assert_eq!(mb.take(), None);
    store_decoded(&mut mb, Some(KeyPress::Character('q')));
    assert_eq!(mb.take(), Some('q'));
}

#[test]
fn timer_irq_only_acknowledges() {
    assert_eq!(timer_irq(), 32);
}

#[test]
fn mouse_irq_writes_stub_glyph_and_acknowledges() {
    let mut w = Writer::new();
    let eoi = mouse_irq(&mut w);
    assert_eq!(eoi, 34);
    assert_eq!(w.read_at(24, 0).ascii_character, b'k');
}

#[test]
fn init_idt_registers_the_fixed_handlers() {
    let t = init_idt(1);
    assert!(t.loaded());
    assert_eq!(t.handler_for(3), Some(HandlerKind::Breakpoint));
    assert_eq!(t.handler_for(8), Some(HandlerKind::DoubleFault));
    assert_eq!(t.handler_for(14), Some(HandlerKind::PageFault));
    assert_eq!(t.handler_for(32), Some(HandlerKind::Timer));
    assert_eq!(t.handler_for(33), Some(HandlerKind::Keyboard));
    assert_eq!(t.handler_for(34), Some(HandlerKind::Mouse));
    assert_eq!(t.handler_for(0), None);
    assert_eq!(t.handler_for(255), None);
}

#[test]
fn table_loading_is_one_way_and_needs_the_fault_stack() {
    let mut t = DispatchTable::new();
    assert!(!t.loaded());
    t.set_handler(3, HandlerKind::Breakpoint);
    t.set_double_fault_handler(7);
    t.load();
    assert!(t.loaded());
    assert_eq!(t.handler_for(8), Some(HandlerKind::DoubleFault));
}

#[test]
fn dispositions_match_the_error_design() {
    assert_eq!(handler_disposition(HandlerKind::Breakpoint), Disposition::Resume);
    assert_eq!(handler_disposition(HandlerKind::DoubleFault), Disposition::Halt);
    assert_eq!(handler_disposition(HandlerKind::PageFault), Disposition::Halt);
    assert_eq!(handler_disposition(HandlerKind::Timer), Disposition::Resume);
    assert_eq!(handler_disposition(HandlerKind::Keyboard), Disposition::Resume);
    assert_eq!(handler_disposition(HandlerKind::Mouse), Disposition::Resume);
}

#[test]
fn typed_scancodes_flow_to_a_console_read() {
    // the keyboard interrupt path and the console read path, end to end:
    // type "h", read it back through the mailbox
    let mut kb = new_keyboard();
    let mut mb = Mailbox::new();
    keyboard_irq(&mut kb, &mut mb, 0x23);
    let input = match mb.take() {
        Some(c) => vec![c],
        None => vec![],
    };
    assert_eq!(input, vec!['h']);
}
