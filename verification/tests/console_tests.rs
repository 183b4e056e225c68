use mold_console::console::clear_buffer;
use mold_console::console::get_char;
use mold_console::console::get_from_input_with_delimiters;
use mold_console::console::get_line;
use mold_console::console::get_word;
use mold_console::console::Mailbox;
use mold_console::vga_buffer::Writer;

#[test]
fn mailbox_starts_empty() {
    let mut mb = Mailbox::new();
    assert_eq!(mb.take(), None);
}

#[test]
fn mailbox_store_then_take() {
    let mut mb = Mailbox::new();
    mb.store('x');
    assert_eq!(mb.take(), Some('x'));
    assert_eq!(mb.take(), None);
}

#[test]
fn mailbox_overwrite_wins() {
    // store(a) then store(b): a take yields b, never a
    let mut mb = Mailbox::new();
    mb.store('a');
    mb.store('b');
    assert_eq!(mb.take(), Some('b'));
    assert_eq!(mb.take(), None);
}

#[test]
fn mailbox_null_means_empty() {
    let mut mb = Mailbox::new();
    mb.store('a');
    mb.store('\0');
    assert_eq!(mb.take(), None);
}

#[test]
fn clear_buffer_empties_the_slot() {
    let mut mb = Mailbox::new();
    mb.store('q');
    clear_buffer(&mut mb);
    assert_eq!(mb.take(), None);
}

#[test]
fn get_word_reads_until_space() {
    // "h", "i", " " delivered as three mailbox events: the word is "hi"
    // and the trailing space is consumed
    let mut mb = Mailbox::new();
    let mut w = Writer::new();
    let input = vec!['h', 'i', ' '];
    let word = get_word(&mut mb, &mut w, &input).expect("delimiter was delivered");
    assert_eq!(word.as_str(), "hi");
    assert_eq!(mb.take(), None);
}

#[test]
fn get_line_honors_backspace() {
    // "h", "i", backspace, "!", newline: the line is "h!"
    let mut mb = Mailbox::new();
    let mut w = Writer::new();
    let input = vec!['h', 'i', '\u{8}', '!', '\n'];
    let line = get_line(&mut mb, &mut w, &input).expect("newline was delivered");
    assert_eq!(line.as_str(), "h!");
}

#[test]
fn get_line_keeps_spaces() {
    let mut mb = Mailbox::new();
    let mut w = Writer::new();
    let input = vec!['a', ' ', 'b', '\n'];
    let line = get_line(&mut mb, &mut w, &input).expect("newline was delivered");
    assert_eq!(line.as_str(), "a b");
}

#[test]
fn get_word_without_delimiter_runs_out() {
    let mut mb = Mailbox::new();
    let mut w = Writer::new();
    let input = vec!['a', 'b', 'c'];
    assert!(get_word(&mut mb, &mut w, &input).is_none());
}

#[test]
fn get_word_skips_null_events() {
    let mut mb = Mailbox::new();
    let mut w = Writer::new();
    let input = vec!['\0', 'o', '\0', 'k', ' '];
    let word = get_word(&mut mb, &mut w, &input).expect("delimiter was delivered");
    assert_eq!(word.as_str(), "ok");
}

#[test]
fn read_echoes_accepted_characters() {
    let mut mb = Mailbox::new();
    let mut w = Writer::new();
    let input = vec!['a', 'b', '\n'];
    get_line(&mut mb, &mut w, &input).expect("newline was delivered");
    assert_eq!(w.read_at(24, 0).ascii_character, b'a');
    assert_eq!(w.read_at(24, 1).ascii_character, b'b');
    // the newline delimiter itself is not echoed: no scroll happened
    assert_eq!(w.column(), 2);
}

#[test]
fn backspace_erases_echoed_glyph() {
    let mut mb = Mailbox::new();
    let mut w = Writer::new();
    let input = vec!['a', '\u{8}', 'b', '\n'];
    let line = get_line(&mut mb, &mut w, &input).expect("newline was delivered");
    assert_eq!(line.as_str(), "b");
    assert_eq!(w.read_at(24, 0).ascii_character, b'b');
    assert_eq!(w.read_at(24, 1).ascii_character, b' ');
    assert_eq!(w.column(), 1);
}

#[test]
fn backspace_on_empty_accumulator_is_ignored() {
    let mut mb = Mailbox::new();
    let mut w = Writer::new();
    let input = vec!['\u{8}', 'z', '\n'];
    let line = get_line(&mut mb, &mut w, &input).expect("newline was delivered");
    assert_eq!(line.as_str(), "z");
    assert_eq!(w.read_at(24, 0).ascii_character, b'z');
    assert_eq!(w.column(), 1);
}

#[test]
fn custom_delimiters_stop_the_read() {
    let mut mb = Mailbox::new();
    let mut w = Writer::new();
    let input = vec!['a', 'b', ';', 'c'];
    let delims = vec![';'];
    let got = get_from_input_with_delimiters(&mut mb, &mut w, &input, &delims)
        .expect("delimiter was delivered");
    assert_eq!(got.as_str(), "ab");
}

#[test]
fn get_char_returns_first_key() {
    let mut mb = Mailbox::new();
    let input = vec!['w', 'x'];
    assert_eq!(get_char(&mut mb, &input), Some('w'));
}

#[test]
fn get_char_skips_null_and_may_run_out() {
    let mut mb = Mailbox::new();
    let input = vec!['\0', '\0', 'y'];
    assert_eq!(get_char(&mut mb, &input), Some('y'));
    let empty: Vec<char> = vec![];
    assert_eq!(get_char(&mut mb, &empty), None);
    let nulls = vec!['\0', '\0'];
    assert_eq!(get_char(&mut mb, &nulls), None);
}
