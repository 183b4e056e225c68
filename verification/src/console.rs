//! The character mailbox and the line-editing console reads. The mailbox
//! is a single-slot relay between the keyboard interrupt handler, which
//! stores the newest decoded character (overwriting an unread one), and
//! the polling read calls, which take characters out and assemble them
//! into characters, words and lines, honoring backspace edits.
use crate::string::encode_char;
use crate::string::fits;
use crate::string::spec_pop_char;
use crate::string::spec_push_char;
use crate::string::String;
use crate::string::STRING_CAPACITY;
use crate::vga_buffer::spec_write_byte;
use crate::vga_buffer::spec_write_string;
use crate::vga_buffer::ScreenState;
use crate::vga_buffer::Writer;
use vstd::prelude::*;
use vstd::utf8::encode_scalar;

verus! {

/// The single-slot character mailbox: an optional character cell with the
/// null character as the sentinel for "empty". At most one unread
/// character is retained; a store while the slot is full overwrites it.
pub struct Mailbox {
    slot: char,
}

impl View for Mailbox {
    type V = Option<char>;

    closed spec fn view(&self) -> Option<char> {
        if self.slot == '\0' {
            None
        } else {
            Some(self.slot)
        }
    }
}

/// Effect of a store on the slot: the new character replaces whatever was
/// there; storing the null sentinel leaves the slot empty.
pub open spec fn spec_store(m: Option<char>, c: char) -> Option<char> {
    if c == '\0' {
        None
    } else {
        Some(c)
    }
}

impl Mailbox {
    /// A new, empty mailbox.
    pub fn new() -> (m: Mailbox)
        ensures
            m@ is None,
    {
        Mailbox { slot: '\0' }
    }

    /// Stores a character, called from interrupt context: if the slot is
    /// occupied its content is overwritten, never queued, so the producer
    /// never blocks. The previous character, if unread, is lost.
    pub fn store(&mut self, ch: char)
        ensures
            final(self)@ == spec_store(old(self)@, ch),
    {
        self.slot = ch;
    }

    /// Takes the pending character out, leaving the slot empty; called
    /// from polling context.
    pub fn take(&mut self) -> (r: Option<char>)
        ensures
            r == old(self)@,
            final(self)@ is None,
    {
        let c = self.slot;
        self.slot = '\0';
        if c == '\0' {
            None
        } else {
            Some(c)
        }
    }
}

/// Empties the mailbox.
pub fn clear_buffer(mb: &mut Mailbox)
    ensures
        final(mb)@ is None,
{
    mb.store('\0');
}

/// Overwrite-wins: after two stores, a take yields the second character,
/// never the first.
pub proof fn lemma_store_overwrites(m: Option<char>, a: char, b: char)
    requires
        b != '\0',
    ensures
        spec_store(spec_store(m, a), b) == Some(b),
{
}

/// The result of feeding a sequence of delivered characters to a read
/// call accumulating into `acc`: null events are skipped, backspace
/// removes the last accumulated character, the first delimiter ends the
/// read (consumed, not included), and any other character is appended if
/// it fits. `None` means the input ran out before a delimiter came.
pub open spec fn spec_collect(acc: Seq<char>, input: Seq<char>, delims: Seq<char>) -> Option<
    Seq<char>,
>
    decreases input.len(),
{
    if input.len() == 0 {
        None
    } else {
        let c = input[0];
        if c == '\0' {
            spec_collect(acc, input.drop_first(), delims)
        } else if c == '\u{8}' {
            spec_collect(spec_pop_char(acc), input.drop_first(), delims)
        } else if delims.contains(c) {
            Some(acc)
        } else {
            spec_collect(spec_push_char(acc, c), input.drop_first(), delims)
        }
    }
}

/// What the same read call leaves on the screen: every accepted character
/// is echoed as it is consumed; an effective backspace erases the prior
/// glyph; neither the delimiter nor a dropped character is echoed.
pub open spec fn spec_echo(
    s: ScreenState,
    acc: Seq<char>,
    input: Seq<char>,
    delims: Seq<char>,
) -> ScreenState
    decreases input.len(),
{
    if input.len() == 0 {
        s
    } else {
        let c = input[0];
        if c == '\0' {
            spec_echo(s, acc, input.drop_first(), delims)
        } else if c == '\u{8}' {
            let t = if acc.len() > 0 {
                spec_write_byte(s, 8)
            } else {
                s
            };
            spec_echo(t, spec_pop_char(acc), input.drop_first(), delims)
        } else if delims.contains(c) {
            s
        } else {
            let t = if fits(acc, c) {
                spec_write_string(s, encode_scalar(c as u32))
            } else {
                s
            };
            spec_echo(t, spec_push_char(acc, c), input.drop_first(), delims)
        }
    }
}

/// Whether a character is among the delimiters.
fn contains_char(delimiters: &Vec<char>, c: char) -> (b: bool)
    ensures
        b == delimiters@.contains(c),
{
    let n = delimiters.len();
    let mut i: usize = 0;
    while i < n
        invariant
            i <= n,
            n == delimiters@.len(),
            forall|j: int| 0 <= j < i ==> delimiters@[j] != c,
        decreases n - i,
    {
        if delimiters[i] == c {
            return true;
        }
        i = i + 1;
    }
    false
}

/// Assembles one read from the mailbox: the characters of `input` are
/// delivered to the mailbox one by one and taken out in order, until one
/// of the delimiters arrives. Backspace removes the last accumulated
/// character; every accepted character is echoed to the writer. Returns
/// the accumulated string, or `None` when the input runs out first.
pub fn get_from_input_with_delimiters(
    mb: &mut Mailbox,
    w: &mut Writer,
    input: &Vec<char>,
    delimiters: &Vec<char>,
) -> (r: Option<String>)
    requires
        old(w)@.wf(),
    ensures
        final(w)@.wf(),
        final(w)@ == spec_echo(old(w)@, Seq::<char>::empty(), input@, delimiters@),
        r is Some <==> spec_collect(Seq::<char>::empty(), input@, delimiters@) is Some,
        r matches Some(b) ==> Some(b@) == spec_collect(
            Seq::<char>::empty(),
            input@,
            delimiters@,
        ),
        input@.len() == 0 ==> final(mb)@ == old(mb)@,
        input@.len() > 0 ==> final(mb)@ is None,
{
    let mut acc = String::new();
    let n = input.len();
    proof {
        assert(input@.skip(0) =~= input@);
    }
    let mut i: usize = 0;
    while i < n
        invariant
            i <= n,
            n == input@.len(),
            w@.wf(),
            spec_collect(Seq::<char>::empty(), input@, delimiters@) == spec_collect(
                acc@,
                input@.skip(i as int),
                delimiters@,
            ),
            spec_echo(old(w)@, Seq::<char>::empty(), input@, delimiters@) == spec_echo(
                w@,
                acc@,
                input@.skip(i as int),
                delimiters@,
            ),
            i == 0 ==> mb@ == old(mb)@,
            i > 0 ==> mb@ is None,
        decreases n - i,
    {
        let ghost rest = input@.skip(i as int);
        proof {
            assert(rest[0] == input@[i as int]);
            assert(rest.drop_first() =~= input@.skip(i as int + 1));
        }
        let delivered = input[i];
        mb.store(delivered);
        let taken = mb.take();
        match taken {
            None => {
                proof {
                    assert(delivered == '\0');
                }
            },
            Some(c) => {
                proof {
                    assert(c == delivered && c != '\0');
                }
                if c == '\u{8}' {
                    if !acc.is_empty() {
                        w.write_byte(0x08);
                    }
                    let _popped = acc.pop();
                } else if contains_char(delimiters, c) {
                    return Some(acc);
                } else {
                    let enc = encode_char(c);
                    if acc.len() + enc.len() <= STRING_CAPACITY {
                        w.write_string(enc.as_slice());
                    }
                    acc.push(c);
                }
            },
        }
        i = i + 1;
    }
    proof {
        assert(input@.skip(n as int) =~= Seq::<char>::empty());
    }
    None
}

/// The first character a blocking single-character read would return:
/// the first non-null character delivered, if any comes.
pub open spec fn spec_first_key(input: Seq<char>) -> Option<char>
    decreases input.len(),
{
    if input.len() == 0 {
        None
    } else if input[0] == '\0' {
        spec_first_key(input.drop_first())
    } else {
        Some(input[0])
    }
}

/// Retrieves a single word: characters up to the first space or newline.
/// The delimiter is consumed and not included.
pub fn get_word(mb: &mut Mailbox, w: &mut Writer, input: &Vec<char>) -> (r: Option<String>)
    requires
        old(w)@.wf(),
    ensures
        final(w)@.wf(),
        final(w)@ == spec_echo(old(w)@, Seq::<char>::empty(), input@, seq![' ', '\n']),
        r is Some <==> spec_collect(Seq::<char>::empty(), input@, seq![' ', '\n']) is Some,
        r matches Some(b) ==> Some(b@) == spec_collect(
            Seq::<char>::empty(),
            input@,
            seq![' ', '\n'],
        ),
{
    let delimiters: Vec<char> = vec![' ', '\n'];
    proof {
        assert(delimiters@ =~= seq![' ', '\n']);
    }
    get_from_input_with_delimiters(mb, w, input, &delimiters)
}

/// Retrieves an entire line: characters up to the first newline, so
/// spaces are retained. The newline is consumed and not included.
pub fn get_line(mb: &mut Mailbox, w: &mut Writer, input: &Vec<char>) -> (r: Option<String>)
    requires
        old(w)@.wf(),
    ensures
        final(w)@.wf(),
        final(w)@ == spec_echo(old(w)@, Seq::<char>::empty(), input@, seq!['\n']),
        r is Some <==> spec_collect(Seq::<char>::empty(), input@, seq!['\n']) is Some,
        r matches Some(b) ==> Some(b@) == spec_collect(Seq::<char>::empty(), input@, seq!['\n']),
{
    let delimiters: Vec<char> = vec!['\n'];
    proof {
        assert(delimiters@ =~= seq!['\n']);
    }
    get_from_input_with_delimiters(mb, w, input, &delimiters)
}

/// Retrieves a single character: the first one delivered, consuming it.
/// Nothing is echoed.
pub fn get_char(mb: &mut Mailbox, input: &Vec<char>) -> (r: Option<char>)
    ensures
        r == spec_first_key(input@),
        input@.len() == 0 ==> final(mb)@ == old(mb)@,
        input@.len() > 0 ==> final(mb)@ is None,
{
    let n = input.len();
    proof {
        assert(input@.skip(0) =~= input@);
    }
    let mut i: usize = 0;
    while i < n
        invariant
            i <= n,
            n == input@.len(),
            spec_first_key(input@) == spec_first_key(input@.skip(i as int)),
            i == 0 ==> mb@ == old(mb)@,
            i > 0 ==> mb@ is None,
        decreases n - i,
    {
        let ghost rest = input@.skip(i as int);
        proof {
            assert(rest[0] == input@[i as int]);
            assert(rest.drop_first() =~= input@.skip(i as int + 1));
        }
        let delivered = input[i];
        mb.store(delivered);
        let taken = mb.take();
        match taken {
            None => {
            },
            Some(c) => {
                return Some(c);
            },
        }
        i = i + 1;
    }
    proof {
        assert(input@.skip(n as int) =~= Seq::<char>::empty());
    }
    None
}

} // verus!
