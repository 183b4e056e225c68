//! A fixed-capacity string for an environment without a heap-backed
//! standard string: a bounded byte buffer whose content is always a valid
//! UTF-8 encoding, with append and a remove-last-character operation that
//! removes a whole encoded character, not just one byte.
use vstd::prelude::*;
use vstd::utf8::*;

verus! {

broadcast use {
    vstd::utf8::encode_utf8_valid_utf8,
    vstd::utf8::encode_utf8_decode_utf8,
    vstd::utf8::decode_utf8_encode_utf8,
    vstd::utf8::char_is_scalar,
    vstd::utf8::char_u32_cast,
};

/// Capacity of the byte buffer backing a bounded string.
pub const STRING_CAPACITY: usize = 256;

/// The number of bytes the UTF-8 encoding of a character sequence takes.
pub open spec fn encoded_len(s: Seq<char>) -> int {
    encode_utf8(s).len() as int
}

/// Whether one more character still fits into the byte buffer behind a
/// string currently holding `s`.
pub open spec fn fits(s: Seq<char>, c: char) -> bool {
    encoded_len(s) + encode_scalar(c as u32).len() <= 256
}

/// Effect of a push on the character sequence: the character is appended
/// when its encoding still fits, and silently dropped otherwise.
pub open spec fn spec_push_char(s: Seq<char>, c: char) -> Seq<char> {
    if fits(s, c) {
        s.push(c)
    } else {
        s
    }
}

/// Effect of pushing a whole character sequence, one character at a time.
pub open spec fn spec_push_chars(s: Seq<char>, cs: Seq<char>) -> Seq<char>
    decreases cs.len(),
{
    if cs.len() == 0 {
        s
    } else {
        spec_push_chars(spec_push_char(s, cs[0]), cs.drop_first())
    }
}

/// Effect of a pop on the character sequence: the last character goes;
/// a pop on an empty string is a no-op.
pub open spec fn spec_pop_char(s: Seq<char>) -> Seq<char> {
    if s.len() > 0 {
        s.drop_last()
    } else {
        s
    }
}

/// Encoding one more character appends its scalar's bytes.
pub proof fn lemma_encode_snoc(s: Seq<char>, c: char)
    ensures
        encode_utf8(s.push(c)) == encode_utf8(s) + encode_scalar(c as u32),
    decreases s.len(),
{
    if s.len() == 0 {
        assert(s.push(c)[0] == c);
        assert(s.push(c).drop_first() =~= Seq::<char>::empty());
        assert(encode_utf8(Seq::<char>::empty()) =~= Seq::<u8>::empty());
        assert(encode_utf8(s.push(c)) == encode_scalar(c as u32) + encode_utf8(
            s.push(c).drop_first(),
        ));
        assert(encode_utf8(s.push(c)) =~= encode_scalar(c as u32));
        assert(encode_utf8(s) + encode_scalar(c as u32) =~= encode_scalar(c as u32));
    } else {
        assert(s.push(c).drop_first() =~= s.drop_first().push(c));
        assert(s.push(c)[0] == s[0]);
        lemma_encode_snoc(s.drop_first(), c);
        assert(encode_utf8(s.push(c)) =~= encode_utf8(s) + encode_scalar(c as u32));
    }
}

/// Pushing a character sequence whose encoding fits entirely appends it
/// unchanged: no character is dropped.
pub proof fn lemma_push_chars_all_fit(s: Seq<char>, cs: Seq<char>)
    requires
        encoded_len(s) + encoded_len(cs) <= 256,
    ensures
        spec_push_chars(s, cs) == s + cs,
    decreases cs.len(),
{
    if cs.len() == 0 {
        assert(s + cs =~= s);
    } else {
        let c = cs[0];
        assert(cs =~= Seq::<char>::empty().push(c) + cs.drop_first());
        assert(encode_utf8(cs) == encode_scalar(c as u32) + encode_utf8(cs.drop_first()));
        assert(fits(s, c));
        lemma_encode_snoc(s, c);
        lemma_push_chars_all_fit(s.push(c), cs.drop_first());
        assert(s.push(c) + cs.drop_first() =~= s + cs);
    }
}

/// A nonempty valid byte buffer decodes to at least one character.
proof fn lemma_decode_len_positive(bytes: Seq<u8>)
    requires
        valid_utf8(bytes),
        bytes.len() > 0,
    ensures
        decode_utf8(bytes).len() > 0,
{
    assert(decode_utf8(bytes) == seq![decode_first_scalar(bytes) as char] + decode_utf8(
        pop_first_scalar(bytes),
    ));
}

/// Relies on core::char::from_u32: it returns the character with the given
/// code when the value is a Unicode scalar (at most 0x10FFFF and not a
/// surrogate), and nothing otherwise.
pub assume_specification[ core::char::from_u32 ](i: u32) -> (r: Option<char>)
    ensures
        r is Some <==> is_scalar(i),
        r matches Some(c) ==> c as u32 == i,
;

/// The character with the given Unicode scalar value.
fn char_from_scalar(cp: u32) -> (c: char)
    requires
        is_scalar(cp),
    ensures
        c as u32 == cp,
{
    match core::char::from_u32(cp) {
        Some(c) => c,
        None => {
            proof {
                assert(false);
            }
            ' '
        },
    }
}

/// Relies on core::str::from_utf8: a byte slice that is a valid UTF-8
/// encoding converts, without error, to the string slice holding exactly
/// those bytes, so its characters are the decoding of the bytes.
#[verifier::external_body]
fn bytes_as_str(v: &[u8]) -> (r: &str)
    requires
        valid_utf8(v@),
    ensures
        r@ == decode_utf8(v@),
{
    core::str::from_utf8(v).unwrap_or("")
}

/// The UTF-8 encoding of one character, computed exactly as the encoding
/// specification lays the bits out.
pub(crate) fn encode_char(c: char) -> (v: Vec<u8>)
    ensures
        v@ == encode_scalar(c as u32),
        1 <= v@.len() <= 4,
{
    let u = c as u32;
    let mut v: Vec<u8> = Vec::new();
    if u < 0x80 {
        v.push((u & 0x7F) as u8);
        proof {
            assert(v@ =~= encode_scalar(c as u32));
        }
    } else if u < 0x800 {
        v.push(0xC0 | ((u >> 6u32) & 0x1F) as u8);
        v.push(0x80 | (u & 0x3F) as u8);
        proof {
            assert(v@ =~= encode_scalar(c as u32));
        }
    } else if u < 0x10000 {
        v.push(0xE0 | ((u >> 12u32) & 0x0F) as u8);
        v.push(0x80 | ((u >> 6u32) & 0x3F) as u8);
        v.push(0x80 | (u & 0x3F) as u8);
        proof {
            assert(has_width_3_encoding(u));
            assert(v@ =~= encode_scalar(c as u32));
        }
    } else {
        v.push(0xF0 | ((u >> 18u32) & 0x7) as u8);
        v.push(0x80 | ((u >> 12u32) & 0x3F) as u8);
        v.push(0x80 | ((u >> 6u32) & 0x3F) as u8);
        v.push(0x80 | (u & 0x3F) as u8);
        proof {
            assert(has_width_4_encoding(u));
            assert(v@ =~= encode_scalar(c as u32));
        }
    }
    v
}

/// Decodes the first character of the valid UTF-8 tail of a byte slice,
/// reading the bits exactly as the decoding specification does. Returns
/// the character and the length of its encoding.
fn decode_first(bs: &[u8], i: usize) -> (r: (char, usize))
    requires
        i < bs@.len(),
        valid_utf8(bs@.subrange(i as int, bs@.len() as int)),
    ensures
        r.1 == length_of_first_scalar(bs@.subrange(i as int, bs@.len() as int)),
        1 <= r.1 <= 4,
        i + r.1 <= bs@.len(),
        r.0 as u32 == decode_first_scalar(bs@.subrange(i as int, bs@.len() as int)),
        r.0 == decode_utf8(bs@.subrange(i as int, bs@.len() as int))[0],
{
    let ghost suf = bs@.subrange(i as int, bs@.len() as int);
    proof {
        assert(valid_first_scalar(suf));
        assert(suf[0] == bs@[i as int]);
        lemma_decode_len_positive(suf);
    }
    let b0 = bs[i];
    let cp: u32;
    let l: usize;
    if b0 < 0x80 {
        cp = (b0 & 0x7F) as u32;
        l = 1;
        proof {
            assert(is_leading_byte_width_1(b0));
            assert(cp == codepoint_width_1(b0));
            assert(cp <= 0x7F) by (bit_vector)
                requires
                    cp == (b0 & 0x7F) as u32,
            ;
        }
    } else if b0 < 0xE0 {
        proof {
            assert(is_leading_byte_width_2(suf[0]));
            assert(suf.len() >= 2);
            assert(suf[1] == bs@[i as int + 1]);
        }
        let b1 = bs[i + 1];
        cp = (((b1 & 0x3F) as u32)) | (((b0 & 0x1F) as u32) << 6u32);
        l = 2;
        proof {
            assert(cp == codepoint_width_2(b0, b1)) by (bit_vector)
                requires
                    cp == (((b1 & 0x3F) as u32)) | (((b0 & 0x1F) as u32) << 6u32),
            ;
            assert(cp <= 0x7FF) by (bit_vector)
                requires
                    cp == (((b1 & 0x3F) as u32)) | (((b0 & 0x1F) as u32) << 6u32),
            ;
            assert(not_overlong_encoding(decode_first_codepoint(suf), 2));
        }
    } else if b0 < 0xF0 {
        proof {
            assert(is_leading_byte_width_3(suf[0]));
            assert(suf.len() >= 3);
            assert(suf[1] == bs@[i as int + 1]);
            assert(suf[2] == bs@[i as int + 2]);
        }
        let b1 = bs[i + 1];
        let b2 = bs[i + 2];
        cp = ((b2 & 0x3F) as u32) | (((b1 & 0x3F) as u32) << 6u32) | (((b0 & 0x0F) as u32)
            << 12u32);
        l = 3;
        proof {
            assert(cp == codepoint_width_3(b0, b1, b2)) by (bit_vector)
                requires
                    cp == ((b2 & 0x3F) as u32) | (((b1 & 0x3F) as u32) << 6u32) | (((b0
                        & 0x0F) as u32) << 12u32),
            ;
            assert(cp <= 0xFFFF) by (bit_vector)
                requires
                    cp == ((b2 & 0x3F) as u32) | (((b1 & 0x3F) as u32) << 6u32) | (((b0
                        & 0x0F) as u32) << 12u32),
            ;
            assert(not_overlong_encoding(decode_first_codepoint(suf), 3));
            assert(not_surrogate(decode_first_codepoint(suf)));
        }
    } else {
        proof {
            assert(is_leading_byte_width_4(suf[0]));
            assert(suf.len() >= 4);
            assert(suf[1] == bs@[i as int + 1]);
            assert(suf[2] == bs@[i as int + 2]);
            assert(suf[3] == bs@[i as int + 3]);
        }
        let b1 = bs[i + 1];
        let b2 = bs[i + 2];
        let b3 = bs[i + 3];
        cp = ((b3 & 0x3F) as u32) | (((b2 & 0x3F) as u32) << 6u32) | (((b1 & 0x3F) as u32)
            << 12u32) | (((b0 & 0x07) as u32) << 18u32);
        l = 4;
        proof {
            assert(cp == codepoint_width_4(b0, b1, b2, b3)) by (bit_vector)
                requires
                    cp == ((b3 & 0x3F) as u32) | (((b2 & 0x3F) as u32) << 6u32) | (((b1
                        & 0x3F) as u32) << 12u32) | (((b0 & 0x07) as u32) << 18u32),
            ;
            assert(not_overlong_encoding(decode_first_codepoint(suf), 4));
            assert(not_surrogate(decode_first_codepoint(suf)));
        }
    }
    proof {
        assert(cp == decode_first_scalar(suf));
        assert(is_scalar(cp));
    }
    let c = char_from_scalar(cp);
    proof {
        assert(decode_utf8(suf)[0] == decode_first_scalar(suf) as char);
    }
    (c, l)
}

/// A fixed-capacity, append-mostly string: a byte buffer of at most
/// `STRING_CAPACITY` bytes that always holds a valid UTF-8 encoding.
/// Its mathematical value is the character sequence encoded in it.
pub struct String {
    bytes: Vec<u8>,
}

impl View for String {
    type V = Seq<char>;

    closed spec fn view(&self) -> Seq<char> {
        decode_utf8(self.bytes@)
    }
}

impl String {
    /// The buffer holds a valid UTF-8 encoding and stays within capacity.
    #[verifier::type_invariant]
    spec fn wf(self) -> bool {
        &&& valid_utf8(self.bytes@)
        &&& self.bytes@.len() <= 256
    }

    /// The bytes of the buffer are exactly the encoding of the value.
    proof fn lemma_bytes_are_encoding(self)
        requires
            self.wf(),
        ensures
            self.bytes@ == encode_utf8(self@),
    {
    }

    /// Creates a new empty string.
    pub fn new() -> (s: String)
        ensures
            s@ == Seq::<char>::empty(),
    {
        let s = String { bytes: Vec::new() };
        proof {
            assert(s@ =~= Seq::<char>::empty());
        }
        s
    }

    /// Creates a string from a string slice, pushing its characters in
    /// order; characters past the capacity are dropped.
    pub fn from_str(s: &str) -> (r: String)
        ensures
            r@ == spec_push_chars(Seq::<char>::empty(), s@),
    {
        let mut string = String::new();
        string.push_str(s);
        string
    }

    /// The length of the string: the number of bytes of its encoding.
    pub fn len(&self) -> (n: usize)
        ensures
            n == encoded_len(self@),
            n <= STRING_CAPACITY,
    {
        proof {
            use_type_invariant(self);
            self.lemma_bytes_are_encoding();
        }
        self.bytes.len()
    }

    /// Whether the string holds no characters.
    pub fn is_empty(&self) -> (b: bool)
        ensures
            b == (self@.len() == 0),
    {
        proof {
            use_type_invariant(self);
            self.lemma_bytes_are_encoding();
            if self.bytes@.len() == 0 {
                assert(self@ =~= Seq::<char>::empty());
            } else {
                lemma_decode_len_positive(self.bytes@);
            }
        }
        self.bytes.len() == 0
    }

    /// Empties the string.
    pub fn clear(&mut self)
        ensures
            final(self)@ == Seq::<char>::empty(),
    {
        self.bytes = Vec::new();
        proof {
            assert(self@ =~= Seq::<char>::empty());
        }
    }

    /// The content as a string slice.
    pub fn as_str(&self) -> (r: &str)
        ensures
            r@ == self@,
    {
        proof {
            use_type_invariant(self);
        }
        bytes_as_str(self.bytes.as_slice())
    }

    /// Pushes a character to the end of the string; a character whose
    /// encoding would not fit in the remaining capacity is dropped.
    pub fn push(&mut self, ch: char)
        ensures
            final(self)@ == spec_push_char(old(self)@, ch),
    {
        proof {
            use_type_invariant(&*self);
            old(self).lemma_bytes_are_encoding();
        }
        let enc = encode_char(ch);
        let char_len = enc.len();
        if self.bytes.len() + char_len <= STRING_CAPACITY {
            let mut bytes: Vec<u8> = Vec::new();
            core::mem::swap(&mut bytes, &mut self.bytes);
            let ghost bytes0 = bytes@;
            let mut j: usize = 0;
            while j < char_len
                invariant
                    j <= char_len,
                    char_len == enc@.len(),
                    bytes@ == bytes0 + enc@.take(j as int),
                decreases char_len - j,
            {
                let b = enc[j];
                bytes.push(b);
                proof {
                    assert(bytes0 + enc@.take(j as int + 1) =~= (bytes0 + enc@.take(j as int)).push(
                        b,
                    ));
                }
                j = j + 1;
            }
            proof {
                assert(enc@.take(char_len as int) =~= enc@);
                lemma_encode_snoc(old(self)@, ch);
                assert(bytes@ =~= encode_utf8(old(self)@.push(ch)));
            }
            self.bytes = bytes;
        }
    }

    /// Appends a string slice, pushing its characters in order; each
    /// character that no longer fits is dropped on its own.
    pub fn push_str(&mut self, s: &str)
        ensures
            final(self)@ == spec_push_chars(old(self)@, s@),
    {
        let bs = s.as_bytes();
        let n = bs.len();
        proof {
            assert(bs@ == encode_utf8(s@));
            assert(bs@.subrange(0, n as int) =~= bs@);
        }
        let mut i: usize = 0;
        while i < n
            invariant
                i <= n,
                n == bs@.len(),
                bs@ == encode_utf8(s@),
                valid_utf8(bs@.subrange(i as int, n as int)),
                spec_push_chars(old(self)@, decode_utf8(bs@)) == spec_push_chars(
                    self@,
                    decode_utf8(bs@.subrange(i as int, n as int)),
                ),
            decreases n - i,
        {
            let ghost suf = bs@.subrange(i as int, n as int);
            let (c, l) = decode_first(bs, i);
            proof {
                let rest = bs@.subrange(i as int + l, n as int);
                assert(pop_first_scalar(suf) =~= rest);
                assert(valid_utf8(rest));
                assert(decode_utf8(suf) == seq![c] + decode_utf8(rest));
                assert(decode_utf8(suf)[0] == c);
                assert(decode_utf8(suf).drop_first() =~= decode_utf8(rest));
                assert(spec_push_chars(self@, decode_utf8(suf)) == spec_push_chars(
                    spec_push_char(self@, c),
                    decode_utf8(rest),
                ));
            }
            self.push(c);
            i = i + l;
        }
        proof {
            assert(bs@.subrange(n as int, n as int) =~= Seq::<u8>::empty());
            assert(decode_utf8(Seq::<u8>::empty()) =~= Seq::<char>::empty());
        }
    }

    /// Removes and returns the last character, taking all the bytes of its
    /// encoding with it; on an empty string it does nothing.
    pub fn pop(&mut self) -> (r: Option<char>)
        ensures
            final(self)@ == spec_pop_char(old(self)@),
            r == if old(self)@.len() == 0 {
                None::<char>
            } else {
                Some(old(self)@.last())
            },
    {
        proof {
            use_type_invariant(&*self);
        }
        let n = self.bytes.len();
        if n == 0 {
            proof {
                assert(self@ =~= Seq::<char>::empty());
            }
            return None;
        }
        let ghost bytes0 = self.bytes@;
        proof {
            lemma_decode_len_positive(bytes0);
        }
        // Find the first byte of the last character: walk left over the
        // continuation bytes (of the form 10xxxxxx) to the leading byte.
        let mut cs: usize = n;
        while cs > 0 && (self.bytes[cs - 1] & 0xC0) == 0x80
            invariant
                cs <= n,
                n == self.bytes@.len(),
                self.bytes@ == bytes0,
                valid_utf8(bytes0),
                forall|j: int| cs <= j < n ==> is_continuation_byte(bytes0[j]),
            decreases cs,
        {
            proof {
                utf8_byte_ranges_bitwise(bytes0[cs - 1]);
            }
            cs = cs - 1;
        }
        proof {
            is_char_boundary_iff_not_is_continuation_byte(bytes0, 0);
            assert(!is_continuation_byte(bytes0[0]));
            assert(cs > 0);
            utf8_byte_ranges_bitwise(bytes0[cs - 1]);
            assert(!is_continuation_byte(bytes0[cs - 1]));
        }
        let char_start = cs - 1;
        proof {
            if char_start > 0 {
                is_char_boundary_iff_not_is_continuation_byte(bytes0, char_start as int);
            }
            assert(is_char_boundary(bytes0, char_start as int));
            valid_utf8_split(bytes0, char_start as int);
        }
        let ghost suf = bytes0.subrange(char_start as int, n as int);
        let (c, l) = decode_first(self.bytes.as_slice(), char_start);
        proof {
            if l < n - char_start {
                assert(is_char_boundary(suf, l as int)) by {
                    reveal_with_fuel(is_char_boundary, 2);
                }
                is_char_boundary_iff_not_is_continuation_byte(suf, l as int);
                assert(!is_continuation_byte(suf[l as int]));
                assert(suf[l as int] == bytes0[char_start + l]);
                assert(false);
            }
            assert(l == n - char_start);
            assert(pop_first_scalar(suf) =~= Seq::<u8>::empty());
            assert(decode_utf8(Seq::<u8>::empty()) =~= Seq::<char>::empty());
            assert(decode_utf8(suf) =~= seq![c]);
            decode_utf8_split(bytes0, char_start as int);
            assert(decode_utf8(bytes0) =~= decode_utf8(bytes0.subrange(0, char_start as int))
                + seq![c]);
        }
        let mut bytes: Vec<u8> = Vec::new();
        core::mem::swap(&mut bytes, &mut self.bytes);
        bytes.truncate(char_start);
        proof {
            assert(bytes@ =~= bytes0.subrange(0, char_start as int));
        }
        self.bytes = bytes;
        proof {
            assert(old(self)@ == decode_utf8(bytes0));
            assert(self@ =~= old(self)@.drop_last());
            assert(old(self)@.last() == c);
        }
        Some(c)
    }
}

impl PartialEq for String {
    /// Two strings are equal when they hold the same characters.
    fn eq(&self, other: &Self) -> (r: bool) {
        proof {
            use_type_invariant(self);
            use_type_invariant(other);
            self.lemma_bytes_are_encoding();
            other.lemma_bytes_are_encoding();
        }
        let r = self.bytes == other.bytes;
        proof {
            if self@ == other@ {
                assert(self.bytes@ =~= other.bytes@);
            }
            if self.bytes@ =~= other.bytes@ {
                assert(self@ == other@);
            }
        }
        r
    }
}

impl Eq for String {

}

impl vstd::std_specs::cmp::PartialEqSpecImpl for String {
    open spec fn obeys_eq_spec() -> bool {
        true
    }

    open spec fn eq_spec(&self, other: &Self) -> bool {
        self@ == other@
    }
}

impl Clone for String {
    /// The copy holds the same characters.
    fn clone(&self) -> (r: Self) {
        proof {
            use_type_invariant(self);
        }
        let mut bytes: Vec<u8> = Vec::new();
        let n = self.bytes.len();
        let mut i: usize = 0;
        while i < n
            invariant
                i <= n,
                n == self.bytes@.len(),
                bytes@ == self.bytes@.take(i as int),
            decreases n - i,
        {
            let b = self.bytes[i];
            bytes.push(b);
            proof {
                assert(self.bytes@.take(i as int + 1) =~= self.bytes@.take(i as int).push(b));
            }
            i = i + 1;
        }
        proof {
            assert(bytes@ =~= self.bytes@);
        }
        String { bytes }
    }
}

impl Default for String {
    /// The default string is empty.
    fn default() -> (s: Self)
        ensures
            s@ == Seq::<char>::empty(),
    {
        String::new()
    }
}

/// One operation on a bounded string: a push of a character or a pop.
pub enum StringOp {
    Push(char),
    Pop,
}

/// The character sequence a string holds after a sequence of pushes and
/// pops, applied in order.
pub open spec fn apply_ops(s: Seq<char>, ops: Seq<StringOp>) -> Seq<char>
    decreases ops.len(),
{
    if ops.len() == 0 {
        s
    } else {
        let t = match ops[0] {
            StringOp::Push(c) => spec_push_char(s, c),
            StringOp::Pop => spec_pop_char(s),
        };
        apply_ops(t, ops.drop_first())
    }
}

/// The number of pushes in a sequence of operations that take effect: a
/// push is dropped only when its character no longer fits.
pub open spec fn effective_pushes(s: Seq<char>, ops: Seq<StringOp>) -> int
    decreases ops.len(),
{
    if ops.len() == 0 {
        0
    } else {
        match ops[0] {
            StringOp::Push(c) => (if fits(s, c) {
                1int
            } else {
                0int
            }) + effective_pushes(spec_push_char(s, c), ops.drop_first()),
            StringOp::Pop => effective_pushes(spec_pop_char(s), ops.drop_first()),
        }
    }
}

/// The number of pops in a sequence of operations that take effect: a pop
/// on an empty string is a no-op.
pub open spec fn effective_pops(s: Seq<char>, ops: Seq<StringOp>) -> int
    decreases ops.len(),
{
    if ops.len() == 0 {
        0
    } else {
        match ops[0] {
            StringOp::Push(c) => effective_pops(spec_push_char(s, c), ops.drop_first()),
            StringOp::Pop => (if s.len() > 0 {
                1int
            } else {
                0int
            }) + effective_pops(spec_pop_char(s), ops.drop_first()),
        }
    }
}

/// Bookkeeping law for any sequence of pushes and pops: the number of
/// characters held afterwards is the count before, plus the pushes that
/// took effect, minus the pops that took effect.
pub proof fn lemma_ops_length(s: Seq<char>, ops: Seq<StringOp>)
    ensures
        apply_ops(s, ops).len() == s.len() + effective_pushes(s, ops) - effective_pops(s, ops),
    decreases ops.len(),
{
    if ops.len() > 0 {
        match ops[0] {
            StringOp::Push(c) => {
                lemma_ops_length(spec_push_char(s, c), ops.drop_first());
            },
            StringOp::Pop => {
                lemma_ops_length(spec_pop_char(s), ops.drop_first());
            },
        }
    }
}

/// A push that fits, followed by a pop, gives back the pushed character
/// and restores the string.
pub proof fn lemma_push_then_pop(s: Seq<char>, c: char)
    requires
        fits(s, c),
    ensures
        spec_pop_char(spec_push_char(s, c)) == s,
        spec_push_char(s, c).last() == c,
{
    assert(s.push(c).drop_last() =~= s);
}

} // verus!
