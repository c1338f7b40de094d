//! A tool's output stream as lines of text.

use crate::text::{is_value, labelled, labelled_value};
use vstd::prelude::*;
use vstd::slice::slice_subrange;
use vstd::utf8::{
    char_u32_cast, decode_utf8, encode_scalar, encode_utf8, encode_utf8_decode_utf8,
    encode_utf8_valid_utf8, valid_utf8,
};

verus! {

/// The number of bytes before the first line feed of `bytes`; all of them where
/// it holds none.
pub open spec fn line_len(bytes: Seq<u8>) -> nat
    decreases bytes.len(),
{
    if bytes.len() == 0 || bytes[0] == 0x0A {
        0
    } else {
        1 + line_len(bytes.drop_first())
    }
}

/// `line` without the carriage return at its end, if it has one.
pub open spec fn chomp(line: Seq<u8>) -> Seq<u8> {
    if line.len() > 0 && line.last() == 0x0D {
        line.drop_last()
    } else {
        line
    }
}

/// The lines of `bytes`. A line ends with a line feed, or with a carriage
/// return and a line feed, and holds neither. The last line may end with the
/// stream instead, and then keeps a carriage return at its end. Nothing after
/// the last line feed is no line.
pub open spec fn lines(bytes: Seq<u8>) -> Seq<Seq<u8>>
    decreases bytes.len(),
{
    if bytes.len() == 0 {
        Seq::empty()
    } else {
        let n = line_len(bytes);
        if n < bytes.len() {
            seq![chomp(bytes.take(n as int))] + lines(bytes.skip(n as int + 1))
        } else {
            seq![bytes]
        }
    }
}

/// The text that `bytes` encode in UTF-8, if they encode any.
pub open spec fn text_of(bytes: Seq<u8>) -> Option<Seq<char>> {
    if valid_utf8(bytes) {
        Some(decode_utf8(bytes))
    } else {
        None
    }
}

/// The text of line `i`, if there is such a line and it is text.
pub open spec fn text_at(lines: Seq<Seq<u8>>, i: int) -> Option<Seq<char>> {
    if 0 <= i < lines.len() {
        text_of(lines[i])
    } else {
        None
    }
}

/// The value that line `i` carries under the template `prefix{}`.
pub open spec fn field_at(prefix: Seq<char>, lines: Seq<Seq<u8>>, i: int) -> Option<Seq<char>> {
    match text_at(lines, i) {
        Some(t) => labelled_value(prefix, t),
        None => None,
    }
}

/// Whether `text` can stand for a line: it holds no line feed and does not end
/// with a carriage return.
pub open spec fn is_line(text: Seq<char>) -> bool {
    !text.contains('\n') && (text.len() == 0 || text.last() != '\r')
}

/// The lines that follow the first one.
pub open spec fn after_first(lines: Seq<Seq<u8>>) -> Seq<Seq<u8>> {
    if lines.len() > 0 {
        lines.skip(1)
    } else {
        lines
    }
}

/// Line `i` of what follows the first line is line `i + 1`.
pub proof fn lemma_after_first(lines: Seq<Seq<u8>>, i: int)
    requires
        0 <= i,
    ensures
        text_at(after_first(lines), i) == text_at(lines, i + 1),
{
}

/// The lines that follow the first `k` ones.
pub open spec fn after(lines: Seq<Seq<u8>>, k: nat) -> Seq<Seq<u8>>
    decreases k,
{
    if k == 0 {
        lines
    } else {
        after_first(after(lines, (k - 1) as nat))
    }
}

/// Line `i` of what follows the first `k` lines is line `i + k`.
pub proof fn lemma_after(lines: Seq<Seq<u8>>, k: nat, i: int)
    requires
        0 <= i,
    ensures
        text_at(after(lines, k), i) == text_at(lines, i + k),
    decreases k,
{
    if k > 0 {
        lemma_after(lines, (k - 1) as nat, i + 1);
        lemma_after_first(after(lines, (k - 1) as nat), i);
    }
}

/// A first line that holds no line feed in its first `k` bytes is `k` bytes
/// longer than what is left of it after them.
proof fn lemma_line_len_split(bytes: Seq<u8>, k: int)
    requires
        0 <= k <= bytes.len(),
        forall|j: int| 0 <= j < k ==> bytes[j] != 0x0A,
    ensures
        line_len(bytes) == k + line_len(bytes.skip(k)),
    decreases k,
{
    if k == 0 {
        assert(bytes.skip(0) =~= bytes);
    } else {
        lemma_line_len_split(bytes.drop_first(), k - 1);
        assert(bytes.drop_first().skip(k - 1) =~= bytes.skip(k));
    }
}

/// A character below 128 is encoded as the one byte of its number; every byte
/// of the encoding of any other character is 128 or more.
proof fn lemma_encode_scalar_bytes(c: char)
    ensures
        encode_scalar(c as u32).len() > 0,
        (c as u32) < 0x80 ==> encode_scalar(c as u32) == seq![(c as u32) as u8],
        (c as u32) >= 0x80 ==> forall|i: int|
            0 <= i < encode_scalar(c as u32).len() ==> #[trigger] encode_scalar(c as u32)[i]
                >= 0x80,
{
    let v = c as u32;
    if v < 0x80 {
        assert((v & 0x7F) as u8 == v as u8) by (bit_vector)
            requires
                v < 0x80,
        ;
    } else {
        assert(0xC0u8 | (((v >> 6) & 0x1F) as u8) >= 0x80) by (bit_vector);
        assert(0xE0u8 | (((v >> 12) & 0x0F) as u8) >= 0x80) by (bit_vector);
        assert(0xF0u8 | (((v >> 18) & 0x7) as u8) >= 0x80) by (bit_vector);
        assert(0x80u8 | ((v & 0x3F) as u8) >= 0x80) by (bit_vector);
        assert(0x80u8 | (((v >> 6) & 0x3F) as u8) >= 0x80) by (bit_vector);
        assert(0x80u8 | (((v >> 12) & 0x3F) as u8) >= 0x80) by (bit_vector);
    }
}

/// The encoding of a text holds a byte below 128 only where the text holds
/// the character of that number.
proof fn lemma_encoding_holds_no(s: Seq<char>, b: u8)
    requires
        b < 0x80,
        forall|k: int| 0 <= k < s.len() ==> s[k] as u32 != b,
    ensures
        forall|i: int| 0 <= i < encode_utf8(s).len() ==> encode_utf8(s)[i] != b,
    decreases s.len(),
{
    if s.len() > 0 {
        lemma_encode_scalar_bytes(s[0]);
        lemma_encoding_holds_no(s.drop_first(), b);
        let head = encode_scalar(s[0] as u32);
        let tail = encode_utf8(s.drop_first());
        assert forall|i: int| 0 <= i < encode_utf8(s).len() implies encode_utf8(s)[i] != b by {
            if i < head.len() {
                assert(encode_utf8(s)[i] == head[i]);
            } else {
                assert(encode_utf8(s)[i] == tail[i - head.len()]);
            }
        }
    }
}

/// The encoding of a text ends with a byte below 128 only where the text ends
/// with the character of that number.
proof fn lemma_encoding_ends_not_with(s: Seq<char>, b: u8)
    requires
        b < 0x80,
        s.len() > 0,
        s.last() as u32 != b,
    ensures
        encode_utf8(s).len() > 0,
        encode_utf8(s).last() != b,
    decreases s.len(),
{
    lemma_encode_scalar_bytes(s[0]);
    let head = encode_scalar(s[0] as u32);
    let tail = encode_utf8(s.drop_first());
    if s.len() == 1 {
        assert(s.drop_first().len() == 0);
        assert(tail.len() == 0);
        assert(encode_utf8(s).last() == head.last());
    } else {
        assert(s.drop_first().last() == s.last());
        lemma_encoding_ends_not_with(s.drop_first(), b);
        assert(encode_utf8(s).last() == tail.last());
    }
}

/// The encoding of two texts in a row is the encoding of the first and then
/// that of the second.
pub proof fn lemma_encode_concat(a: Seq<char>, b: Seq<char>)
    ensures
        encode_utf8(a + b) == encode_utf8(a) + encode_utf8(b),
    decreases a.len(),
{
    if a.len() == 0 {
        assert(a + b =~= b);
        assert(encode_utf8(a) + encode_utf8(b) =~= encode_utf8(b));
    } else {
        lemma_encode_concat(a.drop_first(), b);
        assert((a + b).drop_first() =~= a.drop_first() + b);
        assert(encode_utf8(a + b) =~= encode_utf8(a) + encode_utf8(b));
    }
}

/// A line of text that is written out in UTF-8 and ended with a line feed is
/// the first line of the stream, and is read back as the same text. The lines
/// of what follows it are the lines that follow.
pub proof fn lemma_first_line(line: Seq<char>, rest: Seq<char>)
    requires
        is_line(line),
    ensures
        lines(encode_utf8(line + seq!['\n'] + rest)) == seq![encode_utf8(line)] + lines(
            encode_utf8(rest),
        ),
        text_of(encode_utf8(line)) == Some(line),
{
    let head = encode_utf8(line);
    let tail = encode_utf8(rest);
    let stream = encode_utf8(line + seq!['\n'] + rest);
    assert(stream == head + seq![0x0Au8] + tail) by {
        lemma_encode_concat(line + seq!['\n'], rest);
        lemma_encode_concat(line, seq!['\n']);
        lemma_encode_scalar_bytes('\n');
        let feed = seq!['\n'];
        assert(feed.drop_first() =~= Seq::<char>::empty());
        assert(encode_utf8(feed.drop_first()) =~= Seq::<u8>::empty());
        assert(feed[0] == '\n');
        assert(encode_utf8(feed) =~= seq![0x0Au8]);
    }
    assert forall|k: int| 0 <= k < line.len() implies line[k] as u32 != 0x0Au8 by {
        if line[k] as u32 == 0x0A {
            char_u32_cast(line[k], 0x0A);
            char_u32_cast('\n', 0x0A);
            assert(line.contains('\n'));
        }
    }
    lemma_encoding_holds_no(line, 0x0A);
    let n = head.len() as int;
    assert forall|j: int| 0 <= j < n implies stream[j] != 0x0A by {
        assert(stream[j] == head[j]);
    }
    lemma_line_len_split(stream, n);
    assert(stream.skip(n)[0] == 0x0A);
    assert(line_len(stream.skip(n)) == 0);
    assert(stream.take(n) =~= head);
    assert(stream.skip(n + 1) =~= tail);
    if line.len() > 0 {
        assert(line.last() as u32 != 0x0Du8) by {
            if line.last() as u32 == 0x0D {
                char_u32_cast(line.last(), 0x0D);
                char_u32_cast('\r', 0x0D);
            }
        }
        lemma_encoding_ends_not_with(line, 0x0D);
    }
    assert(chomp(head) == head);
    encode_utf8_valid_utf8(line);
    encode_utf8_decode_utf8(line);
}

/// A label that stays on one line, with a value behind it, can stand for a
/// line.
pub proof fn lemma_labelled_line(label: Seq<char>, x: Seq<char>)
    requires
        !label.contains('\n'),
        is_value(x),
    ensures
        is_line(label + x),
{
    let line = label + x;
    assert(line.last() == x.last());
    assert forall|i: int| 0 <= i < line.len() implies line[i] != '\n' by {
        if i < label.len() {
            assert(label.contains(label[i]));
        } else {
            assert(x.contains(x[i - label.len()]));
        }
    }
}

/// `std::str::from_utf8`: the text that `bytes` encode. It is there exactly
/// when `bytes` are well-formed UTF-8, and then holds the characters that they
/// encode, in order.
#[verifier::external_body]
pub(crate) fn decode(bytes: &[u8]) -> (r: Option<&str>)
    ensures
        match r {
            Some(s) => text_of(bytes@) == Some(s@),
            None => text_of(bytes@) is None,
        },
{
    match std::str::from_utf8(bytes) {
        Ok(s) => Some(s),
        Err(_) => None,
    }
}

/// Reads a stream line by line.
pub struct Lines<'a> {
    bytes: &'a [u8],
    pos: usize,
}

impl<'a> View for Lines<'a> {
    type V = Seq<Seq<u8>>;

    /// The lines not read yet.
    closed spec fn view(&self) -> Seq<Seq<u8>> {
        lines(self.bytes@.skip(self.pos as int))
    }
}

impl<'a> Lines<'a> {
    #[verifier::type_invariant]
    spec fn within(self) -> bool {
        self.pos <= self.bytes@.len()
    }

    /// A reader at the start of `bytes`.
    pub fn new(bytes: &'a [u8]) -> (r: Self)
        ensures
            r@ == lines(bytes@),
    {
        assert(bytes@.skip(0) =~= bytes@);
        Lines { bytes, pos: 0 }
    }

    /// Takes the next line off the stream, if one is left.
    pub fn next_line(&mut self) -> (r: Option<&'a [u8]>)
        ensures
            final(self)@ == after_first(old(self)@),
            match r {
                Some(line) => old(self)@.len() > 0 && line@ == old(self)@[0],
                None => old(self)@.len() == 0,
            },
    {
        proof {
            use_type_invariant(&*self);
        }
        let bytes: &'a [u8] = self.bytes;
        let start: usize = self.pos;
        let len: usize = bytes.len();
        let ghost left = bytes@.skip(start as int);
        if start >= len {
            return None;
        }
        let mut end: usize = start;
        while end < len && bytes[end] != 0x0A
            invariant
                start <= end <= len,
                len == bytes@.len(),
                forall|j: int| start <= j < end ==> bytes@[j] != 0x0A,
            decreases len - end,
        {
            end = end + 1;
        }
        proof {
            lemma_line_len_split(left, end - start);
            assert(left.skip(end - start) =~= bytes@.skip(end as int));
            assert(line_len(bytes@.skip(end as int)) == 0);
            assert(left.take(end - start) =~= bytes@.subrange(start as int, end as int));
            if end < len {
                assert(left.skip(end - start + 1) =~= bytes@.skip(end + 1));
            }
        }
        let stop: usize = if end < len && end > start && bytes[end - 1] == 0x0D {
            end - 1
        } else {
            end
        };
        let line = slice_subrange(bytes, start, stop);
        self.pos = if end < len {
            end + 1
        } else {
            end
        };
        proof {
            if end < len {
                let rest = lines(bytes@.skip(end + 1));
                assert(line@ =~= chomp(bytes@.subrange(start as int, end as int)));
                assert(lines(left) == seq![line@] + rest);
                assert((seq![line@] + rest).skip(1) =~= rest);
            } else {
                assert(line@ =~= left);
                assert(lines(left) == seq![line@]);
                assert(seq![line@].skip(1) =~= Seq::<Seq<u8>>::empty());
                assert(bytes@.skip(end as int).len() == 0);
            }
        }
        Some(line)
    }

    /// Takes the next line off the stream and reads it as text.
    pub fn next_text(&mut self) -> (r: Option<&'a str>)
        ensures
            final(self)@ == after_first(old(self)@),
            match r {
                Some(t) => text_at(old(self)@, 0) == Some(t@),
                None => text_at(old(self)@, 0) is None,
            },
    {
        match self.next_line() {
            Some(line) => decode(line),
            None => None,
        }
    }

    /// Takes the next line off the stream and reads the value that it carries
    /// under the template `prefix{}`.
    pub fn next_field(&mut self, prefix: &str) -> (r: Option<String>)
        ensures
            final(self)@ == after_first(old(self)@),
            match r {
                Some(v) => field_at(prefix@, old(self)@, 0) == Some(v@),
                None => field_at(prefix@, old(self)@, 0) is None,
            },
    {
        match self.next_text() {
            Some(t) => labelled(prefix, t),
            None => None,
        }
    }
}

} // verus!
