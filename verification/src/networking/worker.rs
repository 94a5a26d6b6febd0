//! Messages on a stream of bytes: each one is sent with its length before it.
use byteorder::{BigEndian, ByteOrder};
use bytes::{Buf, BytesMut};
use vstd::prelude::*;
use vstd::string::*;

use crate::text::push_decimal;

verus! {

/// The greatest size of a message.
pub const MAX_MESSAGE_SIZE: usize = 16 * 1024 * 1024;

/// How many messages are handled at once.
pub const MAX_BATCH_SIZE: usize = 16;

/// The number of bytes of a length.
pub const LENGTH_SIZE: usize = 4;

/// `bytes::BytesMut`, a buffer of bytes that gives up its front cheaply.
#[verifier::external_type_specification]
#[verifier::external_body]
pub struct ExBytesMut(BytesMut);

/// The bytes of a buffer.
pub uninterp spec fn buffered(buffer: BytesMut) -> Seq<u8>;

/// `BytesMut::with_capacity`: an empty buffer.
#[verifier::external_body]
fn empty_buffer(capacity: usize) -> (buffer: BytesMut)
    requires
        capacity <= isize::MAX,
    ensures
        buffered(buffer) == Seq::<u8>::empty(),
{
    BytesMut::with_capacity(capacity)
}

/// `BytesMut::len`: the number of bytes.
#[verifier::external_body]
fn buffer_len(buffer: &BytesMut) -> (len: usize)
    ensures
        len == buffered(*buffer).len(),
{
    buffer.len()
}

/// `BytesMut::extend_from_slice`: the bytes come after those that are there.
#[verifier::external_body]
fn buffer_append(buffer: &mut BytesMut, bytes: &Vec<u8>)
    requires
        buffered(*old(buffer)).len() + bytes@.len() <= isize::MAX,
    ensures
        buffered(*final(buffer)) == buffered(*old(buffer)) + bytes@,
{
    buffer.extend_from_slice(bytes)
}

/// `BytesMut` as a slice, from one position to another, copied.
#[verifier::external_body]
fn buffer_copy(buffer: &BytesMut, start: usize, end: usize) -> (bytes: Vec<u8>)
    requires
        start <= end <= buffered(*buffer).len(),
    ensures
        bytes@ == buffered(*buffer).subrange(start as int, end as int),
{
    buffer[start..end].to_vec()
}

/// `Buf::advance` for `BytesMut`: the first bytes are gone.
#[verifier::external_body]
fn buffer_advance(buffer: &mut BytesMut, count: usize)
    requires
        count <= buffered(*old(buffer)).len(),
    ensures
        buffered(*final(buffer)) == buffered(*old(buffer)).skip(count as int),
{
    buffer.advance(count)
}

/// `byteorder::BigEndian::read_u32`: the number that the first four bytes are,
/// most significant byte first.
#[verifier::external_body]
fn read_u32(bytes: &Vec<u8>) -> (number: u32)
    requires
        bytes@.len() >= 4,
    ensures
        number == crate::base_types::be_value(bytes@.take(4)),
{
    BigEndian::read_u32(bytes)
}

/// A number as four bytes, most significant byte first.
pub open spec fn be_bytes(number: int) -> Seq<u8> {
    seq![
        (number / 0x100_0000 % 0x100) as u8,
        (number / 0x1_0000 % 0x100) as u8,
        (number / 0x100 % 0x100) as u8,
        (number % 0x100) as u8,
    ]
}

/// The length that four bytes give.
pub open spec fn length_of(bytes: Seq<u8>) -> nat {
    crate::base_types::be_value(bytes.take(4))
}

/// A message with its length before it.
pub open spec fn frame(message: Seq<u8>) -> Seq<u8> {
    be_bytes(message.len() as int) + message
}

/// Messages one after the other; those that are too large are left out.
pub open spec fn encoded(messages: Seq<Seq<u8>>) -> Seq<u8>
    decreases messages.len(),
{
    if messages.len() == 0 {
        Seq::empty()
    } else {
        let before = encoded(messages.drop_last());
        if messages.last().len() > MAX_MESSAGE_SIZE {
            before
        } else {
            before + frame(messages.last())
        }
    }
}

/// What bytes hold: the messages that are complete, what is left after them,
/// and the length at which reading has to stop because it is too large.
#[verifier::ext_equal]
pub struct Parsed {
    pub frames: Seq<Seq<u8>>,
    pub rest: Seq<u8>,
    pub too_large: Option<nat>,
}

/// What bytes hold.
pub open spec fn parsed(bytes: Seq<u8>) -> Parsed
    decreases bytes.len(),
{
    if bytes.len() < LENGTH_SIZE {
        Parsed { frames: Seq::empty(), rest: bytes, too_large: None }
    } else if length_of(bytes) > MAX_MESSAGE_SIZE {
        Parsed { frames: Seq::empty(), rest: bytes, too_large: Some(length_of(bytes)) }
    } else if bytes.len() < LENGTH_SIZE + length_of(bytes) {
        Parsed { frames: Seq::empty(), rest: bytes, too_large: None }
    } else {
        let end = LENGTH_SIZE + length_of(bytes);
        let after = parsed(bytes.skip(end as int));
        Parsed {
            frames: seq![bytes.subrange(LENGTH_SIZE as int, end as int)] + after.frames,
            rest: after.rest,
            too_large: after.too_large,
        }
    }
}

/// A length that is too large.
#[derive(Clone, Copy, Debug, PartialEq, Eq, Structural)]
pub struct FrameTooLarge {
    /// The length.
    pub size: usize,
}

impl FrameTooLarge {
    /// What is wrong, in words.
    pub fn message(&self) -> (message: String)
        ensures
            message@ =~= "Frame too large: "@ + crate::text::decimal(self.size as nat) + " > "@
                + crate::text::decimal(MAX_MESSAGE_SIZE as nat),
    {
        let mut message: String = String::from_str("Frame too large: ");
        push_decimal(&mut message, self.size as u64);
        message.append(" > ");
        push_decimal(&mut message, MAX_MESSAGE_SIZE as u64);
        message
    }
}

/// The contents of byte vectors.
pub open spec fn contents(vectors: Seq<Vec<u8>>) -> Seq<Seq<u8>> {
    vectors.map_values(|v: Vec<u8>| v@)
}

/// The bytes that were received and not yet handed on.
pub struct FrameReader {
    buffer: BytesMut,
}

impl View for FrameReader {
    type V = Seq<u8>;

    closed spec fn view(&self) -> Seq<u8> {
        buffered(self.buffer)
    }
}

impl FrameReader {
    /// Nothing was received.
    pub fn new() -> (reader: Self)
        ensures
            reader@ == Seq::<u8>::empty(),
    {
        FrameReader { buffer: empty_buffer(MAX_MESSAGE_SIZE * 2) }
    }

    /// Takes in bytes.
    pub fn receive(&mut self, bytes: &Vec<u8>)
        requires
            old(self)@.len() + bytes@.len() <= isize::MAX,
        ensures
            final(self)@ == old(self)@ + bytes@,
    {
        buffer_append(&mut self.buffer, bytes);
    }

    /// The messages that are complete, in order; what comes after them stays.
    /// A length that is too large is an error, and then all stays as it is.
    pub fn handle_read_stream(&mut self) -> (frames: Result<Vec<Vec<u8>>, FrameTooLarge>)
        ensures
            ({
                let expected = parsed(old(self)@);
                match frames {
                    Ok(complete) => {
                        &&& expected.too_large is None
                        &&& contents(complete@) =~= expected.frames
                        &&& final(self)@ =~= expected.rest
                    },
                    Err(error) => {
                        &&& expected.too_large == Some(error.size as nat)
                        &&& final(self)@ == old(self)@
                    },
                }
            }),
    {
        let ghost all = self@;
        let total: usize = buffer_len(&self.buffer);
        let mut offset: usize = 0;
        let mut frames: Vec<Vec<u8>> = Vec::new();
        proof {
            assert(all.skip(0) =~= all);
        }
        while total - offset >= LENGTH_SIZE
            invariant_except_break
                offset <= total,
                all == self@,
                total == all.len(),
                parsed(all).frames =~= contents(frames@) + parsed(all.skip(offset as int)).frames,
                parsed(all).rest == parsed(all.skip(offset as int)).rest,
                parsed(all).too_large == parsed(all.skip(offset as int)).too_large,
            ensures
                offset <= total,
                all == self@,
                total == all.len(),
                parsed(all).frames =~= contents(frames@),
                parsed(all).rest == all.skip(offset as int),
                parsed(all).too_large is None,
            decreases total - offset,
        {
            let length: Vec<u8> = buffer_copy(&self.buffer, offset, offset + LENGTH_SIZE);
            let size: usize = read_u32(&length) as usize;
            proof {
                assert(length@.take(4) =~= all.skip(offset as int).take(4));
            }
            if size > MAX_MESSAGE_SIZE {
                return Err(FrameTooLarge { size });
            }
            if total - offset - LENGTH_SIZE < size {
                break;
            }
            let start: usize = offset + LENGTH_SIZE;
            let end: usize = start + size;
            let message: Vec<u8> = buffer_copy(&self.buffer, start, end);
            proof {
                let left = all.skip(offset as int);
                assert(message@ =~= left.subrange(LENGTH_SIZE as int, LENGTH_SIZE + size));
                assert(left.skip(LENGTH_SIZE + size) =~= all.skip(end as int));
                assert(contents(frames@.push(message)) =~= contents(frames@).push(message@));
            }
            frames.push(message);
            offset = end;
        }
        buffer_advance(&mut self.buffer, offset);
        Ok(frames)
    }
}

proof fn lemma_be_bytes(number: int)
    requires
        0 <= number <= u32::MAX,
    ensures
        be_bytes(number).len() == 4,
        crate::base_types::be_value(be_bytes(number)) == number,
{
    let s = be_bytes(number);
    reveal_with_fuel(crate::base_types::be_value, 5);
    assert(s.drop_last() =~= seq![s[0], s[1], s[2]]);
    assert(s.drop_last().drop_last() =~= seq![s[0], s[1]]);
    assert(s.drop_last().drop_last().drop_last() =~= seq![s[0]]);
    assert(s.drop_last().drop_last().drop_last().drop_last() =~= Seq::<u8>::empty());
    let a = number / 0x100_0000 % 0x100;
    let b = number / 0x1_0000 % 0x100;
    let c = number / 0x100 % 0x100;
    let d = number % 0x100;
    assert(number == a * 0x100_0000 + b * 0x1_0000 + c * 0x100 + d);
}

/// Writes a message, with its length before it, at the end of bytes. One that
/// is too large is skipped.
pub fn push_frame(out: &mut Vec<u8>, message: &Vec<u8>) -> (sent: bool)
    ensures
        sent == (message@.len() <= MAX_MESSAGE_SIZE),
        final(out)@ =~= (if sent {
            old(out)@ + frame(message@)
        } else {
            old(out)@
        }),
{
    let size: usize = message.len();
    if size > MAX_MESSAGE_SIZE {
        return false;
    }
    let ghost before = out@;
    out.push((size / 0x100_0000 % 0x100) as u8);
    out.push((size / 0x1_0000 % 0x100) as u8);
    out.push((size / 0x100 % 0x100) as u8);
    out.push((size % 0x100) as u8);
    proof {
        assert(out@ =~= before + be_bytes(size as int));
    }
    let mut i: usize = 0;
    while i < message.len()
        invariant
            i <= message.len(),
            out@ =~= before + be_bytes(size as int) + message@.take(i as int),
        decreases message.len() - i,
    {
        out.push(message[i]);
        i = i + 1;
    }
    proof {
        assert(message@.take(i as int) =~= message@);
    }
    true
}

/// The bytes of a batch of messages; those that are too large are skipped.
pub fn handle_write_stream(batch: &Vec<Vec<u8>>) -> (bytes: Vec<u8>)
    ensures
        bytes@ =~= encoded(contents(batch@)),
{
    let mut bytes: Vec<u8> = Vec::new();
    let ghost messages = contents(batch@);
    let mut i: usize = 0;
    while i < batch.len()
        invariant
            i <= batch.len(),
            messages == contents(batch@),
            bytes@ =~= encoded(messages.take(i as int)),
        decreases batch.len() - i,
    {
        proof {
            assert(messages.take(i + 1).drop_last() =~= messages.take(i as int));
            assert(messages.take(i + 1).last() == batch@[i as int]@);
        }
        let _ = push_frame(&mut bytes, &batch[i]);
        i = i + 1;
    }
    proof {
        assert(messages.take(i as int) =~= messages);
    }
    bytes
}

proof fn lemma_parse_first(message: Seq<u8>, after: Seq<u8>)
    requires
        message.len() <= MAX_MESSAGE_SIZE,
    ensures
        parsed(frame(message) + after) == (Parsed {
            frames: seq![message] + parsed(after).frames,
            rest: parsed(after).rest,
            too_large: parsed(after).too_large,
        }),
{
    let bytes = frame(message) + after;
    let size = message.len() as int;
    lemma_be_bytes(size);
    assert(bytes.take(4) =~= be_bytes(size));
    assert(bytes.subrange(4, 4 + size) =~= message);
    assert(bytes.skip(4 + size) =~= after);
}

/// What arrives in pieces is read as if it came at once: reading what is left
/// of a first piece together with a second one gives the messages that reading
/// both at once gives after those of the first.
pub proof fn law_pieces_are_read_as_one(first: Seq<u8>, second: Seq<u8>)
    requires
        parsed(first).too_large is None,
    ensures
        ({
            let left = parsed(parsed(first).rest + second);
            parsed(first + second) == (Parsed {
                frames: parsed(first).frames + left.frames,
                rest: left.rest,
                too_large: left.too_large,
            })
        }),
    decreases first.len(),
{
    let both = first + second;
    if first.len() >= LENGTH_SIZE && length_of(first) <= MAX_MESSAGE_SIZE && first.len()
        >= LENGTH_SIZE + length_of(first) {
        let end = (LENGTH_SIZE + length_of(first)) as int;
        assert(both.take(4) =~= first.take(4));
        assert(both.subrange(4, end) =~= first.subrange(4, end));
        assert(both.skip(end) =~= first.skip(end) + second);
        law_pieces_are_read_as_one(first.skip(end), second);
        assert(parsed(both).frames =~= parsed(first).frames + parsed(
            parsed(first).rest + second,
        ).frames);
    } else {
        assert(parsed(first).frames =~= Seq::<Seq<u8>>::empty());
        assert(parsed(first).rest == first);
        assert(parsed(first).frames + parsed(both).frames =~= parsed(both).frames);
    }
}

/// What is read of messages that were written is these messages: nothing is
/// lost, added or left over, as long as none is too large.
pub proof fn law_reading_gives_back_what_was_written(messages: Seq<Seq<u8>>)
    requires
        forall|i: int| 0 <= i < messages.len() ==> (#[trigger] messages[i]).len() <= MAX_MESSAGE_SIZE,
    ensures
        parsed(encoded(messages)) == (Parsed {
            frames: messages,
            rest: Seq::empty(),
            too_large: None,
        }),
    decreases messages.len(),
{
    if messages.len() == 0 {
        assert(parsed(encoded(messages)).frames =~= messages);
    } else {
        let before = messages.drop_last();
        let last = messages.last();
        assert(messages[messages.len() - 1].len() <= MAX_MESSAGE_SIZE);
        assert forall|i: int| 0 <= i < before.len() implies (#[trigger] before[i]).len()
            <= MAX_MESSAGE_SIZE by {
            assert(messages[i].len() <= MAX_MESSAGE_SIZE);
        }
        law_reading_gives_back_what_was_written(before);
        law_pieces_are_read_as_one(encoded(before), frame(last));
        assert(Seq::<u8>::empty() + frame(last) =~= frame(last));
        assert(frame(last) + Seq::<u8>::empty() =~= frame(last));
        lemma_parse_first(last, Seq::empty());
        assert(parsed(Seq::<u8>::empty()).frames =~= Seq::<Seq<u8>>::empty());
        assert(before + seq![last] =~= messages);
        assert(seq![last] + Seq::<Seq<u8>>::empty() =~= seq![last]);
    }
}

/// A message is sent after its length, which takes four bytes, the most
/// significant first.
pub proof fn law_length_goes_before_the_message(message: Seq<u8>, i: int)
    requires
        message.len() <= u32::MAX,
    ensures
        frame(message).len() == message.len() + 4,
        0x100_0000 * frame(message)[0] + 0x1_0000 * frame(message)[1] + 0x100 * frame(message)[2]
            + frame(message)[3] == message.len(),
        0 <= i < message.len() ==> frame(message)[4 + i] == message[i],
{
    let number = message.len() as int;
    let a = number / 0x100_0000 % 0x100;
    let b = number / 0x1_0000 % 0x100;
    let c = number / 0x100 % 0x100;
    let d = number % 0x100;
    assert(number == a * 0x100_0000 + b * 0x1_0000 + c * 0x100 + d);
}

/// A length is read from four bytes, the most significant first.
pub proof fn law_length_is_read_most_significant_first(bytes: Seq<u8>)
    requires
        bytes.len() >= 4,
    ensures
        length_of(bytes) == 0x100_0000 * bytes[0] + 0x1_0000 * bytes[1] + 0x100 * bytes[2]
            + bytes[3],
{
    let s = bytes.take(4);
    reveal_with_fuel(crate::base_types::be_value, 5);
    assert(s.drop_last() =~= seq![s[0], s[1], s[2]]);
    assert(s.drop_last().drop_last() =~= seq![s[0], s[1]]);
    assert(s.drop_last().drop_last().drop_last() =~= seq![s[0]]);
    assert(s.drop_last().drop_last().drop_last().drop_last() =~= Seq::<u8>::empty());
}

proof fn lemma_encoded_first(first: Seq<u8>, after: Seq<Seq<u8>>)
    requires
        first.len() <= MAX_MESSAGE_SIZE,
    ensures
        encoded(seq![first] + after) == frame(first) + encoded(after),
    decreases after.len(),
{
    if after.len() == 0 {
        reveal_with_fuel(encoded, 2);
        assert((seq![first] + after).drop_last() =~= Seq::<Seq<u8>>::empty());
        assert(encoded(seq![first] + after) =~= frame(first) + encoded(after));
    } else {
        lemma_encoded_first(first, after.drop_last());
        assert((seq![first] + after).drop_last() =~= seq![first] + after.drop_last());
        assert((seq![first] + after).last() == after.last());
        assert(encoded(seq![first] + after) =~= frame(first) + encoded(after));
    }
}

/// Bytes are read without loss: the messages that are read, written again,
/// and what is left make up the bytes. No message is over sixteen
/// mebibytes, and what is left holds no further message: it is too short, or
/// announces a length that is too large, which is then reported.
pub proof fn law_no_byte_is_lost(bytes: Seq<u8>)
    ensures
        encoded(parsed(bytes).frames) + parsed(bytes).rest =~= bytes,
        forall|i: int|
            0 <= i < parsed(bytes).frames.len() ==> (#[trigger] parsed(bytes).frames[i]).len()
                <= 16_777_216,
        parsed(bytes).too_large == (if parsed(bytes).rest.len() >= 4 && length_of(
            parsed(bytes).rest,
        ) > 16_777_216 {
            Some(length_of(parsed(bytes).rest))
        } else {
            None
        }),
        parsed(bytes).too_large is None ==> parsed(bytes).rest.len() < 4
            || parsed(bytes).rest.len() < 4 + length_of(parsed(bytes).rest),
    decreases bytes.len(),
{
    if bytes.len() >= LENGTH_SIZE && length_of(bytes) <= MAX_MESSAGE_SIZE && bytes.len()
        >= LENGTH_SIZE + length_of(bytes) {
        let end = (LENGTH_SIZE + length_of(bytes)) as int;
        let first = bytes.subrange(4, end);
        let after = parsed(bytes.skip(end));
        law_no_byte_is_lost(bytes.skip(end));
        lemma_encoded_first(first, after.frames);
        law_length_is_read_most_significant_first(bytes);
        law_length_goes_before_the_message(first, 0);
        let f = frame(first);
        assert(f[0] == bytes[0] && f[1] == bytes[1] && f[2] == bytes[2] && f[3] == bytes[3]);
        assert(f =~= bytes.take(end));
        assert(encoded(parsed(bytes).frames) + parsed(bytes).rest =~= f + (encoded(after.frames)
            + after.rest));
        assert(bytes =~= bytes.take(end) + bytes.skip(end));
        assert forall|i: int| 0 <= i < parsed(bytes).frames.len() implies (
        #[trigger] parsed(bytes).frames[i]).len() <= 16_777_216 by {
            if i > 0 {
                assert(parsed(bytes).frames[i] == after.frames[i - 1]);
            }
        }
    } else {
        assert(encoded(parsed(bytes).frames) =~= Seq::<u8>::empty());
    }
}

/// A message over the greatest size is left out; all others are written.
pub proof fn law_large_messages_are_left_out(messages: Seq<Seq<u8>>, last: Seq<u8>)
    ensures
        encoded(Seq::empty()) =~= Seq::<u8>::empty(),
        last.len() > 16_777_216 ==> encoded(messages.push(last)) =~= encoded(messages),
        last.len() <= 16_777_216 ==> encoded(messages.push(last)).len() == encoded(messages).len()
            + 4 + last.len() && encoded(messages.push(last)).skip(
            (encoded(messages).len() + 4) as int,
        ) =~= last,
{
    assert(messages.push(last).drop_last() =~= messages);
}

} // verus!
