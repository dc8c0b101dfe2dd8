use vstd::prelude::*;
use integer_encoding::{VarIntReader, VarIntWriter};
use vstd::utf8::{decode_utf8, encode_utf8, valid_utf8};

verus! {

/// The variable-length encoding of `v`: seven bits per byte, least
/// significant first, the high bit set on every byte but the last.
pub open spec fn leb128(v: nat) -> Seq<u8>
    decreases v,
{
    if v < 128 {
        seq![v as u8]
    } else {
        seq![(v % 128 + 128) as u8] + leb128(v / 128)
    }
}

/// The number that the low seven bits of the bytes of `s` spell, least
/// significant group first.
pub open spec fn seven_bit_value(s: Seq<u8>) -> nat
    decreases s.len(),
{
    if s.len() == 0 {
        0
    } else {
        (s[0] % 128) as nat + 128 * seven_bit_value(s.drop_first())
    }
}

/// How many bytes the variable-length number at the start of `s` takes: up to
/// and including the first byte with a clear high bit, which must come within
/// the first `max` bytes.
pub open spec fn varint_len(s: Seq<u8>, max: nat) -> Option<nat>
    decreases s.len(),
{
    if s.len() == 0 || max == 0 {
        None
    } else if s[0] < 128 {
        Some(1)
    } else {
        match varint_len(s.drop_first(), (max - 1) as nat) {
            Some(n) => Some(n + 1),
            None => None,
        }
    }
}

/// The variable-length number at the start of `s`, taken modulo `modulus`,
/// with the number of bytes it takes.
pub open spec fn decode_varint(s: Seq<u8>, max: nat, modulus: nat) -> Option<(nat, nat)> {
    match varint_len(s, max) {
        Some(n) => Some((seven_bit_value(s.take(n as int)) % modulus, n)),
        None => None,
    }
}

/// `128` to the power `k`.
pub open spec fn pow128(k: nat) -> nat
    decreases k,
{
    if k == 0 {
        1
    } else {
        128 * pow128((k - 1) as nat)
    }
}

/// The most bytes a variable-length `usize` may take.
pub open spec fn usize_varint_max() -> nat {
    if usize::MAX == u32::MAX {
        5
    } else {
        10
    }
}

/// Calls `VarIntWriter::write_varint` of integer-encoding on a vector of
/// bytes. Claims, as its source shows, that the encoding of `v` is appended:
/// `encode_var` writes seven bits at a time, least significant first, and
/// sets the high bit of every byte but the last; writing to a vector does not
/// fail.
#[verifier::external_body]
pub(crate) fn write_varint(buf: &mut Vec<u8>, v: u64)
    ensures
        final(buf)@ == old(buf)@ + leb128(v as nat),
{
    let _ = buf.write_varint(v);
}

/// Calls `VarIntReader::read_varint::<u32>` of integer-encoding on `bytes`.
/// Claims, as its source shows, that it reads up to and including the first
/// byte with a clear high bit, refuses a number that has none within its first
/// five bytes or within the bytes there are, and keeps the low 32 bits of the
/// value; the result gives the number of bytes read.
#[verifier::external_body]
fn varint_u32(bytes: &[u8]) -> (res: Option<(u32, usize)>)
    ensures
        match decode_varint(bytes@, 5, 0x1_0000_0000) {
            Some((v, n)) => res matches Some((x, k)) && x == v && k == n,
            None => res is None,
        },
{
    let mut cursor = std::io::Cursor::new(bytes);
    match cursor.read_varint::<u32>() {
        Ok(v) => Some((v, cursor.position() as usize)),
        Err(_) => None,
    }
}

/// Calls `VarIntReader::read_varint::<usize>` of integer-encoding on `bytes`.
/// Claims the same as for `u32`, with at most as many bytes as a `usize` may
/// take and the value kept to the width of `usize`.
#[verifier::external_body]
fn varint_usize(bytes: &[u8]) -> (res: Option<(usize, usize)>)
    ensures
        match decode_varint(bytes@, usize_varint_max(), usize::MAX as nat + 1) {
            Some((v, n)) => res matches Some((x, k)) && x == v && k == n,
            None => res is None,
        },
{
    let mut cursor = std::io::Cursor::new(bytes);
    match cursor.read_varint::<usize>() {
        Ok(v) => Some((v, cursor.position() as usize)),
        Err(_) => None,
    }
}

/// Reads a variable-length `u32` from `pos` on; gives the value and the
/// position after it.
pub(crate) fn read_varint_u32(bytes: &[u8], pos: usize) -> (res: Option<(u32, usize)>)
    requires
        pos <= bytes@.len(),
    ensures
        match decode_varint(bytes@.skip(pos as int), 5, 0x1_0000_0000) {
            Some((v, n)) => pos + n <= bytes@.len() && (res matches Some((x, p)) && x == v && p == pos + n),
            None => res is None,
        },
{
    let rest = &bytes[pos..bytes.len()];
    assert(rest@ =~= bytes@.skip(pos as int));
    proof {
        lemma_varint_len_bound(rest@, 5);
    }
    match varint_u32(rest) {
        Some((v, n)) => Some((v, pos + n)),
        None => None,
    }
}

/// Reads a variable-length `usize` from `pos` on; gives the value and the
/// position after it.
pub(crate) fn read_varint_usize(bytes: &[u8], pos: usize) -> (res: Option<(usize, usize)>)
    requires
        pos <= bytes@.len(),
    ensures
        match decode_varint(bytes@.skip(pos as int), usize_varint_max(), usize::MAX as nat + 1) {
            Some((v, n)) => pos + n <= bytes@.len() && (res matches Some((x, p)) && x == v && p == pos + n),
            None => res is None,
        },
{
    let rest = &bytes[pos..bytes.len()];
    assert(rest@ =~= bytes@.skip(pos as int));
    proof {
        lemma_varint_len_bound(rest@, usize_varint_max());
    }
    match varint_usize(rest) {
        Some((v, n)) => Some((v, pos + n)),
        None => None,
    }
}

/// A variable-length number takes at least one byte, no more than there are,
/// and no more than `max`.
pub proof fn lemma_varint_len_bound(s: Seq<u8>, max: nat)
    ensures
        varint_len(s, max) matches Some(n) ==> 1 <= n <= s.len() && n <= max,
    decreases s.len(),
{
    if s.len() > 0 && max > 0 && s[0] >= 128 {
        lemma_varint_len_bound(s.drop_first(), (max - 1) as nat);
    }
}

/// A number below `128` to the power `max` is read back from its encoding,
/// whatever follows it.
pub proof fn lemma_varint_round_trip(v: nat, rest: Seq<u8>, max: nat)
    requires
        v < pow128(max),
        max > 0,
    ensures
        varint_len(leb128(v) + rest, max) == Some(leb128(v).len()),
        seven_bit_value(leb128(v)) == v,
        (leb128(v) + rest).take(leb128(v).len() as int) == leb128(v),
    decreases v,
{
    let s = leb128(v) + rest;
    if v < 128 {
        assert(s[0] == v as u8);
        assert(leb128(v).drop_first() =~= Seq::<u8>::empty());
        assert(seven_bit_value(Seq::<u8>::empty()) == 0);
        assert(leb128(v)[0] % 128 == v);
    } else {
        let hi = v / 128;
        assert(hi < pow128((max - 1) as nat)) by (nonlinear_arith)
            requires
                v < pow128(max),
                pow128(max) == 128 * pow128((max - 1) as nat),
                hi == v / 128,
        ;
        assert(max - 1 > 0) by {
            if max == 1 {
                assert(pow128(0) == 1);
            }
        }
        lemma_varint_round_trip(hi, rest, (max - 1) as nat);
        assert(s.drop_first() =~= leb128(hi) + rest);
        assert(leb128(v).drop_first() =~= leb128(hi));
        let b = (v % 128 + 128) as u8;
        assert(s[0] == b);
        assert(b >= 128 && b % 128 == v % 128);
        assert(leb128(v)[0] == b);
        assert(v == v % 128 + 128 * hi);
    }
    assert(s.take(leb128(v).len() as int) =~= leb128(v));
}

/// Why bytes could not be read as a message, or a message not written.
#[derive(Debug, Clone, Copy, PartialEq, Eq, Structural)]
pub enum PacketError {
    /// A variable-length number is cut short or runs too long.
    BadVarint,
    /// Fewer bytes remain than a string's length announces.
    Truncated,
    /// A string's bytes are not UTF-8.
    BadUtf8,
    /// A message of no known kind cannot be written.
    UnknownPacket,
    /// A message's length reads as a negative number.
    NegativeLength,
}

/// The bytes of a string on the wire: the length of its UTF-8 form, then that form.
pub open spec fn string_bytes(s: Seq<char>) -> Seq<u8> {
    leb128(encode_utf8(s).len()) + encode_utf8(s)
}

/// The string at the start of `s`, with the number of bytes it takes.
pub open spec fn decode_string(s: Seq<u8>) -> Result<(Seq<char>, nat), PacketError> {
    match decode_varint(s, 5, 0x1_0000_0000) {
        None => Err(PacketError::BadVarint),
        Some((n, k)) => if k + n > s.len() {
            Err(PacketError::Truncated)
        } else if !valid_utf8(s.subrange(k as int, (k + n) as int)) {
            Err(PacketError::BadUtf8)
        } else {
            Ok((decode_utf8(s.subrange(k as int, (k + n) as int)), k + n))
        },
    }
}

/// Calls `std::str::from_utf8`. Claims what std documents: the bytes are
/// accepted exactly when they are UTF-8, and the string then holds the
/// characters they encode.
#[verifier::external_body]
fn str_from_utf8(bytes: &[u8]) -> (res: Option<&str>)
    ensures
        res is Some <==> valid_utf8(bytes@),
        res matches Some(s) ==> s@ == decode_utf8(bytes@),
{
    std::str::from_utf8(bytes).ok()
}

/// Appends `src` to `buf` as a string on the wire.
pub fn write_packet_string(buf: &mut Vec<u8>, src: &str)
    ensures
        final(buf)@ == old(buf)@ + string_bytes(src@),
        final(buf)@ == old(buf)@ + leb128(encode_utf8(src@).len()) + encode_utf8(src@),
{
    let bytes = src.as_bytes();
    write_varint(buf, bytes.len() as u64);
    let ghost start = buf@;
    let mut i: usize = 0;
    while i < bytes.len()
        invariant
            bytes@ == encode_utf8(src@),
            i <= bytes@.len(),
            buf@ == start + bytes@.take(i as int),
        decreases bytes@.len() - i,
    {
        buf.push(bytes[i]);
        assert(bytes@.take(i + 1) =~= bytes@.take(i as int).push(bytes@[i as int]));
        i = i + 1;
    }
    assert(bytes@.take(i as int) =~= bytes@);
    assert(buf@ =~= old(buf)@ + string_bytes(src@));
    assert(buf@ =~= old(buf)@ + leb128(encode_utf8(src@).len()) + encode_utf8(src@));
}

/// Reads a string on the wire from `pos` on; gives the string and the
/// position after it.
pub fn read_packet_string(bytes: &[u8], pos: usize) -> (res: Result<(String, usize), PacketError>)
    requires
        pos <= bytes@.len(),
    ensures
        match decode_string(bytes@.skip(pos as int)) {
            Ok((s, n)) => res matches Ok((r, p)) && r@ == s && p == pos + n,
            Err(e) => res == Err::<(String, usize), PacketError>(e),
        },
{
    let ghost rest = bytes@.skip(pos as int);
    let (len, start) = match read_varint_u32(bytes, pos) {
        Some(r) => r,
        None => return Err(PacketError::BadVarint),
    };
    let len = len as usize;
    if len > bytes.len() - start {
        return Err(PacketError::Truncated);
    }
    let end = start + len;
    let body = &bytes[start..end];
    assert(body@ =~= rest.subrange(start - pos, end - pos));
    match str_from_utf8(body) {
        Some(s) => Ok((String::from_str(s), end)),
        None => Err(PacketError::BadUtf8),
    }
}

/// A string goes on the wire as the length of its UTF-8 form followed by
/// that form, unchanged.
pub proof fn lemma_string_bytes(chars: Seq<char>)
    ensures
        string_bytes(chars) == leb128(encode_utf8(chars).len()) + encode_utf8(chars),
        string_bytes(chars).len() == leb128(encode_utf8(chars).len()).len() + encode_utf8(chars).len(),
{
}

/// A whole message is its length followed by its bytes, unchanged.
pub proof fn lemma_framed(body: Seq<u8>)
    ensures
        framed(body) == leb128(body.len()) + body,
        framed(body).take(leb128(body.len()).len() as int) == leb128(body.len()),
        framed(body).skip(leb128(body.len()).len() as int) == body,
        framed(body).len() == leb128(body.len()).len() + body.len(),
{
    assert((leb128(body.len()) + body).take(leb128(body.len()).len() as int) =~= leb128(body.len()));
    assert((leb128(body.len()) + body).skip(leb128(body.len()).len() as int) =~= body);
}

/// Reading a string whose length `n` (below `2^32`) is followed by `n` bytes
/// of UTF-8 gives the characters those bytes encode and ends right after
/// them, whatever follows.
pub proof fn lemma_decode_string_of_parts(n: nat, body: Seq<u8>, rest: Seq<u8>)
    requires
        body.len() == n,
        n < 0x1_0000_0000,
        valid_utf8(body),
    ensures
        decode_string(leb128(n) + body + rest) == Ok::<(Seq<char>, nat), PacketError>(
            (decode_utf8(body), leb128(n).len() + n),
        ),
{
    let s = leb128(n) + body + rest;
    lemma_pow128_five();
    lemma_varint_round_trip(n, body + rest, 5);
    assert(s =~= leb128(n) + (body + rest));
    assert(s.subrange(leb128(n).len() as int, (leb128(n).len() + n) as int) =~= body);
}

/// Five bytes hold any 32-bit number.
pub proof fn lemma_pow128_five()
    ensures
        pow128(5) == 0x8_0000_0000,
{
    reveal_with_fuel(pow128, 6);
}

/// A string is read back from its wire form, whatever follows it, when its
/// UTF-8 form is shorter than four gibibytes.
pub proof fn lemma_string_round_trip(chars: Seq<char>, rest: Seq<u8>)
    requires
        encode_utf8(chars).len() < 0x1_0000_0000,
    ensures
        decode_string(string_bytes(chars) + rest) == Ok::<(Seq<char>, nat), PacketError>(
            (chars, string_bytes(chars).len()),
        ),
{
    let enc = encode_utf8(chars);
    let len = enc.len();
    let head = leb128(len);
    let s = string_bytes(chars) + rest;
    lemma_pow128_five();
    lemma_varint_round_trip(len, enc + rest, 5);
    assert(s =~= head + (enc + rest));
    vstd::utf8::encode_utf8_valid_utf8(chars);
    vstd::utf8::encode_utf8_decode_utf8(chars);
    assert(s.subrange(head.len() as int, (head.len() + len) as int) =~= enc);
}

/// `buf` preceded by its length: a whole message on the wire.
pub open spec fn framed(body: Seq<u8>) -> Seq<u8> {
    leb128(body.len()) + body
}

/// Puts the length of `buf` before it.
pub fn prepend_length(buf: &[u8]) -> (res: Vec<u8>)
    ensures
        res@ == framed(buf@),
        res@ == leb128(buf@.len()) + buf@,
        res@.skip(leb128(buf@.len()).len() as int) == buf@,
{
    let mut res: Vec<u8> = Vec::new();
    write_varint(&mut res, buf.len() as u64);
    let ghost start = res@;
    let mut i: usize = 0;
    while i < buf.len()
        invariant
            i <= buf@.len(),
            res@ == start + buf@.take(i as int),
        decreases buf@.len() - i,
    {
        res.push(buf[i]);
        assert(buf@.take(i + 1) =~= buf@.take(i as int).push(buf@[i as int]));
        i = i + 1;
    }
    assert(buf@.take(i as int) =~= buf@);
    assert(res@.skip(leb128(buf@.len()).len() as int) =~= buf@);
    res
}

/// The length that the bytes `header` give a message: the number their low
/// seven bits spell, kept to 32 bits; one that reads as a negative 32-bit
/// number is refused.
pub open spec fn frame_length_of(header: Seq<u8>) -> Result<u32, PacketError> {
    let v = seven_bit_value(header) % 0x1_0000_0000;
    if v < 0x8000_0000 {
        Ok(v as u32)
    } else {
        Err(PacketError::NegativeLength)
    }
}

/// Appending a byte adds its low seven bits at the next place.
pub proof fn lemma_seven_bit_value_push(s: Seq<u8>, b: u8)
    ensures
        seven_bit_value(s.push(b)) == seven_bit_value(s) + (b % 128) as nat * pow128(s.len()),
    decreases s.len(),
{
    if s.len() == 0 {
        assert(s.push(b).drop_first() =~= Seq::<u8>::empty());
        assert(seven_bit_value(Seq::<u8>::empty()) == 0);
        assert(s.push(b)[0] == b);
        assert(pow128(0) == 1);
    } else {
        assert(s.push(b).drop_first() =~= s.drop_first().push(b));
        assert(s.push(b)[0] == s[0]);
        lemma_seven_bit_value_push(s.drop_first(), b);
        assert(pow128(s.len()) == 128 * pow128((s.len() - 1) as nat));
        assert(128 * ((b % 128) as nat * pow128((s.len() - 1) as nat)) == (b % 128) as nat * pow128(s.len()))
            by (nonlinear_arith)
            requires
                pow128(s.len()) == 128 * pow128((s.len() - 1) as nat),
        ;
    }
}

/// Reads the length that leads each message, a byte at a time: up to five
/// bytes, stopping after the first byte with a clear high bit.
pub struct FrameLengthReader {
    value: u64,
    scale: u64,
    read: Ghost<Seq<u8>>,
}

/// What a byte of the length does.
pub enum FrameStep {
    /// The length goes on.
    NeedMore(FrameLengthReader),
    /// The length is complete.
    Done(Result<u32, PacketError>),
}

impl FrameLengthReader {
    #[verifier::type_invariant]
    spec fn consistent(self) -> bool {
        &&& self.read@.len() < 5
        &&& forall|i: int| 0 <= i < self.read@.len() ==> #[trigger] self.read@[i] >= 128
        &&& self.value == seven_bit_value(self.read@)
        &&& self.scale == pow128(self.read@.len())
        &&& self.value < self.scale
    }

    /// The bytes of the length taken so far.
    pub closed spec fn bytes_read(self) -> Seq<u8> {
        self.read@
    }

    pub fn new() -> (reader: FrameLengthReader)
        ensures
            reader.bytes_read() == Seq::<u8>::empty(),
    {
        FrameLengthReader { value: 0, scale: 1, read: Ghost(Seq::empty()) }
    }

    /// Takes the next byte of the length.
    pub fn push(self, byte: u8) -> (step: FrameStep)
        ensures
            ({
                let h = self.bytes_read().push(byte);
                if byte < 128 || h.len() == 5 {
                    step == FrameStep::Done(frame_length_of(h))
                } else {
                    step matches FrameStep::NeedMore(r) && r.bytes_read() == h
                }
            }),
    {
        proof {
            use_type_invariant(&self);
            lemma_seven_bit_value_push(self.read@, byte);
            reveal_with_fuel(pow128, 6);
        }
        let ghost h = self.read@.push(byte);
        assert(self.scale <= pow128(4));
        let low = (byte % 128) as u64;
        assert(low * self.scale <= 127 * pow128(4)) by (nonlinear_arith)
            requires
                low <= 127,
                self.scale <= pow128(4),
        ;
        let value = self.value + low * self.scale;
        if byte < 128 || self.scale == 0x1000_0000 {
            assert(h.len() == 5 <==> self.scale == 0x1000_0000);
            let bits = value % 0x1_0000_0000;
            if bits < 0x8000_0000 {
                FrameStep::Done(Ok(bits as u32))
            } else {
                FrameStep::Done(Err(PacketError::NegativeLength))
            }
        } else {
            assert(value < self.scale * 128) by (nonlinear_arith)
                requires
                    value == self.value + low * self.scale,
                    self.value < self.scale,
                    low <= 127,
            ;
            assert forall|i: int| 0 <= i < h.len() implies #[trigger] h[i] >= 128 by {
                if i < self.read@.len() {
                    assert(h[i] == self.read@[i]);
                }
            }
            FrameStep::NeedMore(FrameLengthReader { value, scale: self.scale * 128, read: Ghost(h) })
        }
    }

    /// The length when the stream ends or fails before the length is
    /// complete: the message then counts as empty.
    pub fn interrupted(&self) -> (len: u32)
        ensures
            len == 0,
    {
        0
    }
}

/// Every byte of an encoding but the last has its high bit set, the last has
/// it clear, and a number below `128` to the power `k` takes at most `k` bytes.
pub proof fn lemma_leb128_shape(v: nat, k: nat)
    ensures
        leb128(v).len() >= 1,
        forall|i: int| 0 <= i < leb128(v).len() - 1 ==> #[trigger] leb128(v)[i] >= 128,
        leb128(v).last() < 128,
        v < pow128(k) && k > 0 ==> leb128(v).len() <= k,
    decreases v,
{
    if v >= 128 {
        let hi = v / 128;
        let b = (v % 128 + 128) as u8;
        if k > 0 {
            lemma_leb128_shape(hi, (k - 1) as nat);
            if v < pow128(k) {
                assert(hi < pow128((k - 1) as nat)) by (nonlinear_arith)
                    requires
                        v < pow128(k),
                        pow128(k) == 128 * pow128((k - 1) as nat),
                        hi == v / 128,
                ;
            }
        } else {
            lemma_leb128_shape(hi, 0);
            assert(pow128(0) == 1);
        }
        assert(leb128(v) == seq![b] + leb128(hi));
        assert(leb128(v).len() == 1 + leb128(hi).len());
        assert forall|i: int| 0 <= i < leb128(v).len() - 1 implies #[trigger] leb128(v)[i] >= 128 by {
            if i > 0 {
                assert(leb128(v)[i] == leb128(hi)[i - 1]);
            }
        }
    } else {
        assert(leb128(v) == seq![v as u8]);
        assert(pow128(0) == 1);
    }
}

/// The length that leads a message of fewer than `2^31` bytes is read back by
/// a [`FrameLengthReader`]: the reader goes on through every byte but the
/// last, stops at the last, within five bytes, and gives the length.
pub proof fn lemma_frame_length_round_trip(len: nat)
    requires
        len < 0x8000_0000,
    ensures
        leb128(len).len() <= 5,
        forall|i: int| 0 <= i < leb128(len).len() - 1 ==> #[trigger] leb128(len)[i] >= 128,
        leb128(len).last() < 128,
        frame_length_of(leb128(len)) == Ok::<u32, PacketError>(len as u32),
{
    lemma_pow128_five();
    lemma_leb128_shape(len, 5);
    lemma_varint_round_trip(len, Seq::empty(), 5);
}

} // verus!
