use vstd::prelude::*;
use crate::codec::{
    decode_string, decode_varint, framed, leb128, lemma_pow128_five, lemma_string_round_trip,
    lemma_decode_string_of_parts, lemma_varint_round_trip, pow128, read_packet_string,
    read_varint_u32, read_varint_usize, string_bytes, usize_varint_max, write_packet_string,
    write_varint, PacketError,
};
use vstd::utf8::{decode_utf8, encode_utf8, encode_utf8_decode_utf8, encode_utf8_valid_utf8};
use crate::protocol::{C2SLoginPacket, C2SPlayPacket, S2CLoginPacket, S2CPlayPacket};

verus! {

/// The message kind number at the start of `s`, with the bytes it takes.
pub open spec fn decode_id(s: Seq<u8>) -> Option<(nat, nat)> {
    decode_varint(s, 5, 0x1_0000_0000)
}

/// The `usize` at the start of `s`, with the bytes it takes.
pub open spec fn decode_usize(s: Seq<u8>) -> Option<(nat, nat)> {
    decode_varint(s, usize_varint_max(), usize::MAX as nat + 1)
}

/// `count` numbers of type `usize`, one after the other, at the start of `s`.
pub open spec fn decode_usizes(s: Seq<u8>, count: nat) -> Option<Seq<nat>>
    decreases count,
{
    if count == 0 {
        Some(Seq::empty())
    } else {
        match decode_usize(s) {
            None => None,
            Some((v, k)) => match decode_usizes(s.skip(k as int), (count - 1) as nat) {
                Some(r) => Some(seq![v] + r),
                None => None,
            },
        }
    }
}

/// Reads two `usize` numbers from `pos` on.
fn read_two_usizes(bytes: &[u8], pos: usize) -> (res: Option<(usize, usize)>)
    requires
        pos <= bytes@.len(),
    ensures
        match decode_usizes(bytes@.skip(pos as int), 2) {
            Some(v) => res matches Some((a, b)) && a == v[0] && b == v[1],
            None => res is None,
        },
{
    let ghost s = bytes@.skip(pos as int);
    proof {
        reveal_with_fuel(decode_usizes, 3);
    }
    let (a, p1) = match read_varint_usize(bytes, pos) {
        Some(r) => r,
        None => return None,
    };
    let ghost k1 = decode_usize(s).unwrap().1;
    assert(decode_usize(s) is Some);
    assert(p1 == pos + k1);
    assert(s.skip(k1 as int) =~= bytes@.skip(p1 as int));
    let (b, p2) = match read_varint_usize(bytes, p1) {
        Some(r) => r,
        None => return None,
    };
    let ghost s1 = bytes@.skip(p1 as int);
    let ghost k2 = decode_usize(s1).unwrap().1;
    assert(decode_usizes(s1.skip(k2 as int), 0) == Some(Seq::<nat>::empty()));
    let ghost v = decode_usizes(s, 2).unwrap();
    assert(v =~= seq![decode_usize(s).unwrap().0, decode_usize(s1).unwrap().0]);
    Some((a, b))
}

/// Reads three `usize` numbers from `pos` on.
fn read_three_usizes(bytes: &[u8], pos: usize) -> (res: Option<(usize, usize, usize)>)
    requires
        pos <= bytes@.len(),
    ensures
        match decode_usizes(bytes@.skip(pos as int), 3) {
            Some(v) => res matches Some((a, b, c)) && a == v[0] && b == v[1] && c == v[2],
            None => res is None,
        },
{
    let ghost s = bytes@.skip(pos as int);
    proof {
        reveal_with_fuel(decode_usizes, 2);
    }
    let (a, p1) = match read_varint_usize(bytes, pos) {
        Some(r) => r,
        None => return None,
    };
    let ghost k1 = decode_usize(s).unwrap().1;
    assert(decode_usize(s) is Some);
    assert(p1 == pos + k1);
    assert(s.skip(k1 as int) =~= bytes@.skip(p1 as int));
    let (b, c) = match read_two_usizes(bytes, p1) {
        Some(r) => r,
        None => return None,
    };
    let ghost w = decode_usizes(bytes@.skip(p1 as int), 2).unwrap();
    let ghost v = decode_usizes(s, 3).unwrap();
    assert(v =~= seq![decode_usize(s).unwrap().0] + w);
    Some((a, b, c))
}

/// Appends `v` as a `usize` on the wire.
fn write_usize(buf: &mut Vec<u8>, v: usize)
    ensures
        final(buf)@ == old(buf)@ + leb128(v as nat),
{
    write_varint(buf, v as u64);
}

impl C2SLoginPacket {
    /// The kind number of the message.
    pub open spec fn wire_id(self) -> u32 {
        match self {
            C2SLoginPacket::RequestVersion { .. } => 0,
            C2SLoginPacket::RequestBoard {  } => 1,
            C2SLoginPacket::Unknown { .. } => 2,
        }
    }

    /// The message on the wire, before its length; none for an unknown one.
    pub open spec fn body(self) -> Option<Seq<u8>> {
        match self {
            C2SLoginPacket::RequestVersion { client_version } => Some(leb128(0) + string_bytes(client_version@)),
            C2SLoginPacket::RequestBoard {  } => Some(leb128(1)),
            C2SLoginPacket::Unknown { .. } => None,
        }
    }

    /// Whether reading the bytes `s` as this kind of message gives `r`.
    pub open spec fn decodes(s: Seq<u8>, r: Result<C2SLoginPacket, PacketError>) -> bool {
        match decode_id(s) {
            None => r == Err::<C2SLoginPacket, PacketError>(PacketError::BadVarint),
            Some((id, k)) => if id == 0 {
                match decode_string(s.skip(k as int)) {
                    Ok((c, _)) => r matches Ok(C2SLoginPacket::RequestVersion { client_version }) && client_version@ == c,
                    Err(e) => r == Err::<C2SLoginPacket, PacketError>(e),
                }
            } else if id == 1 {
                r matches Ok(C2SLoginPacket::RequestBoard {  })
            } else {
                r matches Ok(C2SLoginPacket::Unknown { packet_id }) && packet_id == id
            },
        }
    }

    pub fn packet_id(&self) -> (id: u32)
        ensures
            id == self.wire_id(),
    {
        match self {
            C2SLoginPacket::RequestVersion { .. } => 0,
            C2SLoginPacket::RequestBoard {  } => 1,
            C2SLoginPacket::Unknown { .. } => 2,
        }
    }

    /// The message as it goes on the wire, length first; an unknown message
    /// cannot be written.
    pub fn serialize(&self) -> (res: Result<Vec<u8>, PacketError>)
        ensures
            match self.body() {
                Some(b) => res matches Ok(v) && v@ == framed(b),
                None => res == Err::<Vec<u8>, PacketError>(PacketError::UnknownPacket),
            },
    {
        let mut res: Vec<u8> = Vec::new();
        write_varint(&mut res, self.packet_id() as u64);
        match self {
            C2SLoginPacket::RequestVersion { client_version } => {
                write_packet_string(&mut res, client_version.as_str());
            },
            C2SLoginPacket::RequestBoard {  } => {},
            C2SLoginPacket::Unknown { .. } => {
                return Err(PacketError::UnknownPacket);
            },
        }
        Ok(crate::codec::prepend_length(res.as_slice()))
    }

    /// Reads a message from bytes that hold it without its length; bytes after
    /// it are left alone.
    pub fn deserialize_slice(bytes: &[u8]) -> (res: Result<C2SLoginPacket, PacketError>)
        ensures
            Self::decodes(bytes@, res),
    {
        assert(bytes@.skip(0) =~= bytes@);
        let (id, pos) = match read_varint_u32(bytes, 0) {
            Some(r) => r,
            None => return Err(PacketError::BadVarint),
        };
        if id == 0 {
            match read_packet_string(bytes, pos) {
                Ok((client_version, _)) => Ok(C2SLoginPacket::RequestVersion { client_version }),
                Err(e) => Err(e),
            }
        } else if id == 1 {
            Ok(C2SLoginPacket::RequestBoard {  })
        } else {
            Ok(C2SLoginPacket::Unknown { packet_id: id })
        }
    }
}

/// The update message's three numbers on the wire.
pub open spec fn three_usizes_bytes(a: usize, b: usize, c: usize) -> Seq<u8> {
    leb128(a as nat) + leb128(b as nat) + leb128(c as nat)
}

impl S2CLoginPacket {
    /// The kind number of the message.
    pub open spec fn wire_id(self) -> u32 {
        match self {
            S2CLoginPacket::SendVersion { .. } => 2,
            S2CLoginPacket::UpdateBoardSize { .. } => 3,
            S2CLoginPacket::UpdateCell { .. } => 4,
            S2CLoginPacket::BoardSent {  } => 5,
            S2CLoginPacket::Kick { .. } => 6,
            S2CLoginPacket::Unknown { .. } => 7,
        }
    }

    /// The message on the wire, before its length; none for an unknown one.
    pub open spec fn body(self) -> Option<Seq<u8>> {
        match self {
            S2CLoginPacket::SendVersion { server_version } => Some(leb128(2) + string_bytes(server_version@)),
            S2CLoginPacket::UpdateBoardSize { width, height } => Some(
                leb128(3) + leb128(width as nat) + leb128(height as nat),
            ),
            S2CLoginPacket::UpdateCell { x, y, cell_type } => Some(leb128(4) + three_usizes_bytes(x, y, cell_type)),
            S2CLoginPacket::BoardSent {  } => Some(leb128(5)),
            S2CLoginPacket::Kick { reason } => Some(leb128(6) + string_bytes(reason@)),
            S2CLoginPacket::Unknown { .. } => None,
        }
    }

    /// Whether reading the bytes `s` as this kind of message gives `r`.
    pub open spec fn decodes(s: Seq<u8>, r: Result<S2CLoginPacket, PacketError>) -> bool {
        match decode_id(s) {
            None => r == Err::<S2CLoginPacket, PacketError>(PacketError::BadVarint),
            Some((id, k)) => {
                let rest = s.skip(k as int);
                if id == 2 || id == 6 {
                    match decode_string(rest) {
                        Ok((c, _)) => if id == 2 {
                            r matches Ok(S2CLoginPacket::SendVersion { server_version }) && server_version@ == c
                        } else {
                            r matches Ok(S2CLoginPacket::Kick { reason }) && reason@ == c
                        },
                        Err(e) => r == Err::<S2CLoginPacket, PacketError>(e),
                    }
                } else if id == 3 {
                    match decode_usizes(rest, 2) {
                        Some(v) => r matches Ok(S2CLoginPacket::UpdateBoardSize { width, height }) && width == v[0]
                            && height == v[1],
                        None => r == Err::<S2CLoginPacket, PacketError>(PacketError::BadVarint),
                    }
                } else if id == 4 {
                    match decode_usizes(rest, 3) {
                        Some(v) => r matches Ok(S2CLoginPacket::UpdateCell { x, y, cell_type }) && x == v[0] && y
                            == v[1] && cell_type == v[2],
                        None => r == Err::<S2CLoginPacket, PacketError>(PacketError::BadVarint),
                    }
                } else if id == 5 {
                    r matches Ok(S2CLoginPacket::BoardSent {  })
                } else {
                    r matches Ok(S2CLoginPacket::Unknown { packet_id }) && packet_id == id
                }
            },
        }
    }

    pub fn packet_id(&self) -> (id: u32)
        ensures
            id == self.wire_id(),
    {
        match self {
            S2CLoginPacket::SendVersion { .. } => 2,
            S2CLoginPacket::UpdateBoardSize { .. } => 3,
            S2CLoginPacket::UpdateCell { .. } => 4,
            S2CLoginPacket::BoardSent {  } => 5,
            S2CLoginPacket::Kick { .. } => 6,
            S2CLoginPacket::Unknown { .. } => 7,
        }
    }

    /// The message as it goes on the wire, length first; an unknown message
    /// cannot be written.
    pub fn serialize(&self) -> (res: Result<Vec<u8>, PacketError>)
        ensures
            match self.body() {
                Some(b) => res matches Ok(v) && v@ == framed(b),
                None => res == Err::<Vec<u8>, PacketError>(PacketError::UnknownPacket),
            },
    {
        let mut res: Vec<u8> = Vec::new();
        write_varint(&mut res, self.packet_id() as u64);
        match self {
            S2CLoginPacket::SendVersion { server_version } => {
                write_packet_string(&mut res, server_version.as_str());
            },
            S2CLoginPacket::UpdateBoardSize { width, height } => {
                write_usize(&mut res, *width);
                write_usize(&mut res, *height);
            },
            S2CLoginPacket::UpdateCell { x, y, cell_type } => {
                write_usize(&mut res, *x);
                write_usize(&mut res, *y);
                write_usize(&mut res, *cell_type);
                assert(res@ =~= leb128(4) + three_usizes_bytes(*x, *y, *cell_type));
            },
            S2CLoginPacket::BoardSent {  } => {},
            S2CLoginPacket::Kick { reason } => {
                write_packet_string(&mut res, reason.as_str());
            },
            S2CLoginPacket::Unknown { .. } => {
                return Err(PacketError::UnknownPacket);
            },
        }
        Ok(crate::codec::prepend_length(res.as_slice()))
    }

    /// Reads a message from bytes that hold it without its length; bytes after
    /// it are left alone.
    pub fn deserialize_slice(bytes: &[u8]) -> (res: Result<S2CLoginPacket, PacketError>)
        ensures
            Self::decodes(bytes@, res),
    {
        assert(bytes@.skip(0) =~= bytes@);
        let (id, pos) = match read_varint_u32(bytes, 0) {
            Some(r) => r,
            None => return Err(PacketError::BadVarint),
        };
        if id == 2 || id == 6 {
            match read_packet_string(bytes, pos) {
                Ok((text, _)) => if id == 2 {
                    Ok(S2CLoginPacket::SendVersion { server_version: text })
                } else {
                    Ok(S2CLoginPacket::Kick { reason: text })
                },
                Err(e) => Err(e),
            }
        } else if id == 3 {
            match read_two_usizes(bytes, pos) {
                Some((width, height)) => Ok(S2CLoginPacket::UpdateBoardSize { width, height }),
                None => Err(PacketError::BadVarint),
            }
        } else if id == 4 {
            match read_three_usizes(bytes, pos) {
                Some((x, y, cell_type)) => Ok(S2CLoginPacket::UpdateCell { x, y, cell_type }),
                None => Err(PacketError::BadVarint),
            }
        } else if id == 5 {
            Ok(S2CLoginPacket::BoardSent {  })
        } else {
            Ok(S2CLoginPacket::Unknown { packet_id: id })
        }
    }
}

impl C2SPlayPacket {
    /// The kind number of the message.
    pub open spec fn wire_id(self) -> u32 {
        match self {
            C2SPlayPacket::UpdateCell { .. } => 0,
            C2SPlayPacket::Unknown { .. } => 1,
        }
    }

    /// The message on the wire, before its length; none for an unknown one.
    pub open spec fn body(self) -> Option<Seq<u8>> {
        match self {
            C2SPlayPacket::UpdateCell { x, y, cell_type } => Some(leb128(0) + three_usizes_bytes(x, y, cell_type)),
            C2SPlayPacket::Unknown { .. } => None,
        }
    }

    /// Whether reading the bytes `s` as this kind of message gives `r`.
    pub open spec fn decodes(s: Seq<u8>, r: Result<C2SPlayPacket, PacketError>) -> bool {
        match decode_id(s) {
            None => r == Err::<C2SPlayPacket, PacketError>(PacketError::BadVarint),
            Some((id, k)) => if id == 0 {
                match decode_usizes(s.skip(k as int), 3) {
                    Some(v) => r matches Ok(C2SPlayPacket::UpdateCell { x, y, cell_type }) && x == v[0] && y == v[1]
                        && cell_type == v[2],
                    None => r == Err::<C2SPlayPacket, PacketError>(PacketError::BadVarint),
                }
            } else {
                r matches Ok(C2SPlayPacket::Unknown { packet_id }) && packet_id == id
            },
        }
    }

    pub fn packet_id(&self) -> (id: u32)
        ensures
            id == self.wire_id(),
    {
        match self {
            C2SPlayPacket::UpdateCell { .. } => 0,
            C2SPlayPacket::Unknown { .. } => 1,
        }
    }

    /// The message as it goes on the wire, length first; an unknown message
    /// cannot be written.
    pub fn serialize(&self) -> (res: Result<Vec<u8>, PacketError>)
        ensures
            match self.body() {
                Some(b) => res matches Ok(v) && v@ == framed(b),
                None => res == Err::<Vec<u8>, PacketError>(PacketError::UnknownPacket),
            },
    {
        let mut res: Vec<u8> = Vec::new();
        write_varint(&mut res, self.packet_id() as u64);
        match self {
            C2SPlayPacket::UpdateCell { x, y, cell_type } => {
                write_usize(&mut res, *x);
                write_usize(&mut res, *y);
                write_usize(&mut res, *cell_type);
                assert(res@ =~= leb128(0) + three_usizes_bytes(*x, *y, *cell_type));
            },
            C2SPlayPacket::Unknown { .. } => {
                return Err(PacketError::UnknownPacket);
            },
        }
        Ok(crate::codec::prepend_length(res.as_slice()))
    }

    /// Reads a message from bytes that hold it without its length; bytes after
    /// it are left alone.
    pub fn deserialize_slice(bytes: &[u8]) -> (res: Result<C2SPlayPacket, PacketError>)
        ensures
            Self::decodes(bytes@, res),
    {
        assert(bytes@.skip(0) =~= bytes@);
        let (id, pos) = match read_varint_u32(bytes, 0) {
            Some(r) => r,
            None => return Err(PacketError::BadVarint),
        };
        if id == 0 {
            match read_three_usizes(bytes, pos) {
                Some((x, y, cell_type)) => Ok(C2SPlayPacket::UpdateCell { x, y, cell_type }),
                None => Err(PacketError::BadVarint),
            }
        } else {
            Ok(C2SPlayPacket::Unknown { packet_id: id })
        }
    }
}

impl S2CPlayPacket {
    /// The kind number of the message.
    pub open spec fn wire_id(self) -> u32 {
        match self {
            S2CPlayPacket::UpdateCell { .. } => 1,
            S2CPlayPacket::Kick { .. } => 2,
            S2CPlayPacket::Unknown { .. } => 3,
        }
    }

    /// The message on the wire, before its length; none for an unknown one.
    pub open spec fn body(self) -> Option<Seq<u8>> {
        match self {
            S2CPlayPacket::UpdateCell { x, y, cell_type } => Some(leb128(1) + three_usizes_bytes(x, y, cell_type)),
            S2CPlayPacket::Kick { reason } => Some(leb128(2) + string_bytes(reason@)),
            S2CPlayPacket::Unknown { .. } => None,
        }
    }

    /// Whether reading the bytes `s` as this kind of message gives `r`.
    pub open spec fn decodes(s: Seq<u8>, r: Result<S2CPlayPacket, PacketError>) -> bool {
        match decode_id(s) {
            None => r == Err::<S2CPlayPacket, PacketError>(PacketError::BadVarint),
            Some((id, k)) => if id == 1 {
                match decode_usizes(s.skip(k as int), 3) {
                    Some(v) => r matches Ok(S2CPlayPacket::UpdateCell { x, y, cell_type }) && x == v[0] && y == v[1]
                        && cell_type == v[2],
                    None => r == Err::<S2CPlayPacket, PacketError>(PacketError::BadVarint),
                }
            } else if id == 2 {
                match decode_string(s.skip(k as int)) {
                    Ok((c, _)) => r matches Ok(S2CPlayPacket::Kick { reason }) && reason@ == c,
                    Err(e) => r == Err::<S2CPlayPacket, PacketError>(e),
                }
            } else {
                r matches Ok(S2CPlayPacket::Unknown { packet_id }) && packet_id == id
            },
        }
    }

    pub fn packet_id(&self) -> (id: u32)
        ensures
            id == self.wire_id(),
    {
        match self {
            S2CPlayPacket::UpdateCell { .. } => 1,
            S2CPlayPacket::Kick { .. } => 2,
            S2CPlayPacket::Unknown { .. } => 3,
        }
    }

    /// The message as it goes on the wire, length first; an unknown message
    /// cannot be written.
    pub fn serialize(&self) -> (res: Result<Vec<u8>, PacketError>)
        ensures
            match self.body() {
                Some(b) => res matches Ok(v) && v@ == framed(b),
                None => res == Err::<Vec<u8>, PacketError>(PacketError::UnknownPacket),
            },
    {
        let mut res: Vec<u8> = Vec::new();
        write_varint(&mut res, self.packet_id() as u64);
        match self {
            S2CPlayPacket::UpdateCell { x, y, cell_type } => {
                write_usize(&mut res, *x);
                write_usize(&mut res, *y);
                write_usize(&mut res, *cell_type);
                assert(res@ =~= leb128(1) + three_usizes_bytes(*x, *y, *cell_type));
            },
            S2CPlayPacket::Kick { reason } => {
                write_packet_string(&mut res, reason.as_str());
            },
            S2CPlayPacket::Unknown { .. } => {
                return Err(PacketError::UnknownPacket);
            },
        }
        Ok(crate::codec::prepend_length(res.as_slice()))
    }

    /// Reads a message from bytes that hold it without its length; bytes after
    /// it are left alone.
    pub fn deserialize_slice(bytes: &[u8]) -> (res: Result<S2CPlayPacket, PacketError>)
        ensures
            Self::decodes(bytes@, res),
    {
        assert(bytes@.skip(0) =~= bytes@);
        let (id, pos) = match read_varint_u32(bytes, 0) {
            Some(r) => r,
            None => return Err(PacketError::BadVarint),
        };
        if id == 1 {
            match read_three_usizes(bytes, pos) {
                Some((x, y, cell_type)) => Ok(S2CPlayPacket::UpdateCell { x, y, cell_type }),
                None => Err(PacketError::BadVarint),
            }
        } else if id == 2 {
            match read_packet_string(bytes, pos) {
                Ok((reason, _)) => Ok(S2CPlayPacket::Kick { reason }),
                Err(e) => Err(e),
            }
        } else {
            Ok(S2CPlayPacket::Unknown { packet_id: id })
        }
    }
}

/// A message kind number is read back from its encoding.
pub proof fn lemma_id_round_trip(id: nat, rest: Seq<u8>)
    requires
        id < 0x1_0000_0000,
    ensures
        decode_id(leb128(id) + rest) == Some((id, leb128(id).len())),
{
    lemma_pow128_five();
    lemma_varint_round_trip(id, rest, 5);
}

/// Ten bytes hold any 64-bit number.
proof fn lemma_pow128_ten()
    ensures
        pow128(10) == 0x40_0000_0000_0000_0000,
{
    reveal_with_fuel(pow128, 11);
}

/// A `usize` is read back from its encoding.
pub proof fn lemma_usize_round_trip(v: usize, rest: Seq<u8>)
    ensures
        decode_usize(leb128(v as nat) + rest) == Some((v as nat, leb128(v as nat).len())),
{
    lemma_pow128_five();
    lemma_pow128_ten();
    assert(usize::MAX == u32::MAX || usize::MAX == u64::MAX);
    assert(v < pow128(usize_varint_max()));
    lemma_varint_round_trip(v as nat, rest, usize_varint_max());
    assert((v as nat) % (usize::MAX as nat + 1) == v);
}

/// Two `usize` numbers are read back from their encodings.
pub proof fn lemma_two_usizes_round_trip(a: usize, b: usize, rest: Seq<u8>)
    ensures
        decode_usizes(leb128(a as nat) + leb128(b as nat) + rest, 2) == Some(seq![a as nat, b as nat]),
{
    reveal_with_fuel(decode_usizes, 3);
    let sa = leb128(a as nat);
    let sb = leb128(b as nat);
    let s = sa + sb + rest;
    assert(s =~= sa + (sb + rest));
    lemma_usize_round_trip(a, sb + rest);
    assert(s.skip(sa.len() as int) =~= sb + rest);
    lemma_usize_round_trip(b, rest);
    assert((sb + rest).skip(sb.len() as int) =~= rest);
    assert(decode_usizes(rest, 0) == Some(Seq::<nat>::empty()));
    assert(decode_usizes(s, 2).unwrap() =~= seq![a as nat, b as nat]);
}

/// Three `usize` numbers are read back from their encodings.
pub proof fn lemma_three_usizes_round_trip(a: usize, b: usize, c: usize, rest: Seq<u8>)
    ensures
        decode_usizes(three_usizes_bytes(a, b, c) + rest, 3) == Some(seq![a as nat, b as nat, c as nat]),
{
    let sa = leb128(a as nat);
    let tail = leb128(b as nat) + leb128(c as nat) + rest;
    let s = three_usizes_bytes(a, b, c) + rest;
    assert(s =~= sa + tail);
    lemma_usize_round_trip(a, tail);
    assert(s.skip(sa.len() as int) =~= tail);
    lemma_two_usizes_round_trip(b, c, rest);
    assert(decode_usizes(s, 3).unwrap() =~= seq![a as nat] + seq![b as nat, c as nat]);
}

/// Whether a string can travel as a string on the wire: its UTF-8 form is
/// shorter than four gibibytes.
pub open spec fn fits_on_wire(s: Seq<char>) -> bool {
    encode_utf8(s).len() < 0x1_0000_0000
}

impl S2CLoginPacket {
    /// Whether two messages say the same: same kind, same numbers, same text.
    pub open spec fn same_message(self, other: S2CLoginPacket) -> bool {
        match (self, other) {
            (S2CLoginPacket::SendVersion { server_version: a }, S2CLoginPacket::SendVersion { server_version: b }) => a@ == b@,
            (S2CLoginPacket::Kick { reason: a }, S2CLoginPacket::Kick { reason: b }) => a@ == b@,
            (S2CLoginPacket::SendVersion { .. }, _) => false,
            (S2CLoginPacket::Kick { .. }, _) => false,
            (_, S2CLoginPacket::SendVersion { .. }) => false,
            (_, S2CLoginPacket::Kick { .. }) => false,
            _ => self == other,
        }
    }

    /// Whether the message's text, if any, can travel on the wire.
    pub open spec fn text_fits(self) -> bool {
        match self {
            S2CLoginPacket::SendVersion { server_version } => fits_on_wire(server_version@),
            S2CLoginPacket::Kick { reason } => fits_on_wire(reason@),
            _ => true,
        }
    }
}

/// A message that the server writes during login is read back by the client
/// as the same message, whatever follows it.
pub proof fn lemma_s2c_login_round_trip(p: S2CLoginPacket, rest: Seq<u8>, r: Result<S2CLoginPacket, PacketError>)
    requires
        p.body() is Some,
        p.text_fits(),
    ensures
        S2CLoginPacket::decodes(p.body().unwrap() + rest, r) <==> (r matches Ok(q) && q.same_message(p)),
{
    let id = p.wire_id() as nat;
    let head = leb128(id);
    let s = p.body().unwrap() + rest;
    let tail = s.skip(head.len() as int);
    assert(s =~= head + tail);
    lemma_id_round_trip(id, tail);
    match p {
        S2CLoginPacket::SendVersion { server_version } => {
            assert(tail =~= string_bytes(server_version@) + rest);
            lemma_string_round_trip(server_version@, rest);
        },
        S2CLoginPacket::Kick { reason } => {
            assert(tail =~= string_bytes(reason@) + rest);
            lemma_string_round_trip(reason@, rest);
        },
        S2CLoginPacket::UpdateBoardSize { width, height } => {
            assert(tail =~= leb128(width as nat) + leb128(height as nat) + rest);
            lemma_two_usizes_round_trip(width, height, rest);
        },
        S2CLoginPacket::UpdateCell { x, y, cell_type } => {
            assert(tail =~= three_usizes_bytes(x, y, cell_type) + rest);
            lemma_three_usizes_round_trip(x, y, cell_type, rest);
        },
        _ => {},
    }
}

impl C2SLoginPacket {
    /// Whether two messages say the same: same kind, same text.
    pub open spec fn same_message(self, other: C2SLoginPacket) -> bool {
        match (self, other) {
            (
                C2SLoginPacket::RequestVersion { client_version: a },
                C2SLoginPacket::RequestVersion { client_version: b },
            ) => a@ == b@,
            (C2SLoginPacket::RequestVersion { .. }, _) => false,
            (_, C2SLoginPacket::RequestVersion { .. }) => false,
            _ => self == other,
        }
    }

    /// Whether the message's text, if any, can travel on the wire.
    pub open spec fn text_fits(self) -> bool {
        match self {
            C2SLoginPacket::RequestVersion { client_version } => fits_on_wire(client_version@),
            _ => true,
        }
    }
}

/// A message that a client writes during login is read back by the server
/// as the same message, whatever follows it.
pub proof fn lemma_c2s_login_round_trip(p: C2SLoginPacket, rest: Seq<u8>, r: Result<C2SLoginPacket, PacketError>)
    requires
        p.body() is Some,
        p.text_fits(),
    ensures
        C2SLoginPacket::decodes(p.body().unwrap() + rest, r) <==> (r matches Ok(q) && q.same_message(p)),
{
    let id = p.wire_id() as nat;
    let head = leb128(id);
    let s = p.body().unwrap() + rest;
    let tail = s.skip(head.len() as int);
    assert(s =~= head + tail);
    lemma_id_round_trip(id, tail);
    match p {
        C2SLoginPacket::RequestVersion { client_version } => {
            assert(tail =~= string_bytes(client_version@) + rest);
            lemma_string_round_trip(client_version@, rest);
        },
        _ => {},
    }
}

impl C2SPlayPacket {
    /// Whether two messages say the same.
    pub open spec fn same_message(self, other: C2SPlayPacket) -> bool {
        self == other
    }
}

/// A move that a client writes is read back by the server as the same move,
/// whatever follows it.
pub proof fn lemma_c2s_play_round_trip(p: C2SPlayPacket, rest: Seq<u8>, r: Result<C2SPlayPacket, PacketError>)
    requires
        p.body() is Some,
    ensures
        C2SPlayPacket::decodes(p.body().unwrap() + rest, r) <==> (r matches Ok(q) && q.same_message(p)),
{
    let id = p.wire_id() as nat;
    let head = leb128(id);
    let s = p.body().unwrap() + rest;
    let tail = s.skip(head.len() as int);
    assert(s =~= head + tail);
    lemma_id_round_trip(id, tail);
    match p {
        C2SPlayPacket::UpdateCell { x, y, cell_type } => {
            assert(tail =~= three_usizes_bytes(x, y, cell_type) + rest);
            lemma_three_usizes_round_trip(x, y, cell_type, rest);
        },
        _ => {},
    }
}

impl S2CPlayPacket {
    /// Whether two messages say the same: same kind, same numbers, same text.
    pub open spec fn same_message(self, other: S2CPlayPacket) -> bool {
        match (self, other) {
            (S2CPlayPacket::Kick { reason: a }, S2CPlayPacket::Kick { reason: b }) => a@ == b@,
            (S2CPlayPacket::Kick { .. }, _) => false,
            (_, S2CPlayPacket::Kick { .. }) => false,
            _ => self == other,
        }
    }

    /// Whether the message's text, if any, can travel on the wire.
    pub open spec fn text_fits(self) -> bool {
        match self {
            S2CPlayPacket::Kick { reason } => fits_on_wire(reason@),
            _ => true,
        }
    }
}

/// A message that the server writes during play is read back by the client
/// as the same message, whatever follows it.
pub proof fn lemma_s2c_play_round_trip(p: S2CPlayPacket, rest: Seq<u8>, r: Result<S2CPlayPacket, PacketError>)
    requires
        p.body() is Some,
        p.text_fits(),
    ensures
        S2CPlayPacket::decodes(p.body().unwrap() + rest, r) <==> (r matches Ok(q) && q.same_message(p)),
{
    let id = p.wire_id() as nat;
    let head = leb128(id);
    let s = p.body().unwrap() + rest;
    let tail = s.skip(head.len() as int);
    assert(s =~= head + tail);
    lemma_id_round_trip(id, tail);
    match p {
        S2CPlayPacket::UpdateCell { x, y, cell_type } => {
            assert(tail =~= three_usizes_bytes(x, y, cell_type) + rest);
            lemma_three_usizes_round_trip(x, y, cell_type, rest);
        },
        S2CPlayPacket::Kick { reason } => {
            assert(tail =~= string_bytes(reason@) + rest);
            lemma_string_round_trip(reason@, rest);
        },
        _ => {},
    }
}

/// A one-byte kind number is read back, whatever follows it.
proof fn lemma_small_id(id: u8, rest: Seq<u8>)
    requires
        id < 128,
    ensures
        leb128(id as nat) == seq![id],
        decode_id(seq![id] + rest) == Some((id as nat, 1nat)),
        (seq![id] + rest).skip(1) == rest,
{
    assert(leb128(id as nat) =~= seq![id]);
    lemma_id_round_trip(id as nat, rest);
    assert((seq![id] + rest).skip(1) =~= rest);
}

/// The numbers of a square update, x, then y, then the cell number, are read
/// back in that order after a one-byte kind number.
proof fn lemma_update_fields(id: u8, x: usize, y: usize, c: usize, rest: Seq<u8>)
    requires
        id < 128,
    ensures
        decode_id(seq![id] + leb128(x as nat) + leb128(y as nat) + leb128(c as nat) + rest) == Some((id as nat, 1nat)),
        decode_usizes((seq![id] + leb128(x as nat) + leb128(y as nat) + leb128(c as nat) + rest).skip(1), 3)
            == Some(seq![x as nat, y as nat, c as nat]),
{
    let tail = leb128(x as nat) + leb128(y as nat) + leb128(c as nat) + rest;
    assert(seq![id] + leb128(x as nat) + leb128(y as nat) + leb128(c as nat) + rest =~= seq![id] + tail);
    lemma_small_id(id, tail);
    assert(tail =~= three_usizes_bytes(x, y, c) + rest);
    lemma_three_usizes_round_trip(x, y, c, rest);
}

/// A text field, the length of its UTF-8 form and then that form, is read
/// back after a one-byte kind number.
proof fn lemma_text_field(id: u8, chars: Seq<char>, rest: Seq<u8>)
    requires
        id < 128,
        fits_on_wire(chars),
    ensures
        decode_id(seq![id] + leb128(encode_utf8(chars).len()) + encode_utf8(chars) + rest) == Some((id as nat, 1nat)),
        decode_string((seq![id] + leb128(encode_utf8(chars).len()) + encode_utf8(chars) + rest).skip(1))
            matches Ok((c, _)) && c == chars,
{
    let enc = encode_utf8(chars);
    let tail = leb128(enc.len()) + enc + rest;
    assert(seq![id] + leb128(enc.len()) + enc + rest =~= seq![id] + tail);
    lemma_small_id(id, tail);
    encode_utf8_valid_utf8(chars);
    encode_utf8_decode_utf8(chars);
    lemma_decode_string_of_parts(enc.len(), enc, rest);
}

/// A client's move goes on the wire as kind `0`, then x, then y, then the
/// cell number, and those bytes are read back as that move.
pub proof fn lemma_c2s_play_update_wire(x: usize, y: usize, c: usize, rest: Seq<u8>, r: Result<C2SPlayPacket, PacketError>)
    ensures
        (C2SPlayPacket::UpdateCell { x, y, cell_type: c }).body() == Some(
            seq![0u8] + leb128(x as nat) + leb128(y as nat) + leb128(c as nat),
        ),
        C2SPlayPacket::decodes(seq![0u8] + leb128(x as nat) + leb128(y as nat) + leb128(c as nat) + rest, r) <==> (
        r matches Ok(C2SPlayPacket::UpdateCell { x: x2, y: y2, cell_type: c2 }) && x2 == x && y2 == y && c2 == c),
{
    lemma_small_id(0, Seq::empty());
    assert(leb128(0) + three_usizes_bytes(x, y, c) =~= seq![0u8] + leb128(x as nat) + leb128(y as nat) + leb128(
        c as nat,
    ));
    lemma_update_fields(0, x, y, c, rest);
}

/// The server's square update during play goes on the wire as kind `1`, then
/// x, then y, then the cell number, and is read back as that update.
pub proof fn lemma_s2c_play_update_wire(x: usize, y: usize, c: usize, rest: Seq<u8>, r: Result<S2CPlayPacket, PacketError>)
    ensures
        (S2CPlayPacket::UpdateCell { x, y, cell_type: c }).body() == Some(
            seq![1u8] + leb128(x as nat) + leb128(y as nat) + leb128(c as nat),
        ),
        S2CPlayPacket::decodes(seq![1u8] + leb128(x as nat) + leb128(y as nat) + leb128(c as nat) + rest, r) <==> (
        r matches Ok(S2CPlayPacket::UpdateCell { x: x2, y: y2, cell_type: c2 }) && x2 == x && y2 == y && c2 == c),
{
    lemma_small_id(1, Seq::empty());
    assert(leb128(1) + three_usizes_bytes(x, y, c) =~= seq![1u8] + leb128(x as nat) + leb128(y as nat) + leb128(
        c as nat,
    ));
    lemma_update_fields(1, x, y, c, rest);
}

/// The server's square update during login goes on the wire as kind `4`,
/// then x, then y, then the cell number, and is read back as that update.
pub proof fn lemma_s2c_login_update_wire(x: usize, y: usize, c: usize, rest: Seq<u8>, r: Result<S2CLoginPacket, PacketError>)
    ensures
        (S2CLoginPacket::UpdateCell { x, y, cell_type: c }).body() == Some(
            seq![4u8] + leb128(x as nat) + leb128(y as nat) + leb128(c as nat),
        ),
        S2CLoginPacket::decodes(seq![4u8] + leb128(x as nat) + leb128(y as nat) + leb128(c as nat) + rest, r) <==> (
        r matches Ok(S2CLoginPacket::UpdateCell { x: x2, y: y2, cell_type: c2 }) && x2 == x && y2 == y && c2 == c),
{
    lemma_small_id(4, Seq::empty());
    assert(leb128(4) + three_usizes_bytes(x, y, c) =~= seq![4u8] + leb128(x as nat) + leb128(y as nat) + leb128(
        c as nat,
    ));
    lemma_update_fields(4, x, y, c, rest);
}

/// The board size goes on the wire as kind `3`, then the width, then the
/// height, and is read back as that size.
pub proof fn lemma_s2c_login_size_wire(w: usize, h: usize, rest: Seq<u8>, r: Result<S2CLoginPacket, PacketError>)
    ensures
        (S2CLoginPacket::UpdateBoardSize { width: w, height: h }).body() == Some(
            seq![3u8] + leb128(w as nat) + leb128(h as nat),
        ),
        S2CLoginPacket::decodes(seq![3u8] + leb128(w as nat) + leb128(h as nat) + rest, r) <==> (
        r matches Ok(S2CLoginPacket::UpdateBoardSize { width: w2, height: h2 }) && w2 == w && h2 == h),
{
    let tail = leb128(w as nat) + leb128(h as nat) + rest;
    lemma_small_id(3, tail);
    assert(seq![3u8] + leb128(w as nat) + leb128(h as nat) + rest =~= seq![3u8] + tail);
    lemma_two_usizes_round_trip(w, h, rest);
}

/// The end of the board transfer and the board request are single bytes,
/// kinds `5` and `1`, and are read back as such.
pub proof fn lemma_unit_messages_wire(
    rest: Seq<u8>,
    r: Result<S2CLoginPacket, PacketError>,
    q: Result<C2SLoginPacket, PacketError>,
)
    ensures
        (S2CLoginPacket::BoardSent {  }).body() == Some(seq![5u8]),
        S2CLoginPacket::decodes(seq![5u8] + rest, r) <==> r matches Ok(S2CLoginPacket::BoardSent {  }),
        (C2SLoginPacket::RequestBoard {  }).body() == Some(seq![1u8]),
        C2SLoginPacket::decodes(seq![1u8] + rest, q) <==> q matches Ok(C2SLoginPacket::RequestBoard {  }),
{
    lemma_small_id(5, rest);
    lemma_small_id(1, rest);
}

/// A client's version request goes on the wire as kind `0`, then the length
/// of the version's UTF-8 form, then that form, and is read back as a request
/// for that version.
pub proof fn lemma_c2s_login_version_wire(version: String, chars: Seq<char>, rest: Seq<u8>, r: Result<C2SLoginPacket, PacketError>)
    requires
        fits_on_wire(chars),
    ensures
        (C2SLoginPacket::RequestVersion { client_version: version }).body() == Some(
            seq![0u8] + leb128(encode_utf8(version@).len()) + encode_utf8(version@),
        ),
        C2SLoginPacket::decodes(seq![0u8] + leb128(encode_utf8(chars).len()) + encode_utf8(chars) + rest, r) <==> (
        r matches Ok(C2SLoginPacket::RequestVersion { client_version }) && client_version@ == chars),
{
    lemma_small_id(0, Seq::empty());
    assert(leb128(0) + string_bytes(version@) =~= seq![0u8] + leb128(encode_utf8(version@).len()) + encode_utf8(
        version@,
    ));
    lemma_text_field(0, chars, rest);
}

/// The server's version reply and its login kick go on the wire as kinds `2`
/// and `6`, then the length of the text's UTF-8 form, then that form, and are
/// read back with that text.
pub proof fn lemma_s2c_login_text_wire(text: String, chars: Seq<char>, rest: Seq<u8>, r: Result<S2CLoginPacket, PacketError>)
    requires
        fits_on_wire(chars),
    ensures
        (S2CLoginPacket::SendVersion { server_version: text }).body() == Some(
            seq![2u8] + leb128(encode_utf8(text@).len()) + encode_utf8(text@),
        ),
        (S2CLoginPacket::Kick { reason: text }).body() == Some(
            seq![6u8] + leb128(encode_utf8(text@).len()) + encode_utf8(text@),
        ),
        S2CLoginPacket::decodes(seq![2u8] + leb128(encode_utf8(chars).len()) + encode_utf8(chars) + rest, r) <==> (
        r matches Ok(S2CLoginPacket::SendVersion { server_version }) && server_version@ == chars),
        S2CLoginPacket::decodes(seq![6u8] + leb128(encode_utf8(chars).len()) + encode_utf8(chars) + rest, r) <==> (
        r matches Ok(S2CLoginPacket::Kick { reason }) && reason@ == chars),
{
    lemma_small_id(2, Seq::empty());
    lemma_small_id(6, Seq::empty());
    assert(leb128(2) + string_bytes(text@) =~= seq![2u8] + leb128(encode_utf8(text@).len()) + encode_utf8(text@));
    assert(leb128(6) + string_bytes(text@) =~= seq![6u8] + leb128(encode_utf8(text@).len()) + encode_utf8(text@));
    lemma_text_field(2, chars, rest);
    lemma_text_field(6, chars, rest);
}

/// The server's kick during play goes on the wire as kind `2`, then the
/// length of the reason's UTF-8 form, then that form, and is read back with
/// that reason.
pub proof fn lemma_s2c_play_kick_wire(text: String, chars: Seq<char>, rest: Seq<u8>, r: Result<S2CPlayPacket, PacketError>)
    requires
        fits_on_wire(chars),
    ensures
        (S2CPlayPacket::Kick { reason: text }).body() == Some(
            seq![2u8] + leb128(encode_utf8(text@).len()) + encode_utf8(text@),
        ),
        S2CPlayPacket::decodes(seq![2u8] + leb128(encode_utf8(chars).len()) + encode_utf8(chars) + rest, r) <==> (
        r matches Ok(S2CPlayPacket::Kick { reason }) && reason@ == chars),
{
    lemma_small_id(2, Seq::empty());
    assert(leb128(2) + string_bytes(text@) =~= seq![2u8] + leb128(encode_utf8(text@).len()) + encode_utf8(text@));
    lemma_text_field(2, chars, rest);
}

} // verus!
