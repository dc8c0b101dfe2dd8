use tictactoe::codec::{prepend_length, read_packet_string, write_packet_string, FrameLengthReader, FrameStep, PacketError};
use tictactoe::protocol::{C2SLoginPacket, C2SPlayPacket, S2CLoginPacket, S2CPlayPacket};

fn frame_length(bytes: &[u8]) -> (Result<u32, PacketError>, usize) {
    let mut reader = FrameLengthReader::new();
    for (i, b) in bytes.iter().enumerate() {
        match reader.push(*b) {
            FrameStep::NeedMore(r) => reader = r,
            FrameStep::Done(res) => return (res, i + 1),
        }
    }
    (Ok(reader.interrupted()), bytes.len())
}

#[test]
fn strings_are_length_prefixed() {
    let mut buf = vec![9u8];
    write_packet_string(&mut buf, "héllo");
    assert_eq!(buf, vec![9, 6, b'h', 0xc3, 0xa9, b'l', b'l', b'o']);
    let (s, end) = read_packet_string(&buf, 1).unwrap();
    assert_eq!(s, "héllo");
    assert_eq!(end, 8);
}

#[test]
fn short_or_bad_strings_are_refused() {
    assert_eq!(read_packet_string(&[5, b'a'], 0).unwrap_err(), PacketError::Truncated);
    assert_eq!(read_packet_string(&[1, 0xff], 0).unwrap_err(), PacketError::BadUtf8);
    assert_eq!(read_packet_string(&[], 0).unwrap_err(), PacketError::BadVarint);
    assert_eq!(read_packet_string(&[0x80, 0x80], 0).unwrap_err(), PacketError::BadVarint);
    assert_eq!(read_packet_string(&[0x80, 0x80, 0x80, 0x80, 0x80, 0x01], 0).unwrap_err(), PacketError::BadVarint);
}

#[test]
fn long_lengths_take_several_bytes() {
    let body = vec![7u8; 300];
    let framed = prepend_length(&body);
    assert_eq!(&framed[..2], &[0xac, 0x02]);
    assert_eq!(framed.len(), 302);
    assert_eq!(frame_length(&framed), (Ok(300), 2));
}

#[test]
fn frame_lengths_are_read_back() {
    assert_eq!(frame_length(&[0x05]), (Ok(5), 1));
    assert_eq!(frame_length(&[0x80, 0x80, 0x80, 0x80, 0x80]), (Ok(0), 5));
    assert_eq!(frame_length(&[0xff, 0xff, 0xff, 0xff, 0x07]), (Ok(0x7fff_ffff), 5));
    assert_eq!(frame_length(&[0xff, 0xff, 0xff, 0xff, 0x0f]), (Err(PacketError::NegativeLength), 5));
    assert_eq!(frame_length(&[0x80]), (Ok(0), 1));
}

#[test]
fn version_request_on_the_wire() {
    let p = C2SLoginPacket::RequestVersion { client_version: "1.0".to_string() };
    let bytes = p.serialize().unwrap();
    assert_eq!(bytes, vec![5, 0, 3, b'1', b'.', b'0']);
    match C2SLoginPacket::deserialize_slice(&bytes[1..]).unwrap() {
        C2SLoginPacket::RequestVersion { client_version } => assert_eq!(client_version, "1.0"),
        other => panic!("{:?}", other),
    }
    assert_eq!(C2SLoginPacket::RequestBoard {}.serialize().unwrap(), vec![1, 1]);
    assert_eq!(p.packet_id(), 0);
}

#[test]
fn unknown_packets_are_not_written() {
    assert_eq!(C2SLoginPacket::Unknown { packet_id: 2 }.serialize().unwrap_err(), PacketError::UnknownPacket);
    assert_eq!(S2CLoginPacket::Unknown { packet_id: 7 }.serialize().unwrap_err(), PacketError::UnknownPacket);
    assert_eq!(C2SPlayPacket::Unknown { packet_id: 1 }.serialize().unwrap_err(), PacketError::UnknownPacket);
    assert_eq!(S2CPlayPacket::Unknown { packet_id: 3 }.serialize().unwrap_err(), PacketError::UnknownPacket);
}

#[test]
fn unknown_kinds_are_read_as_unknown() {
    assert!(matches!(C2SLoginPacket::deserialize_slice(&[9]), Ok(C2SLoginPacket::Unknown { packet_id: 9 })));
    assert!(matches!(S2CLoginPacket::deserialize_slice(&[0]), Ok(S2CLoginPacket::Unknown { packet_id: 0 })));
    assert!(matches!(C2SPlayPacket::deserialize_slice(&[5]), Ok(C2SPlayPacket::Unknown { packet_id: 5 })));
    assert!(matches!(S2CPlayPacket::deserialize_slice(&[0]), Ok(S2CPlayPacket::Unknown { packet_id: 0 })));
    assert_eq!(C2SLoginPacket::deserialize_slice(&[]).unwrap_err(), PacketError::BadVarint);
}

#[test]
fn board_updates_on_the_wire() {
    let p = S2CLoginPacket::UpdateCell { x: 1, y: 300, cell_type: 2 };
    let bytes = p.serialize().unwrap();
    assert_eq!(bytes, vec![5, 4, 1, 0xac, 0x02, 2]);
    assert!(matches!(
        S2CLoginPacket::deserialize_slice(&bytes[1..]),
        Ok(S2CLoginPacket::UpdateCell { x: 1, y: 300, cell_type: 2 })
    ));
    let size = S2CLoginPacket::UpdateBoardSize { width: 3, height: 3 }.serialize().unwrap();
    assert_eq!(size, vec![3, 3, 3, 3]);
    assert!(matches!(
        S2CLoginPacket::deserialize_slice(&size[1..]),
        Ok(S2CLoginPacket::UpdateBoardSize { width: 3, height: 3 })
    ));
    assert_eq!(S2CLoginPacket::BoardSent {}.serialize().unwrap(), vec![1, 5]);
    assert_eq!(S2CLoginPacket::UpdateCell { x: 0, y: 0, cell_type: 0 }.packet_id(), 4);
    assert_eq!(S2CLoginPacket::deserialize_slice(&[4, 1, 2]).unwrap_err(), PacketError::BadVarint);
}

#[test]
fn kicks_and_versions_on_the_wire() {
    let kick = S2CLoginPacket::Kick { reason: "no".to_string() }.serialize().unwrap();
    assert_eq!(kick, vec![4, 6, 2, b'n', b'o']);
    match S2CLoginPacket::deserialize_slice(&kick[1..]).unwrap() {
        S2CLoginPacket::Kick { reason } => assert_eq!(reason, "no"),
        other => panic!("{:?}", other),
    }
    let v = S2CLoginPacket::SendVersion { server_version: "2".to_string() }.serialize().unwrap();
    assert_eq!(v, vec![3, 2, 1, b'2']);
    let play_kick = S2CPlayPacket::Kick { reason: "x".to_string() }.serialize().unwrap();
    assert_eq!(play_kick, vec![3, 2, 1, b'x']);
    match S2CPlayPacket::deserialize_slice(&play_kick[1..]).unwrap() {
        S2CPlayPacket::Kick { reason } => assert_eq!(reason, "x"),
        other => panic!("{:?}", other),
    }
}

#[test]
fn moves_on_the_wire() {
    let mv = C2SPlayPacket::UpdateCell { x: 2, y: 1, cell_type: 1 }.serialize().unwrap();
    assert_eq!(mv, vec![4, 0, 2, 1, 1]);
    assert!(matches!(
        C2SPlayPacket::deserialize_slice(&mv[1..]),
        Ok(C2SPlayPacket::UpdateCell { x: 2, y: 1, cell_type: 1 })
    ));
    let echo = S2CPlayPacket::UpdateCell { x: 2, y: 1, cell_type: 0 }.serialize().unwrap();
    assert_eq!(echo, vec![4, 1, 2, 1, 0]);
    assert!(matches!(
        S2CPlayPacket::deserialize_slice(&echo[1..]),
        Ok(S2CPlayPacket::UpdateCell { x: 2, y: 1, cell_type: 0 })
    ));
}
