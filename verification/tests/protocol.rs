use patstrap::protocol::{CommandClient, CommandServer, Reader};

#[test]
fn reader_reads_bytes_in_order() {
    let data = [1u8, 2, 3, 4, 5, 6];
    let mut r = Reader::new(&data);
    assert_eq!(r.u8(), Some(1));
    assert_eq!(r.u16(), Some(2 + 256 * 3));
    assert_eq!(r.take(2), Some(&[4u8, 5][..]));
    assert_eq!(r.rest(), Some(&[6u8][..]));
    assert_eq!(r.u8(), None);
    assert_eq!(r.rest(), Some(&[][..]));
}

#[test]
fn reader_u16_with_one_byte_left_consumes_it() {
    let data = [7u8];
    let mut r = Reader::new(&data);
    assert_eq!(r.u16(), None);
    assert_eq!(r.rest(), Some(&[][..]));
}

#[test]
fn server_command_is_hex_line() {
    let cmd = CommandServer::Haptic { channel: 1, strength: 255, duration: 1000 };
    assert_eq!(cmd.as_bytes(), b"01FF03E8\n".to_vec());
    let cmd = CommandServer::Haptic { channel: 0xab, strength: 0, duration: 50 };
    assert_eq!(cmd.as_bytes(), b"AB000032\n".to_vec());
    let cmd = CommandServer::Haptic { channel: 0, strength: 0, duration: 0xffff };
    assert_eq!(cmd.as_bytes(), b"0000FFFF\n".to_vec());
}

#[test]
fn server_lines_of_different_commands_differ() {
    let a = CommandServer::Haptic { channel: 1, strength: 2, duration: 3 };
    let b = CommandServer::Haptic { channel: 1, strength: 2, duration: 4 };
    assert_ne!(a.as_bytes(), b.as_bytes());
    assert_eq!(a.as_bytes().len(), 9);
}

#[test]
fn battery_frame_is_read() {
    let data = [2u8, 3, 87, 9];
    let mut r = Reader::new(&data);
    assert_eq!(CommandClient::from_bytes(&mut r), Some(CommandClient::Battery { level: 87 }));
    assert_eq!(r.rest(), Some(&[9u8][..]));
}

#[test]
fn info_frame_is_read() {
    let mut data = vec![1u8, 7, 2];
    data.extend_from_slice(b"Left");
    data.push(0xee);
    let mut r = Reader::new(&data);
    assert_eq!(
        CommandClient::from_bytes(&mut r),
        Some(CommandClient::Info { channel: 2, name: "Left".to_string() })
    );
    assert_eq!(r.rest(), Some(&[0xeeu8][..]));
}

#[test]
fn invalid_frame_consumes_header_only() {
    let data = [0u8, 9, 2, 3, 5];
    let mut r = Reader::new(&data);
    assert_eq!(CommandClient::from_bytes(&mut r), Some(CommandClient::Invalid));
    assert_eq!(r.rest(), Some(&[2u8, 3, 5][..]));
}

#[test]
fn unknown_or_short_frames_give_none() {
    let data = [5u8, 3, 1];
    let mut r = Reader::new(&data);
    assert_eq!(CommandClient::from_bytes(&mut r), None);
    assert_eq!(r.rest(), Some(&[1u8][..]));

    let data = [2u8, 4, 1];
    let mut r = Reader::new(&data);
    assert_eq!(CommandClient::from_bytes(&mut r), None);

    let data = [2u8, 3];
    let mut r = Reader::new(&data);
    assert_eq!(CommandClient::from_bytes(&mut r), None);
    assert_eq!(r.rest(), Some(&[][..]));

    let data = [1u8];
    let mut r = Reader::new(&data);
    assert_eq!(CommandClient::from_bytes(&mut r), None);

    let data: [u8; 0] = [];
    let mut r = Reader::new(&data);
    assert_eq!(CommandClient::from_bytes(&mut r), None);
}

#[test]
fn malformed_frames_are_detected() {
    let data = [1u8, 9, 0, b'a'];
    assert!(Reader::new(&data).front_malformed());
    let data = [1u8, 5, 0, 0xff, 0xfe];
    assert!(Reader::new(&data).front_malformed());
    let data = [1u8, 5, 0, b'o', b'k'];
    assert!(!Reader::new(&data).front_malformed());
    let data = [1u8, 9];
    assert!(!Reader::new(&data).front_malformed());
}

#[test]
fn decode_all_reads_frames_in_turn() {
    let mut data = vec![2u8, 3, 40, 1, 6, 0];
    data.extend_from_slice(b"Top");
    data.extend_from_slice(&[0, 2, 2, 3, 41, 7, 7]);
    let (cmds, malformed) = CommandClient::decode_all(&data);
    assert_eq!(
        cmds,
        vec![
            CommandClient::Battery { level: 40 },
            CommandClient::Info { channel: 0, name: "Top".to_string() },
            CommandClient::Invalid,
            CommandClient::Battery { level: 41 },
        ]
    );
    assert!(!malformed);
}

#[test]
fn decode_all_stops_at_malformed_frame() {
    let data = [2u8, 3, 40, 1, 6, 0, 0xc3, 0x28, 0x41, 2, 3, 1];
    let (cmds, malformed) = CommandClient::decode_all(&data);
    assert_eq!(cmds, vec![CommandClient::Battery { level: 40 }]);
    assert!(malformed);
}

#[test]
fn decode_all_of_nothing_is_empty() {
    let (cmds, malformed) = CommandClient::decode_all(&[]);
    assert!(cmds.is_empty());
    assert!(!malformed);
}

#[test]
fn utf8_names_are_decoded() {
    let mut data = vec![1u8, 5, 3];
    data.extend_from_slice("é".as_bytes());
    let mut r = Reader::new(&data);
    assert_eq!(
        CommandClient::from_bytes(&mut r),
        Some(CommandClient::Info { channel: 3, name: "é".to_string() })
    );
}
