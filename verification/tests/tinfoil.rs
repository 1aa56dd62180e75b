use ironfoil::bytes::{decode_le, encode_le};
use ironfoil::tinfoil::{
    command_kind, is_nintendo_switch, list_header, parse_command_header, parse_file_range_header,
    path_message, response_header, CommandHeader, CommandKind, FileRangeHeader, RangeTransfer,
    FILE_CHUNK_LEN,
};

#[test]
fn little_endian_bytes() {
    assert_eq!(encode_le(0x0102_0304_0506_0708, 8), vec![8, 7, 6, 5, 4, 3, 2, 1]);
    assert_eq!(encode_le(0x1_0000_0005, 4), vec![5, 0, 0, 0]);
    assert_eq!(encode_le(42, 0), Vec::<u8>::new());
    assert_eq!(encode_le(u64::MAX, 8), u64::MAX.to_le_bytes().to_vec());
    let buf = [9u8, 0x08, 0x07, 0x06, 0x05, 0x04, 0x03, 0x02, 0x01];
    assert_eq!(decode_le(&buf, 1, 8), 0x0102_0304_0506_0708);
    assert_eq!(decode_le(&buf, 0, 2), 0x0809);
    assert_eq!(decode_le(&buf, 3, 0), 0);
}

#[test]
fn switch_ids() {
    assert!(is_nintendo_switch(0x57e, 0x3000));
    assert!(!is_nintendo_switch(0x57e, 0x2000));
    assert!(!is_nintendo_switch(0x1234, 0x3000));
}

#[test]
fn list_header_and_path_messages() {
    let paths = vec!["/g/a.nsp".to_string(), "/g/é.xci".to_string()];
    let header = list_header(&paths);
    // 8 + 1 and 9 (é is two bytes) + 1
    assert_eq!(header, vec![b"TUL0".to_vec(), vec![19, 0, 0, 0], vec![0; 8]]);
    assert_eq!(path_message(&paths[0]), b"/g/a.nsp\n".to_vec());
    assert_eq!(path_message(&paths[1]), "/g/é.xci\n".as_bytes().to_vec());
    let empty = list_header(&Vec::new());
    assert_eq!(empty[1], vec![0, 0, 0, 0]);
}

#[test]
fn command_headers() {
    let mut buf = vec![0u8; 32];
    buf[..4].copy_from_slice(b"TUC0");
    buf[4] = 0;
    buf[8..12].copy_from_slice(&1u32.to_le_bytes());
    buf[12..20].copy_from_slice(&0x1234_5678_9abc_u64.to_le_bytes());
    assert_eq!(
        parse_command_header(&buf),
        CommandHeader::Command { command_type: 0, command_id: 1, data_size: 0x1234_5678_9abc }
    );
    buf[2] = b'L';
    assert_eq!(parse_command_header(&buf), CommandHeader::BadMagic);
    assert_eq!(parse_command_header(b"XXXX"), CommandHeader::BadMagic);
}

#[test]
fn command_kinds() {
    assert_eq!(command_kind(0), CommandKind::Exit);
    assert_eq!(command_kind(1), CommandKind::FileRange);
    assert_eq!(command_kind(2), CommandKind::Unknown);
    assert_eq!(command_kind(u32::MAX), CommandKind::Unknown);
}

#[test]
fn file_range_headers() {
    let mut buf = vec![0u8; 40];
    buf[..8].copy_from_slice(&3_000_000u64.to_le_bytes());
    buf[8..16].copy_from_slice(&0x10u64.to_le_bytes());
    buf[16..24].copy_from_slice(&12u64.to_le_bytes());
    assert_eq!(
        parse_file_range_header(&buf),
        FileRangeHeader { range_size: 3_000_000, range_offset: 0x10, name_len: 12 }
    );
}

#[test]
fn response_headers() {
    let r = response_header(0x0102_0304);
    assert_eq!(
        r,
        vec![
            b"TUC0".to_vec(),
            vec![0],
            vec![0, 0, 0],
            vec![1, 0, 0, 0],
            vec![4, 3, 2, 1, 0, 0, 0, 0],
            vec![0; 12],
        ]
    );
    let size = decode_le(&r[4], 0, 8);
    assert_eq!(size, 0x0102_0304);
}

#[test]
fn range_transfer_chunks() {
    let mut t = RangeTransfer::new(2 * FILE_CHUNK_LEN + 5);
    assert_eq!(t.next_chunk(), Some(FILE_CHUNK_LEN));
    assert_eq!(t.next_chunk(), Some(FILE_CHUNK_LEN));
    assert_eq!(t.next_chunk(), Some(5));
    assert!(t.is_done());
    assert_eq!(t.sent(), 2 * FILE_CHUNK_LEN + 5);
    assert_eq!(t.next_chunk(), None);

    let mut exact = RangeTransfer::new(FILE_CHUNK_LEN);
    assert_eq!(exact.next_chunk(), Some(FILE_CHUNK_LEN));
    assert_eq!(exact.next_chunk(), None);

    let mut empty = RangeTransfer::new(0);
    assert!(empty.is_done());
    assert_eq!(empty.next_chunk(), None);

    let mut big = RangeTransfer::new(u64::MAX);
    assert_eq!(big.next_chunk(), Some(FILE_CHUNK_LEN));
    assert_eq!(big.sent(), FILE_CHUNK_LEN);
}
