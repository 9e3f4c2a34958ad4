//! Tests for the length-prefixed section codec.

use encrypted_backup::codec::decode_section_size;
use encrypted_backup::codec::encode_section_size;
use encrypted_backup::codec::get_chunk_size;
use encrypted_backup::codec::read_section;
use encrypted_backup::codec::write_section;
use encrypted_backup::codec::LEN_SIZE;
use encrypted_backup::types::BackupError;
use encrypted_backup::types::IoErrorKind;

#[test]
fn test_encode_section_size() {
    assert_eq!(encode_section_size(0), [0, 0, 0, 0, 0]);
    assert_eq!(encode_section_size(1), [0, 0, 0, 0, 1]);
    assert_eq!(encode_section_size(255), [0, 0, 0, 0, 255]);
    assert_eq!(encode_section_size(256), [0, 0, 0, 1, 0]);
    assert_eq!(encode_section_size(257), [0, 0, 0, 1, 1]);
    assert_eq!(encode_section_size(4_311_810_305), [1, 1, 1, 1, 1]);
    assert_eq!(encode_section_size(4_328_719_365), [1, 2, 3, 4, 5]);
    assert_eq!(encode_section_size(47_362_409_218), [11, 7, 5, 3, 2]);
    assert_eq!(
        encode_section_size(1_099_511_627_775),
        [255, 255, 255, 255, 255]
    );
}

#[test]
fn test_decode_section_size() {
    assert_eq!(decode_section_size(&[0, 0, 0, 0, 0]), 0);
    assert_eq!(decode_section_size(&[0, 0, 0, 0, 1]), 1);
    assert_eq!(decode_section_size(&[0, 0, 0, 0, 255]), 255);
    assert_eq!(decode_section_size(&[0, 0, 0, 1, 0]), 256);
    assert_eq!(decode_section_size(&[0, 0, 0, 1, 1]), 257);
    assert_eq!(decode_section_size(&[1, 1, 1, 1, 1]), 4_311_810_305);
    assert_eq!(decode_section_size(&[1, 2, 3, 4, 5]), 4_328_719_365);
    assert_eq!(decode_section_size(&[11, 7, 5, 3, 2]), 47_362_409_218);
    assert_eq!(
        decode_section_size(&[255, 255, 255, 255, 255]),
        1_099_511_627_775
    );
}

#[test]
fn decode_inverts_encode() {
    for size in [0, 1, 255, 256, 1023, 1024, 65536, 1 << 30, (1u64 << 40) - 1] {
        assert_eq!(decode_section_size(&encode_section_size(size as usize)), size);
    }
}

#[test]
fn section_write_read_round_trip() {
    let mut buffer: Vec<u8> = Vec::new();
    write_section(&mut buffer, b"hello");
    write_section(&mut buffer, b"");
    write_section(&mut buffer, b"world!");
    assert_eq!(buffer.len(), 3 * LEN_SIZE + 5 + 0 + 6);

    let (first, next) = read_section(&buffer, 0).unwrap().unwrap();
    assert_eq!(first, b"hello");
    let (second, next) = read_section(&buffer, next).unwrap().unwrap();
    assert_eq!(second, b"");
    let (third, next) = read_section(&buffer, next).unwrap().unwrap();
    assert_eq!(third, b"world!");
    assert!(read_section(&buffer, next).unwrap().is_none());
}

#[test]
fn read_section_partial_prefix_is_eof() {
    let buffer = [0u8, 0, 0];
    let r = read_section(&buffer, 0);
    assert!(matches!(
        r,
        Err(BackupError::IoError(IoErrorKind::UnexpectedEof))
    ));
}

#[test]
fn read_section_short_payload_is_eof() {
    let mut buffer: Vec<u8> = Vec::new();
    write_section(&mut buffer, b"some payload");
    buffer.truncate(buffer.len() - 1);
    let r = read_section(&buffer, 0);
    assert!(matches!(
        r,
        Err(BackupError::IoError(IoErrorKind::UnexpectedEof))
    ));
}

#[test]
fn chunk_size_of_short_stream_is_eof() {
    let r = get_chunk_size(&[1, 2, 3]);
    assert!(matches!(
        r,
        Err(BackupError::IoError(IoErrorKind::UnexpectedEof))
    ));
}

#[test]
fn chunk_size_reads_first_prefix() {
    let mut buffer: Vec<u8> = Vec::new();
    write_section(&mut buffer, &[7u8; 300]);
    write_section(&mut buffer, &[9u8; 10]);
    assert_eq!(get_chunk_size(&buffer).unwrap(), 300);
}
