use wavgen::le_bytes::{i16_from_le_bytes, i16_to_le_bytes, u16_to_le_bytes, u32_to_le_bytes};
use wavgen::wav::wav_header_bytes;

#[test]
fn u32_bytes_match_std() {
    for x in [0u32, 1, 255, 256, 0x1234_5678, 44100, 192000, u32::MAX] {
        assert_eq!(u32_to_le_bytes(x), x.to_le_bytes().to_vec());
    }
}

#[test]
fn u16_bytes_match_std() {
    for x in [0u16, 1, 255, 256, 0xBEEF, u16::MAX] {
        assert_eq!(u16_to_le_bytes(x), x.to_le_bytes().to_vec());
    }
}

#[test]
fn i16_bytes_match_std() {
    for x in [0i16, 1, -1, 127, -128, 32767, -32768, 12345, -12345] {
        assert_eq!(i16_to_le_bytes(x), x.to_le_bytes().to_vec());
        let b = x.to_le_bytes();
        assert_eq!(i16_from_le_bytes(b[0], b[1]), x);
    }
}

#[test]
fn i16_from_bytes_edges() {
    assert_eq!(i16_from_le_bytes(0x00, 0x80), -32768);
    assert_eq!(i16_from_le_bytes(0xFF, 0x7F), 32767);
    assert_eq!(i16_from_le_bytes(0xFF, 0xFF), -1);
}

#[test]
fn mono_header_bytes() {
    let h = wav_header_bytes(1, 44100, 8, 44 + 44100);
    let expected: Vec<u8> = vec![
        b'R', b'I', b'F', b'F', 0x68, 0xAC, 0x00, 0x00, b'W', b'A', b'V', b'E',
        b'f', b'm', b't', b' ', 0x10, 0, 0, 0, 0x01, 0x00, 0x01, 0x00,
        0x44, 0xAC, 0x00, 0x00, 0x44, 0xAC, 0x00, 0x00, 0x01, 0x00, 0x08, 0x00,
        b'd', b'a', b't', b'a', 0x44, 0xAC, 0x00, 0x00,
    ];
    assert_eq!(h, expected);
}

#[test]
fn stereo_header_fields() {
    let size: u32 = 44 + 192000;
    let h = wav_header_bytes(2, 48000, 16, size);
    assert_eq!(h.len(), 44);
    assert_eq!(u32::from_le_bytes([h[4], h[5], h[6], h[7]]), size - 8);
    assert_eq!(u16::from_le_bytes([h[22], h[23]]), 2);
    assert_eq!(u32::from_le_bytes([h[24], h[25], h[26], h[27]]), 48000);
    assert_eq!(u32::from_le_bytes([h[28], h[29], h[30], h[31]]), 192000);
    assert_eq!(u16::from_le_bytes([h[32], h[33]]), 4);
    assert_eq!(u16::from_le_bytes([h[34], h[35]]), 16);
    assert_eq!(u32::from_le_bytes([h[40], h[41], h[42], h[43]]), size - 44);
}

#[test]
fn empty_file_header() {
    let h = wav_header_bytes(1, 22050, 8, 44);
    assert_eq!(u32::from_le_bytes([h[4], h[5], h[6], h[7]]), 36);
    assert_eq!(u32::from_le_bytes([h[40], h[41], h[42], h[43]]), 0);
}
