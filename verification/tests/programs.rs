use wavgen::big_wav::{build_file_bytes, generate_wave as fixed_wave, DIM};
use wavgen::choice_of_wave::{file_size as stereo_file_size, generate_file_wave_vec, generate_wave as stereo_wave};
use wavgen::mono8::{build_file, file_size as mono_file_size, is_valid_file_size};

#[test]
fn fixed_wave_values() {
    let mut data = vec![0x80u8; 30];
    fixed_wave(&mut data, 25);
    assert_eq!(data[0], 18);
    assert_eq!(data[11], 128);
    assert_eq!(data[21], 228);
    assert_eq!(data[22], 18);
    assert_eq!(data[24], 38);
    assert_eq!(&data[25..], &[0x80u8; 5]);
}

#[test]
fn fixed_wave_is_periodic() {
    let mut data = vec![0u8; 100];
    fixed_wave(&mut data, 100);
    for i in 0..78 {
        assert_eq!(data[i], data[i + 22]);
        assert!(data[i] >= 18 && data[i] <= 228);
    }
}

#[test]
fn fixed_file() {
    let f = build_file_bytes();
    assert_eq!(f.len(), 44 + DIM);
    assert_eq!(&f[0..4], b"RIFF");
    assert_eq!(u32::from_le_bytes([f[4], f[5], f[6], f[7]]) as usize, f.len() - 8);
    assert_eq!(u32::from_le_bytes([f[24], f[25], f[26], f[27]]), 22050);
    assert_eq!(u32::from_le_bytes([f[40], f[41], f[42], f[43]]) as usize, DIM);
    assert_eq!(f[44], 18);
    assert_eq!(f[44 + 21], 228);
    assert_eq!(f[f.len() - 1], (128 + ((DIM - 1) % 22) as i32 * 10 - 110) as u8);
}

#[test]
fn stereo_sizes() {
    assert_eq!(stereo_file_size(0), 44);
    assert_eq!(stereo_file_size(1), 192044);
    assert_eq!(stereo_file_size(2796), 44 + 2796 * 192000);
}

#[test]
fn stereo_frames_duplicate_samples() {
    assert_eq!(stereo_wave(&[1, -2]), vec![1, 0, 1, 0, 0xFE, 0xFF, 0xFE, 0xFF]);
    assert_eq!(stereo_wave(&[]), Vec::<u8>::new());
    assert_eq!(stereo_wave(&[-32768, 32767]), vec![0, 0x80, 0, 0x80, 0xFF, 0x7F, 0xFF, 0x7F]);
}

#[test]
fn stereo_file() {
    let samples: Vec<i16> = (0..48000).map(|k| (k % 1000) as i16 - 500).collect();
    let f = generate_file_wave_vec(1, &samples);
    assert_eq!(f.len(), 192044);
    assert_eq!(u32::from_le_bytes([f[40], f[41], f[42], f[43]]), 192000);
    for k in [0usize, 1, 999, 47999] {
        let left = i16::from_le_bytes([f[44 + 4 * k], f[45 + 4 * k]]);
        let right = i16::from_le_bytes([f[46 + 4 * k], f[47 + 4 * k]]);
        assert_eq!(left, samples[k]);
        assert_eq!(right, samples[k]);
    }
    let mut fmt: Vec<u8> = b"fmt ".to_vec();
    fmt.extend_from_slice(&[16, 0, 0, 0, 1, 0, 2, 0]);
    fmt.extend_from_slice(&48000u32.to_le_bytes());
    fmt.extend_from_slice(&192000u32.to_le_bytes());
    fmt.extend_from_slice(&[4, 0, 16, 0]);
    assert_eq!(&f[12..36], &fmt[..]);
    assert_eq!((f.len() - 44) % 4, 0);
    let empty = generate_file_wave_vec(0, &[]);
    assert_eq!(empty.len(), 44);
    assert_eq!(&empty[12..36], &fmt[..]);
}

#[test]
fn mono_sizes_and_file() {
    assert_eq!(mono_file_size(0), 44);
    assert_eq!(mono_file_size(3), 44 + 3 * 44100);
    let data = vec![7u8; 44100];
    let f = build_file(1, data);
    assert_eq!(f.len(), 44144);
    assert_eq!(u32::from_le_bytes([f[4], f[5], f[6], f[7]]), 44136);
    assert_eq!(u32::from_le_bytes([f[28], f[29], f[30], f[31]]), 44100);
    assert_eq!(f[44], 7);
    assert_eq!(f[44143], 7);
}

#[test]
fn file_size_threshold() {
    assert!(!is_valid_file_size(0));
    assert!(!is_valid_file_size(43));
    assert!(is_valid_file_size(44));
    assert!(is_valid_file_size(45));
    assert!(is_valid_file_size(mono_file_size(0)));
    assert!(is_valid_file_size(u32::MAX));
}
