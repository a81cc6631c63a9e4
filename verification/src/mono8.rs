//! A mono 8-bit file at 44100 Hz, the rate of CD sound, whose length the user gives in
//! seconds: one byte per sample.
use vstd::prelude::*;
use crate::wav::{wav_file, wav_header_bytes, byte_rate, HEADER_SIZE};

verus! {

/// Samples per second.
pub const SAMPLE_RATE: u32 = 44100;

/// The durations whose file size fits in the 32-bit size fields.
pub open spec fn duration_fits(duration_sec: u32) -> bool {
    44 + duration_sec * 44100 <= u32::MAX
}

/// Bytes of a file of `duration_sec` seconds: the header, then one byte per sample.
pub open spec fn spec_file_size(duration_sec: u32) -> int {
    44 + duration_sec * 44100
}

/// The size in bytes of a file of `duration_sec` seconds.
pub fn file_size(duration_sec: u32) -> (size: u32)
    requires
        duration_fits(duration_sec),
    ensures
        size == spec_file_size(duration_sec),
        size - 44 == duration_sec * byte_rate(1, 44100, 8),
{
    HEADER_SIZE + (duration_sec * SAMPLE_RATE * 1)
}

/// Whether a file size that the user typed is taken: from 44 to 4294967295, that is, at
/// least the 44 bytes of the header (a file of 0 seconds is the header alone).
pub fn is_valid_file_size(size: u32) -> (ok: bool)
    ensures
        ok == (size >= 44),
{
    size >= 44
}

/// The whole file of `duration_sec` seconds: the header of a mono 8-bit 44100 Hz file, then
/// `data`, one byte per sample.
pub fn build_file(duration_sec: u32, data: Vec<u8>) -> (r: Vec<u8>)
    requires
        duration_fits(duration_sec),
        data@.len() == duration_sec * 44100,
    ensures
        r@ == wav_file(1, 44100, 8, data@),
        r@.len() == spec_file_size(duration_sec),
{
    let size = file_size(duration_sec);
    let mut r = wav_header_bytes(1, SAMPLE_RATE, 8, size);
    let mut data = data;
    r.append(&mut data);
    r
}

} // verus!
