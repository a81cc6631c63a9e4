//! The 44-byte header of a PCM WAV file: a RIFF chunk that announces a WAVE form, a
//! 16-byte "fmt " chunk, and the prefix of the "data" chunk.
use vstd::prelude::*;
use crate::le_bytes::{le_u16, le_u32, u16_value, u32_value, lemma_u16_roundtrip, lemma_u32_roundtrip, u16_to_le_bytes, u32_to_le_bytes};

verus! {

/// Size of the header in bytes: what precedes the samples in every file built here.
pub const HEADER_SIZE: u32 = 44;

/// "RIFF", the Resource Interchange File Format tag.
pub open spec fn tag_riff() -> Seq<u8> {
    seq![82u8, 73u8, 70u8, 70u8]
}

/// "WAVE", the form type of the RIFF chunk.
pub open spec fn tag_wave() -> Seq<u8> {
    seq![87u8, 65u8, 86u8, 69u8]
}

/// "fmt ", the tag of the format chunk.
pub open spec fn tag_fmt() -> Seq<u8> {
    seq![102u8, 109u8, 116u8, 32u8]
}

/// "data", the tag of the chunk that holds the samples.
pub open spec fn tag_data() -> Seq<u8> {
    seq![100u8, 97u8, 116u8, 97u8]
}

/// Bytes to read per second: sample rate times bytes per block.
pub open spec fn byte_rate(channels: u16, sample_rate: u32, bits_per_sample: u16) -> int {
    sample_rate * channels * bits_per_sample / 8
}

/// Bytes of one sample over all channels.
pub open spec fn block_align(channels: u16, bits_per_sample: u16) -> int {
    channels * bits_per_sample / 8
}

/// The format parameters for which the header's derived fields fit their widths.
pub open spec fn format_fits(channels: u16, sample_rate: u32, bits_per_sample: u16) -> bool {
    &&& channels * bits_per_sample <= u16::MAX
    &&& sample_rate * channels <= u32::MAX
    &&& sample_rate * channels * bits_per_sample <= u32::MAX
}

/// The header of a PCM file of `file_size` bytes in all: the RIFF size is the file size
/// minus the 8 bytes of "RIFF" and the size itself; the data size is the file size minus
/// the whole header.
pub open spec fn wav_header(
    channels: u16,
    sample_rate: u32,
    bits_per_sample: u16,
    file_size: u32,
) -> Seq<u8> {
    tag_riff() + le_u32((file_size - 8) as u32) + tag_wave() + tag_fmt() + le_u32(16) + le_u16(1)
        + le_u16(channels) + le_u32(sample_rate) + le_u32(
        byte_rate(channels, sample_rate, bits_per_sample) as u32,
    ) + le_u16(block_align(channels, bits_per_sample) as u16) + le_u16(bits_per_sample)
        + tag_data() + le_u32((file_size - 44) as u32)
}

/// A whole file: the header for `data` followed by `data`.
pub open spec fn wav_file(
    channels: u16,
    sample_rate: u32,
    bits_per_sample: u16,
    data: Seq<u8>,
) -> Seq<u8> {
    wav_header(channels, sample_rate, bits_per_sample, (data.len() + 44) as u32) + data
}

/// Every field of the header stands at its offset and reads back as its value: the tags,
/// the RIFF size (file size minus 8), the format chunk size 16, the PCM format 1, the
/// channel count, the sample rate, the byte rate, the block alignment, the bits per sample
/// and the data size (file size minus 44).
pub proof fn lemma_header_fields(
    channels: u16,
    sample_rate: u32,
    bits_per_sample: u16,
    file_size: u32,
)
    requires
        file_size >= 44,
        format_fits(channels, sample_rate, bits_per_sample),
    ensures
        ({
            let h = wav_header(channels, sample_rate, bits_per_sample, file_size);
            &&& h.len() == 44
            &&& h.subrange(0, 4) == tag_riff()
            &&& u32_value(h.subrange(4, 8)) == file_size - 8
            &&& h.subrange(8, 12) == tag_wave()
            &&& h.subrange(12, 16) == tag_fmt()
            &&& u32_value(h.subrange(16, 20)) == 16
            &&& u16_value(h.subrange(20, 22)) == 1
            &&& u16_value(h.subrange(22, 24)) == channels
            &&& u32_value(h.subrange(24, 28)) == sample_rate
            &&& u32_value(h.subrange(28, 32)) == byte_rate(channels, sample_rate, bits_per_sample)
            &&& u16_value(h.subrange(32, 34)) == block_align(channels, bits_per_sample)
            &&& u16_value(h.subrange(34, 36)) == bits_per_sample
            &&& h.subrange(36, 40) == tag_data()
            &&& u32_value(h.subrange(40, 44)) == file_size - 44
        }),
{
    let h = wav_header(channels, sample_rate, bits_per_sample, file_size);
    let br = byte_rate(channels, sample_rate, bits_per_sample);
    let ba = block_align(channels, bits_per_sample);
    assert(0 <= br <= u32::MAX) by (nonlinear_arith)
        requires
            br == sample_rate * channels * bits_per_sample / 8,
            sample_rate * channels * bits_per_sample <= u32::MAX,
            0 <= sample_rate * channels * bits_per_sample,
    ;
    assert(0 <= ba <= u16::MAX) by (nonlinear_arith)
        requires
            ba == channels * bits_per_sample / 8,
            channels * bits_per_sample <= u16::MAX,
            0 <= channels * bits_per_sample,
    ;
    lemma_u32_roundtrip((file_size - 8) as u32);
    lemma_u32_roundtrip(16);
    lemma_u16_roundtrip(1);
    lemma_u16_roundtrip(channels);
    lemma_u32_roundtrip(sample_rate);
    lemma_u32_roundtrip(br as u32);
    lemma_u16_roundtrip(ba as u16);
    lemma_u16_roundtrip(bits_per_sample);
    lemma_u32_roundtrip((file_size - 44) as u32);
    assert(h.subrange(0, 4) =~= tag_riff());
    assert(h.subrange(4, 8) =~= le_u32((file_size - 8) as u32));
    assert(h.subrange(8, 12) =~= tag_wave());
    assert(h.subrange(12, 16) =~= tag_fmt());
    assert(h.subrange(16, 20) =~= le_u32(16));
    assert(h.subrange(20, 22) =~= le_u16(1));
    assert(h.subrange(22, 24) =~= le_u16(channels));
    assert(h.subrange(24, 28) =~= le_u32(sample_rate));
    assert(h.subrange(28, 32) =~= le_u32(br as u32));
    assert(h.subrange(32, 34) =~= le_u16(ba as u16));
    assert(h.subrange(34, 36) =~= le_u16(bits_per_sample));
    assert(h.subrange(36, 40) =~= tag_data());
    assert(h.subrange(40, 44) =~= le_u32((file_size - 44) as u32));
}

/// A whole file announces its own length: it is 44 bytes longer than its data, its RIFF
/// size field reads back as its length minus 8, its data size field as its length minus 44,
/// and the samples follow the header unchanged.
pub proof fn lemma_file_sizes(
    channels: u16,
    sample_rate: u32,
    bits_per_sample: u16,
    data: Seq<u8>,
)
    requires
        data.len() + 44 <= u32::MAX,
        format_fits(channels, sample_rate, bits_per_sample),
    ensures
        ({
            let f = wav_file(channels, sample_rate, bits_per_sample, data);
            &&& f.len() == data.len() + 44
            &&& u32_value(f.subrange(4, 8)) == f.len() - 8
            &&& u32_value(f.subrange(40, 44)) == f.len() - 44
            &&& f.subrange(44, f.len() as int) == data
        }),
{
    let size = (data.len() + 44) as u32;
    lemma_header_fields(channels, sample_rate, bits_per_sample, size);
    let h = wav_header(channels, sample_rate, bits_per_sample, size);
    let f = wav_file(channels, sample_rate, bits_per_sample, data);
    assert(f.subrange(4, 8) =~= h.subrange(4, 8));
    assert(f.subrange(40, 44) =~= h.subrange(40, 44));
    assert(f.subrange(44, f.len() as int) =~= data);
}

fn push_tag(out: &mut Vec<u8>, a: u8, b: u8, c: u8, d: u8)
    ensures
        final(out)@ == old(out)@ + seq![a, b, c, d],
{
    out.push(a);
    out.push(b);
    out.push(c);
    out.push(d);
    assert(out@ =~= old(out)@ + seq![a, b, c, d]);
}

/// The 44-byte header of a PCM file of `file_size` bytes in all, with the given number of
/// channels, sample rate and bits per sample.
pub fn wav_header_bytes(channels: u16, sample_rate: u32, bits_per_sample: u16, file_size: u32) -> (r:
    Vec<u8>)
    requires
        file_size >= 44,
        format_fits(channels, sample_rate, bits_per_sample),
    ensures
        r@ == wav_header(channels, sample_rate, bits_per_sample, file_size),
{
    let mut r: Vec<u8> = Vec::new();
    // RIFF chunk: tag, length of the file after these 8 bytes, form type
    push_tag(&mut r, 82, 73, 70, 70);
    let mut field = u32_to_le_bytes(file_size - 8);
    r.append(&mut field);
    push_tag(&mut r, 87, 65, 86, 69);
    // format chunk: tag, its size after these 8 bytes (16 for PCM), PCM format 1
    push_tag(&mut r, 102, 109, 116, 32);
    let mut field = u32_to_le_bytes(16);
    r.append(&mut field);
    let mut field = u16_to_le_bytes(1);
    r.append(&mut field);
    let mut field = u16_to_le_bytes(channels);
    r.append(&mut field);
    let mut field = u32_to_le_bytes(sample_rate);
    r.append(&mut field);
    let bytes_per_second: u32 = sample_rate * (channels as u32) * (bits_per_sample as u32) / 8;
    let mut field = u32_to_le_bytes(bytes_per_second);
    r.append(&mut field);
    let bytes_per_block: u16 = channels * bits_per_sample / 8;
    let mut field = u16_to_le_bytes(bytes_per_block);
    r.append(&mut field);
    let mut field = u16_to_le_bytes(bits_per_sample);
    r.append(&mut field);
    // prefix of the data chunk: tag and the number of sample bytes that follow
    push_tag(&mut r, 100, 97, 116, 97);
    let mut field = u32_to_le_bytes(file_size - 44);
    r.append(&mut field);
    assert(r@ =~= wav_header(channels, sample_rate, bits_per_sample, file_size));
    r
}

} // verus!
