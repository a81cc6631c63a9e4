//! A fixed mono 8-bit file of 65491 samples at 22050 Hz whose samples climb in steps of 10
//! from 18 to 228 and start again every 22 samples.
use vstd::prelude::*;
use crate::wav::{wav_file, wav_header};

verus! {

/// Number of samples in the file.
pub const DIM: usize = 65491;

/// The value of sample `i`: 128 plus ten times the distance of `i % 22` from 11.
pub open spec fn sample_value(i: int) -> int {
    128 + (i % 22 - 11) * 10
}

/// The first `n` samples of the wave.
pub open spec fn wave(n: nat) -> Seq<u8> {
    Seq::new(n, |i: int| sample_value(i) as u8)
}

/// The 44 header bytes, written out as literals.
pub open spec fn literal_header() -> Seq<u8> {
    seq![
        82u8, 73, 70, 70, 0xF7, 0xFF, 0, 0, 87, 65, 86, 69,
        102, 109, 116, 0x20, 0x10, 0x0, 0x0, 0x0, 0x01, 0x00, 0x01, 0x00,
        0x22, 0x56, 0x00, 0x00, 0x22, 0x56, 0x00, 0x00, 0x01, 0x00, 0x08, 0x00,
        100, 97, 116, 97, 0xD3, 0xFF, 0x00, 0x00,
    ]
}

/// The wave repeats every 22 samples and stays between 18 and 228.
pub proof fn lemma_wave_period_and_range(i: int)
    requires
        0 <= i,
    ensures
        sample_value(i + 22) == sample_value(i),
        18 <= sample_value(i) <= 228,
        sample_value(i) == 18 <==> i % 22 == 0,
{
    assert((i + 22) % 22 == i % 22);
}

/// The shape of the wave: within each period of 22 samples it starts at 18 and climbs by 10
/// at every step, up to 228, then starts again at 18.
pub proof fn lemma_wave_climbs(i: int)
    requires
        0 <= i,
    ensures
        sample_value(i) == 18 + 10 * (i % 22),
        i % 22 != 21 ==> sample_value(i + 1) == sample_value(i) + 10,
        i % 22 == 21 ==> sample_value(i + 1) == 18,
{
    if i % 22 != 21 {
        assert((i + 1) % 22 == i % 22 + 1);
    } else {
        assert((i + 1) % 22 == 0);
    }
}

/// Writes the first `dim` samples of the wave into `data`, leaving the rest untouched.
pub fn generate_wave(data: &mut [u8], dim: usize)
    requires
        dim <= old(data)@.len(),
    ensures
        final(data)@.len() == old(data)@.len(),
        forall|i: int| 0 <= i < dim ==> #[trigger] final(data)@[i] == sample_value(i),
        forall|i: int| dim <= i < old(data)@.len() ==> #[trigger] final(data)@[i] == old(data)@[i],
        final(data)@ == wave(dim as nat) + old(data)@.subrange(dim as int, old(data)@.len() as int),
{
    let ghost original = data@;
    for i in 0..dim
        invariant
            dim <= data@.len(),
            data@.len() == original.len(),
            forall|k: int| 0 <= k < i ==> #[trigger] data@[k] == sample_value(k),
            forall|k: int| i <= k < original.len() ==> #[trigger] data@[k] == original[k],
    {
        let modi: i32 = (i % 22) as i32;
        data[i] = (128 + (modi - 11) * 10) as u8;
    }
    assert forall|k: int| 0 <= k < dim implies data@[k] == wave(dim as nat)[k] by {
        lemma_wave_period_and_range(k);
    }
    assert(data@ =~= wave(dim as nat) + original.subrange(dim as int, original.len() as int));
}

/// The bytes of the whole file: the literal header, then the wave.
pub fn build_file_bytes() -> (r: Vec<u8>)
    ensures
        r@ == literal_header() + wave(DIM as nat),
        r@ == wav_file(1, 22050, 8, wave(DIM as nat)),
{
    let mut riff_chunk_12b: Vec<u8> = vec![82, 73, 70, 70, 0xF7, 0xff, 0, 0, 87, 65, 86, 69];
    let mut format_chunk_24b: Vec<u8> = vec![
        102, 109, 116, 0x20, 0x10, 0x0, 0x0, 0x0, 0x01, 0x00, 0x01, 0x00,
        0x22, 0x56, 0x00, 0x00, 0x22, 0x56, 0x00, 0x00, 0x01, 0x00, 0x08, 0x00,
    ];
    let mut data_prefix_chunk_8b: Vec<u8> = vec![100, 97, 116, 97, 0xD3, 0xFF, 0x00, 0x00];
    let mut data: Vec<u8> = vec![0x80u8; DIM];
    let ghost silence = data@;
    generate_wave(data.as_mut_slice(), DIM);
    assert(silence.subrange(DIM as int, silence.len() as int) =~= Seq::<u8>::empty());
    assert(data@ =~= wave(DIM as nat));
    let mut complete_data: Vec<u8> = Vec::new();
    complete_data.append(&mut riff_chunk_12b);
    complete_data.append(&mut format_chunk_24b);
    complete_data.append(&mut data_prefix_chunk_8b);
    complete_data.append(&mut data);
    proof {
        assert(literal_header() =~= wav_header(1, 22050, 8, 65535));
    }
    assert(complete_data@ =~= literal_header() + wave(DIM as nat));
    complete_data
}

} // verus!
