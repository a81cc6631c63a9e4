//! Building the bytes of PCM WAV files: the RIFF/WAVE header, the sample data of the
//! generators that work on integers, the parsing of the values that a user types in, and the
//! text of the hexadecimal dumps that the programs print.
use vstd::prelude::*;

pub mod le_bytes;
pub mod wav;
pub mod big_wav;
pub mod choice_of_wave;
pub mod mono8;
pub mod text;
pub mod dump;

verus! {

} // verus!
