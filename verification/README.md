# wavgen

Builds PCM WAV files and the hexadecimal dumps printed of them.

- `src/` is the verified library: little-endian fields (`le_bytes`), the 44-byte RIFF/WAVE
  header (`wav`), the fixed 65491-sample file (`big_wav`), the stereo 16-bit file and the
  reading of wave names (`choice_of_wave`), the mono 8-bit file (`mono8`), white space,
  digits and the reading of typed numbers (`text`), and the layouts of the dumps (`dump`).
- `app/` holds the programs: reading from the terminal, writing the files, printing, and the
  sine and sawtooth samples, which are computed in floating point.
- `tests/` checks the library on concrete values, among them against `std`'s own formatting
  and parsing.
