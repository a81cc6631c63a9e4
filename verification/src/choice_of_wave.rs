//! A stereo 16-bit file at 48000 Hz whose length the user gives in seconds. Each sample is
//! written twice, once for the left and once for the right channel.
use vstd::prelude::*;
use crate::le_bytes::{le_i16, i16_value, i16_to_le_bytes, lemma_i16_roundtrip};
use crate::wav::{
    wav_file,
    wav_header,
    wav_header_bytes,
    byte_rate,
    tag_fmt,
    lemma_header_fields,
    HEADER_SIZE,
};
use crate::le_bytes::{u16_value, u32_value};
use crate::text::{is_white_space, white_space, ascii_lower, to_ascii_lower};

verus! {

/// The kinds of wave that the user can ask for.
#[derive(Debug, Clone, Copy, PartialEq, Eq, Structural)]
pub enum TypeOfWave {
    Sinusoidal,
    Sawtooth,
    Square,
    Triangle,
}

/// Length of the run of characters other than white space that `s` starts with.
pub open spec fn word_len(s: Seq<char>) -> nat
    decreases s.len(),
{
    if s.len() == 0 || is_white_space(s[0]) {
        0
    } else {
        1 + word_len(s.drop_first())
    }
}

/// A word is no longer than what it is taken from, and not empty when that starts with
/// something other than white space.
pub proof fn lemma_word_len_bounds(s: Seq<char>)
    ensures
        word_len(s) <= s.len(),
        s.len() > 0 && !is_white_space(s[0]) ==> word_len(s) >= 1,
    decreases s.len(),
{
    if s.len() > 0 {
        lemma_word_len_bounds(s.drop_first());
    }
}

/// The words of `s`: its maximal runs of characters other than white space, in order (what
/// `str::split_whitespace` yields).
pub open spec fn split_words(s: Seq<char>) -> Seq<Seq<char>>
    decreases s.len(),
{
    if s.len() == 0 {
        Seq::empty()
    } else if is_white_space(s[0]) {
        split_words(s.drop_first())
    } else {
        proof {
            lemma_word_len_bounds(s);
        }
        seq![s.take(word_len(s) as int)] + split_words(s.skip(word_len(s) as int))
    }
}

/// `w` with its ASCII capitals turned into small letters.
pub open spec fn lowered(w: Seq<char>) -> Seq<char> {
    w.map_values(|c: char| ascii_lower(c))
}

/// The wave that a word names, in any ASCII case: "1" or "sinusoidal", "2" or "sawtooth",
/// "3" or "square", "4" or "triangle"; any other word names none.
pub open spec fn classify(w: Seq<char>) -> Option<TypeOfWave> {
    let l = lowered(w);
    if l == seq!['1'] || l == seq!['s', 'i', 'n', 'u', 's', 'o', 'i', 'd', 'a', 'l'] {
        Some(TypeOfWave::Sinusoidal)
    } else if l == seq!['2'] || l == seq!['s', 'a', 'w', 't', 'o', 'o', 't', 'h'] {
        Some(TypeOfWave::Sawtooth)
    } else if l == seq!['3'] || l == seq!['s', 'q', 'u', 'a', 'r', 'e'] {
        Some(TypeOfWave::Square)
    } else if l == seq!['4'] || l == seq!['t', 'r', 'i', 'a', 'n', 'g', 'l', 'e'] {
        Some(TypeOfWave::Triangle)
    } else {
        None
    }
}

/// The waves named by `words`, in order, skipping the words that name none.
pub open spec fn wave_choices(words: Seq<Seq<char>>) -> Seq<TypeOfWave>
    decreases words.len(),
{
    if words.len() == 0 {
        Seq::empty()
    } else {
        match classify(words.last()) {
            Some(kind) => wave_choices(words.drop_last()).push(kind),
            None => wave_choices(words.drop_last()),
        }
    }
}

/// How many of `words` name no wave.
pub open spec fn rejected_words(words: Seq<Seq<char>>) -> nat
    decreases words.len(),
{
    if words.len() == 0 {
        0
    } else {
        match classify(words.last()) {
            Some(_) => rejected_words(words.drop_last()),
            None => rejected_words(words.drop_last()) + 1,
        }
    }
}

proof fn lemma_rejected_bound(words: Seq<Seq<char>>)
    ensures
        rejected_words(words) <= words.len(),
    decreases words.len(),
{
    if words.len() > 0 {
        lemma_rejected_bound(words.drop_last());
    }
}

/// Every word is accounted for: it either names a wave or is counted as rejected.
pub proof fn lemma_every_word_counted(words: Seq<Seq<char>>)
    ensures
        wave_choices(words).len() + rejected_words(words) == words.len(),
    decreases words.len(),
{
    if words.len() > 0 {
        lemma_every_word_counted(words.drop_last());
    }
}

/// The waves chosen are exactly the waves that the words name, in the order of the words,
/// one for every word that names one; the rejected words are all the others.
pub proof fn lemma_choices_are_named_waves(words: Seq<Seq<char>>)
    ensures
        wave_choices(words) == words.filter_map(|w: Seq<char>| classify(w)),
        rejected_words(words) == words.len() - wave_choices(words).len(),
    decreases words.len(),
{
    lemma_every_word_counted(words);
    if words.len() > 0 {
        lemma_choices_are_named_waves(words.drop_last());
        let f = |w: Seq<char>| classify(w);
        let rest = words.drop_last();
        match classify(words.last()) {
            Some(kind) => {
                assert(rest.filter_map(f) + seq![kind] =~= rest.filter_map(f).push(kind));
            },
            None => {},
        }
    }
}

/// Choosing from two lists of words one after the other gives the choices from the first
/// followed by those from the second, and the rejections of both.
pub proof fn lemma_choices_concat(a: Seq<Seq<char>>, b: Seq<Seq<char>>)
    ensures
        wave_choices(a + b) == wave_choices(a) + wave_choices(b),
        rejected_words(a + b) == rejected_words(a) + rejected_words(b),
    decreases b.len(),
{
    if b.len() == 0 {
        assert(a + b =~= a);
        assert(wave_choices(a) + wave_choices(b) =~= wave_choices(a));
    } else {
        lemma_choices_concat(a, b.drop_last());
        assert((a + b).drop_last() =~= a + b.drop_last());
        assert((a + b).last() == b.last());
        match classify(b.last()) {
            Some(kind) => {
                assert(wave_choices(a) + wave_choices(b.drop_last()).push(kind) =~= (wave_choices(
                    a,
                ) + wave_choices(b.drop_last())).push(kind));
            },
            None => {},
        }
    }
}

proof fn lemma_word_len_concat(a: Seq<char>, c: char, b: Seq<char>)
    requires
        is_white_space(c),
    ensures
        word_len(a + seq![c] + b) == word_len(a),
    decreases a.len(),
{
    let s = a + seq![c] + b;
    if a.len() == 0 {
        assert(s[0] == c);
    } else {
        assert(s[0] == a[0]);
        if !is_white_space(a[0]) {
            lemma_word_len_concat(a.drop_first(), c, b);
            assert(s.drop_first() =~= a.drop_first() + seq![c] + b);
        }
    }
}

/// The words of two texts joined by white space are the words of the first followed by the
/// words of the second.
pub proof fn lemma_split_words_concat(a: Seq<char>, c: char, b: Seq<char>)
    requires
        is_white_space(c),
    ensures
        split_words(a + seq![c] + b) == split_words(a) + split_words(b),
    decreases a.len(),
{
    let s = a + seq![c] + b;
    if a.len() == 0 {
        assert(s.drop_first() =~= b);
        assert(split_words(a) + split_words(b) =~= split_words(b));
    } else if is_white_space(a[0]) {
        lemma_split_words_concat(a.drop_first(), c, b);
        assert(s.drop_first() =~= a.drop_first() + seq![c] + b);
    } else {
        lemma_word_len_concat(a, c, b);
        lemma_word_len_bounds(a);
        let n = word_len(a) as int;
        lemma_split_words_concat(a.skip(n), c, b);
        assert(s.take(n) =~= a.take(n));
        assert(s.skip(n) =~= a.skip(n) + seq![c] + b);
        assert(seq![a.take(n)] + (split_words(a.skip(n)) + split_words(b)) =~= (seq![a.take(n)]
            + split_words(a.skip(n))) + split_words(b));
    }
}

/// Reading the choices from two inputs joined by white space gives the choices from the first
/// followed by those from the second, and the rejections of both.
pub proof fn lemma_choices_of_joined_input(a: Seq<char>, c: char, b: Seq<char>)
    requires
        is_white_space(c),
    ensures
        wave_choices(split_words(a + seq![c] + b)) == wave_choices(split_words(a)) + wave_choices(
            split_words(b),
        ),
        rejected_words(split_words(a + seq![c] + b)) == rejected_words(split_words(a))
            + rejected_words(split_words(b)),
{
    lemma_split_words_concat(a, c, b);
    lemma_choices_concat(split_words(a), split_words(b));
}

/// The words that name each wave, in any ASCII case: "1" or "sinusoidal", "2" or "sawtooth",
/// "3" or "square", "4" or "triangle"; no other word names a wave.
pub proof fn lemma_wave_names(w: Seq<char>)
    ensures
        classify(w) == Some(TypeOfWave::Sinusoidal) <==> (lowered(w) == seq!['1'] || lowered(w)
            == seq!['s', 'i', 'n', 'u', 's', 'o', 'i', 'd', 'a', 'l']),
        classify(w) == Some(TypeOfWave::Sawtooth) <==> (lowered(w) == seq!['2'] || lowered(w)
            == seq!['s', 'a', 'w', 't', 'o', 'o', 't', 'h']),
        classify(w) == Some(TypeOfWave::Square) <==> (lowered(w) == seq!['3'] || lowered(w)
            == seq!['s', 'q', 'u', 'a', 'r', 'e']),
        classify(w) == Some(TypeOfWave::Triangle) <==> (lowered(w) == seq!['4'] || lowered(w)
            == seq!['t', 'r', 'i', 'a', 'n', 'g', 'l', 'e']),
{
    let l = lowered(w);
    let names: Seq<Seq<char>> = seq![
        seq!['1'],
        seq!['s', 'i', 'n', 'u', 's', 'o', 'i', 'd', 'a', 'l'],
        seq!['2'],
        seq!['s', 'a', 'w', 't', 'o', 'o', 't', 'h'],
        seq!['3'],
        seq!['s', 'q', 'u', 'a', 'r', 'e'],
        seq!['4'],
        seq!['t', 'r', 'i', 'a', 'n', 'g', 'l', 'e'],
    ];
    assert forall|a: int, b: int| 0 <= a < b < 8 implies names[a] != names[b] by {
        if names[a].len() == names[b].len() {
            assert(names[a][0] != names[b][0] || names[a][1] != names[b][1]);
        }
    }
    assert(names[0] != names[2] && names[0] != names[4] && names[0] != names[6]);
    assert(names[1] != names[3] && names[1] != names[5] && names[1] != names[7]);
    assert(names[2] != names[4] && names[2] != names[6]);
    assert(names[3] != names[5] && names[3] != names[7]);
    assert(names[4] != names[6] && names[5] != names[7]);
}

/// The name of a wave is read without regard to ASCII case: a word and its small-letter form
/// name the same wave.
pub proof fn lemma_classify_ignores_case(w: Seq<char>)
    ensures
        classify(w) == classify(lowered(w)),
{
    assert(lowered(lowered(w)) =~= lowered(w));
}

proof fn lemma_word_len_exact(t: Seq<char>, n: int)
    requires
        0 <= n <= t.len(),
        forall|k: int| 0 <= k < n ==> !is_white_space(#[trigger] t[k]),
        n == t.len() || is_white_space(t[n]),
    ensures
        word_len(t) == n,
    decreases n,
{
    if n > 0 {
        lemma_word_len_exact(t.drop_first(), n - 1);
    }
}

proof fn lemma_split_at_word(s: Seq<char>, a: int, b: int)
    requires
        0 <= a < b <= s.len(),
        forall|k: int| a <= k < b ==> !is_white_space(#[trigger] s[k]),
        b == s.len() || is_white_space(s[b]),
    ensures
        split_words(s.skip(a)) == seq![s.subrange(a, b)] + split_words(s.skip(b)),
{
    let t = s.skip(a);
    assert forall|k: int| 0 <= k < b - a implies !is_white_space(#[trigger] t[k]) by {
        assert(t[k] == s[a + k]);
    }
    lemma_word_len_exact(t, b - a);
    assert(t.take(b - a) =~= s.subrange(a, b));
    assert(t.skip(b - a) =~= s.skip(b));
}

proof fn lemma_split_at_space(s: Seq<char>, i: int)
    requires
        0 <= i < s.len(),
        is_white_space(s[i]),
    ensures
        split_words(s.skip(i)) == split_words(s.skip(i + 1)),
{
    assert(s.skip(i).drop_first() =~= s.skip(i + 1));
}

fn same_chars(a: &Vec<char>, b: &Vec<char>) -> (r: bool)
    ensures
        r == (a@ == b@),
{
    if a.len() != b.len() {
        return false;
    }
    let mut i: usize = 0;
    while i < a.len()
        invariant
            i <= a@.len(),
            a@.len() == b@.len(),
            forall|k: int| 0 <= k < i ==> a@[k] == b@[k],
        decreases a@.len() - i,
    {
        if a[i] != b[i] {
            return false;
        }
        i = i + 1;
    }
    assert(a@ =~= b@);
    true
}

/// The wave that `word` names, if any.
pub fn classify_word(word: &Vec<char>) -> (r: Option<TypeOfWave>)
    ensures
        r == classify(word@),
{
    let mut lower: Vec<char> = Vec::new();
    for k in 0..word.len()
        invariant
            lower@ == lowered(word@.subrange(0, k as int)),
    {
        lower.push(to_ascii_lower(word[k]));
        assert(lower@ =~= lowered(word@.subrange(0, k + 1)));
    }
    assert(word@.subrange(0, word@.len() as int) =~= word@);
    let one = vec!['1'];
    let two = vec!['2'];
    let three = vec!['3'];
    let four = vec!['4'];
    let sinusoidal = vec!['s', 'i', 'n', 'u', 's', 'o', 'i', 'd', 'a', 'l'];
    let sawtooth = vec!['s', 'a', 'w', 't', 'o', 'o', 't', 'h'];
    let square = vec!['s', 'q', 'u', 'a', 'r', 'e'];
    let triangle = vec!['t', 'r', 'i', 'a', 'n', 'g', 'l', 'e'];
    assert(one@ =~= seq!['1']);
    assert(two@ =~= seq!['2']);
    assert(three@ =~= seq!['3']);
    assert(four@ =~= seq!['4']);
    assert(sinusoidal@ =~= seq!['s', 'i', 'n', 'u', 's', 'o', 'i', 'd', 'a', 'l']);
    assert(sawtooth@ =~= seq!['s', 'a', 'w', 't', 'o', 'o', 't', 'h']);
    assert(square@ =~= seq!['s', 'q', 'u', 'a', 'r', 'e']);
    assert(triangle@ =~= seq!['t', 'r', 'i', 'a', 'n', 'g', 'l', 'e']);
    if same_chars(&lower, &one) || same_chars(&lower, &sinusoidal) {
        Some(TypeOfWave::Sinusoidal)
    } else if same_chars(&lower, &two) || same_chars(&lower, &sawtooth) {
        Some(TypeOfWave::Sawtooth)
    } else if same_chars(&lower, &three) || same_chars(&lower, &square) {
        Some(TypeOfWave::Square)
    } else if same_chars(&lower, &four) || same_chars(&lower, &triangle) {
        Some(TypeOfWave::Triangle)
    } else {
        None
    }
}

/// The waves named by the words of `input`, in order, and how many words named none: the
/// words are separated by white space and compared ignoring ASCII case.
pub fn parse_wave_choices(input: &Vec<char>) -> (r: (Vec<TypeOfWave>, usize))
    ensures
        r.0@ == wave_choices(split_words(input@)),
        r.1 == rejected_words(split_words(input@)),
{
    let ghost s = input@;
    let ghost mut words: Seq<Seq<char>> = Seq::empty();
    let mut waves_kinds: Vec<TypeOfWave> = Vec::new();
    let mut rejected: usize = 0;
    let mut word: Vec<char> = Vec::new();
    let mut in_word = false;
    let mut start: usize = 0;
    assert(s.skip(0) =~= s);
    for i in 0..input.len()
        invariant
            s == input@,
            waves_kinds@ == wave_choices(words),
            rejected == rejected_words(words),
            rejected <= words.len(),
            !in_word ==> words.len() <= i,
            !in_word ==> split_words(s) == words + split_words(s.skip(i as int)),
            in_word ==> start < i && words.len() <= start,
            in_word ==> split_words(s) == words + split_words(s.skip(start as int)),
            in_word ==> word@ == s.subrange(start as int, i as int),
            in_word ==> forall|k: int| start <= k < i ==> !is_white_space(#[trigger] s[k]),
    {
        let c = input[i];
        if white_space(c) {
            if in_word {
                proof {
                    lemma_split_at_word(s, start as int, i as int);
                    lemma_split_at_space(s, i as int);
                    assert(split_words(s) =~= words.push(word@) + split_words(s.skip(i + 1)));
                    assert(words.push(word@).drop_last() =~= words);
                    lemma_rejected_bound(words.push(word@));
                }
                match classify_word(&word) {
                    Some(kind) => waves_kinds.push(kind),
                    None => rejected = rejected + 1,
                }
                proof {
                    words = words.push(word@);
                }
                word = Vec::new();
                in_word = false;
            } else {
                proof {
                    lemma_split_at_space(s, i as int);
                }
            }
        } else {
            if !in_word {
                start = i;
                in_word = true;
                word = Vec::new();
            }
            word.push(c);
            assert(word@ =~= s.subrange(start as int, i + 1));
        }
    }
    if in_word {
        proof {
            lemma_split_at_word(s, start as int, s.len() as int);
            assert(s.skip(s.len() as int) =~= Seq::<char>::empty());
            assert(split_words(s) =~= words.push(word@));
            assert(words.push(word@).drop_last() =~= words);
            lemma_rejected_bound(words.push(word@));
        }
        match classify_word(&word) {
            Some(kind) => waves_kinds.push(kind),
            None => rejected = rejected + 1,
        }
        proof {
            words = words.push(word@);
        }
    } else {
        assert(s.skip(s.len() as int) =~= Seq::<char>::empty());
        assert(split_words(s) =~= words);
    }
    (waves_kinds, rejected)
}

/// Samples per second: the rate of video sound.
pub const SAMPLE_RATE: u32 = 48000;

/// Bits of one sample of one channel.
pub const BITS_PER_SAMPLE: u16 = 16;

/// Left and right.
pub const NUMBER_OF_CHANNELS: u16 = 2;

/// The durations whose file size fits in the 32-bit size fields.
pub open spec fn duration_fits(duration_sec: u32) -> bool {
    duration_sec * 48000 * 16 * 2 <= u32::MAX
}

/// Bytes of a file of `duration_sec` seconds: the header, then per second 48000 frames of
/// two channels of two bytes.
pub open spec fn spec_file_size(duration_sec: u32) -> int {
    44 + duration_sec * 48000 * 16 * 2 / 8
}

/// The sample bytes: for each sample, its two little-endian bytes for the left channel and
/// the same two bytes for the right channel.
pub open spec fn stereo_frames(samples: Seq<i16>) -> Seq<u8>
    decreases samples.len(),
{
    if samples.len() == 0 {
        Seq::empty()
    } else {
        stereo_frames(samples.drop_last()) + le_i16(samples.last()) + le_i16(samples.last())
    }
}

proof fn lemma_stereo_frames_len(samples: Seq<i16>)
    ensures
        stereo_frames(samples).len() == 4 * samples.len(),
    decreases samples.len(),
{
    if samples.len() > 0 {
        lemma_stereo_frames_len(samples.drop_last());
    }
}

proof fn lemma_stereo_frame_at(samples: Seq<i16>, k: int)
    requires
        0 <= k < samples.len(),
    ensures
        stereo_frames(samples).subrange(4 * k, 4 * k + 2) == le_i16(samples[k]),
        stereo_frames(samples).subrange(4 * k + 2, 4 * k + 4) == le_i16(samples[k]),
    decreases samples.len(),
{
    let prev = samples.drop_last();
    let f = stereo_frames(samples);
    lemma_stereo_frames_len(prev);
    if k < samples.len() - 1 {
        lemma_stereo_frame_at(prev, k);
        assert(f.subrange(4 * k, 4 * k + 2) =~= stereo_frames(prev).subrange(4 * k, 4 * k + 2));
        assert(f.subrange(4 * k + 2, 4 * k + 4) =~= stereo_frames(prev).subrange(
            4 * k + 2,
            4 * k + 4,
        ));
    } else {
        assert(f.subrange(4 * k, 4 * k + 2) =~= le_i16(samples[k]));
        assert(f.subrange(4 * k + 2, 4 * k + 4) =~= le_i16(samples[k]));
    }
}

/// Each frame is four bytes; in frame `k` the left and the right sample both read back as
/// sample `k`.
pub proof fn lemma_stereo_frames(samples: Seq<i16>)
    ensures
        stereo_frames(samples).len() == 4 * samples.len(),
        forall|k: int|
            0 <= k < samples.len() ==> {
                &&& #[trigger] stereo_frames(samples).subrange(4 * k, 4 * k + 2) == le_i16(
                    samples[k],
                )
                &&& stereo_frames(samples).subrange(4 * k + 2, 4 * k + 4) == le_i16(samples[k])
                &&& i16_value(stereo_frames(samples).subrange(4 * k, 4 * k + 2)) == samples[k]
                &&& i16_value(stereo_frames(samples).subrange(4 * k + 2, 4 * k + 4))
                    == samples[k]
            },
{
    lemma_stereo_frames_len(samples);
    assert forall|k: int| 0 <= k < samples.len() implies {
        &&& #[trigger] stereo_frames(samples).subrange(4 * k, 4 * k + 2) == le_i16(samples[k])
        &&& stereo_frames(samples).subrange(4 * k + 2, 4 * k + 4) == le_i16(samples[k])
        &&& i16_value(stereo_frames(samples).subrange(4 * k, 4 * k + 2)) == samples[k]
        &&& i16_value(stereo_frames(samples).subrange(4 * k + 2, 4 * k + 4)) == samples[k]
    } by {
        lemma_stereo_frame_at(samples, k);
        lemma_i16_roundtrip(samples[k]);
    }
}

/// The size in bytes of a file of `duration_sec` seconds.
pub fn file_size(duration_sec: u32) -> (size: u32)
    requires
        duration_fits(duration_sec),
    ensures
        size == spec_file_size(duration_sec),
        size == 44 + duration_sec * 192000,
        size - 44 == duration_sec * byte_rate(2, 48000, 16),
{
    HEADER_SIZE + (duration_sec * SAMPLE_RATE * (BITS_PER_SAMPLE as u32) * (NUMBER_OF_CHANNELS as u32)
        / 8)
}

/// The sample bytes of the file: each sample as a left and a right 16-bit little-endian value.
pub fn generate_wave(samples: &[i16]) -> (data: Vec<u8>)
    requires
        4 * samples@.len() <= usize::MAX,
    ensures
        data@ == stereo_frames(samples@),
        data@.len() == 4 * samples@.len(),
{
    let mut data: Vec<u8> = Vec::with_capacity(4 * samples.len());
    for k in 0..samples.len()
        invariant
            data@ == stereo_frames(samples@.subrange(0, k as int)),
    {
        let ghost before = data@;
        let sample_left = samples[k];
        let left = i16_to_le_bytes(sample_left);
        data.push(left[0]);
        data.push(left[1]);
        let sample_right = samples[k];
        let right = i16_to_le_bytes(sample_right);
        data.push(right[0]);
        data.push(right[1]);
        proof {
            let s = samples@.subrange(0, k + 1);
            assert(s.drop_last() =~= samples@.subrange(0, k as int));
            assert(s.last() == samples@[k as int]);
            assert(data@ =~= before + le_i16(sample_left) + le_i16(sample_right));
        }
    }
    assert(samples@.subrange(0, samples@.len() as int) =~= samples@);
    proof {
        lemma_stereo_frames_len(samples@);
    }
    data
}

/// The stereo file of `duration_sec` seconds announces its format: two channels of 16 bits at
/// 48000 Hz, four bytes per block, a byte rate of the sample rate times the block size, a
/// data size that is its length minus 44 and a whole number of blocks.
pub proof fn lemma_stereo_file_format(duration_sec: u32, samples: Seq<i16>)
    requires
        duration_fits(duration_sec),
        samples.len() == duration_sec * 48000,
    ensures
        ({
            let f = wav_file(2, 48000, 16, stereo_frames(samples));
            &&& f.len() == spec_file_size(duration_sec)
            &&& f.subrange(12, 16) == tag_fmt()
            &&& u32_value(f.subrange(16, 20)) == 16
            &&& u16_value(f.subrange(20, 22)) == 1
            &&& u16_value(f.subrange(22, 24)) == 2
            &&& u32_value(f.subrange(24, 28)) == 48000
            &&& u16_value(f.subrange(32, 34)) == 4
            &&& u16_value(f.subrange(34, 36)) == 16
            &&& u32_value(f.subrange(28, 32)) == 48000 * u16_value(f.subrange(32, 34))
            &&& u32_value(f.subrange(40, 44)) == f.len() - 44
            &&& (f.len() - 44) % u16_value(f.subrange(32, 34)) == 0
        }),
{
    let data = stereo_frames(samples);
    lemma_stereo_frames_len(samples);
    let size = (data.len() + 44) as u32;
    assert(size == 44 + duration_sec * 192000);
    lemma_header_fields(2, 48000, 16, size);
    let h = wav_header(2, 48000, 16, size);
    let f = wav_file(2, 48000, 16, data);
    assert(f == h + data);
    lemma_header_prefix(h, data, 12, 16);
    lemma_header_prefix(h, data, 16, 20);
    lemma_header_prefix(h, data, 20, 22);
    lemma_header_prefix(h, data, 22, 24);
    lemma_header_prefix(h, data, 24, 28);
    lemma_header_prefix(h, data, 28, 32);
    lemma_header_prefix(h, data, 32, 34);
    lemma_header_prefix(h, data, 34, 36);
    lemma_header_prefix(h, data, 40, 44);
    assert(data.len() == 4 * (duration_sec * 48000));
    vstd::arithmetic::div_mod::lemma_mod_multiples_basic(duration_sec * 48000, 4);
}

proof fn lemma_header_prefix(h: Seq<u8>, data: Seq<u8>, a: int, b: int)
    requires
        0 <= a <= b <= h.len(),
    ensures
        (h + data).subrange(a, b) == h.subrange(a, b),
{
    assert((h + data).subrange(a, b) =~= h.subrange(a, b));
}

/// The whole file of `duration_sec` seconds holding `samples`, one sample per frame.
pub fn generate_file_wave_vec(duration_sec: u32, samples: &[i16]) -> (r: Vec<u8>)
    requires
        duration_fits(duration_sec),
        samples@.len() == duration_sec * 48000,
    ensures
        r@ == wav_file(2, 48000, 16, stereo_frames(samples@)),
        r@.len() == spec_file_size(duration_sec),
{
    let size = file_size(duration_sec);
    let mut r = wav_header_bytes(NUMBER_OF_CHANNELS, SAMPLE_RATE, BITS_PER_SAMPLE, size);
    let mut data = generate_wave(samples);
    r.append(&mut data);
    r
}

} // verus!
