use wavgen::choice_of_wave::{classify_word, parse_wave_choices, TypeOfWave};
use wavgen::text::parse_u32;

fn chars(s: &str) -> Vec<char> {
    s.chars().collect()
}

#[test]
fn choices_in_order() {
    let (kinds, rejected) = parse_wave_choices(&chars("Sinusoidal 2 foo SQUARE\t4\n"));
    assert_eq!(kinds, vec![TypeOfWave::Sinusoidal, TypeOfWave::Sawtooth, TypeOfWave::Square, TypeOfWave::Triangle]);
    assert_eq!(rejected, 1);
}

#[test]
fn choices_repeat_and_mix_case() {
    let (kinds, rejected) = parse_wave_choices(&chars("  triANGLE 1 1 sawTooth"));
    assert_eq!(kinds, vec![TypeOfWave::Triangle, TypeOfWave::Sinusoidal, TypeOfWave::Sinusoidal, TypeOfWave::Sawtooth]);
    assert_eq!(rejected, 0);
}

#[test]
fn choices_empty_and_unknown() {
    assert_eq!(parse_wave_choices(&chars("")), (vec![], 0));
    assert_eq!(parse_wave_choices(&chars(" \n ")), (vec![], 0));
    assert_eq!(parse_wave_choices(&chars("5 sine 12 squares")), (vec![], 4));
}

#[test]
fn choices_split_on_unicode_space() {
    let (kinds, rejected) = parse_wave_choices(&chars("1\u{00A0}3\u{3000}x"));
    assert_eq!(kinds, vec![TypeOfWave::Sinusoidal, TypeOfWave::Square]);
    assert_eq!(rejected, 1);
}

#[test]
fn choices_agree_with_split_whitespace() {
    for input in ["1 2 3 4", "square\r\nTRIANGLE", "a\u{2003}sawtooth\u{0085}2", "İ 1", "ſquare 3"] {
        let expected: Vec<Option<TypeOfWave>> = input
            .split_whitespace()
            .map(|w| match w.trim().to_string().to_ascii_lowercase().as_str() {
                "1" | "sinusoidal" => Some(TypeOfWave::Sinusoidal),
                "2" | "sawtooth" => Some(TypeOfWave::Sawtooth),
                "3" | "square" => Some(TypeOfWave::Square),
                "4" | "triangle" => Some(TypeOfWave::Triangle),
                _ => None,
            })
            .collect();
        let kinds: Vec<TypeOfWave> = expected.iter().filter_map(|k| *k).collect();
        let rejected = expected.iter().filter(|k| k.is_none()).count();
        assert_eq!(parse_wave_choices(&chars(input)), (kinds, rejected));
    }
}

#[test]
fn single_words() {
    assert_eq!(classify_word(&chars("SiNuSoIdAl")), Some(TypeOfWave::Sinusoidal));
    assert_eq!(classify_word(&chars("4")), Some(TypeOfWave::Triangle));
    assert_eq!(classify_word(&chars("")), None);
    assert_eq!(classify_word(&chars("squar")), None);
}

#[test]
fn numbers_as_typed() {
    assert_eq!(parse_u32(&chars("42\n")), Some(42));
    assert_eq!(parse_u32(&chars("  +7 \r\n")), Some(7));
    assert_eq!(parse_u32(&chars("4294967295")), Some(4294967295));
    assert_eq!(parse_u32(&chars("0004294967295")), Some(4294967295));
    assert_eq!(parse_u32(&chars("4294967296")), None);
    assert_eq!(parse_u32(&chars("99999999999999999999")), None);
    assert_eq!(parse_u32(&chars("-1")), None);
    assert_eq!(parse_u32(&chars("-0")), None);
    assert_eq!(parse_u32(&chars("+")), None);
    assert_eq!(parse_u32(&chars("")), None);
    assert_eq!(parse_u32(&chars("\n")), None);
    assert_eq!(parse_u32(&chars("1 2")), None);
    assert_eq!(parse_u32(&chars("12a")), None);
}

#[test]
fn numbers_agree_with_std() {
    for input in ["0", " 10 ", "+0", "++1", "1_000", "\u{3000}77\u{2028}", "4294967295\n", "4294967300", "٣", "1e3"] {
        assert_eq!(parse_u32(&chars(input)), input.trim().parse::<u32>().ok());
    }
}

#[test]
fn decimal_reads_back() {
    for n in [0u32, 9, 10, 65535, 4294967295] {
        assert_eq!(parse_u32(&chars(&n.to_string())), Some(n));
    }
}
