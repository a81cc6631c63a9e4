use wavgen::dump::{hex_dump, Layout};

fn text(layout: Layout, data: &[u8]) -> String {
    hex_dump(layout, data).into_iter().collect()
}

fn fixed_file_dump(data: &[u8]) -> String {
    let mut out = String::new();
    let len = data.len();
    let mut rows = len / 8;
    if len % 8 != 0 {
        rows += 1;
    }
    for i in 0..rows {
        for j in 0..8 {
            if (i * 8 + j) < len {
                out += &format!("{:02X} ", data[i * 8 + j]);
            } else {
                out += "  ";
            }
        }
        out += "\t";
        out += "\n";
    }
    out += "\n";
    out
}

fn variable_freq_dump(data: &[u8]) -> String {
    let mut out = String::new();
    let len = data.len();
    let mut rows = len / 8;
    if len % 8 != 0 {
        rows += 1;
    }
    for i in 0..rows {
        for j in 0..8 {
            if (i * 8 + j) < len {
                out += &format!("{:02X} ", data[i * 8 + j]);
            } else {
                out += "  ";
            }
        }
        out += "\t";
        for j in 0..8 {
            if (i * 8 + j) < len && data[i * 8 + j] > 31 {
                out += &format!("{}.", data[i * 8 + j] as char);
            } else {
                out += " .";
            }
        }
        out += "\n";
    }
    out += "\n";
    out
}

fn mono_dump(data: &[u8]) -> String {
    let mut out = String::new();
    for i in (0..data.len()).step_by(8) {
        for j in 0..8 {
            if i + j < data.len() {
                out += &format!("{:02X} ", data[i + j]);
            } else {
                out += ".  ";
            }
        }
        out += "\t";
        for j in 0..8 {
            if i + j < data.len() && data[i + j] > 31 && data[i + j] != 127 && data[i + j] != 129
                && data[i + j] != 141 && data[i + j] != 143 && data[i + j] != 144
            {
                out += &format!("{} ", data[i + j] as char);
            } else {
                out += ".  ";
            }
        }
        out += "\n";
    }
    out
}

fn choice_dump(data: &[u8]) -> String {
    let mut out = String::new();
    for i in (0..data.len()).step_by(8) {
        for j in 0..8 {
            if i + j < data.len() {
                out += &format!("{:02X} ", data[i + j]);
            } else {
                out += ".  ";
            }
        }
        out += "\t";
        for j in 0..8 {
            if i + j < data.len() && data[i + j] > 31 && data[i + j] != 127 && data[i + j] < 127 {
                out += &format!("{} ", data[i + j] as char);
            } else {
                out += ". ";
            }
        }
        out += "\t";
        for j in (0..8).step_by(2) {
            if i + j < data.len() {
                out += &format!("{:<6} ", i16::from_le_bytes([data[i + j], data[i + j + 1]]));
            } else {
                out += ".      ";
            }
        }
        out += "\n";
    }
    out
}

fn samples() -> Vec<Vec<u8>> {
    let all: Vec<u8> = (0..=255u8).collect();
    vec![
        vec![],
        vec![0x52],
        b"RIFF\x24\x08\x00\x00WAVEfmt ".to_vec(),
        all.clone(),
        all[..250].to_vec(),
        vec![0x00, 0x80, 0xFF, 0x7F, 0xFF, 0xFF, 0x0A, 0x00, 0x9C, 0xFF],
    ]
}

#[test]
fn fixed_file_layout() {
    assert_eq!(text(Layout::HexOnly, &[0x52, 0x49]), "52 49             \t\n\n");
    for data in samples() {
        assert_eq!(text(Layout::HexOnly, &data), fixed_file_dump(&data));
    }
}

#[test]
fn variable_frequency_layout() {
    assert_eq!(text(Layout::HexAndText, &[0x41, 0x0A]), "41 0A             \tA. . . . . . . .\n\n");
    for data in samples() {
        assert_eq!(text(Layout::HexAndText, &data), variable_freq_dump(&data));
    }
}

#[test]
fn mono_layout() {
    assert_eq!(text(Layout::HexAndLatin1, &[0x8F]), "8F .  .  .  .  .  .  .  \t.  .  .  .  .  .  .  .  \n");
    for data in samples() {
        assert_eq!(text(Layout::HexAndLatin1, &data), mono_dump(&data));
    }
}

#[test]
fn choice_layout() {
    assert_eq!(
        text(Layout::HexTextAndSamples, &[0x00, 0x80]),
        "00 80 .  .  .  .  .  .  \t. . . . . . . . \t-32768 .      .      .      \n"
    );
    for data in samples() {
        if data.len() % 2 == 0 {
            assert_eq!(text(Layout::HexTextAndSamples, &data), choice_dump(&data));
        }
    }
}

#[test]
fn empty_dumps() {
    assert_eq!(text(Layout::HexOnly, &[]), "\n");
    assert_eq!(text(Layout::HexAndLatin1, &[]), "");
}
