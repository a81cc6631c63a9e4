//! Characters: Unicode white space, ASCII case, hexadecimal and decimal digits, and the
//! reading of an unsigned 32-bit number typed on a line.
use vstd::prelude::*;

verus! {

/// The characters with the Unicode `White_Space` property (those of `char::is_whitespace`).
pub open spec fn is_white_space(c: char) -> bool {
    let u = c as u32;
    ||| 9 <= u <= 13
    ||| u == 32
    ||| u == 0x85
    ||| u == 0xA0
    ||| u == 0x1680
    ||| 0x2000 <= u <= 0x200A
    ||| u == 0x2028
    ||| u == 0x2029
    ||| u == 0x202F
    ||| u == 0x205F
    ||| u == 0x3000
}

/// Whether `c` is white space.
pub fn white_space(c: char) -> (b: bool)
    ensures
        b == is_white_space(c),
{
    let u = c as u32;
    (9 <= u && u <= 13) || u == 32 || u == 0x85 || u == 0xA0 || u == 0x1680 || (0x2000 <= u && u
        <= 0x200A) || u == 0x2028 || u == 0x2029 || u == 0x202F || u == 0x205F || u == 0x3000
}

/// `c` with an ASCII capital letter turned into its small letter; every other character
/// unchanged (what `to_ascii_lowercase` does to one character).
pub open spec fn ascii_lower(c: char) -> char {
    if 'A' <= c <= 'Z' {
        ((c as u32) + 32) as char
    } else {
        c
    }
}

/// The character `ascii_lower(c)`.
pub fn to_ascii_lower(c: char) -> (r: char)
    ensures
        r == ascii_lower(c),
{
    if 'A' <= c && c <= 'Z' {
        ((c as u8) + 32) as char
    } else {
        c
    }
}

/// The upper-case hexadecimal digit of `n`, for `n` below 16.
pub open spec fn hex_digit(n: int) -> char {
    if n < 10 {
        (48 + n) as char
    } else {
        (55 + n) as char
    }
}

/// Two upper-case hexadecimal digits of `b`, the high one first (what `{:02X}` writes).
pub open spec fn hex_byte(b: u8) -> Seq<char> {
    seq![hex_digit((b / 16) as int), hex_digit((b % 16) as int)]
}

/// The hexadecimal digit of `n`.
pub fn hex_digit_char(n: u8) -> (c: char)
    requires
        n < 16,
    ensures
        c == hex_digit(n as int),
{
    if n < 10 {
        (48 + n) as char
    } else {
        (55 + n) as char
    }
}

/// Appends the two hexadecimal digits of `b` to `out`.
pub fn push_hex_byte(out: &mut Vec<char>, b: u8)
    ensures
        final(out)@ == old(out)@ + hex_byte(b),
{
    out.push(hex_digit_char(b / 16));
    out.push(hex_digit_char(b % 16));
    assert(out@ =~= old(out)@ + hex_byte(b));
}

/// The decimal digit of `n`, for `n` below 10.
pub open spec fn decimal_digit(n: int) -> char {
    (48 + n) as char
}

/// The decimal numeral of `n`, without leading zeros (what `{}` writes for a number).
pub open spec fn decimal_digits(n: nat) -> Seq<char>
    decreases n,
{
    if n < 10 {
        seq![decimal_digit(n as int)]
    } else {
        decimal_digits(n / 10).push(decimal_digit((n % 10) as int))
    }
}

/// A numeral has at least one digit, and no more digits than the number needs.
pub proof fn lemma_decimal_digits_len(n: nat)
    ensures
        decimal_digits(n).len() >= 1,
        n < 10 ==> decimal_digits(n).len() == 1,
        n < 100 ==> decimal_digits(n).len() <= 2,
        n < 1000 ==> decimal_digits(n).len() <= 3,
        n < 10000 ==> decimal_digits(n).len() <= 4,
        n < 100000 ==> decimal_digits(n).len() <= 5,
    decreases n,
{
    if n >= 10 {
        lemma_decimal_digits_len(n / 10);
    }
}

/// Appends the decimal numeral of `n` to `out`.
pub fn push_decimal(out: &mut Vec<char>, n: u32)
    ensures
        final(out)@ == old(out)@ + decimal_digits(n as nat),
    decreases n,
{
    if n >= 10 {
        push_decimal(out, n / 10);
    }
    out.push(((n % 10) as u8 + 48) as char);
    assert(out@ =~= old(out)@ + decimal_digits(n as nat));
}

/// `s` without its leading white space.
pub open spec fn trim_start(s: Seq<char>) -> Seq<char>
    decreases s.len(),
{
    if s.len() > 0 && is_white_space(s[0]) {
        trim_start(s.drop_first())
    } else {
        s
    }
}

/// `s` without its trailing white space.
pub open spec fn trim_end(s: Seq<char>) -> Seq<char>
    decreases s.len(),
{
    if s.len() > 0 && is_white_space(s.last()) {
        trim_end(s.drop_last())
    } else {
        s
    }
}

/// `s` without leading and trailing white space (what `str::trim` gives).
pub open spec fn trimmed(s: Seq<char>) -> Seq<char> {
    trim_end(trim_start(s))
}

/// Whether `c` is one of '0' to '9'.
pub open spec fn is_digit(c: char) -> bool {
    '0' <= c <= '9'
}

/// The number that the decimal digits `s` stand for, most significant first.
pub open spec fn digits_value(s: Seq<char>) -> int
    decreases s.len(),
{
    if s.len() == 0 {
        0
    } else {
        digits_value(s.drop_last()) * 10 + (s.last() as int - 48)
    }
}

/// `t` without one leading '+', if it has one.
pub open spec fn unsigned_numeral(t: Seq<char>) -> Seq<char> {
    if t.len() > 0 && t[0] == '+' {
        t.drop_first()
    } else {
        t
    }
}

/// What reading `s` as an unsigned 32-bit number gives (as `s.trim().parse::<u32>()` does):
/// around the white space, an optional '+' and at least one decimal digit and nothing else,
/// of a value that fits in 32 bits; otherwise nothing.
pub open spec fn parsed_u32(s: Seq<char>) -> Option<u32> {
    let d = unsigned_numeral(trimmed(s));
    if d.len() > 0 && (forall|i: int| 0 <= i < d.len() ==> is_digit(#[trigger] d[i]))
        && digits_value(d) <= u32::MAX {
        Some(digits_value(d) as u32)
    } else {
        None
    }
}

proof fn lemma_trim_start_skip(s: Seq<char>, a: int)
    requires
        0 <= a <= s.len(),
        forall|i: int| 0 <= i < a ==> is_white_space(#[trigger] s[i]),
    ensures
        trim_start(s) == trim_start(s.subrange(a, s.len() as int)),
    decreases a,
{
    if a > 0 {
        lemma_trim_start_skip(s.drop_first(), a - 1);
        assert(s.drop_first().subrange(a - 1, s.len() - 1) =~= s.subrange(a, s.len() as int));
    } else {
        assert(s.subrange(0, s.len() as int) =~= s);
    }
}

proof fn lemma_trim_end_cut(s: Seq<char>, b: int)
    requires
        0 <= b <= s.len(),
        forall|i: int| b <= i < s.len() ==> is_white_space(#[trigger] s[i]),
    ensures
        trim_end(s) == trim_end(s.subrange(0, b)),
    decreases s.len() - b,
{
    if b < s.len() {
        lemma_trim_end_cut(s.drop_last(), b);
        assert(s.drop_last().subrange(0, b) =~= s.subrange(0, b));
    } else {
        assert(s.subrange(0, b) =~= s);
    }
}

proof fn lemma_digits_prefix_bound(d: Seq<char>, k: int)
    requires
        0 <= k <= d.len(),
        forall|i: int| 0 <= i < d.len() ==> is_digit(#[trigger] d[i]),
    ensures
        digits_value(d.subrange(0, k)) <= digits_value(d),
        0 <= digits_value(d.subrange(0, k)),
    decreases d.len() - k,
{
    if k < d.len() {
        lemma_digits_prefix_bound(d.drop_last(), k);
        assert(d.drop_last().subrange(0, k) =~= d.subrange(0, k));
        lemma_digits_nonneg(d.drop_last());
    } else {
        assert(d.subrange(0, k) =~= d);
        lemma_digits_nonneg(d);
    }
}

proof fn lemma_digits_nonneg(d: Seq<char>)
    requires
        forall|i: int| 0 <= i < d.len() ==> is_digit(#[trigger] d[i]),
    ensures
        0 <= digits_value(d),
    decreases d.len(),
{
    if d.len() > 0 {
        lemma_digits_nonneg(d.drop_last());
        assert(is_digit(d[d.len() - 1]));
    }
}

proof fn lemma_decimal_digits(n: nat)
    ensures
        decimal_digits(n).len() > 0,
        forall|i: int|
            0 <= i < decimal_digits(n).len() ==> is_digit(#[trigger] decimal_digits(n)[i]),
        digits_value(decimal_digits(n)) == n,
    decreases n,
{
    if n >= 10 {
        lemma_decimal_digits(n / 10);
        let dd = decimal_digits(n);
        assert(dd.drop_last() =~= decimal_digits(n / 10));
        assert forall|i: int| 0 <= i < dd.len() implies is_digit(#[trigger] dd[i]) by {
            if i < dd.len() - 1 {
                assert(dd[i] == decimal_digits(n / 10)[i]);
            }
        }
        assert(dd.last() == decimal_digit((n % 10) as int));
        assert(dd.last() as int == 48 + n % 10);
        assert(digits_value(dd) == digits_value(decimal_digits(n / 10)) * 10 + n % 10);
    } else {
        let dd = decimal_digits(n);
        assert(dd[0] as int == 48 + n);
        assert(digits_value(dd.drop_last()) == 0);
    }
}

/// A number written in decimal reads back as itself: every value that the prompts ask for,
/// from 0 to 4294967295, is accepted when typed as its decimal numeral.
pub proof fn lemma_decimal_reads_back(n: u32)
    ensures
        parsed_u32(decimal_digits(n as nat)) == Some(n),
{
    lemma_decimal_numerals(n as nat);
}

/// A decimal numeral, with or without a '+' in front, reads as its value when that fits in
/// 32 bits and as nothing when it does not.
pub proof fn lemma_decimal_numerals(n: nat)
    ensures
        parsed_u32(decimal_digits(n)) == if n <= u32::MAX {
            Some(n as u32)
        } else {
            None
        },
        parsed_u32(seq!['+'] + decimal_digits(n)) == parsed_u32(decimal_digits(n)),
{
    let dd = decimal_digits(n);
    lemma_decimal_digits(n);
    assert(is_digit(dd[0]));
    assert(is_digit(dd.last()));
    assert(trim_start(dd) == dd);
    assert(trim_end(dd) == dd);
    assert(unsigned_numeral(trimmed(dd)) == dd);
    let pd = seq!['+'] + dd;
    assert(pd[0] == '+');
    assert(pd.last() == dd.last());
    assert(trim_start(pd) == pd);
    assert(trim_end(pd) == pd);
    assert(pd.drop_first() =~= dd);
    assert(unsigned_numeral(trimmed(pd)) == dd);
}

proof fn lemma_trim_start_push(s: Seq<char>, c: char)
    requires
        is_white_space(c),
    ensures
        trim_start(s.push(c)) == if trim_start(s).len() == 0 {
            Seq::<char>::empty()
        } else {
            trim_start(s).push(c)
        },
    decreases s.len(),
{
    if s.len() == 0 {
        assert(s.push(c).drop_first() =~= Seq::<char>::empty());
        assert(trim_start(Seq::<char>::empty()) == Seq::<char>::empty());
        assert(s.push(c)[0] == c);
    } else if is_white_space(s[0]) {
        lemma_trim_start_push(s.drop_first(), c);
        assert(s.push(c).drop_first() =~= s.drop_first().push(c));
        assert(s.push(c)[0] == s[0]);
    } else {
        assert(s.push(c)[0] == s[0]);
    }
}

/// White space around what is typed does not change the number read: a white-space
/// character before or after the text reads as the text alone.
pub proof fn lemma_parse_ignores_white_space(s: Seq<char>, c: char)
    requires
        is_white_space(c),
    ensures
        parsed_u32(seq![c] + s) == parsed_u32(s),
        parsed_u32(s.push(c)) == parsed_u32(s),
{
    assert((seq![c] + s).drop_first() =~= s);
    lemma_trim_start_push(s, c);
    let t = trim_start(s);
    if t.len() > 0 {
        assert(t.push(c).drop_last() =~= t);
    }
}

/// Reads `input` as an unsigned 32-bit number, as `input.trim().parse::<u32>().ok()` does.
pub fn parse_u32(input: &Vec<char>) -> (r: Option<u32>)
    ensures
        r == parsed_u32(input@),
{
    let len = input.len();
    let mut a: usize = 0;
    while a < len && white_space(input[a])
        invariant
            a <= len,
            len == input@.len(),
            forall|i: int| 0 <= i < a ==> is_white_space(#[trigger] input@[i]),
        decreases len - a,
    {
        a = a + 1;
    }
    proof {
        lemma_trim_start_skip(input@, a as int);
        assert(trim_start(input@.subrange(a as int, len as int)) == input@.subrange(
            a as int,
            len as int,
        ));
    }
    let ghost tail = input@.subrange(a as int, len as int);
    let mut b: usize = len;
    while b > a && white_space(input[b - 1])
        invariant
            a <= b <= len,
            len == input@.len(),
            tail == input@.subrange(a as int, len as int),
            forall|i: int| b <= i < len ==> is_white_space(#[trigger] input@[i]),
        decreases b,
    {
        b = b - 1;
    }
    proof {
        assert forall|i: int| b - a <= i < tail.len() implies is_white_space(#[trigger] tail[i]) by {
            assert(tail[i] == input@[a + i]);
        }
        lemma_trim_end_cut(tail, b - a);
        assert(tail.subrange(0, b - a) =~= input@.subrange(a as int, b as int));
        assert(trimmed(input@) == input@.subrange(a as int, b as int));
    }
    let mut start = a;
    if a < b && input[a] == '+' {
        start = a + 1;
    }
    let ghost d = input@.subrange(start as int, b as int);
    assert(unsigned_numeral(trimmed(input@)) =~= d);
    if start == b {
        return None;
    }
    let mut acc: u64 = 0;
    let mut i = start;
    while i < b
        invariant
            start <= i <= b <= len,
            len == input@.len(),
            d == input@.subrange(start as int, b as int),
            unsigned_numeral(trimmed(input@)) == d,
            forall|k: int| start <= k < i ==> is_digit(#[trigger] input@[k]),
            acc == digits_value(input@.subrange(start as int, i as int)),
            acc <= u32::MAX,
        decreases b - i,
    {
        let c = input[i];
        if !('0' <= c && c <= '9') {
            assert(!is_digit(d[i - start]));
            return None;
        }
        let next: u64 = acc * 10 + (c as u64 - 48);
        proof {
            assert(input@.subrange(start as int, i + 1).drop_last() =~= input@.subrange(
                start as int,
                i as int,
            ));
        }
        if next > 4294967295 {
            proof {
                let k = i + 1 - start;
                if forall|j: int| 0 <= j < d.len() ==> is_digit(#[trigger] d[j]) {
                    lemma_digits_prefix_bound(d, k);
                    assert(d.subrange(0, k) =~= input@.subrange(start as int, i + 1));
                }
            }
            return None;
        }
        acc = next;
        i = i + 1;
    }
    assert(input@.subrange(start as int, b as int) =~= d);
    assert forall|j: int| 0 <= j < d.len() implies is_digit(#[trigger] d[j]) by {
        assert(d[j] == input@[start + j]);
    }
    Some(acc as u32)
}

} // verus!
