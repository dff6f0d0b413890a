use vstd::prelude::*;

verus! {

/// Why a hexadecimal color string was rejected.
#[derive(Clone, Copy, Debug, PartialEq, Eq, Structural)]
pub enum HexError {
    /// The string is neither six characters nor `#` followed by six characters.
    InvalidFormat,
    /// One of the six color characters is not a hexadecimal digit.
    InvalidDigit,
}

/// The value of a hexadecimal digit, or `None` when the character is not one.
pub open spec fn hex_digit_value(c: char) -> Option<u8> {
    if '0' <= c && c <= '9' {
        Some((c as u32 - '0' as u32) as u8)
    } else if 'a' <= c && c <= 'f' {
        Some((c as u32 - 'a' as u32 + 10) as u8)
    } else if 'A' <= c && c <= 'F' {
        Some((c as u32 - 'A' as u32 + 10) as u8)
    } else {
        None
    }
}

/// The lowercase digit for a value below sixteen.
pub open spec fn hex_digit_char(v: u8) -> char {
    if v < 10 {
        ((v + 48) as u8) as char
    } else {
        ((v + 87) as u8) as char
    }
}

/// The six color characters of a string: the whole string when it has six,
/// the rest after a leading `#` when it has seven.
pub open spec fn color_digits(s: Seq<char>) -> Option<Seq<char>> {
    if s.len() == 6 {
        Some(s)
    } else if s.len() == 7 && s[0] == '#' {
        Some(s.subrange(1, 7))
    } else {
        None
    }
}

/// The byte written by the two digits at `i` and `i + 1`.
pub open spec fn byte_at(d: Seq<char>, i: int) -> Option<u8> {
    let hi = hex_digit_value(d[i]);
    let lo = hex_digit_value(d[i + 1]);
    if hi is Some && lo is Some {
        Some((hi->0 * 16 + lo->0) as u8)
    } else {
        None
    }
}

/// The three bytes that a `rrggbb` or `#rrggbb` string denotes.
pub open spec fn triple_from_hex(s: Seq<char>) -> Result<(u8, u8, u8), HexError> {
    match color_digits(s) {
        None => Err(HexError::InvalidFormat),
        Some(d) => {
            let r = byte_at(d, 0);
            let g = byte_at(d, 2);
            let b = byte_at(d, 4);
            if r is Some && g is Some && b is Some {
                Ok((r->0, g->0, b->0))
            } else {
                Err(HexError::InvalidDigit)
            }
        },
    }
}

/// `#` followed by two lowercase digits for each byte.
pub open spec fn hex_text(r: u8, g: u8, b: u8) -> Seq<char> {
    seq![
        '#',
        hex_digit_char(r / 16),
        hex_digit_char(r % 16),
        hex_digit_char(g / 16),
        hex_digit_char(g % 16),
        hex_digit_char(b / 16),
        hex_digit_char(b % 16),
    ]
}

/// Reads one hexadecimal digit.
pub fn parse_hex_digit(c: char) -> (r: Option<u8>)
    ensures
        r == hex_digit_value(c),
        r is Some ==> r->0 < 16,
{
    if '0' <= c && c <= '9' {
        Some((c as u32 - '0' as u32) as u8)
    } else if 'a' <= c && c <= 'f' {
        Some((c as u32 - 'a' as u32 + 10) as u8)
    } else if 'A' <= c && c <= 'F' {
        Some((c as u32 - 'A' as u32 + 10) as u8)
    } else {
        None
    }
}

/// The lowercase digit for a value below sixteen.
pub fn hex_digit(v: u8) -> (c: char)
    requires
        v < 16,
    ensures
        c == hex_digit_char(v),
{
    if v < 10 {
        (v + 48) as char
    } else {
        (v + 87) as char
    }
}

/// Reads the byte written by the digits at `i` and `i + 1` of `s`.
fn parse_byte_at(s: &str, i: usize) -> (r: Option<u8>)
    requires
        i + 1 < s@.len(),
        i < 8,
    ensures
        r == byte_at(s@, i as int),
{
    let hi = parse_hex_digit(s.get_char(i));
    let lo = parse_hex_digit(s.get_char(i + 1));
    match (hi, lo) {
        (Some(h), Some(l)) => Some(h * 16 + l),
        _ => None,
    }
}

/// Parses a `rrggbb` or `#rrggbb` string into its three bytes.
pub fn parse_hex_triple(hex: &str) -> (res: Result<(u8, u8, u8), HexError>)
    ensures
        res == triple_from_hex(hex@),
{
    let n = hex.unicode_len();
    let start: usize = if n == 6 {
        0
    } else if n == 7 && hex.get_char(0) == '#' {
        1
    } else {
        return Err(HexError::InvalidFormat);
    };
    let ghost d = color_digits(hex@)->0;
    assert(forall|k: int| 0 <= k < 6 ==> d[k] == hex@[start + k]);
    let r = parse_byte_at(hex, start);
    let g = parse_byte_at(hex, start + 2);
    let b = parse_byte_at(hex, start + 4);
    assert(r == byte_at(d, 0));
    assert(g == byte_at(d, 2));
    assert(b == byte_at(d, 4));
    match (r, g, b) {
        (Some(r), Some(g), Some(b)) => Ok((r, g, b)),
        _ => Err(HexError::InvalidDigit),
    }
}

/// Relies on `String::push`: the character is appended at the end.
#[verifier::external_body]
fn push_char(s: &mut String, c: char)
    ensures
        final(s)@ == old(s)@.push(c),
{
    s.push(c);
}

/// Writes three bytes as `#rrggbb`, in lowercase.
pub fn format_hex_triple(r: u8, g: u8, b: u8) -> (s: String)
    ensures
        s@ == hex_text(r, g, b),
{
    let mut s = String::new();
    push_char(&mut s, '#');
    push_char(&mut s, hex_digit(r / 16));
    push_char(&mut s, hex_digit(r % 16));
    push_char(&mut s, hex_digit(g / 16));
    push_char(&mut s, hex_digit(g % 16));
    push_char(&mut s, hex_digit(b / 16));
    push_char(&mut s, hex_digit(b % 16));
    assert(s@ =~= hex_text(r, g, b));
    s
}

/// Formatting three bytes and parsing the text back gives the same bytes.
pub proof fn lemma_hex_text_round_trip(r: u8, g: u8, b: u8)
    ensures
        triple_from_hex(hex_text(r, g, b)) == Ok::<(u8, u8, u8), HexError>((r, g, b)),
{
    lemma_digit_round_trip(r / 16);
    lemma_digit_round_trip(r % 16);
    lemma_digit_round_trip(g / 16);
    lemma_digit_round_trip(g % 16);
    lemma_digit_round_trip(b / 16);
    lemma_digit_round_trip(b % 16);
    let d = color_digits(hex_text(r, g, b))->0;
    assert(d =~= hex_text(r, g, b).subrange(1, 7));
    assert(byte_at(d, 0) == Some(r));
    assert(byte_at(d, 2) == Some(g));
    assert(byte_at(d, 4) == Some(b));
}

proof fn lemma_digit_round_trip(v: u8)
    requires
        v < 16,
    ensures
        hex_digit_value(hex_digit_char(v)) == Some(v),
{
}

} // verus!
