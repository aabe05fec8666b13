//! The few operations on strings and bytes that command handling and
//! classification take from std and from the hex crate.
use vstd::prelude::*;
use vstd::utf8::{decode_utf8, valid_utf8};

verus! {

/// Unicode's `White_Space` property.
pub open spec fn is_white_space(c: char) -> bool {
    ('\u{9}' <= c && c <= '\u{d}') || c == ' ' || c == '\u{85}' || c == '\u{a0}' || c
        == '\u{1680}' || ('\u{2000}' <= c && c <= '\u{200a}') || c == '\u{2028}' || c
        == '\u{2029}' || c == '\u{202f}' || c == '\u{205f}' || c == '\u{3000}'
}

/// `s` without its leading white space.
pub open spec fn trim_start_ws(s: Seq<char>) -> Seq<char>
    decreases s.len(),
{
    if s.len() > 0 && is_white_space(s[0]) {
        trim_start_ws(s.drop_first())
    } else {
        s
    }
}

/// `s` without its trailing white space.
pub open spec fn trim_end_ws(s: Seq<char>) -> Seq<char>
    decreases s.len(),
{
    if s.len() > 0 && is_white_space(s.last()) {
        trim_end_ws(s.drop_last())
    } else {
        s
    }
}

/// `s` without white space at either end.
pub open spec fn trim_ws(s: Seq<char>) -> Seq<char> {
    trim_end_ws(trim_start_ws(s))
}

/// Whether `s` begins with `p`.
pub open spec fn has_prefix(s: Seq<char>, p: Seq<char>) -> bool {
    p.len() <= s.len() && s.subrange(0, p.len() as int) == p
}

/// Relies on `str::starts_with` with a string pattern.
#[verifier::external_body]
pub(crate) fn starts_with(s: &str, p: &str) -> (r: bool)
    ensures
        r == has_prefix(s@, p@),
{
    s.starts_with(p)
}

/// Relies on `str::strip_prefix` with a string pattern: the rest of `s` when
/// it begins with `p`, otherwise nothing.
#[verifier::external_body]
pub(crate) fn strip_prefix<'a>(s: &'a str, p: &str) -> (r: Option<&'a str>)
    ensures
        r is Some == has_prefix(s@, p@),
        r matches Some(t) ==> t@ == s@.subrange(p@.len() as int, s@.len() as int),
{
    s.strip_prefix(p)
}

/// Relies on `str::trim`: leading and trailing characters with the
/// `White_Space` property are removed.
#[verifier::external_body]
pub(crate) fn trim(s: &str) -> (r: &str)
    ensures
        r@ == trim_ws(s@),
{
    s.trim()
}

/// What `String::from_utf8_lossy` makes of `b`.
pub uninterp spec fn lossy_text(b: Seq<u8>) -> Seq<char>;

/// Relies on `String::from_utf8_lossy`: valid UTF-8 is decoded unchanged, and
/// other input gets replacement characters in a way that depends on the bytes
/// alone.
#[verifier::external_body]
pub(crate) fn text_of(b: &[u8]) -> (r: String)
    ensures
        r@ == lossy_text(b@),
        valid_utf8(b@) ==> r@ == decode_utf8(b@),
{
    String::from_utf8_lossy(b).into_owned()
}

/// Why `hex::decode` refused its input.
#[derive(Clone, Copy, Debug, PartialEq, Eq)]
pub enum HexError {
    /// The byte at `index`, read as a character, is no hex digit.
    InvalidHexCharacter { c: char, index: usize },
    /// The input has an odd number of bytes.
    OddLength,
    /// The input does not have the length that the output needs.
    InvalidStringLength,
}

impl HexError {
    /// This is the error that `hex::decode` reports on `b`: an odd length
    /// first, else the first byte that is no hex digit.
    pub open spec fn reports_on(self, b: Seq<u8>) -> bool {
        if b.len() % 2 == 1 {
            self == HexError::OddLength
        } else {
            self.names_first_non_digit(b)
        }
    }

    /// This error names the first byte of `b` that is no hex digit, and where
    /// it stands.
    pub open spec fn names_first_non_digit(self, b: Seq<u8>) -> bool {
        match self {
            HexError::InvalidHexCharacter { c, index } => {
                &&& index < b.len()
                &&& hex_digit(b[index as int]) is None
                &&& c == b[index as int] as char
                &&& all_hex_digits(b.subrange(0, index as int))
            },
            _ => false,
        }
    }
}

/// The value of a hex digit, in either case.
pub open spec fn hex_digit(c: u8) -> Option<u8> {
    if 0x30 <= c && c <= 0x39 {
        Some((c - 0x30) as u8)
    } else if 0x61 <= c && c <= 0x66 {
        Some((c - 0x61 + 10) as u8)
    } else if 0x41 <= c && c <= 0x46 {
        Some((c - 0x41 + 10) as u8)
    } else {
        None
    }
}

/// Every byte of `b` is a hex digit.
pub open spec fn all_hex_digits(b: Seq<u8>) -> bool {
    forall|i: int| 0 <= i < b.len() ==> (#[trigger] hex_digit(b[i])) is Some
}

/// Some byte of `b` is no hex digit.
pub open spec fn has_non_digit(b: Seq<u8>) -> bool {
    !all_hex_digits(b)
}

/// The bytes that an even number of hex digits spell, two digits a byte,
/// the high half first.
pub open spec fn hex_bytes(b: Seq<u8>) -> Seq<u8> {
    Seq::new(
        b.len() / 2,
        |i: int| (16 * (hex_digit(b[2 * i])->0 as nat) + hex_digit(b[2 * i + 1])->0 as nat) as u8,
    )
}

/// Relies on `hex::decode`: an odd length is refused first; otherwise the
/// first byte that is no hex digit is reported with its position; otherwise
/// each pair of digits gives one byte.
#[verifier::external_body]
pub(crate) fn decode_hex(b: &[u8]) -> (r: Result<Vec<u8>, HexError>)
    ensures
        r is Err ==> has_non_digit(b@) || b@.len() % 2 == 1,
        r matches Err(err) ==> err.reports_on(b@),
        r matches Ok(v) ==> v@ == hex_bytes(b@) && b@.len() % 2 == 0 && all_hex_digits(b@),
{
    match hex::decode(b) {
        Ok(v) => Ok(v),
        Err(hex::FromHexError::InvalidHexCharacter { c, index }) => Err(
            HexError::InvalidHexCharacter { c, index },
        ),
        Err(hex::FromHexError::OddLength) => Err(HexError::OddLength),
        Err(hex::FromHexError::InvalidStringLength) => Err(HexError::InvalidStringLength),
    }
}

} // verus!
