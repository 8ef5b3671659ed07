//! Byte and text encodings: lowercase hex (via `hex`), standard base64 decoding (via
//! `base64`), operating-system randomness (via `rand_core`) and Unicode whitespace trimming.
use base64::Engine;
use rand_core::RngCore;
use vstd::prelude::*;

verus! {

/// The lowercase hex digit for `n` (0 to 15).
pub open spec fn hex_digit(n: int) -> char {
    seq!['0', '1', '2', '3', '4', '5', '6', '7', '8', '9', 'a', 'b', 'c', 'd', 'e', 'f'][n]
}

/// True for the characters that lowercase hex uses.
pub open spec fn is_lower_hex_char(c: char) -> bool {
    ('0' <= c && c <= '9') || ('a' <= c && c <= 'f')
}

/// Lowercase hex: each byte becomes two digits, the high nibble first.
pub open spec fn lower_hex(data: Seq<u8>) -> Seq<char>
    decreases data.len(),
{
    if data.len() == 0 {
        Seq::empty()
    } else {
        seq![hex_digit(data[0] as int / 16), hex_digit(data[0] as int % 16)] + lower_hex(data.drop_first())
    }
}

/// Lowercase hex has two characters per byte, each a hex digit.
pub proof fn lemma_lower_hex(data: Seq<u8>)
    ensures
        lower_hex(data).len() == 2 * data.len(),
        forall|i: int| 0 <= i < lower_hex(data).len() ==> is_lower_hex_char(#[trigger] lower_hex(data)[i]),
    decreases data.len(),
{
    if data.len() > 0 {
        lemma_lower_hex(data.drop_first());
        let hi = data[0] as int / 16;
        let lo = data[0] as int % 16;
        let digits = seq!['0', '1', '2', '3', '4', '5', '6', '7', '8', '9', 'a', 'b', 'c', 'd', 'e', 'f'];
        assert forall|n: int| 0 <= n < 16 implies is_lower_hex_char(#[trigger] digits[n]) by {}
        let head = seq![hex_digit(hi), hex_digit(lo)];
        let rest = lower_hex(data.drop_first());
        assert(lower_hex(data) == head + rest);
        assert forall|i: int| 0 <= i < lower_hex(data).len() implies is_lower_hex_char(#[trigger] lower_hex(data)[i]) by {
            if i >= 2 {
                assert(lower_hex(data)[i] == rest[i - 2]);
            } else if i == 0 {
                assert(is_lower_hex_char(digits[hi]));
            } else {
                assert(is_lower_hex_char(digits[lo]));
            }
        }
    }
}

/// Encodes `data` with `hex::encode`, whose documentation promises lowercase digits, two per
/// byte. The contract states exactly that: the result is `lower_hex(data)`.
#[verifier::external_body]
pub(crate) fn hex_encode(data: &[u8]) -> (s: String)
    ensures
        s@ == lower_hex(data@),
{
    hex::encode(data)
}

/// `n` bytes from the operating system's random source, written by
/// `rand_core::OsRng::try_fill_bytes` into a buffer of length `n`; `None` where the operating
/// system reports that it cannot supply randomness. Only the length is claimed.
#[verifier::external_body]
pub(crate) fn os_random_bytes(n: usize) -> (r: Option<Vec<u8>>)
    ensures
        r matches Some(v) ==> v@.len() == n,
{
    let mut buf = vec![0u8; n];
    match rand_core::OsRng.try_fill_bytes(&mut buf) {
        Ok(()) => Some(buf),
        Err(_) => None,
    }
}

/// Why standard base64 decoding failed; the variants of `base64::DecodeError`.
#[derive(Clone, Copy, Debug, PartialEq, Eq)]
pub enum Base64Failure {
    /// A byte outside the alphabet (or misplaced padding) at this offset.
    InvalidByte(usize, u8),
    /// The number of base64 symbols is invalid.
    InvalidLength(usize),
    /// The last symbol at this offset carries nonzero bits that would be discarded.
    InvalidLastSymbol(usize, u8),
    /// Padding absent or not canonical.
    InvalidPadding,
}

/// What `base64::engine::general_purpose::STANDARD.decode` gives for the UTF-8 text whose
/// characters are `text`: the decoded bytes, or `None` where it reports an error.
pub uninterp spec fn base64_standard_decoding(text: Seq<char>) -> Option<Seq<u8>>;

/// Decodes `text` with `base64::engine::general_purpose::STANDARD.decode` (standard alphabet,
/// canonical padding). The result is the named decoding of the text; an error is the crate's
/// `DecodeError`, carried over variant by variant. Which error comes back is not claimed.
#[verifier::external_body]
pub(crate) fn base64_decode_standard(text: &str) -> (r: Result<Vec<u8>, Base64Failure>)
    ensures
        match r {
            Ok(bytes) => base64_standard_decoding(text@) == Some(bytes@),
            Err(_) => base64_standard_decoding(text@) is None,
        },
{
    match base64::engine::general_purpose::STANDARD.decode(text) {
        Ok(bytes) => Ok(bytes),
        Err(base64::DecodeError::InvalidByte(o, b)) => Err(Base64Failure::InvalidByte(o, b)),
        Err(base64::DecodeError::InvalidLength(n)) => Err(Base64Failure::InvalidLength(n)),
        Err(base64::DecodeError::InvalidLastSymbol(o, b)) => Err(Base64Failure::InvalidLastSymbol(o, b)),
        Err(base64::DecodeError::InvalidPadding) => Err(Base64Failure::InvalidPadding),
    }
}

/// Whether `c` has the Unicode `White_Space` property (the characters that
/// `char::is_whitespace` and `str::trim` treat as whitespace): U+0009 to U+000D, U+0020,
/// U+0085, U+00A0, U+1680, U+2000 to U+200A, U+2028, U+2029, U+202F, U+205F and U+3000.
pub open spec fn unicode_white_space(c: char) -> bool {
    ||| ('\u{9}' <= c && c <= '\u{d}')
    ||| c == '\u{20}'
    ||| c == '\u{85}'
    ||| c == '\u{a0}'
    ||| c == '\u{1680}'
    ||| ('\u{2000}' <= c && c <= '\u{200a}')
    ||| c == '\u{2028}'
    ||| c == '\u{2029}'
    ||| c == '\u{202f}'
    ||| c == '\u{205f}'
    ||| c == '\u{3000}'
}

/// Whether `c` is Unicode whitespace.
pub fn is_whitespace(c: char) -> (b: bool)
    ensures
        b == unicode_white_space(c),
{
    ('\u{9}' <= c && c <= '\u{d}') || c == '\u{20}' || c == '\u{85}' || c == '\u{a0}' || c
        == '\u{1680}' || ('\u{2000}' <= c && c <= '\u{200a}') || c == '\u{2028}' || c
        == '\u{2029}' || c == '\u{202f}' || c == '\u{205f}' || c == '\u{3000}'
}

/// `s` without its leading whitespace.
pub open spec fn trim_start(s: Seq<char>) -> Seq<char>
    decreases s.len(),
{
    if s.len() > 0 && unicode_white_space(s[0]) {
        trim_start(s.drop_first())
    } else {
        s
    }
}

/// `s` without its trailing whitespace.
pub open spec fn trim_end(s: Seq<char>) -> Seq<char>
    decreases s.len(),
{
    if s.len() > 0 && unicode_white_space(s.last()) {
        trim_end(s.drop_last())
    } else {
        s
    }
}

/// `s` without leading and trailing whitespace.
pub open spec fn trimmed(s: Seq<char>) -> Seq<char> {
    trim_end(trim_start(s))
}

/// Removes leading and trailing Unicode whitespace, as `str::trim` does.
pub fn trim(s: &str) -> (r: &str)
    ensures
        r@ == trimmed(s@),
{
    let n = s.unicode_len();
    let mut start: usize = 0;
    assert(s@.subrange(0, n as int) =~= s@);
    while start < n && is_whitespace(s.get_char(start))
        invariant
            n == s@.len(),
            start <= n,
            trim_start(s@) == trim_start(s@.subrange(start as int, n as int)),
        decreases n - start,
    {
        assert(s@.subrange(start as int, n as int).drop_first() =~= s@.subrange(start + 1, n as int));
        start = start + 1;
    }
    assert(trim_start(s@) == s@.subrange(start as int, n as int));
    let mut end: usize = n;
    while end > start && is_whitespace(s.get_char(end - 1))
        invariant
            n == s@.len(),
            start <= end <= n,
            trimmed(s@) == trim_end(s@.subrange(start as int, end as int)),
        decreases end - start,
    {
        assert(s@.subrange(start as int, end as int).drop_last() =~= s@.subrange(start as int, end - 1));
        end = end - 1;
    }
    s.substring_char(start, end)
}

} // verus!
