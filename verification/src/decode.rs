//! Turning the bytes of a source file into text.
use vstd::prelude::*;
use vstd::utf8::{decode_utf8, valid_utf8};

use crate::text::chars_of;

verus! {

/// What `String::from_utf8_lossy` makes of `bytes`.
pub uninterp spec fn utf8_lossy_text(bytes: Seq<u8>) -> Seq<char>;

/// UTF-16 decoding with replacement: a high surrogate followed by a low
/// surrogate is one character; any other surrogate is U+FFFD; every other
/// code unit is the character with that value.
pub open spec fn utf16_text(u: Seq<u16>) -> Seq<char>
    decreases u.len(),
{
    if u.len() == 0 {
        Seq::empty()
    } else if 0xD800 <= u[0] < 0xDC00 && u.len() >= 2 && 0xDC00 <= u[1] < 0xE000 {
        seq![(0x10000 + (u[0] - 0xD800) * 0x400 + (u[1] - 0xDC00)) as char] + utf16_text(u.skip(2))
    } else if 0xD800 <= u[0] < 0xE000 {
        seq!['\u{FFFD}'] + utf16_text(u.skip(1))
    } else {
        seq![u[0] as char] + utf16_text(u.skip(1))
    }
}

/// `String::from_utf8_lossy`: the text the bytes encode, with each invalid
/// sequence replaced by U+FFFD. Stated: the result is named, and equals the
/// decoded text when the bytes are valid UTF-8; the replacement rule is not.
#[verifier::external_body]
fn utf8_lossy(bytes: &[u8]) -> (s: String)
    ensures
        s@ == utf8_lossy_text(bytes@),
        valid_utf8(bytes@) ==> s@ == decode_utf8(bytes@),
{
    String::from_utf8_lossy(bytes).into_owned()
}

/// `String::from_utf16_lossy`: the text the UTF-16 code units encode, with each
/// unpaired surrogate replaced by U+FFFD (`utf16_text`).
#[verifier::external_body]
fn utf16_lossy(units: &[u16]) -> (s: String)
    ensures
        s@ == utf16_text(units@),
{
    String::from_utf16_lossy(units)
}

/// The code units of byte pairs, little- or big-endian; a trailing odd byte is
/// dropped (`chunks_exact(2)`).
pub open spec fn units_of(bytes: Seq<u8>, little: bool) -> Seq<u16> {
    Seq::new(
        bytes.len() / 2,
        |k: int|
            if little {
                (bytes[2 * k] + 256 * bytes[2 * k + 1]) as u16
            } else {
                (256 * bytes[2 * k] + bytes[2 * k + 1]) as u16
            },
    )
}

/// The text of a source file: UTF-16 after a little- or big-endian byte-order
/// mark (which is dropped), UTF-8 otherwise.
pub open spec fn decoded(bytes: Seq<u8>) -> Seq<char> {
    if bytes.len() >= 2 && bytes[0] == 0xff && bytes[1] == 0xfe {
        utf16_text(units_of(bytes.skip(2), true))
    } else if bytes.len() >= 2 && bytes[0] == 0xfe && bytes[1] == 0xff {
        utf16_text(units_of(bytes.skip(2), false))
    } else {
        utf8_lossy_text(bytes)
    }
}

fn units(bytes: &[u8], little: bool) -> (r: Vec<u16>)
    requires
        bytes@.len() >= 2,
    ensures
        r@ == units_of(bytes@.skip(2), little),
{
    let mut r: Vec<u16> = Vec::new();
    let len = bytes.len();
    let n = (len - 2) / 2;
    let mut k: usize = 0;
    while k < n
        invariant
            n == (len - 2) / 2,
            len == bytes@.len(),
            len >= 2,
            k <= n,
            r@ == units_of(bytes@.skip(2), little).take(k as int),
        decreases n - k,
    {
        assert(2 * k + 3 < len);
        let a = bytes[2 + 2 * k] as u16;
        let b = bytes[3 + 2 * k] as u16;
        let u: u16 = if little { a + 256 * b } else { 256 * a + b };
        let ghost rest = bytes@.skip(2);
        assert(rest[2 * k] == bytes@[2 + 2 * k]);
        assert(rest[2 * k + 1] == bytes@[3 + 2 * k]);
        r.push(u);
        assert(r@ =~= units_of(bytes@.skip(2), little).take(k + 1));
        k += 1;
    }
    assert(units_of(bytes@.skip(2), little).take(n as int) =~= units_of(bytes@.skip(2), little));
    r
}

/// Decodes a source file's bytes (`decode_text`).
pub fn decode_text(bytes: &[u8]) -> (s: String)
    ensures
        s@ == decoded(bytes@),
{
    if bytes.len() >= 2 && bytes[0] == 0xff && bytes[1] == 0xfe {
        return utf16_lossy(&units(bytes, true));
    }
    if bytes.len() >= 2 && bytes[0] == 0xfe && bytes[1] == 0xff {
        return utf16_lossy(&units(bytes, false));
    }
    utf8_lossy(bytes)
}

/// Decodes a source file's bytes into characters.
pub fn decode_chars(bytes: &[u8]) -> (v: Vec<char>)
    ensures
        v@ == decoded(bytes@),
{
    let s = decode_text(bytes);
    chars_of(s.as_str())
}

} // verus!
