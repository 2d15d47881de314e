//! Base64 text of binary data.
use vstd::prelude::*;
use base64::Engine;

verus! {

/// The number of characters that `len` bytes take: four for every three bytes or part of them.
pub open spec fn base64_len(len: nat) -> nat {
    4 * ((len + 2) / 3)
}

/// The byte at `index`, and zero beyond the end.
pub open spec fn byte_or_zero(data: Seq<u8>, index: int) -> nat {
    if 0 <= index < data.len() {
        data[index] as nat
    } else {
        0
    }
}

/// The character for a six-bit value in the standard alphabet.
pub open spec fn base64_char(value: nat) -> char {
    if value < 26 {
        (65 + value) as char
    } else if value < 52 {
        (97 + (value - 26)) as char
    } else if value < 62 {
        (48 + (value - 52)) as char
    } else if value == 62 {
        '+'
    } else {
        '/'
    }
}

/// Character `place` (0 to 3) of the group of four that stands for the bytes from `start` on.
pub open spec fn base64_group_char(data: Seq<u8>, start: int, place: int) -> char {
    let bits = 65536 * byte_or_zero(data, start) + 256 * byte_or_zero(data, start + 1)
        + byte_or_zero(data, start + 2);
    if place == 0 {
        base64_char(bits / 262144)
    } else if place == 1 {
        base64_char(bits / 4096 % 64)
    } else if start + place - 1 >= data.len() {
        '='
    } else if place == 2 {
        base64_char(bits / 64 % 64)
    } else {
        base64_char(bits % 64)
    }
}

/// The base64 text of `data`: standard alphabet, padded with `=` to whole groups of four.
pub open spec fn base64_text(data: Seq<u8>) -> Seq<char> {
    Seq::new(base64_len(data.len()), |i: int| base64_group_char(data, 3 * (i / 4), i % 4))
}

/// Whether the text of `len` bytes is short enough to be held in memory.
pub open spec fn base64_fits(len: nat) -> bool {
    base64_len(len) <= isize::MAX
}

/// Tells whether the text of `len` bytes is short enough to be held in memory.
pub fn can_encode(len: usize) -> (fits: bool)
    ensures
        fits == base64_fits(len as nat),
{
    let groups: usize = len / 3 + if len % 3 == 0 {
        0usize
    } else {
        1usize
    };
    groups <= isize::MAX as usize / 4
}

/// Calls `Engine::encode` of `base64::engine::general_purpose::STANDARD`: the result is the
/// padded text of `data` in the standard alphabet. The call allocates the whole text at once,
/// and panics if it is longer than any allocation can be.
#[verifier::external_body]
pub(crate) fn encode_standard(data: &[u8]) -> (text: String)
    requires
        base64_fits(data@.len()),
    ensures
        text@ == base64_text(data@),
{
    base64::engine::general_purpose::STANDARD.encode(data)
}

} // verus!
