//! Lowercase hexadecimal, as ASCII bytes.
use vstd::prelude::*;

verus! {

/// The ASCII code of the lowercase hexadecimal digit for `n`.
pub open spec fn digit(n: u8) -> u8
    recommends
        n < 16,
{
    if n < 10 {
        (0x30 + n) as u8
    } else {
        (0x57 + n) as u8
    }
}

/// Whether `c` is the ASCII code of a lowercase hexadecimal digit.
pub open spec fn is_digit(c: u8) -> bool {
    (0x30 <= c <= 0x39) || (0x61 <= c <= 0x66)
}

/// The value of the hexadecimal digit with ASCII code `c`.
pub open spec fn value(c: u8) -> u8
    recommends
        is_digit(c),
{
    if c <= 0x39 {
        (c - 0x30) as u8
    } else {
        (c - 0x57) as u8
    }
}

/// The hexadecimal text of `bytes`: two digits for each byte, the high
/// half first.
pub open spec fn encoded(bytes: Seq<u8>) -> Seq<u8> {
    Seq::new(
        2 * bytes.len(),
        |i: int|
            if i % 2 == 0 {
                digit(bytes[i / 2] / 16)
            } else {
                digit(bytes[i / 2] % 16)
            },
    )
}

/// Whether `text` is the hexadecimal text of some byte sequence.
pub open spec fn is_encoded(text: Seq<u8>) -> bool {
    text.len() % 2 == 0 && forall|i: int| 0 <= i < text.len() ==> is_digit(#[trigger] text[i])
}

/// The bytes that `text` is the hexadecimal text of.
pub open spec fn decoded(text: Seq<u8>) -> Seq<u8>
    recommends
        is_encoded(text),
{
    Seq::new(
        text.len() / 2,
        |i: int| (value(text[2 * i]) * 16 + value(text[2 * i + 1])) as u8,
    )
}

/// Encoding then decoding gives the bytes back.
pub proof fn lemma_decoded_encoded(bytes: Seq<u8>)
    ensures
        is_encoded(encoded(bytes)),
        decoded(encoded(bytes)) == bytes,
{
    let text = encoded(bytes);
    assert forall|i: int| 0 <= i < text.len() implies is_digit(#[trigger] text[i]) by {
        let b = bytes[i / 2];
        assert(b / 16 < 16 && b % 16 < 16);
    }
    assert forall|i: int| 0 <= i < bytes.len() implies decoded(text)[i] == bytes[i] by {
        let b = bytes[i];
        assert((2 * i) / 2 == i && (2 * i) % 2 == 0);
        assert((2 * i + 1) / 2 == i && (2 * i + 1) % 2 == 1);
        assert(text[2 * i] == digit(b / 16));
        assert(text[2 * i + 1] == digit(b % 16));
        assert(value(digit(b / 16)) == b / 16);
        assert(value(digit(b % 16)) == b % 16);
    }
    assert(decoded(text) =~= bytes);
}

/// The hexadecimal text determines the bytes.
pub proof fn lemma_encoded_injective(a: Seq<u8>, b: Seq<u8>)
    requires
        encoded(a) == encoded(b),
    ensures
        a == b,
{
    lemma_decoded_encoded(a);
    lemma_decoded_encoded(b);
}

/// The digit for the four-bit value `n`.
fn digit_of(n: u8) -> (c: u8)
    requires
        n < 16,
    ensures
        c == digit(n),
{
    if n < 10 {
        0x30 + n
    } else {
        0x57 + n
    }
}

/// The value of the digit `c`, if it is one.
fn value_of(c: u8) -> (v: Option<u8>)
    ensures
        is_digit(c) <==> v is Some,
        v matches Some(n) ==> n == value(c) && n < 16,
{
    if 0x30 <= c && c <= 0x39 {
        Some(c - 0x30)
    } else if 0x61 <= c && c <= 0x66 {
        Some(c - 0x57)
    } else {
        None
    }
}

/// Writes `bytes` as hexadecimal text.
pub fn encode(bytes: &[u8]) -> (text: Vec<u8>)
    ensures
        text@ == encoded(bytes@),
{
    let mut text: Vec<u8> = Vec::new();
    let mut i: usize = 0;
    while i < bytes.len()
        invariant
            i <= bytes.len(),
            text@ == encoded(bytes@.subrange(0, i as int)),
        decreases bytes.len() - i,
    {
        let b: u8 = bytes[i];
        text.push(digit_of(b / 16));
        text.push(digit_of(b % 16));
        i = i + 1;
        assert(text@ =~= encoded(bytes@.subrange(0, i as int)));
    }
    assert(bytes@.subrange(0, i as int) =~= bytes@);
    text
}

/// Reads hexadecimal text back into bytes; `None` where `text` is not
/// hexadecimal text.
pub fn decode(text: &[u8]) -> (bytes: Option<Vec<u8>>)
    ensures
        bytes is Some <==> is_encoded(text@),
        bytes matches Some(b) ==> b@ == decoded(text@),
{
    let n: usize = text.len();
    if n % 2 != 0 {
        return None;
    }
    let mut bytes: Vec<u8> = Vec::new();
    let mut i: usize = 0;
    while i < n / 2
        invariant
            n == text.len(),
            n % 2 == 0,
            i <= n / 2,
            bytes@.len() == i,
            forall|j: int| 0 <= j < 2 * i ==> is_digit(#[trigger] text@[j]),
            forall|j: int| 0 <= j < i ==> #[trigger] bytes@[j] == decoded(text@)[j],
        decreases n / 2 - i,
    {
        let hi: Option<u8> = value_of(text[2 * i]);
        let lo: Option<u8> = value_of(text[2 * i + 1]);
        match (hi, lo) {
            (Some(h), Some(l)) => {
                bytes.push(h * 16 + l);
            },
            _ => {
                assert(!is_digit(text@[2 * i as int]) || !is_digit(text@[2 * i + 1]));
                return None;
            },
        }
        i = i + 1;
    }
    assert(bytes@ =~= decoded(text@));
    Some(bytes)
}

} // verus!
