//! Unpadded base64 over the standard alphabet.
//!
//! The text of a byte string is stated here in closed form, symbol by
//! symbol, and so is what a text stands for, byte by byte; the two are
//! proved to invert each other. Encoding and decoding themselves are done
//! by the `base64` crate, and trusted to produce that text and to accept
//! nothing else.

use vstd::prelude::*;
use base64::engine::general_purpose::STANDARD_NO_PAD;
use base64::Engine;

verus! {

/// The error of the `base64` crate's decoder. Nothing is read from it: any
/// error means that the text was refused.
#[verifier::external_type_specification]
#[verifier::external_body]
pub struct ExDecodeError(base64::DecodeError);

/// Byte `i` of `data`, or zero past its end.
pub open spec fn byte_or_zero(data: Seq<u8>, i: int) -> int {
    if 0 <= i < data.len() {
        data[i] as int
    } else {
        0
    }
}

/// The `k`-th group of six bits of `data`, read from the most significant
/// bit of its first byte on, with zero bits after its last byte.
pub open spec fn sextet(data: Seq<u8>, k: int) -> int {
    let first = 3 * (k / 4);
    if k % 4 == 0 {
        byte_or_zero(data, first) / 4
    } else if k % 4 == 1 {
        (byte_or_zero(data, first) % 4) * 16 + byte_or_zero(data, first + 1) / 16
    } else if k % 4 == 2 {
        (byte_or_zero(data, first + 1) % 16) * 4 + byte_or_zero(data, first + 2) / 64
    } else {
        byte_or_zero(data, first + 2) % 64
    }
}

/// The symbol of the standard alphabet for a six-bit value: `A`..`Z` for 0
/// to 25, `a`..`z` for 26 to 51, `0`..`9` for 52 to 61, `+` for 62 and `/`
/// for 63, each as its ASCII code.
pub open spec fn symbol(value: int) -> u8 {
    if value < 26 {
        (65 + value) as u8
    } else if value < 52 {
        (71 + value) as u8
    } else if value < 62 {
        (value - 4) as u8
    } else if value == 62 {
        43u8
    } else {
        47u8
    }
}

/// Whether `b` is a symbol of the standard alphabet: the ASCII code of a
/// letter, of a digit, of `+` or of `/`.
pub open spec fn is_symbol(b: u8) -> bool {
    ||| 65 <= b <= 90
    ||| 97 <= b <= 122
    ||| 48 <= b <= 57
    ||| b == 43
    ||| b == 47
}

/// Number of symbols in the text of `n` bytes: four for every three bytes,
/// two for one byte left over, three for two.
pub open spec fn text_len(n: nat) -> nat {
    ((4 * n + 2) / 3) as nat
}

/// The unpadded base64 text of `data`.
pub open spec fn base64_text(data: Seq<u8>) -> Seq<u8> {
    Seq::new(text_len(data.len()), |k: int| symbol(sextet(data, k)))
}

/// The six-bit value that a symbol of the alphabet stands for.
pub open spec fn value(b: u8) -> int {
    if 65 <= b <= 90 {
        b - 65
    } else if 97 <= b <= 122 {
        b - 71
    } else if 48 <= b <= 57 {
        b + 4
    } else if b == 43 {
        62
    } else {
        63
    }
}

/// Number of bytes that a text of `m` symbols stands for.
pub open spec fn data_len(m: nat) -> nat {
    (3 * m / 4) as nat
}

/// Byte `i` of what `text` stands for: eight bits out of the two symbols
/// that it lies in.
pub open spec fn octet(text: Seq<u8>, i: int) -> int {
    let first = 4 * (i / 3);
    if i % 3 == 0 {
        value(text[first]) * 4 + value(text[first + 1]) / 16
    } else if i % 3 == 1 {
        (value(text[first + 1]) % 16) * 16 + value(text[first + 2]) / 4
    } else {
        (value(text[first + 2]) % 4) * 64 + value(text[first + 3])
    }
}

/// Whether `text` is unpadded base64 text: symbols of the alphabet only, not
/// a single symbol left over after groups of four, and no set bit in the
/// last symbol beyond the last whole byte.
pub open spec fn is_base64(text: Seq<u8>) -> bool {
    &&& forall|k: int| 0 <= k < text.len() ==> #[trigger] is_symbol(text[k])
    &&& text.len() % 4 != 1
    &&& text.len() % 4 == 2 ==> value(text.last()) % 16 == 0
    &&& text.len() % 4 == 3 ==> value(text.last()) % 4 == 0
}

/// The bytes that `text` stands for, where it is unpadded base64 text.
pub open spec fn base64_data(text: Seq<u8>) -> Option<Seq<u8>> {
    if is_base64(text) {
        Some(Seq::new(data_len(text.len()), |i: int| octet(text, i) as u8))
    } else {
        None
    }
}

/// Every group of six bits is a value below 64.
pub proof fn lemma_sextet_range(data: Seq<u8>, k: int)
    requires
        0 <= k,
    ensures
        0 <= sextet(data, k) < 64,
{
}

/// `symbol` and `value` invert each other between the six-bit values and
/// the symbols of the alphabet.
pub proof fn lemma_symbol_value(v: int, b: u8)
    ensures
        0 <= v < 64 ==> is_symbol(symbol(v)) && value(symbol(v)) == v,
        is_symbol(b) ==> 0 <= value(b) < 64 && symbol(value(b)) == b,
{
}

/// Base64 text holds symbols of the alphabet only.
pub proof fn lemma_text_is_symbols(data: Seq<u8>, k: int)
    requires
        0 <= k < base64_text(data).len(),
    ensures
        is_symbol(base64_text(data)[k]),
        value(base64_text(data)[k]) == sextet(data, k),
{
    lemma_sextet_range(data, k);
    lemma_symbol_value(sextet(data, k), 0);
}

/// A byte is fixed by the two groups of six bits that it lies in.
proof fn lemma_byte_from_sextets(data: Seq<u8>, i: int)
    requires
        0 <= i < data.len(),
    ensures
        (i / 3) * 4 + i % 3 + 1 < text_len(data.len()),
        i % 3 == 0 ==> data[i] == sextet(data, (i / 3) * 4) * 4 + sextet(data, (i / 3) * 4 + 1) / 16,
        i % 3 == 1 ==> data[i] == (sextet(data, (i / 3) * 4 + 1) % 16) * 16 + sextet(
            data,
            (i / 3) * 4 + 2,
        ) / 4,
        i % 3 == 2 ==> data[i] == (sextet(data, (i / 3) * 4 + 2) % 4) * 64 + sextet(
            data,
            (i / 3) * 4 + 3,
        ),
{
    // the four symbols of group `g` read the three bytes from `3 * g` on
    let g = i / 3;
    assert((g * 4) / 4 == g && (g * 4) % 4 == 0);
    assert((g * 4 + 1) / 4 == g && (g * 4 + 1) % 4 == 1);
    assert((g * 4 + 2) / 4 == g && (g * 4 + 2) % 4 == 2);
    assert((g * 4 + 3) / 4 == g && (g * 4 + 3) % 4 == 3);
}

/// Decoding inverts encoding: the text of `data` is base64 text, and it
/// stands for `data`.
pub proof fn lemma_data_of_text(data: Seq<u8>)
    ensures
        base64_data(base64_text(data)) == Some(data),
{
    let text = base64_text(data);
    let n = data.len();
    let m = text.len();
    // The text is base64 text: its symbols are of the alphabet, and the bits
    // of its last symbol beyond the last byte are the zeros that `sextet`
    // reads there.
    assert forall|k: int| 0 <= k < m implies #[trigger] is_symbol(text[k]) by {
        lemma_text_is_symbols(data, k);
    }
    if m > 0 {
        lemma_text_is_symbols(data, m - 1);
    }
    assert(is_base64(text));
    // Each byte comes back out of the two symbols that it lies in.
    let back = base64_data(text)->Some_0;
    assert forall|i: int| 0 <= i < n implies back[i] == data[i] by {
        lemma_byte_from_sextets(data, i);
        let k = (i / 3) * 4 + i % 3;
        lemma_text_is_symbols(data, k);
        lemma_text_is_symbols(data, k + 1);
    }
    assert(back =~= data);
}

/// Encoding inverts decoding: what base64 text stands for has that text.
pub proof fn lemma_text_of_data(text: Seq<u8>)
    requires
        is_base64(text),
    ensures
        base64_text(base64_data(text)->Some_0) == text,
{
    let data = base64_data(text)->Some_0;
    let m = text.len();
    assert(text_len(data.len()) == m);
    assert forall|k: int| 0 <= k < m implies base64_text(data)[k] == text[k] by {
        lemma_sextet_of_octets(text, k);
        lemma_symbol_value(0, text[k]);
    }
    assert(base64_text(data) =~= text);
}

/// A group of six bits of what base64 text stands for is the value of
/// the symbol in its place.
proof fn lemma_sextet_of_octets(text: Seq<u8>, k: int)
    requires
        is_base64(text),
        0 <= k < text.len(),
    ensures
        sextet(base64_data(text)->Some_0, k) == value(text[k]),
{
    let data = base64_data(text)->Some_0;
    let m = text.len() as int;
    let g = k / 4;
    // The three bytes of group `g` are made of the four symbols from
    // `4 * g` on, as far as they are there.
    assert(4 * g <= k < 4 * g + 4);
    assert forall|j: int| 4 * g <= j < 4 * g + 4 && j < m implies 0 <= #[trigger] value(
        text[j],
    ) < 64 by {
        assert(is_symbol(text[j]));
    }
    assert((3 * g) / 3 == g && (3 * g) % 3 == 0);
    assert((3 * g + 1) / 3 == g && (3 * g + 1) % 3 == 1);
    assert((3 * g + 2) / 3 == g && (3 * g + 2) % 3 == 2);
    if 3 * g < data.len() {
        assert(data[3 * g] == octet(text, 3 * g));
    }
    if 3 * g + 1 < data.len() {
        assert(data[3 * g + 1] == octet(text, 3 * g + 1));
    }
    if 3 * g + 2 < data.len() {
        assert(data[3 * g + 2] == octet(text, 3 * g + 2));
    }
    // Where a byte is not there, the symbol is the last one, and its bits
    // beyond the last byte are zero.
    if k == m - 1 {
        assert(text.last() == text[k]);
    }
}

/// `base64_data` is the inverse of `base64_text`: a text stands for `data`
/// exactly when it is the text of `data`.
pub proof fn lemma_data_iff_text(text: Seq<u8>, data: Seq<u8>)
    ensures
        base64_data(text) == Some(data) <==> base64_text(data) == text,
{
    if base64_text(data) == text {
        lemma_data_of_text(data);
    }
    if base64_data(text) == Some(data) {
        lemma_text_of_data(text);
    }
}

/// Byte strings with the same base64 text are the same.
pub proof fn lemma_text_injective(a: Seq<u8>, b: Seq<u8>)
    requires
        base64_text(a) == base64_text(b),
    ensures
        a == b,
{
    lemma_data_of_text(a);
    lemma_data_of_text(b);
}

/// Calls `Engine::encode` of the `base64` crate on its engine
/// `STANDARD_NO_PAD` and hands back the bytes of the string it returns.
///
/// Trusted: that the result is the standard alphabet's symbol for each group
/// of six bits of `data` in turn, without padding. The call panics where
/// the length of the text does not fit a buffer; `requires` leaves that out.
#[verifier::external_body]
pub(crate) fn encode_unpadded(data: &[u8]) -> (text: Vec<u8>)
    requires
        text_len(data@.len()) <= isize::MAX,
    ensures
        text@ == base64_text(data@),
{
    STANDARD_NO_PAD.encode(data).into_bytes()
}

/// Calls `Engine::decode` of the `base64` crate on its engine
/// `STANDARD_NO_PAD`.
///
/// Trusted: that the decoder is strict. It accepts a text exactly when the
/// text is the unpadded encoding of some bytes, and then returns those
/// bytes; a byte outside the alphabet (padding and white space too), a
/// single symbol left over, or set bits after the last byte are errors.
#[verifier::external_body]
pub(crate) fn decode_unpadded(text: &[u8]) -> (result: Result<Vec<u8>, base64::DecodeError>)
    ensures
        result matches Ok(data) ==> base64_text(data@) == text@,
        result is Err ==> forall|data: Seq<u8>| #[trigger] base64_text(data) != text@,
{
    STANDARD_NO_PAD.decode(text)
}

/// Decodes unpadded base64 text: the bytes that `text` encodes, or `None`
/// where it is the text of no bytes.
pub fn decode(text: &[u8]) -> (result: Option<Vec<u8>>)
    ensures
        result matches Some(data) ==> base64_data(text@) == Some(data@),
        result is None ==> base64_data(text@) is None,
{
    match decode_unpadded(text) {
        Ok(data) => {
            proof {
                lemma_data_of_text(data@);
            }
            Some(data)
        },
        Err(_) => {
            proof {
                if is_base64(text@) {
                    lemma_text_of_data(text@);
                }
            }
            None
        },
    }
}

} // verus!
