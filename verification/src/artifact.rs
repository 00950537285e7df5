//! The artifact: ciphertext and nonce as one piece of ASCII text.
//!
//! An artifact is the unpadded base64 text of the ciphertext, the delimiter
//! `"\r\n\r\nNonce: "`, and the unpadded base64 text of the nonce. The
//! delimiter begins with a byte that is no symbol of base64, so the first
//! delimiter in an artifact is the one that was written, and reading and
//! writing invert each other.

use vstd::prelude::*;
use vstd::slice::slice_subrange;
use crate::b64::{
    base64_data, base64_text, decode, encode_unpadded, is_symbol, lemma_data_of_text,
    lemma_data_iff_text, lemma_text_is_symbols, text_len,
};
use crate::codec::{Nonce, NONCE_LEN};
use crate::error::CryptError;

verus! {

/// Number of bytes in the delimiter.
pub const DELIMITER_LEN: usize = 11;

/// The delimiter between ciphertext and nonce: `"\r\n\r\nNonce: "`.
pub const DELIMITER: [u8; 11] = [13, 10, 13, 10, 78, 111, 110, 99, 101, 58, 32];

/// Number of symbols in the base64 text of a nonce.
pub const NONCE_TEXT_LEN: usize = 16;

/// The delimiter as a sequence of bytes.
pub open spec fn delimiter() -> Seq<u8> {
    DELIMITER@
}

/// The artifact that holds `ciphertext` and `nonce`.
pub open spec fn artifact_bytes(ciphertext: Seq<u8>, nonce: Seq<u8>) -> Seq<u8> {
    base64_text(ciphertext) + delimiter() + base64_text(nonce)
}

/// Length of the artifact of a ciphertext of `n` bytes.
pub open spec fn artifact_len(n: nat) -> nat {
    text_len(n) + DELIMITER_LEN as nat + NONCE_TEXT_LEN as nat
}

/// Whether the delimiter stands in `a` at index `i`.
pub open spec fn delimiter_at(a: Seq<u8>, i: int) -> bool {
    0 <= i && i + DELIMITER_LEN <= a.len() && a.subrange(i, i + DELIMITER_LEN) == delimiter()
}

/// Whether the first delimiter in `a` stands at index `i`.
pub open spec fn first_delimiter_at(a: Seq<u8>, i: int) -> bool {
    delimiter_at(a, i) && forall|j: int| 0 <= j < i ==> !delimiter_at(a, j)
}

/// Where the first delimiter in `a` stands, if `a` holds one.
pub open spec fn delimiter_index(a: Seq<u8>) -> Option<int> {
    if exists|i: int| first_delimiter_at(a, i) {
        Some(choose|i: int| first_delimiter_at(a, i))
    } else {
        None
    }
}

/// Ciphertext and nonce of an artifact: what stands before the first
/// delimiter and what stands after it, both decoded, where both are base64
/// text and the nonce has 12 bytes.
pub open spec fn parsed(a: Seq<u8>) -> Option<(Seq<u8>, Seq<u8>)> {
    match delimiter_index(a) {
        None => None,
        Some(i) => match (
            base64_data(a.subrange(0, i)),
            base64_data(a.subrange(i + DELIMITER_LEN, a.len() as int)),
        ) {
            (Some(ciphertext), Some(nonce)) => if nonce.len() == NONCE_LEN {
                Some((ciphertext, nonce))
            } else {
                None
            },
            _ => None,
        },
    }
}

/// There is one first delimiter at most.
pub proof fn lemma_first_delimiter_unique(a: Seq<u8>, i: int)
    requires
        first_delimiter_at(a, i),
    ensures
        delimiter_index(a) == Some(i),
{
    // the index chosen is that of a first delimiter too, and of two first
    // delimiters neither stands before the other
    let chosen = choose|j: int| first_delimiter_at(a, j);
    assert(!(chosen < i) && !(i < chosen));
}

/// The delimiter never begins at a symbol of the alphabet.
pub proof fn lemma_symbol_starts_no_delimiter(a: Seq<u8>, i: int)
    requires
        0 <= i < a.len(),
        is_symbol(a[i]),
    ensures
        !delimiter_at(a, i),
{
    // the delimiter begins with a carriage return
    if delimiter_at(a, i) {
        assert(a[i] == delimiter()[0]);
    }
}

/// Base64 text holds no delimiter.
pub proof fn lemma_no_delimiter_in_text(data: Seq<u8>, i: int)
    ensures
        !delimiter_at(base64_text(data), i),
{
    if 0 <= i < base64_text(data).len() {
        lemma_text_is_symbols(data, i);
        lemma_symbol_starts_no_delimiter(base64_text(data), i);
    }
}

/// An artifact is ASCII text.
pub proof fn lemma_artifact_is_ascii(ciphertext: Seq<u8>, nonce: Seq<u8>, k: int)
    requires
        0 <= k < artifact_bytes(ciphertext, nonce).len(),
    ensures
        artifact_bytes(ciphertext, nonce)[k] < 128,
{
    let head = base64_text(ciphertext).len();
    if k < head {
        lemma_text_is_symbols(ciphertext, k);
    } else if k >= head + DELIMITER_LEN {
        lemma_text_is_symbols(nonce, k - head - DELIMITER_LEN);
    }
}

/// Reading inverts writing: the artifact of a ciphertext and a 12-byte nonce
/// parses to that ciphertext and that nonce.
pub proof fn lemma_parse_inverts_serialize(ciphertext: Seq<u8>, nonce: Seq<u8>)
    requires
        nonce.len() == NONCE_LEN,
    ensures
        parsed(artifact_bytes(ciphertext, nonce)) == Some((ciphertext, nonce)),
{
    let a = artifact_bytes(ciphertext, nonce);
    let head = base64_text(ciphertext);
    let at = head.len() as int;
    assert(a.subrange(at, at + DELIMITER_LEN) =~= delimiter());
    assert forall|j: int| 0 <= j < at implies !delimiter_at(a, j) by {
        lemma_text_is_symbols(ciphertext, j);
        lemma_symbol_starts_no_delimiter(a, j);
    }
    lemma_first_delimiter_unique(a, at);
    assert(a.subrange(0, at) =~= head);
    assert(a.subrange(at + DELIMITER_LEN, a.len() as int) =~= base64_text(nonce));
    lemma_data_of_text(ciphertext);
    lemma_data_of_text(nonce);
}

/// What stands around a delimiter, with the delimiter between, is the
/// whole.
proof fn lemma_split_at_delimiter(a: Seq<u8>, at: int)
    requires
        delimiter_at(a, at),
    ensures
        a == a.subrange(0, at) + delimiter() + a.subrange(at + DELIMITER_LEN, a.len() as int),
{
    assert(a =~= a.subrange(0, at) + a.subrange(at, at + DELIMITER_LEN) + a.subrange(
        at + DELIMITER_LEN,
        a.len() as int,
    ));
}

/// Writing inverts reading: a well-formed artifact is the artifact of the
/// ciphertext and nonce that it parses to, byte for byte.
pub proof fn lemma_serialize_inverts_parse(a: Seq<u8>)
    requires
        parsed(a) is Some,
    ensures
        artifact_bytes(parsed(a)->Some_0.0, parsed(a)->Some_0.1) == a,
{
    let at = delimiter_index(a)->Some_0;
    let head = a.subrange(0, at);
    let tail = a.subrange(at + DELIMITER_LEN, a.len() as int);
    let ciphertext = parsed(a)->Some_0.0;
    let nonce = parsed(a)->Some_0.1;
    lemma_split_at_delimiter(a, at);
    lemma_data_iff_text(head, ciphertext);
    lemma_data_iff_text(tail, nonce);
}

/// An altered artifact does not pass for the one it was made from: it is
/// malformed, or it holds another ciphertext or another nonce.
pub proof fn lemma_altered_artifact_differs(a: Seq<u8>, altered: Seq<u8>)
    requires
        parsed(a) is Some,
        altered != a,
    ensures
        parsed(altered) != parsed(a),
{
    if parsed(altered) == parsed(a) {
        lemma_serialize_inverts_parse(a);
        lemma_serialize_inverts_parse(altered);
    }
}

/// An artifact is ASCII text: one that holds a byte of 128 or more is
/// malformed.
pub proof fn lemma_non_ascii_is_malformed(a: Seq<u8>, k: int)
    requires
        0 <= k < a.len(),
        a[k] >= 128,
    ensures
        parsed(a) is None,
{
    if delimiter_index(a) is Some {
        // the byte is none of the delimiter, so it makes what stands before
        // the delimiter, or what stands after it, something else than base64
        // text
        let at = delimiter_index(a)->Some_0;
        let head = a.subrange(0, at);
        let tail = a.subrange(at + DELIMITER_LEN, a.len() as int);
        if k < at {
            assert(!is_symbol(head[k]));
        } else if k >= at + DELIMITER_LEN {
            assert(!is_symbol(tail[k - at - DELIMITER_LEN]));
        }
    }
}

/// Only the first delimiter splits an artifact, and what follows it must be
/// base64 text: an artifact that holds the delimiter twice is malformed.
pub proof fn lemma_repeated_delimiter_is_malformed(a: Seq<u8>, i: int, j: int)
    requires
        delimiter_at(a, i),
        delimiter_at(a, j),
        i < j,
    ensures
        parsed(a) is None,
{
    if delimiter_index(a) is Some {
        // The second delimiter begins with a carriage return. Inside the
        // first delimiter one stands at its third byte only, and what follows
        // that is not the delimiter again. So the second begins after the
        // first, where base64 text must stand.
        let at = delimiter_index(a)->Some_0;
        assert(j >= at + DELIMITER_LEN);
        let tail = a.subrange(at + DELIMITER_LEN, a.len() as int);
        assert(!is_symbol(tail[j - at - DELIMITER_LEN]));
    }
}

/// Whether the delimiter stands in `artifact` at index `at`.
fn matches_at(artifact: &[u8], at: usize) -> (result: bool)
    requires
        at + DELIMITER_LEN <= artifact@.len(),
    ensures
        result == delimiter_at(artifact@, at as int),
{
    let len = artifact.len();
    let ghost window = artifact@.subrange(at as int, at + DELIMITER_LEN);
    let mut k: usize = 0;
    while k < DELIMITER_LEN
        invariant
            k <= DELIMITER_LEN,
            len == artifact@.len(),
            at + DELIMITER_LEN <= len,
            window == artifact@.subrange(at as int, at + DELIMITER_LEN),
            forall|m: int| 0 <= m < k ==> window[m] == delimiter()[m],
        decreases DELIMITER_LEN - k,
    {
        if artifact[at + k] != DELIMITER[k] {
            return false;
        }
        k += 1;
    }
    assert(window =~= delimiter());
    true
}

/// Finds the first delimiter in `artifact`.
pub fn find_delimiter(artifact: &[u8]) -> (result: Option<usize>)
    ensures
        result matches Some(i) ==> delimiter_index(artifact@) == Some(i as int) && i
            + DELIMITER_LEN <= artifact@.len(),
        result is None ==> delimiter_index(artifact@) is None,
{
    let len = artifact.len();
    if len < DELIMITER_LEN {
        return None;
    }
    let last = len - DELIMITER_LEN;
    let mut i: usize = 0;
    while i <= last
        invariant
            len == artifact@.len(),
            last + DELIMITER_LEN == len,
            i <= last + 1,
            forall|j: int| 0 <= j < i ==> !delimiter_at(artifact@, j),
        decreases last + 1 - i,
    {
        if matches_at(artifact, i) {
            proof {
                lemma_first_delimiter_unique(artifact@, i as int);
            }
            return Some(i);
        }
        i += 1;
    }
    None
}

/// Writes the artifact of `ciphertext` and `nonce`. The artifact must fit a
/// buffer.
pub fn serialize(ciphertext: &[u8], nonce: &Nonce) -> (artifact: Vec<u8>)
    requires
        artifact_len(ciphertext@.len()) <= isize::MAX,
    ensures
        artifact@ == artifact_bytes(ciphertext@, nonce@),
        artifact@.len() == artifact_len(ciphertext@.len()),
        forall|k: int| 0 <= k < artifact@.len() ==> artifact@[k] < 128,
{
    let mut artifact = encode_unpadded(ciphertext);
    artifact.extend_from_slice(&DELIMITER);
    let nonce_text = encode_unpadded(&nonce.bytes);
    artifact.extend_from_slice(&nonce_text);
    assert forall|k: int| 0 <= k < artifact@.len() implies artifact@[k] < 128 by {
        lemma_artifact_is_ascii(ciphertext@, nonce@, k);
    }
    artifact
}

/// Reads ciphertext and nonce back from `artifact`.
///
/// The artifact is split at its first delimiter. It is malformed where it
/// holds no delimiter, where either part is not unpadded base64 text, and
/// where the nonce does not have 12 bytes.
pub fn parse(artifact: &[u8]) -> (result: Result<(Vec<u8>, Nonce), CryptError>)
    ensures
        result matches Ok(parts) ==> parsed(artifact@) == Some((parts.0@, parts.1@)),
        result matches Err(e) ==> e == CryptError::MalformedArtifact && parsed(artifact@) is None,
{
    let at = match find_delimiter(artifact) {
        Some(i) => i,
        None => {
            return Err(CryptError::MalformedArtifact);
        },
    };
    let len = artifact.len();
    let head = slice_subrange(artifact, 0, at);
    let tail = slice_subrange(artifact, at + DELIMITER_LEN, len);
    let ciphertext = match decode(head) {
        Some(bytes) => bytes,
        None => {
            return Err(CryptError::MalformedArtifact);
        },
    };
    let nonce_bytes = match decode(tail) {
        Some(bytes) => bytes,
        None => {
            return Err(CryptError::MalformedArtifact);
        },
    };
    match Nonce::from_slice(nonce_bytes.as_slice()) {
        Some(nonce) => Ok((ciphertext, nonce)),
        None => Err(CryptError::MalformedArtifact),
    }
}

} // verus!
