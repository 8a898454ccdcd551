use vstd::prelude::*;
use sha2::Digest;

verus! {

/// The lower-case hexadecimal character of the nibble `d`.
pub open spec fn hex_char(d: nat) -> char {
    if d < 10 {
        (48 + d) as char
    } else {
        (87 + d) as char
    }
}

/// Lower-case hexadecimal text of `b`, two characters per byte, high nibble first.
pub open spec fn hex_lower(b: Seq<u8>) -> Seq<char>
    decreases b.len(),
{
    if b.len() == 0 {
        Seq::empty()
    } else {
        hex_lower(b.drop_last()).push(hex_char((b.last() / 16) as nat)).push(
            hex_char((b.last() % 16) as nat),
        )
    }
}

/// Whether `c` is a hexadecimal digit of either case.
pub open spec fn is_hex_digit(c: char) -> bool {
    ('0' <= c && c <= '9') || ('a' <= c && c <= 'f') || ('A' <= c && c <= 'F')
}

/// The value of the hexadecimal digit `c`.
pub open spec fn hex_value(c: char) -> int {
    if '0' <= c && c <= '9' {
        c as int - 48
    } else if 'a' <= c && c <= 'f' {
        c as int - 87
    } else {
        c as int - 55
    }
}

/// Whether `s` is hexadecimal text: an even number of hexadecimal digits.
pub open spec fn is_hex_text(s: Seq<char>) -> bool {
    &&& s.len() % 2 == 0
    &&& forall|i: int| 0 <= i < s.len() ==> is_hex_digit(#[trigger] s[i])
}

/// The bytes that the hexadecimal text `s` denotes, two characters per byte.
pub open spec fn hex_bytes(s: Seq<char>) -> Seq<u8> {
    Seq::new(
        s.len() / 2,
        |i: int| (hex_value(s[2 * i]) * 16 + hex_value(s[2 * i + 1])) as u8,
    )
}

/// The SHA-256 digest of `data`.
pub uninterp spec fn sha256_digest(data: Seq<u8>) -> Seq<u8>;

/// Calls `hex::encode`, which writes each byte as two lower-case hexadecimal digits,
/// high nibble first (the crate's `HEX_CHARS_LOWER` table).
#[verifier::external_body]
pub(crate) fn hex_encode(data: &[u8]) -> (s: String)
    ensures
        s@ == hex_lower(data@),
{
    hex::encode(data)
}

/// Calls `hex::decode` on the bytes of `text`. It succeeds exactly when the text has an
/// even length and only hexadecimal digits of either case, and then gives one byte per
/// pair of digits; otherwise it gives the crate's error, shown as text (that text is not
/// stated here).
#[verifier::external_body]
pub(crate) fn hex_decode(text: &str) -> (r: Result<Vec<u8>, String>)
    ensures
        r is Ok <==> is_hex_text(text@),
        r matches Ok(b) ==> b@ == hex_bytes(text@),
{
    hex::decode(text).map_err(|e| e.to_string())
}

/// Calls `sha2::Sha256::digest`; the digest is 32 bytes long.
#[verifier::external_body]
pub(crate) fn sha256(data: &[u8]) -> (h: Vec<u8>)
    ensures
        h@ == sha256_digest(data@),
        h@.len() == 32,
{
    sha2::Sha256::digest(data).to_vec()
}

/// Lower-case hexadecimal text of the SHA-256 digest of `data`.
pub fn sha256_hex(data: &[u8]) -> (s: String)
    ensures
        s@ == hex_lower(sha256_digest(data@)),
        s@.len() == 64,
{
    let h = sha256(data);
    proof {
        lemma_hex_lower_len(h@);
    }
    hex_encode(h.as_slice())
}

/// Hexadecimal text is two characters per byte.
pub proof fn lemma_hex_lower_len(b: Seq<u8>)
    ensures
        hex_lower(b).len() == 2 * b.len(),
    decreases b.len(),
{
    if b.len() > 0 {
        lemma_hex_lower_len(b.drop_last());
    }
}

proof fn lemma_hex_lower_index(b: Seq<u8>)
    ensures
        hex_lower(b).len() == 2 * b.len(),
        forall|i: int|
            0 <= i < b.len() ==> hex_lower(b)[2 * i] == hex_char((b[i] / 16) as nat) && hex_lower(
                b,
            )[2 * i + 1] == hex_char((b[i] % 16) as nat),
    decreases b.len(),
{
    if b.len() > 0 {
        let d = b.drop_last();
        lemma_hex_lower_index(d);
        assert forall|i: int|
            0 <= i < b.len() implies hex_lower(b)[2 * i] == hex_char((b[i] / 16) as nat)
            && hex_lower(b)[2 * i + 1] == hex_char((b[i] % 16) as nat) by {
            if i < d.len() {
                assert(b[i] == d[i]);
            }
        }
    }
}

proof fn lemma_hex_char(d: nat)
    requires
        d < 16,
    ensures
        is_hex_digit(hex_char(d)),
        hex_value(hex_char(d)) == d,
{
}

/// Hexadecimal text written by `hex_encode` is accepted by `hex_decode`, which gives the
/// same bytes back.
pub proof fn law_hex_round_trip(b: Seq<u8>)
    ensures
        is_hex_text(hex_lower(b)),
        hex_bytes(hex_lower(b)) == b,
{
    lemma_hex_lower_index(b);
    let h = hex_lower(b);
    assert forall|j: int| 0 <= j < h.len() implies is_hex_digit(#[trigger] h[j]) by {
        let i = j / 2;
        if j % 2 == 0 {
            assert(j == 2 * i);
            lemma_hex_char((b[i] / 16) as nat);
        } else {
            assert(j == 2 * i + 1);
            lemma_hex_char((b[i] % 16) as nat);
        }
    }
    assert forall|i: int| 0 <= i < b.len() implies #[trigger] hex_bytes(h)[i] == b[i] by {
        lemma_hex_char((b[i] / 16) as nat);
        lemma_hex_char((b[i] % 16) as nat);
        assert(b[i] == (b[i] / 16) * 16 + b[i] % 16);
    }
    assert(hex_bytes(h) =~= b);
}

} // verus!
