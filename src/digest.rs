//! The message digest: SHA-256 as lowercase hex, and the bytes it encodes.
use vstd::prelude::*;

verus! {

/// The SHA-256 digest of the UTF-8 encoding of `m`, as lowercase hex.
pub uninterp spec fn sha256_hex_of(m: Seq<char>) -> Seq<char>;

pub open spec fn is_hex_digit(c: char) -> bool {
    ('0' <= c && c <= '9') || ('a' <= c && c <= 'f')
}

/// The value of a lowercase hex digit.
pub open spec fn hex_val(c: char) -> int {
    if '0' <= c && c <= '9' {
        c as int - '0' as int
    } else {
        c as int - 'a' as int + 10
    }
}

/// The bytes that a string of hex digits encodes, two digits to a byte.
pub open spec fn hex_bytes(h: Seq<char>) -> Seq<u8> {
    Seq::new(h.len() / 2, |i: int| (hex_val(h[2 * i]) * 16 + hex_val(h[2 * i + 1])) as u8)
}

/// Relies on the sha256 crate's `digest`, which hex-encodes the 32-byte
/// SHA-256 digest of the string's bytes: 64 lowercase hex digits.
#[verifier::external_body]
fn sha256_digest(m: &String) -> (r: String)
    ensures
        r@ == sha256_hex_of(m@),
        r@.len() == 64,
        forall|i: int| 0 <= i < r@.len() ==> is_hex_digit(#[trigger] r@[i]),
{
    sha256::digest(m.as_str())
}

/// The SHA-256 digest of the message, as 64 lowercase hex digits.
pub fn sha256_hex(m: &String) -> (r: String)
    ensures
        r@ == sha256_hex_of(m@),
        r@.len() == 64,
        forall|i: int| 0 <= i < r@.len() ==> is_hex_digit(#[trigger] r@[i]),
{
    sha256_digest(m)
}

fn hex_digit_value(c: char) -> (r: Option<u8>)
    ensures
        r is Some <==> is_hex_digit(c),
        r matches Some(v) ==> v as int == hex_val(c) && v < 16,
{
    if '0' <= c && c <= '9' {
        Some(((c as u32) - ('0' as u32)) as u8)
    } else if 'a' <= c && c <= 'f' {
        Some(((c as u32) - ('a' as u32) + 10) as u8)
    } else {
        None
    }
}

/// The bytes encoded by lowercase hex; `None` for an odd length or a
/// character that is not a lowercase hex digit.
pub fn decode_hex(h: &String) -> (r: Option<Vec<u8>>)
    ensures
        r is Some <==> h@.len() % 2 == 0 && forall|i: int| 0 <= i < h@.len() ==> is_hex_digit(#[trigger] h@[i]),
        r matches Some(b) ==> b@ == hex_bytes(h@),
{
    let s = h.as_str();
    let len = s.unicode_len();
    if len % 2 != 0 {
        return None;
    }
    let mut out: Vec<u8> = Vec::new();
    let mut i: usize = 0;
    while i < len / 2
        invariant
            len == h@.len(),
            s@ == h@,
            len % 2 == 0,
            i <= len / 2,
            out@.len() == i,
            forall|j: int| 0 <= j < 2 * i ==> is_hex_digit(#[trigger] h@[j]),
            forall|j: int| 0 <= j < i ==> #[trigger] out@[j] == (hex_val(h@[2 * j]) * 16 + hex_val(h@[2 * j + 1])) as u8,
        decreases len / 2 - i,
    {
        let hi = hex_digit_value(s.get_char(2 * i));
        let lo = hex_digit_value(s.get_char(2 * i + 1));
        match (hi, lo) {
            (Some(a), Some(b)) => {
                out.push(a * 16 + b);
            },
            _ => {
                return None;
            },
        }
        i += 1;
    }
    assert(out@ =~= hex_bytes(h@));
    Some(out)
}

} // verus!
