use vstd::prelude::*;
use vstd::utf8::encode_utf8;

verus! {

#[verifier::external_type_specification]
#[verifier::external_body]
pub struct ExFromHexError(hex::FromHexError);

/// The value of an ASCII hex digit in either case, or -1.
pub open spec fn hex_val(c: u8) -> int {
    if 48 <= c <= 57 {
        c - 48
    } else if 97 <= c <= 102 {
        c - 87
    } else if 65 <= c <= 70 {
        c - 55
    } else {
        -1
    }
}

/// An even number of ASCII hex digits.
pub open spec fn valid_hex(s: Seq<u8>) -> bool {
    &&& s.len() % 2 == 0
    &&& forall|i: int| 0 <= i < s.len() ==> hex_val(#[trigger] s[i]) >= 0
}

/// The bytes that a string of hex digits stands for, two digits per byte.
pub open spec fn hex_bytes(s: Seq<u8>) -> Seq<u8> {
    Seq::new(s.len() / 2, |i: int| (hex_val(s[2 * i]) * 16 + hex_val(s[2 * i + 1])) as u8)
}

/// The lower-case ASCII digit of a value below sixteen.
pub open spec fn lower_digit(d: int) -> u8 {
    if d < 10 {
        (48 + d) as u8
    } else {
        (87 + d) as u8
    }
}

/// `b` written as lower-case hex, two digits per byte, high digit first.
pub open spec fn hex_lower(b: Seq<u8>) -> Seq<u8> {
    Seq::new(
        2 * b.len(),
        |i: int|
            if i % 2 == 0 {
                lower_digit(b[i / 2] as int / 16)
            } else {
                lower_digit(b[i / 2] as int % 16)
            },
    )
}

/// `s` without a leading `0x`.
pub open spec fn strip_0x(s: Seq<u8>) -> Seq<u8> {
    if s.len() >= 2 && s[0] == 48 && s[1] == 120 {
        s.subrange(2, s.len() as int)
    } else {
        s
    }
}

/// The Keccak-256 digest of `b`.
pub uninterp spec fn keccak_of(b: Seq<u8>) -> Seq<u8>;

/// Relies on hex::decode: it accepts exactly an even number of hex digits of
/// either case and gives one byte per pair, high digit first.
#[verifier::external_body]
fn hex_decode(s: &[u8]) -> (r: Result<Vec<u8>, hex::FromHexError>)
    ensures
        r is Ok <==> valid_hex(s@),
        r matches Ok(v) ==> v@ == hex_bytes(s@),
{
    hex::decode(s)
}

fn lower_digit_of(d: u8) -> (r: u8)
    requires
        d < 16,
    ensures
        r == lower_digit(d as int),
{
    if d < 10 {
        48 + d
    } else {
        87 + d
    }
}

/// Relies on tiny_keccak::keccak256: a 32-byte digest of the bytes given.
#[verifier::external_body]
fn keccak256(b: &[u8]) -> (r: Vec<u8>)
    ensures
        r@ == keccak_of(b@),
        r@.len() == 32,
{
    tiny_keccak::keccak256(b).to_vec()
}

/// The Keccak-256 digest of `b`.
pub fn keccak(b: &Vec<u8>) -> (r: Vec<u8>)
    ensures
        r@ == keccak_of(b@),
        r@.len() == 32,
{
    keccak256(b.as_slice())
}

/// `b` written as lower-case hex.
pub fn to_hex(b: &Vec<u8>) -> (r: Vec<u8>)
    ensures
        r@ == hex_lower(b@),
{
    let mut r: Vec<u8> = Vec::new();
    let mut i: usize = 0;
    while i < b.len()
        invariant
            i <= b@.len(),
            r@ =~= hex_lower(b@.subrange(0, i as int)),
        decreases b@.len() - i,
    {
        let x = b[i];
        r.push(lower_digit_of(x / 16));
        r.push(lower_digit_of(x % 16));
        proof {
            let t = b@.subrange(0, i + 1);
            assert(b@.subrange(0, i as int) =~= t.subrange(0, i as int));
            assert forall|k: int| 0 <= k < 2 * i implies #[trigger] hex_lower(t)[k] == hex_lower(
                b@.subrange(0, i as int),
            )[k] by {
                assert(k / 2 < i);
            }
            assert((2 * i) / 2 == i && (2 * i) % 2 == 0);
            assert((2 * i + 1) / 2 == i && (2 * i + 1) % 2 == 1);
        }
        assert(r@ =~= hex_lower(b@.subrange(0, i + 1)));
        i = i + 1;
    }
    assert(b@.subrange(0, b@.len() as int) =~= b@);
    r
}

/// The bytes that the hex digits `s` stand for; `None` where `s` is not an
/// even number of hex digits.
pub fn from_hex(s: &Vec<u8>) -> (r: Option<Vec<u8>>)
    ensures
        r is Some <==> valid_hex(s@),
        r matches Some(v) ==> v@ == hex_bytes(s@),
{
    match hex_decode(s.as_slice()) {
        Ok(v) => Some(v),
        Err(_) => None,
    }
}

/// Decoding what was written as hex gives the bytes back.
pub proof fn lemma_hex_round_trip(b: Seq<u8>)
    ensures
        valid_hex(hex_lower(b)),
        hex_bytes(hex_lower(b)) == b,
{
    let s = hex_lower(b);
    assert forall|i: int| 0 <= i < s.len() implies hex_val(#[trigger] s[i]) >= 0 by {
        let d: int = if i % 2 == 0 { b[i / 2] as int / 16 } else { b[i / 2] as int % 16 };
        assert(0 <= d < 16);
        assert(s[i] == lower_digit(d));
        assert(hex_val(lower_digit(d)) == d);
    }
    assert forall|i: int| 0 <= i < b.len() implies #[trigger] hex_bytes(s)[i] == b[i] by {
        let hi: int = b[i] as int / 16;
        let lo: int = b[i] as int % 16;
        assert((2 * i) % 2 == 0 && (2 * i) / 2 == i);
        assert((2 * i + 1) % 2 == 1 && (2 * i + 1) / 2 == i);
        assert(s[2 * i] == lower_digit(hi));
        assert(s[2 * i + 1] == lower_digit(lo));
        assert(hex_val(lower_digit(hi)) == hi);
        assert(hex_val(lower_digit(lo)) == lo);
        assert(hi * 16 + lo == b[i]);
    }
    assert(hex_bytes(s) =~= b);
}

/// The bytes written in hex in `value`, with or without a leading `0x`.
pub fn string_2_bytes(value: String) -> (r: Vec<u8>)
    requires
        valid_hex(strip_0x(encode_utf8(value@))),
    ensures
        r@ == hex_bytes(strip_0x(encode_utf8(value@))),
{
    let b = value.as_str().as_bytes();
    let n = b.len();
    let start: usize = if n >= 2 && b[0] == 48 && b[1] == 120 {
        2
    } else {
        0
    };
    let mut digits: Vec<u8> = Vec::new();
    let mut i: usize = start;
    while i < n
        invariant
            n == b@.len(),
            start <= i <= n,
            digits@ =~= b@.subrange(start as int, i as int),
        decreases n - i,
    {
        digits.push(b[i]);
        i = i + 1;
    }
    assert(digits@ =~= strip_0x(b@));
    match from_hex(&digits) {
        Some(v) => v,
        None => Vec::new(),
    }
}

} // verus!
