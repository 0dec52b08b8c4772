//! SHA-256 digests and their hexadecimal form.
use sha2::{Digest, Sha256};
use vstd::prelude::*;

use crate::text;

verus! {

/// How many bytes a content-addressed block holds at most.
pub const CAS_BLOCK_SIZE: u64 = 65536;

/// The SHA-256 digest of bytes, as `sha2::Sha256` computes it.
pub uninterp spec fn sha256_of(bytes: Seq<u8>) -> Seq<u8>;

/// `sha2::Sha256::digest`: the SHA-256 digest of its argument, which is 32 bytes long
/// and depends on nothing else.
#[verifier::external_body]
fn sha256(bytes: &[u8]) -> (d: Vec<u8>)
    ensures
        d@ == sha256_of(bytes@),
        d@.len() == 32,
{
    Sha256::digest(bytes).to_vec()
}

/// The SHA-256 digest of bytes.
pub fn digest(bytes: &[u8]) -> (d: Vec<u8>)
    ensures
        d@ == sha256_of(bytes@),
        d@.len() == 32,
{
    sha256(bytes)
}

/// Two lower-case hexadecimal digits for each byte.
pub open spec fn hex_of(bytes: Seq<u8>) -> Seq<char>
    decreases bytes.len(),
{
    if bytes.len() == 0 {
        Seq::empty()
    } else {
        hex_of(bytes.drop_last()) + text::hex(bytes.last() as nat, 2)
    }
}

/// The hexadecimal form of bytes.
pub fn hex_from_bytes(bytes: &[u8]) -> (s: String)
    ensures
        s@ == hex_of(bytes@),
{
    let mut s: String = String::new();
    let mut i: usize = 0;
    while i < bytes.len()
        invariant
            i <= bytes@.len(),
            s@ == hex_of(bytes@.take(i as int)),
        decreases bytes@.len() - i,
    {
        assert(bytes@.take(i + 1).drop_last() =~= bytes@.take(i as int));
        let pair: String = text::hexadecimal(bytes[i] as u64, 2);
        s.append(pair.as_str());
        i = i + 1;
    }
    assert(bytes@.take(i as int) =~= bytes@);
    s
}

/// The SHA-256 digest of bytes in hexadecimal form.
pub fn sha256_hex(bytes: &[u8]) -> (s: String)
    ensures
        s@ == hex_of(sha256_of(bytes@)),
        is_sha256_hex(s@),
{
    let d: Vec<u8> = digest(bytes);
    proof {
        lemma_digest_hex_is_valid(d@);
    }
    hex_from_bytes(d.as_slice())
}

/// The value of a hexadecimal digit, in either case.
pub open spec fn hex_digit_value(c: char) -> int {
    let u = c as int;
    if 48 <= u <= 57 {
        u - 48
    } else if 97 <= u <= 102 {
        u - 87
    } else if 65 <= u <= 70 {
        u - 55
    } else {
        -1
    }
}

/// Whether a text is 64 hexadecimal digits, in either case.
pub open spec fn is_sha256_hex(s: Seq<char>) -> bool {
    s.len() == 64 && forall|i: int| 0 <= i < 64 ==> hex_digit_value(#[trigger] s[i]) >= 0
}

fn digit_value(c: char) -> (r: Option<u8>)
    ensures
        match r {
            Some(d) => d as int == hex_digit_value(c) && d < 16,
            None => hex_digit_value(c) < 0,
        },
{
    let u: u32 = c as u32;
    if 48 <= u && u <= 57 {
        Some((u - 48) as u8)
    } else if 97 <= u && u <= 102 {
        Some((u - 87) as u8)
    } else if 65 <= u && u <= 70 {
        Some((u - 55) as u8)
    } else {
        None
    }
}

/// Whether a text is the hexadecimal form of a SHA-256 digest.
pub fn sha256_hex_is_valid(value: &str) -> (r: bool)
    ensures
        r == is_sha256_hex(value@),
{
    let v: Vec<char> = text::chars(value);
    if v.len() != 64 {
        return false;
    }
    let mut i: usize = 0;
    while i < 64
        invariant
            i <= 64,
            v@.len() == 64,
            v@ == value@,
            forall|k: int| 0 <= k < i ==> hex_digit_value(#[trigger] value@[k]) >= 0,
        decreases 64 - i,
    {
        if digit_value(v[i]).is_none() {
            assert(hex_digit_value(value@[i as int]) < 0);
            return false;
        }
        i = i + 1;
    }
    true
}

/// The text is not the hexadecimal form of a SHA-256 digest.
#[derive(Debug, PartialEq, Eq)]
pub struct InvalidSha256 {
    pub value: String,
}

impl InvalidSha256 {
    /// The message shown to the user.
    pub fn message(&self) -> (m: String)
        ensures
            m@ == "invalid sha256 hex: "@ + self.value@,
    {
        let mut m: String = "invalid sha256 hex: ".to_owned();
        m.append(self.value.as_str());
        m
    }
}

/// Accepts exactly the texts of 64 hexadecimal digits.
pub fn validate_sha256_hex(value: &str) -> (r: Result<(), InvalidSha256>)
    ensures
        r is Ok <==> is_sha256_hex(value@),
        r matches Err(e) ==> e.value@ == value@,
{
    if sha256_hex_is_valid(value) {
        Ok(())
    } else {
        Err(InvalidSha256 { value: value.to_owned() })
    }
}

/// The bytes that pairs of hexadecimal digits denote.
pub open spec fn bytes_of_hex(s: Seq<char>) -> Seq<u8> {
    Seq::new(
        s.len() / 2,
        |i: int| (16 * hex_digit_value(s[2 * i]) + hex_digit_value(s[2 * i + 1])) as u8,
    )
}

/// The 32 bytes of a digest in hexadecimal form.
pub fn bytes_from_hex(value: &str) -> (r: Result<Vec<u8>, InvalidSha256>)
    ensures
        r is Ok <==> is_sha256_hex(value@),
        r matches Ok(b) ==> b@ == bytes_of_hex(value@) && b@.len() == 32,
        r matches Err(e) ==> e.value@ == value@,
{
    if !sha256_hex_is_valid(value) {
        return Err(InvalidSha256 { value: value.to_owned() });
    }
    let v: Vec<char> = text::chars(value);
    let mut out: Vec<u8> = Vec::new();
    let mut i: usize = 0;
    while i < 32
        invariant
            i <= 32,
            v@ == value@,
            is_sha256_hex(value@),
            out@.len() == i,
            forall|k: int|
                0 <= k < i ==> #[trigger] out@[k] == (16 * hex_digit_value(value@[2 * k])
                    + hex_digit_value(value@[2 * k + 1])) as u8,
        decreases 32 - i,
    {
        assert(hex_digit_value(value@[2 * i]) >= 0 && hex_digit_value(value@[2 * i + 1]) >= 0);
        let hi: u8 = match digit_value(v[2 * i]) {
            Some(d) => d,
            None => 0,
        };
        let lo: u8 = match digit_value(v[2 * i + 1]) {
            Some(d) => d,
            None => 0,
        };
        out.push(hi * 16 + lo);
        i = i + 1;
    }
    assert(out@ =~= bytes_of_hex(value@));
    Ok(out)
}

/// Reading the hexadecimal form of bytes gives the bytes back.
pub proof fn lemma_hex_round_trip(bytes: Seq<u8>)
    ensures
        hex_of(bytes).len() == 2 * bytes.len(),
        forall|i: int|
            0 <= i < hex_of(bytes).len() ==> hex_digit_value(#[trigger] hex_of(bytes)[i]) >= 0,
        bytes_of_hex(hex_of(bytes)) == bytes,
    decreases bytes.len(),
{
    if bytes.len() > 0 {
        let rest = bytes.drop_last();
        let last = bytes.last() as nat;
        lemma_hex_round_trip(rest);
        reveal_with_fuel(text::hex, 3);
        let pair = text::hex(last, 2);
        assert(pair =~= seq![
            text::digit_char(((last / 16) % 16) as int),
            text::digit_char((last % 16) as int),
        ]);
        assert(hex_of(bytes) =~= hex_of(rest) + pair);
        assert forall|i: int| 0 <= i < bytes.len() implies bytes_of_hex(hex_of(bytes))[i]
            == bytes[i] by {
            if i < rest.len() {
                assert(hex_of(bytes)[2 * i] == hex_of(rest)[2 * i]);
                assert(hex_of(bytes)[2 * i + 1] == hex_of(rest)[2 * i + 1]);
                assert(bytes_of_hex(hex_of(rest))[i] == rest[i]);
            } else {
                assert(hex_of(bytes)[2 * i] == pair[0]);
                assert(hex_of(bytes)[2 * i + 1] == pair[1]);
            }
        }
        assert(bytes_of_hex(hex_of(bytes)) =~= bytes);
    } else {
        assert(bytes_of_hex(hex_of(bytes)) =~= bytes);
    }
}

/// The hexadecimal form of 32 bytes is accepted wherever that of a digest is asked for.
pub proof fn lemma_digest_hex_is_valid(digest: Seq<u8>)
    requires
        digest.len() == 32,
    ensures
        is_sha256_hex(hex_of(digest)),
{
    lemma_hex_round_trip(digest);
}

/// A block of zeros of the largest size.
pub open spec fn zero_block() -> Seq<u8> {
    Seq::new(CAS_BLOCK_SIZE as nat, |i: int| 0u8)
}

/// The digest of a full block of zeros, which is never stored.
pub fn zero_block_hash() -> (s: String)
    ensures
        s@ == hex_of(sha256_of(zero_block())),
        is_sha256_hex(s@),
{
    let zeros: Vec<u8> = vec![0u8; CAS_BLOCK_SIZE as usize];
    assert(zeros@ =~= zero_block());
    sha256_hex(zeros.as_slice())
}

/// Each of the sixteen digits has its value, in either case, and no other character has
/// one.
pub proof fn lemma_hex_digits(c: char)
    ensures
        '0' <= c <= '9' ==> hex_digit_value(c) == c as int - '0' as int,
        'a' <= c <= 'f' ==> hex_digit_value(c) == 10 + (c as int - 'a' as int),
        'A' <= c <= 'F' ==> hex_digit_value(c) == 10 + (c as int - 'A' as int),
        !('0' <= c <= '9') && !('a' <= c <= 'f') && !('A' <= c <= 'F') ==> hex_digit_value(c) < 0,
{
}

/// A digest is written with two digits for each byte, the higher one first, and small
/// letters; bytes that follow each other are written one after the other.
pub proof fn lemma_hex_of(a: Seq<u8>, b: Seq<u8>, byte: u8)
    ensures
        hex_of(a + b) == hex_of(a) + hex_of(b),
        hex_of(seq![byte]) == text::hex(byte as nat, 2),
        hex_of(Seq::empty()) == Seq::<char>::empty(),
    decreases b.len(),
{
    reveal_with_fuel(hex_of, 2);
    assert(seq![byte].drop_last() =~= Seq::<u8>::empty());
    assert(hex_of(seq![byte]) =~= text::hex(byte as nat, 2));
    if b.len() == 0 {
        assert(a + b =~= a);
        assert(hex_of(a) + hex_of(b) =~= hex_of(a));
    } else {
        lemma_hex_of(a, b.drop_last(), byte);
        assert((a + b).drop_last() =~= a + b.drop_last());
        assert(hex_of(a + b) =~= hex_of(a) + hex_of(b));
    }
}

/// The block that is never stored is 64 KiB of zeros.
pub proof fn lemma_zero_block()
    ensures
        zero_block().len() == 64 * 1024,
        forall|i: int| 0 <= i < zero_block().len() ==> #[trigger] zero_block()[i] == 0,
{
}

} // verus!
