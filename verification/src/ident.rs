//! Identifier derivation: a fixed-length hexadecimal identifier obtained by
//! hashing the caller identity, the current time, and a tie-breaking counter.

use vstd::prelude::*;
use vstd::string::StrSliceExecFns;
use vstd::string::StringSliceAdditionalSpecFns;
use vstd::utf8::encode_utf8;
use sha2::Digest;

verus! {

/// The SHA-256 digest of a byte sequence. The digest is a pure function of
/// the input bytes alone; its definition is not restated here.
pub uninterp spec fn sha256_of(bytes: Seq<u8>) -> Seq<u8>;

/// Relies on sha2::Sha256 (RustCrypto): the FIPS 180-4 SHA-256 digest, a
/// pure function of the input bytes, always 32 bytes long.
#[verifier::external_body]
fn sha256(bytes: &Vec<u8>) -> (r: Vec<u8>)
    ensures
        r@ == sha256_of(bytes@),
        r@.len() == 32,
{
    let mut hasher = sha2::Sha256::new();
    hasher.update(bytes.as_slice());
    hasher.finalize().to_vec()
}

/// The lower-case hexadecimal digit for a value below 16.
pub open spec fn hex_digit(n: u8) -> char
    recommends
        n < 16,
{
    if n < 10 {
        ((n + 48) as u8) as char
    } else {
        ((n + 87) as u8) as char
    }
}

/// Lower-case hexadecimal text for a byte sequence: two digits per byte,
/// high nibble first.
pub open spec fn hex_of(bytes: Seq<u8>) -> Seq<char>
    decreases bytes.len(),
{
    if bytes.len() == 0 {
        Seq::empty()
    } else {
        seq![hex_digit(bytes[0] / 16), hex_digit(bytes[0] % 16)] + hex_of(bytes.drop_first())
    }
}

pub proof fn lemma_hex_of_len(bytes: Seq<u8>)
    ensures
        hex_of(bytes).len() == 2 * bytes.len(),
    decreases bytes.len(),
{
    if bytes.len() > 0 {
        lemma_hex_of_len(bytes.drop_first());
    }
}

/// Relies on hex::encode: lower-case hexadecimal, two digits per byte, high
/// nibble first.
#[verifier::external_body]
fn hex_encode(bytes: &Vec<u8>) -> (r: String)
    ensures
        r@ == hex_of(bytes@),
{
    hex::encode(bytes.as_slice())
}

/// The decimal digits of `n` as ASCII bytes, most significant first, with no
/// leading zeroes (`0` itself is the single byte `48`).
pub open spec fn dec_bytes(n: nat) -> Seq<u8>
    decreases n,
{
    if n < 10 {
        seq![(n + 48) as u8]
    } else {
        dec_bytes(n / 10).push((n % 10 + 48) as u8)
    }
}

/// Appends the decimal digits of `n` to `out`.
fn push_dec_bytes(n: u64, out: &mut Vec<u8>)
    ensures
        final(out)@ == old(out)@ + dec_bytes(n as nat),
    decreases n,
{
    if n < 10 {
        out.push((n as u8) + 48);
        assert(out@ =~= old(out)@ + dec_bytes(n as nat));
    } else {
        push_dec_bytes(n / 10, out);
        out.push(((n % 10) as u8) + 48);
        assert(out@ =~= old(out)@ + dec_bytes(n as nat));
    }
}

/// The byte string that is hashed: the caller's UTF-8 bytes, a dash, the
/// decimal time, a dash, and the decimal tie-breaking counter.
pub open spec fn id_input(caller: Seq<char>, now: u64, nonce: u64) -> Seq<u8> {
    encode_utf8(caller) + seq![45u8] + dec_bytes(now as nat) + seq![45u8] + dec_bytes(
        nonce as nat,
    )
}

/// The derived identifier: the first 16 bytes of the SHA-256 digest of
/// [`id_input`], in lower-case hexadecimal (32 characters).
pub open spec fn spec_new_id(caller: Seq<char>, now: u64, nonce: u64) -> Seq<char> {
    hex_of(sha256_of(id_input(caller, now, nonce)).take(16))
}

/// Derives a collision-resistant identifier from the caller identity, the
/// current time in seconds, and a tie-breaking counter that the state
/// increments on every allocation.
pub fn new_id(caller: &str, now: u64, nonce: u64) -> (r: String)
    ensures
        r@ == spec_new_id(caller@, now, nonce),
        r@.len() == 32,
{
    let mut input: Vec<u8> = caller.as_bytes_vec();
    input.push(45);
    push_dec_bytes(now, &mut input);
    input.push(45);
    push_dec_bytes(nonce, &mut input);
    assert(input@ =~= id_input(caller@, now, nonce));
    let digest = sha256(&input);
    let mut prefix: Vec<u8> = Vec::new();
    let mut i: usize = 0;
    while i < 16
        invariant
            digest@.len() == 32,
            i <= 16,
            prefix@ =~= digest@.take(i as int),
        decreases 16 - i,
    {
        prefix.push(digest[i]);
        i = i + 1;
        assert(prefix@ =~= digest@.take(i as int));
    }
    let r = hex_encode(&prefix);
    proof {
        lemma_hex_of_len(prefix@);
    }
    r
}

} // verus!
