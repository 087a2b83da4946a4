//! Data-only primitives shared by every module: identifier and commitment
//! widths, time and window checks, the domain-separated digest, and the
//! Ed25519 check applied to a statement digest.

use vstd::prelude::*;
use vstd::string::StringSliceAdditionalSpecFns;

verus! {

broadcast use vstd::array::group_array_axioms;

/// A 32-byte protocol identifier (operation, provider, stream, series, ...).
pub type Identifier = [u8; 32];

/// A 32-byte commitment or digest whose opening the record does not carry.
pub type Commitment = [u8; 32];

/// Upper bound for every Unix timestamp on the wire (`i64::MAX`).
pub const MAX_UNIX_TIME: u64 = 9223372036854775807u64;

/// The all-zero value, which no valid identifier or commitment may take.
#[verifier::opaque]
pub open spec fn is_zero(id: [u8; 32]) -> bool {
    forall|i: int| 0 <= i < 32 ==> #[trigger] id[i] == 0u8
}

/// The all-zero identifier.
pub fn zero() -> (r: [u8; 32])
    ensures
        is_zero(r),
{
    let r = [0u8; 32];
    proof {
        reveal(is_zero);
    }
    r
}

/// `true` when `id` is the all-zero value.
pub fn is_zero_id(id: &[u8; 32]) -> (r: bool)
    ensures
        r == is_zero(*id),
{
    proof {
        reveal(is_zero);
    }
    let mut i: usize = 0;
    while i < 32
        invariant
            i <= 32,
            forall|j: int| 0 <= j < i ==> #[trigger] id[j] == 0u8,
        decreases 32 - i,
    {
        if id[i] != 0 {
            assert(!is_zero(*id)) by {
                reveal(is_zero);
                assert(id[i as int] != 0u8);
            }
            return false;
        }
        i = i + 1;
    }
    true
}

/// Byte-wise equality of two identifiers.
pub fn same_id(a: &[u8; 32], b: &[u8; 32]) -> (r: bool)
    ensures
        r == (*a == *b),
{
    let mut i: usize = 0;
    while i < 32
        invariant
            i <= 32,
            forall|j: int| 0 <= j < i ==> #[trigger] a[j] == b[j],
        decreases 32 - i,
    {
        if a[i] != b[i] {
            return false;
        }
        i = i + 1;
    }
    assert(*a =~= *b);
    true
}

/// Equality of two optional identifiers.
pub fn same_opt_id(a: &Option<[u8; 32]>, b: &Option<[u8; 32]>) -> (r: bool)
    ensures
        r == (*a == *b),
{
    match (a, b) {
        (Some(x), Some(y)) => same_id(x, y),
        (None, None) => true,
        _ => false,
    }
}

/// `Some(zero)`: an optional identifier that is present but zero.
pub open spec fn some_zero(o: Option<[u8; 32]>) -> bool {
    o matches Some(v) && is_zero(v)
}

pub fn is_some_zero(o: &Option<[u8; 32]>) -> (r: bool)
    ensures
        r == some_zero(*o),
{
    match o {
        Some(v) => is_zero_id(v),
        None => false,
    }
}

/// A Unix time that is set and representable.
pub open spec fn spec_valid_time(at: u64) -> bool {
    0 < at && at <= MAX_UNIX_TIME
}

/// A Unix time that is set and representable.
pub fn valid_time(at: u64) -> (r: bool)
    ensures
        r == spec_valid_time(at),
{
    at > 0 && at <= MAX_UNIX_TIME
}

/// A validity window with a set start no later than its end.
pub open spec fn spec_valid_window(valid_from: u64, valid_until: u64) -> bool {
    0 < valid_from && valid_from <= valid_until && valid_until <= MAX_UNIX_TIME
}

/// A validity window with a set start no later than its end.
pub fn valid_window(valid_from: u64, valid_until: u64) -> (r: bool)
    ensures
        r == spec_valid_window(valid_from, valid_until),
{
    valid_from > 0 && valid_from <= valid_until && valid_until <= MAX_UNIX_TIME
}

/// `true` when any of `ids` is the all-zero value.
pub fn any_zero(ids: &[[u8; 32]]) -> (r: bool)
    ensures
        r == (exists|i: int| 0 <= i < ids@.len() && #[trigger] is_zero(ids@[i])),
{
    let mut i: usize = 0;
    while i < ids.len()
        invariant
            i <= ids@.len(),
            forall|j: int| 0 <= j < i ==> !#[trigger] is_zero(ids@[j]),
        decreases ids@.len() - i,
    {
        if is_zero_id(&ids[i]) {
            return true;
        }
        i = i + 1;
    }
    false
}

/// A lower-case hexadecimal digit byte.
pub open spec fn is_hex_byte(b: u8) -> bool {
    (48 <= b && b <= 57) || (97 <= b && b <= 102)
}

/// The form `id_key` produces: 64 lower-case hexadecimal digits.
pub open spec fn spec_is_hex_id(bytes: Seq<u8>) -> bool {
    bytes.len() == 64 && forall|i: int| 0 <= i < 64 ==> #[trigger] is_hex_byte(bytes[i])
}

/// `true` when `value` is the lower-case hex form an identifier key takes.
pub fn is_hex_id(value: &str) -> (r: bool)
    ensures
        r == spec_is_hex_id(value.spec_bytes()),
{
    let bytes = value.as_bytes();
    if bytes.len() != 64 {
        return false;
    }
    let mut i: usize = 0;
    while i < 64
        invariant
            i <= 64,
            bytes@.len() == 64,
            bytes@ == value.spec_bytes(),
            forall|j: int| 0 <= j < i ==> #[trigger] is_hex_byte(bytes@[j]),
        decreases 64 - i,
    {
        let b = bytes[i];
        if !((48 <= b && b <= 57) || (97 <= b && b <= 102)) {
            assert(!is_hex_byte(value.spec_bytes()[i as int]));
            return false;
        }
        i = i + 1;
    }
    true
}

/// One lower-case hexadecimal digit for a nibble.
pub open spec fn hex_digit(n: u8) -> u8 {
    if n < 10 {
        (48 + n) as u8
    } else {
        (87 + n) as u8
    }
}

/// Lower-case hexadecimal encoding of a byte sequence, two digits per byte.
pub open spec fn hex_bytes(s: Seq<u8>) -> Seq<u8>
    decreases s.len(),
{
    if s.len() == 0 {
        Seq::empty()
    } else {
        hex_bytes(s.drop_last()).push(hex_digit(s.last() / 16)).push(hex_digit(s.last() % 16))
    }
}

/// The same encoding, as characters.
pub open spec fn hex_chars(s: Seq<u8>) -> Seq<char> {
    hex_bytes(s).map_values(|b: u8| b as char)
}

/// Canonical map key for an identifier: its lower-case hexadecimal form.
/// The call is `hex::encode`, which writes two lower-case digits per byte,
/// high nibble first.
#[verifier::external_body]
pub fn id_key(id: &Identifier) -> (r: String)
    ensures
        r@ == hex_chars(id@),
{
    hex::encode(id)
}

// ---------------------------------------------------------------------------
// Digests
// ---------------------------------------------------------------------------

/// The SHA-256 digest of `data`, as computed by the `sha2` crate.
pub uninterp spec fn sha256(data: Seq<u8>) -> Seq<u8>;

/// `sha2::Sha256::digest`: the 32-byte SHA-256 digest of `data`. The contract
/// names the result and claims only that it is a function of the bytes.
#[verifier::external_body]
fn sha256_of(data: &[u8]) -> (r: [u8; 32])
    ensures
        r@ == sha256(data@),
{
    <sha2::Sha256 as sha2::Digest>::digest(data).into()
}

/// The SHA-256 digest of `data`.
pub fn sha256_digest(data: &[u8]) -> (r: [u8; 32])
    ensures
        r@ == sha256(data@),
{
    sha256_of(data)
}

/// The eight big-endian bytes of `n`.
pub open spec fn u64_be(n: u64) -> Seq<u8> {
    seq![
        ((n / 0x100000000000000) % 256) as u8,
        ((n / 0x1000000000000) % 256) as u8,
        ((n / 0x10000000000) % 256) as u8,
        ((n / 0x100000000) % 256) as u8,
        ((n / 0x1000000) % 256) as u8,
        ((n / 0x10000) % 256) as u8,
        ((n / 0x100) % 256) as u8,
        (n % 256) as u8,
    ]
}

/// What is hashed for a record: `domain || be64(len(encoding)) || encoding`.
pub open spec fn framed(domain: Seq<u8>, encoding: Seq<u8>) -> Seq<u8> {
    domain + u64_be(encoding.len() as u64) + encoding
}

/// The domain-separated digest of a record's canonical encoding.
pub open spec fn spec_digest(domain: Seq<u8>, encoding: Seq<u8>) -> Seq<u8> {
    sha256(framed(domain, encoding))
}

/// The 32-byte value whose bytes are `s`, where `s` is such a value's bytes.
pub open spec fn id_of(s: Seq<u8>) -> [u8; 32] {
    choose|a: [u8; 32]| a@ == s
}

/// A 32-byte value is the one its bytes name.
pub proof fn lemma_id_of(a: [u8; 32])
    ensures
        id_of(a@) == a,
{
    let b = id_of(a@);
    assert(b@ == a@);
    assert(b =~= a);
}

/// Appends every byte of `bytes` to `out`.
pub fn push_all(out: &mut Vec<u8>, bytes: &[u8])
    ensures
        final(out)@ == old(out)@ + bytes@,
{
    let mut i: usize = 0;
    while i < bytes.len()
        invariant
            i <= bytes@.len(),
            out@ == old(out)@ + bytes@.subrange(0, i as int),
        decreases bytes@.len() - i,
    {
        proof {
            assert(bytes@.subrange(0, (i + 1) as int) =~= bytes@.subrange(0, i as int).push(
                bytes@[i as int],
            ));
        }
        out.push(bytes[i]);
        proof {
            assert(out@ =~= old(out)@ + bytes@.subrange(0, (i + 1) as int));
        }
        i = i + 1;
    }
    assert(bytes@.subrange(0, bytes@.len() as int) =~= bytes@);
}

/// Domain-separated SHA-256 over a record's canonical encoding:
/// `H(domain || len(encoding) || encoding)`. Every statement digest is
/// computed this way, so a digest of one record type never collides with a
/// digest of another.
pub fn digest(domain: &[u8], encoding: &[u8]) -> (r: Commitment)
    ensures
        r@ == spec_digest(domain@, encoding@),
{
    let n: u64 = encoding.len() as u64;
    let mut data: Vec<u8> = Vec::new();
    push_all(&mut data, domain);
    data.push(((n / 0x100000000000000) % 256) as u8);
    data.push(((n / 0x1000000000000) % 256) as u8);
    data.push(((n / 0x10000000000) % 256) as u8);
    data.push(((n / 0x100000000) % 256) as u8);
    data.push(((n / 0x1000000) % 256) as u8);
    data.push(((n / 0x10000) % 256) as u8);
    data.push(((n / 0x100) % 256) as u8);
    data.push((n % 256) as u8);
    push_all(&mut data, encoding);
    assert(data@ =~= framed(domain@, encoding@));
    sha256_of(data.as_slice())
}

// ---------------------------------------------------------------------------
// Ed25519
// ---------------------------------------------------------------------------

/// Whether 32 bytes decode as an Ed25519 verifying key.
pub uninterp spec fn ed25519_key_decodes(public_key: Seq<u8>) -> bool;

/// Whether a 64-byte Ed25519 signature verifies for `message` under a
/// decodable `public_key`.
pub uninterp spec fn ed25519_verifies(public_key: Seq<u8>, message: Seq<u8>, signature: Seq<u8>) -> bool;

/// `ed25519_dalek::VerifyingKey::from_bytes`: whether the bytes decode as a
/// verifying key. The contract names the answer; it claims only that it
/// depends on the bytes alone.
#[verifier::external_body]
pub fn is_verifying_key(public_key: &[u8; 32]) -> (r: bool)
    ensures
        r == ed25519_key_decodes(public_key@),
{
    ed25519_dalek::VerifyingKey::from_bytes(public_key).is_ok()
}

/// `ed25519_dalek::VerifyingKey::verify` (the `Verifier` trait) of a 64-byte
/// signature over `message`. The key must decode, which `requires` states;
/// the contract names the answer as a function of the three byte strings.
#[verifier::external_body]
fn ed25519_verify(public_key: &[u8; 32], message: &[u8; 32], signature: &[u8; 64]) -> (r: bool)
    requires
        ed25519_key_decodes(public_key@),
    ensures
        r == ed25519_verifies(public_key@, message@, signature@),
{
    let key = ed25519_dalek::VerifyingKey::from_bytes(public_key).unwrap();
    let signature = ed25519_dalek::Signature::from_bytes(signature);
    ed25519_dalek::Verifier::verify(&key, message, &signature).is_ok()
}

/// Why an Ed25519 signature over a statement was not accepted.
#[derive(Clone, Copy, Debug, PartialEq, Eq, Structural)]
pub enum SignatureError {
    InvalidKey,
    InvalidSignature,
}

/// The answer of [`verify_key_signature`] for given key, statement, and
/// signature bytes.
pub open spec fn spec_verify_key_signature(
    public_key: Seq<u8>,
    statement: Seq<u8>,
    signature: Seq<u8>,
) -> Result<(), SignatureError> {
    if !ed25519_key_decodes(public_key) {
        Err(SignatureError::InvalidKey)
    } else if signature.len() != 64 || !ed25519_verifies(public_key, statement, signature) {
        Err(SignatureError::InvalidSignature)
    } else {
        Ok(())
    }
}

/// Verifies an Ed25519 signature over a statement digest. A signature that
/// is not exactly 64 bytes long is refused before any curve arithmetic.
pub fn verify_key_signature(
    public_key: &[u8; 32],
    statement: &Commitment,
    signature: &[u8],
) -> (r: Result<(), SignatureError>)
    ensures
        r == spec_verify_key_signature(public_key@, statement@, signature@),
{
    if !is_verifying_key(public_key) {
        return Err(SignatureError::InvalidKey);
    }
    if signature.len() != 64 {
        return Err(SignatureError::InvalidSignature);
    }
    let mut bytes = [0u8; 64];
    let mut i: usize = 0;
    while i < 64
        invariant
            i <= 64,
            signature@.len() == 64,
            bytes@.len() == 64,
            forall|j: int| 0 <= j < i ==> #[trigger] bytes@[j] == signature@[j],
        decreases 64 - i,
    {
        bytes[i] = signature[i];
        i = i + 1;
    }
    assert(bytes@ =~= signature@);
    if ed25519_verify(public_key, statement, &bytes) {
        Ok(())
    } else {
        Err(SignatureError::InvalidSignature)
    }
}

} // verus!
