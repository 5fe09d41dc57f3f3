//! What surrounds the native cryptography: which algorithm is taken, which lengths are accepted,
//! and what takes over where the hardware fails.
//!
//! Algorithms go by their numbers on the wire: hashes and signatures as TLS 1.2 numbers them,
//! curves as the registry of supported groups does.
use vstd::prelude::*;
use vstd::slice::*;

verus! {

pub const SHA256: u8 = 4;

pub const SHA384: u8 = 5;

pub const ECDSA: u8 = 3;

pub const SECP256R1: u16 = 23;

pub const SECP384R1: u16 = 24;

/// The bytes that authenticate a message.
pub const TAG_BYTES: usize = 16;

/// The longest message that is encrypted in one go.
pub const RECORD_BYTES: usize = 16_384;

/// How many pieces of a message the native HMAC takes.
pub const PART_LIMIT: usize = 8;

/// Room for an AES key that is overwritten with zeros when it is dropped.
#[verifier::external_body]
pub struct Secret {
    bytes: zeroize::Zeroizing<[u8; 32]>,
}

/// The bytes in a secret.
pub uninterp spec fn secret_bytes(secret: Secret) -> Seq<u8>;

/// Calls `zeroize::Zeroizing::new`, which holds the bytes as they are. That they are overwritten
/// when the secret is dropped is not stated.
#[verifier::external_body]
fn guard_secret(bytes: [u8; 32]) -> (secret: Secret)
    ensures
        secret_bytes(secret) == bytes@,
{
    Secret { bytes: zeroize::Zeroizing::new(bytes) }
}

/// Calls `zeroize::Zeroizing::deref`, which gives the bytes that it holds.
#[verifier::external_body]
fn expose_secret(secret: &Secret) -> (bytes: &[u8; 32])
    ensures
        bytes@ == secret_bytes(*secret),
{
    &secret.bytes
}

/// Calls `zeroize::Zeroizing::deref_mut`, which gives the bytes that it holds; what is written
/// to them is what it holds then.
#[verifier::external_body]
fn expose_secret_mut(secret: &mut Secret) -> (bytes: &mut [u8; 32])
    ensures
        bytes@ == secret_bytes(*old(secret)),
        secret_bytes(*final(secret)) == final(bytes)@,
{
    &mut secret.bytes
}

/// An AES key of 128 or 256 bits. Keys remain here; native operations borrow them only during
/// the call. There is no `Debug`: it would show the key.
pub struct Key {
    secret: Secret,
    length: usize,
}

/// Writes a key to the start of a secret.
fn fill_secret(secret: &mut Secret, key: &[u8])
    requires
        key@.len() <= 32,
    ensures
        secret_bytes(*final(secret)) == key@ + secret_bytes(*old(secret)).skip(key@.len() as int),
{
    let bytes = expose_secret_mut(secret);
    let ghost before = bytes@;
    let mut i: usize = 0;
    while i < key.len()
        invariant
            key@.len() <= 32,
            i <= key@.len(),
            bytes@.len() == 32,
            before.len() == 32,
            forall|j: int| 0 <= j < i ==> bytes@[j] == key@[j],
            forall|j: int| i <= j < 32 ==> bytes@[j] == before[j],
        decreases key@.len() - i,
    {
        bytes[i] = key[i];
        i = i + 1;
    }
    assert(bytes@ =~= key@ + before.skip(key@.len() as int));
}

impl View for Key {
    type V = Seq<u8>;

    closed spec fn view(&self) -> Seq<u8> {
        secret_bytes(self.secret).take(self.length as int)
    }
}

impl Key {
    #[verifier::type_invariant]
    spec fn whole(self) -> bool {
        &&& self.length == 16 || self.length == 32
        &&& secret_bytes(self.secret).len() == 32
    }

    pub fn new(key: &[u8]) -> (result: Option<Key>)
        ensures
            result is Some <==> key@.len() == 16 || key@.len() == 32,
            result matches Some(held) ==> held@ == key@,
    {
        if key.len() != 16 && key.len() != 32 {
            return None;
        }
        let mut secret = guard_secret([0; 32]);
        fill_secret(&mut secret, key);
        assert(secret_bytes(secret).take(key@.len() as int) =~= key@);
        Some(Key { secret, length: key.len() })
    }

    pub fn bytes(&self) -> (bytes: &[u8])
        ensures
            bytes@ == self@,
            bytes@.len() == 16 || bytes@.len() == 32,
    {
        proof {
            use_type_invariant(self);
        }
        let all = expose_secret(&self.secret);
        let bytes = slice_subrange(vstd::array::array_as_slice(all), 0, self.length);
        assert(bytes@ =~= self@);
        bytes
    }

    /// A text that shows nothing of the key.
    pub fn describe(&self) -> (text: &'static str)
        ensures
            text@ == "AesKey { .. }"@,
    {
        "AesKey { .. }"
    }
}

/// A key for a cipher that wants exactly `expected` bytes.
pub fn cipher_key(key: &[u8], expected: usize) -> (result: Option<Key>)
    ensures
        result is Some <==> key@.len() == expected && (expected == 16 || expected == 32),
        result matches Some(held) ==> held@ == key@,
{
    if key.len() != expected {
        None
    } else {
        Key::new(key)
    }
}

/// The AES suites of DTLS 1.2: ECDHE with ECDSA, and AES-128 or AES-256 in GCM.
pub const DTLS12_AES_128: u16 = 0xc02b;

pub const DTLS12_AES_256: u16 = 0xc02c;

/// The AES suites of DTLS 1.3: AES-128 or AES-256 in GCM.
pub const DTLS13_AES_128: u16 = 0x1301;

pub const DTLS13_AES_256: u16 = 0x1302;

/// Whether the hardware takes over a cipher suite of DTLS 1.2.
pub fn takes_dtls12_suite(suite: u16) -> (result: bool)
    ensures
        result == (suite == DTLS12_AES_128 || suite == DTLS12_AES_256),
{
    suite == DTLS12_AES_128 || suite == DTLS12_AES_256
}

/// Whether the hardware takes over a cipher suite of DTLS 1.3.
pub fn takes_dtls13_suite(suite: u16) -> (result: bool)
    ensures
        result == (suite == DTLS13_AES_128 || suite == DTLS13_AES_256),
{
    suite == DTLS13_AES_128 || suite == DTLS13_AES_256
}

/// The bits of the hashes that the hardware computes.
pub open spec fn hash_bits(hash: u8) -> Option<i32> {
    if hash == SHA256 {
        Some(256i32)
    } else if hash == SHA384 {
        Some(384i32)
    } else {
        None
    }
}

pub fn bits(hash: u8) -> (result: Option<i32>)
    ensures
        result == hash_bits(hash),
{
    if hash == SHA256 {
        Some(256)
    } else if hash == SHA384 {
        Some(384)
    } else {
        None
    }
}

/// The SHA-256 digest of some bytes, as `str0m_rust_crypto` computes it.
pub uninterp spec fn sha256_of(data: Seq<u8>) -> Seq<u8>;

/// Calls the SHA-256 provider of `str0m_rust_crypto`: the digest depends on the bytes alone.
#[verifier::external_body]
fn portable_sha256(data: &[u8]) -> (digest: [u8; 32])
    ensures
        digest@ == sha256_of(data@),
{
    str0m_rust_crypto::default_provider().sha256_provider.sha256(data)
}

/// The digest that the hardware computed, or the portable one where it failed.
pub fn sha256(data: &[u8], native: Option<[u8; 32]>) -> (digest: [u8; 32])
    ensures
        digest@ == match native {
            Some(computed) => computed@,
            None => sha256_of(data@),
        },
{
    match native {
        Some(computed) => computed,
        None => portable_sha256(data),
    }
}

/// Pieces of a message put together.
pub open spec fn joined(parts: Seq<&[u8]>) -> Seq<u8>
    decreases parts.len(),
{
    if parts.len() == 0 {
        Seq::empty()
    } else {
        joined(parts.drop_last()) + parts.last()@
    }
}

/// The HMAC-SHA-1 of a message under a key, as `str0m_rust_crypto` computes it.
pub uninterp spec fn sha1_hmac_of(key: Seq<u8>, message: Seq<u8>) -> Seq<u8>;

/// Calls the HMAC-SHA-1 provider of `str0m_rust_crypto`, which takes in the pieces one after the
/// other: the result depends on the key and the whole message alone.
#[verifier::external_body]
fn portable_sha1_hmac(key: &[u8], payloads: &[&[u8]]) -> (mac: [u8; 20])
    ensures
        mac@ == sha1_hmac_of(key@, joined(payloads@)),
{
    str0m_rust_crypto::default_provider().sha1_hmac_provider.sha1_hmac(key, payloads)
}

/// The code that the hardware computed, or the portable one where it failed.
pub fn sha1_hmac(key: &[u8], payloads: &[&[u8]], native: Option<[u8; 20]>) -> (mac: [u8; 20])
    ensures
        mac@ == match native {
            Some(computed) => computed@,
            None => sha1_hmac_of(key@, joined(payloads@)),
        },
{
    match native {
        Some(computed) => computed,
        None => portable_sha1_hmac(key, payloads),
    }
}

/// Whether the native HMAC takes a message in that many pieces.
pub fn takes_parts(count: usize) -> (result: bool)
    ensures
        result == (count <= PART_LIMIT),
{
    count <= PART_LIMIT
}

/// The HMAC of a message under a key with a hash, as `dimpl` computes it.
pub uninterp spec fn hmac_of(hash: u8, key: Seq<u8>, data: Seq<u8>) -> Seq<u8>;

/// The bytes of the HMAC with a hash.
pub open spec fn hmac_bytes(hash: u8) -> Option<int> {
    match hash_bits(hash) {
        Some(bits) => Some(bits as int / 8),
        None => None,
    }
}

/// Calls the HMAC provider of `dimpl`: it knows SHA-256 and SHA-384, writes the code to the
/// front of `out`, which must have room for it, and gives its length. The code depends on the
/// hash, the key and the message alone; other hashes are refused.
#[verifier::external_body]
fn portable_hmac(hash: u8, key: &[u8], data: &[u8], out: &mut [u8]) -> (written: Option<usize>)
    requires
        hmac_bytes(hash) matches Some(length) ==> length <= old(out)@.len(),
    ensures
        final(out)@.len() == old(out)@.len(),
        match hmac_bytes(hash) {
            Some(length) => {
                &&& written matches Some(count) && count == length
                &&& final(out)@.take(length) == hmac_of(hash, key@, data@)
                &&& final(out)@.skip(length) == old(out)@.skip(length)
            },
            None => written is None && final(out)@ == old(out)@,
        },
{
    let hash = dimpl::HashAlgorithm::from_u8(hash);
    dimpl::crypto::rust_crypto::default_provider().hmac_provider.hmac(hash, key, data, out).ok()
}

/// The length of the code in `out`: the one that the hardware wrote there, or the portable one
/// where it failed. Hashes that neither knows are refused.
pub fn hmac(hash: u8, key: &[u8], data: &[u8], native: bool, out: &mut [u8]) -> (written: Option<
    usize,
>)
    requires
        hmac_bytes(hash) matches Some(length) ==> length <= old(out)@.len(),
    ensures
        final(out)@.len() == old(out)@.len(),
        match hmac_bytes(hash) {
            Some(length) => {
                &&& written matches Some(count) && count == length
                &&& native ==> final(out)@ == old(out)@
                &&& !native ==> final(out)@ == hmac_of(hash, key@, data@) + old(out)@.skip(length)
            },
            None => written is None && final(out)@ == old(out)@,
        },
{
    if native {
        if let Some(bits) = bits(hash) {
            return Some(bits as usize / 8);
        }
    }
    let written = portable_hmac(hash, key, data, out);
    proof {
        if let Some(length) = hmac_bytes(hash) {
            assert(out@ =~= out@.take(length) + out@.skip(length));
        }
    }
    written
}

/// The two blocks that a round encrypts: the input, and the padding that follows a full block.
/// `None` where the input is not one block or the output has no room for two.
pub fn round_blocks(input: &[u8], room: usize) -> (blocks: Option<([u8; 16], [u8; 16])>)
    ensures
        blocks is Some <==> input@.len() == 16 && room >= 32,
        blocks matches Some((first, padding)) ==> {
            &&& first@ == input@
            &&& padding@ == Seq::new(16, |i: int| 0x10u8)
        },
{
    if input.len() != 16 || room < 32 {
        return None;
    }
    let mut first: [u8; 16] = [0; 16];
    let mut i: usize = 0;
    while i < 16
        invariant
            input@.len() == 16,
            i <= 16,
            forall|j: int| 0 <= j < i ==> first@[j] == input@[j],
        decreases 16 - i,
    {
        first[i] = input[i];
        i = i + 1;
    }
    let padding: [u8; 16] = [0x10; 16];
    assert(first@ =~= input@);
    assert(padding@ =~= Seq::new(16, |i: int| 0x10u8));
    Some((first, padding))
}

/// Two blocks under AES-128, as `str0m_rust_crypto` encrypts one block and its padding.
pub uninterp spec fn aes_128_round_of(key: Seq<u8>, input: Seq<u8>) -> Seq<u8>;

/// Two blocks under AES-256, as `str0m_rust_crypto` encrypts one block and its padding.
pub uninterp spec fn aes_256_round_of(key: Seq<u8>, input: Seq<u8>) -> Seq<u8>;

/// Calls the AES-128 round of `str0m_rust_crypto`: it writes two blocks to the front of `out`
/// that depend on the key and the input alone. It panics on other lengths.
#[verifier::external_body]
fn portable_aes_128_round(key: &[u8], input: &[u8], out: &mut [u8])
    requires
        key@.len() == 16,
        input@.len() == 16,
        old(out)@.len() >= 32,
    ensures
        final(out)@.len() == old(out)@.len(),
        final(out)@.take(32) == aes_128_round_of(key@, input@),
        final(out)@.skip(32) == old(out)@.skip(32),
{
    str0m_rust_crypto::default_provider().srtp_provider.srtp_aes_128_ecb_round(key, input, out)
}

/// Calls the AES-256 round of `str0m_rust_crypto`: it writes two blocks to the front of `out`
/// that depend on the key and the input alone. It panics on other lengths.
#[verifier::external_body]
fn portable_aes_256_round(key: &[u8], input: &[u8], out: &mut [u8])
    requires
        key@.len() == 32,
        input@.len() == 16,
        old(out)@.len() >= 32,
    ensures
        final(out)@.len() == old(out)@.len(),
        final(out)@.take(32) == aes_256_round_of(key@, input@),
        final(out)@.skip(32) == old(out)@.skip(32),
{
    str0m_rust_crypto::default_provider().srtp_provider.srtp_aes_256_ecb_round(key, input, out)
}

/// Writes two blocks to the front of `out`.
fn put_blocks(first: &[u8; 16], padding: &[u8; 16], out: &mut [u8])
    requires
        old(out)@.len() >= 32,
    ensures
        final(out)@ == first@ + padding@ + old(out)@.skip(32),
{
    let mut i: usize = 0;
    while i < 16
        invariant
            i <= 16,
            out@.len() == old(out)@.len(),
            out@.len() >= 32,
            forall|j: int| 0 <= j < i ==> out@[j] == first@[j],
            forall|j: int| 0 <= j < i ==> out@[16 + j] == padding@[j],
            forall|j: int| 32 <= j < out@.len() ==> out@[j] == old(out)@[j],
        decreases 16 - i,
    {
        out[i] = first[i];
        out[16 + i] = padding[i];
        i = i + 1;
    }
    assert forall|j: int| 0 <= j < out@.len() implies out@[j] == (first@ + padding@ + old(
        out,
    )@.skip(32))[j] by {
        if 16 <= j < 32 {
            assert(out@[16 + (j - 16)] == padding@[j - 16]);
        }
    }
    assert(out@ =~= first@ + padding@ + old(out)@.skip(32));
}

/// The blocks that the hardware encrypted, or the portable ones where it failed.
pub fn srtp_aes_128_ecb_round(
    key: &[u8],
    input: &[u8],
    native: Option<([u8; 16], [u8; 16])>,
    out: &mut [u8],
)
    requires
        native is None ==> key@.len() == 16 && input@.len() == 16,
        old(out)@.len() >= 32,
    ensures
        final(out)@ == match native {
            Some((first, padding)) => first@ + padding@,
            None => aes_128_round_of(key@, input@),
        } + old(out)@.skip(32),
{
    match native {
        Some((first, padding)) => put_blocks(&first, &padding, out),
        None => {
            portable_aes_128_round(key, input, out);
            assert(out@ =~= out@.take(32) + out@.skip(32));
        },
    }
}

/// The blocks that the hardware encrypted, or the portable ones where it failed.
pub fn srtp_aes_256_ecb_round(
    key: &[u8],
    input: &[u8],
    native: Option<([u8; 16], [u8; 16])>,
    out: &mut [u8],
)
    requires
        native is None ==> key@.len() == 32 && input@.len() == 16,
        old(out)@.len() >= 32,
    ensures
        final(out)@ == match native {
            Some((first, padding)) => first@ + padding@,
            None => aes_256_round_of(key@, input@),
        } + old(out)@.skip(32),
{
    match native {
        Some((first, padding)) => put_blocks(&first, &padding, out),
        None => {
            portable_aes_256_round(key, input, out);
            assert(out@ =~= out@.take(32) + out@.skip(32));
        },
    }
}

/// The length of a message once its tag is taken off; there is none without a whole tag.
pub open spec fn opened(length: int) -> Option<int> {
    if length < TAG_BYTES {
        None
    } else {
        Some(length - TAG_BYTES)
    }
}

/// The length of a record with its tag; a record that is too long gets none.
pub open spec fn sealed(length: int) -> Option<int> {
    if length > RECORD_BYTES {
        None
    } else {
        Some(length + TAG_BYTES)
    }
}

pub fn clear_length(length: usize) -> (clear: Option<usize>)
    ensures
        match clear {
            Some(clear) => opened(length as int) == Some(clear as int),
            None => opened(length as int) is None,
        },
{
    if length < TAG_BYTES {
        None
    } else {
        Some(length - TAG_BYTES)
    }
}

pub fn sealed_length(length: usize) -> (result: Option<usize>)
    ensures
        match result {
            Some(result) => sealed(length as int) == Some(result as int),
            None => sealed(length as int) is None,
        },
{
    if length > RECORD_BYTES {
        None
    } else {
        Some(length + TAG_BYTES)
    }
}

/// A record that is sealed opens to its own length.
pub proof fn lemma_a_sealed_record_opens_to_its_length(length: int)
    requires
        0 <= length,
    ensures
        sealed(length) matches Some(whole) ==> opened(whole) == Some(length),
{
}

/// Puts the pieces of authenticated data together: SRTP may supply the header and the rollover
/// counter apart.
pub fn join_parts(parts: &[&[u8]]) -> (whole: Vec<u8>)
    ensures
        whole@ == joined(parts@),
{
    let mut whole: Vec<u8> = Vec::new();
    let mut i: usize = 0;
    while i < parts.len()
        invariant
            i <= parts@.len(),
            whole@ == joined(parts@.take(i as int)),
        decreases parts@.len() - i,
    {
        let part = parts[i];
        let mut k: usize = 0;
        let ghost front = whole@;
        while k < part.len()
            invariant
                k <= part@.len(),
                whole@ == front + part@.take(k as int),
            decreases part@.len() - k,
        {
            whole.push(part[k]);
            k = k + 1;
            assert(whole@ =~= front + part@.take(k as int));
        }
        assert(part@.take(k as int) =~= part@);
        assert(parts@.take(i + 1).drop_last() =~= parts@.take(i as int));
        i = i + 1;
    }
    assert(parts@.take(i as int) =~= parts@);
    whole
}

/// Whether an operation in place has its whole input inside the buffer.
pub fn input_fits(input_length: usize, buffer_length: usize) -> (result: bool)
    ensures
        result == (input_length <= buffer_length),
{
    input_length <= buffer_length
}

/// The size of a private key that can sign; other curves are refused.
pub fn key_bits(code: i32, bits: i32) -> (result: Option<i32>)
    ensures
        result == if code == 0 && (bits == 256 || bits == 384) {
            Some(bits)
        } else {
            None
        },
{
    if code == 0 && (bits == 256 || bits == 384) {
        Some(bits)
    } else {
        None
    }
}

/// The hash that goes with a private key.
pub fn signing_hash(bits: i32) -> (hash: u8)
    ensures
        hash == if bits == 256 {
            SHA256
        } else {
            SHA384
        },
{
    if bits == 256 {
        SHA256
    } else {
        SHA384
    }
}

/// The length of a signature that was written into `room` bytes; an empty one is refused.
pub fn signature_length(code: i32, used: usize, room: usize) -> (result: Option<usize>)
    ensures
        result == if code == 0 && 0 < used && used <= room {
            Some(used)
        } else {
            None
        },
{
    if code == 0 && 0 < used && used <= room {
        Some(used)
    } else {
        None
    }
}

/// Why a signature is not even looked at.
#[derive(Debug, Clone, Copy, PartialEq, Eq, Structural)]
pub enum VerifyError {
    /// The certificate has no curve that is known.
    Certificate,
    /// The signature, the hash and that curve do not go together.
    Scheme(u16),
}

/// How a signature is checked: on which curve, and with a hash of how many bits.
#[derive(Debug, Clone, Copy, PartialEq, Eq, Structural)]
pub struct VerifyPlan {
    pub group: u16,
    pub bits: i32,
}

/// The curve of a certificate, as `dimpl` finds it in the DER encoding.
pub uninterp spec fn certificate_curve(der: Seq<u8>) -> Option<u16>;

/// Calls `dimpl::crypto::cert_named_group`: the curve depends on the bytes of the certificate
/// alone, and is P-256 or P-384 where there is one.
#[verifier::external_body]
fn certificate_group(der: &[u8]) -> (group: Option<u16>)
    ensures
        group == certificate_curve(der@),
        group matches Some(group) ==> group == SECP256R1 || group == SECP384R1,
{
    dimpl::crypto::cert_named_group(der).ok().map(|group| group.as_u16())
}

/// The signatures that can be checked: ECDSA with SHA-256 or SHA-384 on P-256 or P-384.
pub open spec fn scheme_known(signature: u8, hash: u8, group: u16) -> bool {
    &&& signature == ECDSA
    &&& hash == SHA256 || hash == SHA384
    &&& group == SECP256R1 || group == SECP384R1
}

/// Calls `dimpl::crypto::check_verify_scheme`, which allows exactly the four combinations of
/// ECDSA with two hashes and two curves.
#[verifier::external_body]
fn scheme_allowed(signature: u8, hash: u8, group: u16) -> (allowed: bool)
    ensures
        allowed == scheme_known(signature, hash, group),
{
    let signature = dimpl::SignatureAlgorithm::from_u8(signature);
    let hash = dimpl::HashAlgorithm::from_u8(hash);
    dimpl::crypto::check_verify_scheme(signature, hash, dimpl::NamedGroup::from_u16(group)).is_ok()
}

/// What is done about a signature by a key on the given curve.
pub open spec fn verification(group: Option<u16>, hash: u8, signature: u8) -> Result<
    VerifyPlan,
    VerifyError,
> {
    match group {
        None => Err(VerifyError::Certificate),
        Some(group) => if scheme_known(signature, hash, group) {
            Ok(VerifyPlan { group, bits: if hash == SHA256 { 256i32 } else { 384i32 } })
        } else {
            Err(VerifyError::Scheme(group))
        },
    }
}

/// How the hardware checks a signature by a key on a curve.
pub fn verify_with_group(group: Option<u16>, hash: u8, signature: u8) -> (result: Result<
    VerifyPlan,
    VerifyError,
>)
    ensures
        result == verification(group, hash, signature),
{
    match group {
        None => Err(VerifyError::Certificate),
        Some(group) => {
            if !scheme_allowed(signature, hash, group) {
                return Err(VerifyError::Scheme(group));
            }
            match bits(hash) {
                Some(bits) => Ok(VerifyPlan { group, bits }),
                None => Err(VerifyError::Scheme(group)),
            }
        },
    }
}

/// How the hardware checks a signature by a certificate's key.
pub fn verify_plan(certificate: &[u8], hash: u8, signature: u8) -> (result: Result<
    VerifyPlan,
    VerifyError,
>)
    ensures
        result == verification(certificate_curve(certificate@), hash, signature),
{
    verify_with_group(certificate_group(certificate), hash, signature)
}

/// Opt-in aggregate profiling: warm up, measure once, and be done.
#[derive(Debug, Clone, Copy, PartialEq, Eq, Structural)]
pub enum Profile {
    Waiting,
    Warmup(u64),
    Measuring(u64),
    Complete,
}

/// What the profile asks of the platform.
#[derive(Debug, Clone, Copy, PartialEq, Eq, Structural)]
pub enum ProfileCall {
    Nothing,
    Start,
    Finish,
}

pub const WARMUP_US: u64 = 5_000_000;

pub const MEASURE_US: u64 = 30_000_000;

/// The profile after a tick, and what it asks for. A call that fails leaves the profile where it
/// was, and the session ends.
pub open spec fn ticked(profile: Profile, now: u64) -> (Profile, ProfileCall) {
    match profile {
        Profile::Waiting => (Profile::Warmup((now + WARMUP_US) as u64), ProfileCall::Nothing),
        Profile::Warmup(deadline) => if now >= deadline {
            (Profile::Measuring((now + MEASURE_US) as u64), ProfileCall::Start)
        } else {
            (profile, ProfileCall::Nothing)
        },
        Profile::Measuring(deadline) => if now >= deadline {
            (Profile::Complete, ProfileCall::Finish)
        } else {
            (profile, ProfileCall::Nothing)
        },
        Profile::Complete => (profile, ProfileCall::Nothing),
    }
}

impl Profile {
    pub fn tick(self, now_us: u64) -> (result: (Profile, ProfileCall))
        requires
            self is Waiting ==> now_us + WARMUP_US <= u64::MAX,
            self matches Profile::Warmup(deadline) ==> now_us < deadline || now_us + MEASURE_US
                <= u64::MAX,
        ensures
            result == ticked(self, now_us),
    {
        match self {
            Profile::Waiting => (Profile::Warmup(now_us + WARMUP_US), ProfileCall::Nothing),
            Profile::Warmup(deadline) => if now_us >= deadline {
                (Profile::Measuring(now_us + MEASURE_US), ProfileCall::Start)
            } else {
                (self, ProfileCall::Nothing)
            },
            Profile::Measuring(deadline) => if now_us >= deadline {
                (Profile::Complete, ProfileCall::Finish)
            } else {
                (self, ProfileCall::Nothing)
            },
            Profile::Complete => (self, ProfileCall::Nothing),
        }
    }
}

/// The hardware hashes with SHA-256 and SHA-384 alone; a code has a byte for eight bits of its
/// hash.
pub proof fn lemma_hashes_of_the_hardware(hash: u8)
    ensures
        hash_bits(hash) is Some <==> hash == 4 || hash == 5,
        hash_bits(4) == Some(256i32),
        hash_bits(5) == Some(384i32),
        hmac_bytes(hash) is Some <==> hash_bits(hash) is Some,
        hmac_bytes(hash) matches Some(length) ==> 8 * length == hash_bits(hash)->Some_0,
{
}

/// A record of up to 16,384 bytes is sealed with 16 bytes more, and longer ones are not; whatever
/// has at least 16 bytes opens to 16 bytes less. So a record comes out as long as it went in.
pub proof fn lemma_records_are_sealed_with_16_bytes(length: int)
    requires
        0 <= length,
    ensures
        sealed(length) is Some <==> length <= 16_384,
        sealed(length) matches Some(whole) ==> whole - length == 16,
        opened(length) is Some <==> length >= 16,
        opened(length) matches Some(clear) ==> length - clear == 16,
        PART_LIMIT == 8,
{
}

/// Pieces are put together in their order, with nothing in between.
pub proof fn lemma_pieces_are_put_together(parts: Seq<&[u8]>, part: &[u8])
    ensures
        joined(Seq::empty()) == Seq::<u8>::empty(),
        joined(parts.push(part)) == joined(parts) + part@,
{
    assert(parts.push(part).drop_last() =~= parts);
}

/// A signature is checked exactly where the certificate has one of the two curves, the signature
/// is ECDSA and the hash one of the two; on that curve, and with a hash of as many bits.
pub proof fn lemma_signatures_that_are_checked(group: Option<u16>, hash: u8, signature: u8)
    ensures
        verification(group, hash, signature) is Ok <==> {
            &&& group == Some(23u16) || group == Some(24u16)
            &&& hash == 4 || hash == 5
            &&& signature == 3
        },
        verification(group, hash, signature) matches Ok(plan) ==> {
            &&& group == Some(plan.group)
            &&& hash_bits(hash) == Some(plan.bits)
        },
        verification(group, hash, signature) == Err::<VerifyPlan, VerifyError>(
            VerifyError::Certificate,
        ) <==> group is None,
        verification(group, hash, signature) matches Err(VerifyError::Scheme(refused)) ==> group
            == Some(refused),
{
}

/// Profiling takes its course with time alone: five seconds to warm up, then it starts and
/// measures for thirty seconds, finishes, and is done for good.
pub proof fn lemma_profiling_takes_its_course(start: u64, now: u64)
    requires
        start <= now,
        now + 30_000_000 <= u64::MAX,
    ensures
        ticked(Profile::Waiting, start) == (
            Profile::Warmup((start + 5_000_000) as u64),
            ProfileCall::Nothing,
        ),
        ({
            let warm = Profile::Warmup(start);
            let measuring = Profile::Measuring(start);
            &&& ticked(warm, now) == (
                Profile::Measuring((now + 30_000_000) as u64),
                ProfileCall::Start,
            )
            &&& ticked(measuring, now) == (Profile::Complete, ProfileCall::Finish)
            &&& forall|early: u64|
                early < start ==> {
                    &&& #[trigger] ticked(warm, early) == (warm, ProfileCall::Nothing)
                    &&& ticked(measuring, early) == (measuring, ProfileCall::Nothing)
                }
        }),
        ticked(Profile::Complete, now) == (Profile::Complete, ProfileCall::Nothing),
{
}

} // verus!
