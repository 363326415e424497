//! Proving to the server that the password is known, and checking that the server knows it
//! too, without sending it: SCRAM-SHA-256.

use crate::error::Error;
use crate::misc::bytes::bytes_eq;
use crate::misc::filled_buffer::append_bytes;
use crate::misc::rng::Rng;
use base64::Engine;
use hmac::Mac;
use sha2::Digest;
use vstd::prelude::*;
use vstd::string::StringSliceAdditionalSpecFns;

verus! {

/// The number of bytes of a SHA-256 digest.
pub const DIGEST_LEN: usize = 32;

/// The number of characters of the nonce of the client.
pub const NONCE_LEN: usize = 24;

/// The smallest number of hashing rounds that a server may ask for.
pub const MIN_ITERATIONS: u32 = 4096;

/// The largest text that is encoded or decoded here.
pub const MAX_TEXT_LEN: usize = 0x3fff_ffff;

/// The HMAC-SHA-256 of `msg` under `key`.
pub uninterp spec fn spec_hmac_sha256(key: Seq<u8>, msg: Seq<u8>) -> Seq<u8>;

/// The SHA-256 digest of `msg`.
pub uninterp spec fn spec_sha256(msg: Seq<u8>) -> Seq<u8>;

/// `bytes` in the standard base64 alphabet, padded.
pub uninterp spec fn spec_base64_encode(bytes: Seq<u8>) -> Seq<u8>;

/// The bytes that the padded standard base64 text `text` stands for, if it is such a text.
pub uninterp spec fn spec_base64_decode(text: Seq<u8>) -> Option<Seq<u8>>;

/// `Hmac<Sha256>` of the crates `hmac` and `sha2`: keyed with `key`, fed with `msg` and
/// finalized. Keying takes a key of any length and never fails; the result has 32 bytes.
#[verifier::external_body]
fn hmac_sha256(key: &[u8], msg: &[u8]) -> (r: [u8; 32])
    ensures
        r@ == spec_hmac_sha256(key@, msg@),
{
    let mut mac = hmac::Hmac::<sha2::Sha256>::new_from_slice(key).expect("a key of any length");
    mac.update(msg);
    mac.finalize().into_bytes().into()
}

/// `Sha256::digest` of the crate `sha2`: the digest of `msg`, which has 32 bytes.
#[verifier::external_body]
fn sha256(msg: &[u8]) -> (r: [u8; 32])
    ensures
        r@ == spec_sha256(msg@),
{
    sha2::Sha256::digest(msg).into()
}

/// `Engine::encode` of the crate `base64` with its `STANDARD` engine. The length of the text
/// is computed with a check that fails for inputs near the size of the address space, so
/// those are kept out.
#[verifier::external_body]
fn base64_encode(bytes: &[u8]) -> (r: Vec<u8>)
    requires
        bytes@.len() <= MAX_TEXT_LEN,
    ensures
        r@ == spec_base64_encode(bytes@),
{
    base64::engine::general_purpose::STANDARD.encode(bytes).into_bytes()
}

/// `Engine::decode` of the crate `base64` with its `STANDARD` engine: the bytes that `text`
/// stands for, or nothing if `text` is no padded standard base64.
#[verifier::external_body]
fn base64_decode(text: &[u8]) -> (r: Option<Vec<u8>>)
    ensures
        match r {
            Some(bytes) => spec_base64_decode(text@) == Some(bytes@),
            None => spec_base64_decode(text@) is None,
        },
{
    base64::engine::general_purpose::STANDARD.decode(text).ok()
}

/// The MD5 digest of `msg`.
pub uninterp spec fn spec_md5(msg: Seq<u8>) -> Seq<u8>;

/// `Md5::digest` of the crate `md-5`: the digest of `msg`, which has 16 bytes.
#[verifier::external_body]
fn md5(msg: &[u8]) -> (r: [u8; 16])
    ensures
        r@ == spec_md5(msg@),
{
    md5::Md5::digest(msg).into()
}

/// The character that spells the number `n`, which is less than sixteen, in base sixteen.
pub open spec fn hex_digit(n: int) -> u8 {
    if n < 10 {
        (0x30 + n) as u8
    } else {
        (0x61 + n - 10) as u8
    }
}

/// `bytes` spelled in base sixteen with small letters, two characters for each byte.
pub open spec fn spec_hex(bytes: Seq<u8>) -> Seq<u8> {
    Seq::new(
        2 * bytes.len(),
        |i: int|
            if i % 2 == 0 {
                hex_digit(bytes[i / 2] as int / 16)
            } else {
                hex_digit(bytes[i / 2] as int % 16)
            },
    )
}

/// Appends `bytes` spelled in base sixteen to `out`.
pub fn append_hex(out: &mut Vec<u8>, bytes: &[u8])
    ensures
        final(out)@ == old(out)@ + spec_hex(bytes@),
{
    let mut i: usize = 0;
    while i < bytes.len()
        invariant
            i <= bytes@.len(),
            out@ == old(out)@ + spec_hex(bytes@).take(2 * i),
        decreases bytes@.len() - i,
    {
        let high: u8 = bytes[i] / 16;
        let low: u8 = bytes[i] % 16;
        out.push(if high < 10 {
            0x30 + high
        } else {
            0x61 + high - 10
        });
        out.push(if low < 10 {
            0x30 + low
        } else {
            0x61 + low - 10
        });
        assert(out@ =~= old(out)@ + spec_hex(bytes@).take(2 * (i + 1)));
        i += 1;
    }
    assert(spec_hex(bytes@).take(2 * bytes@.len() as int) =~= spec_hex(bytes@));
}

/// What a client answers to a request for a salted MD5 digest: the text `md5` and, in base
/// sixteen, the digest of the salt behind the digest, in base sixteen, of the user behind the
/// password.
pub open spec fn spec_md5_password(user: Seq<u8>, password: Seq<u8>, salt: Seq<u8>) -> Seq<u8> {
    "md5".spec_bytes() + spec_hex(spec_md5(spec_hex(spec_md5(password + user)) + salt))
}

/// The number of bytes that the answer to a request for a salted MD5 digest takes.
pub const MD5_PASSWORD_LEN: usize = 35;

/// Computes what a client answers to a request for a salted MD5 digest.
pub fn md5_password(user: &[u8], password: &[u8], salt: &[u8; 4]) -> (r: Vec<u8>)
    ensures
        r@ == spec_md5_password(user@, password@, salt@),
        r@.len() == MD5_PASSWORD_LEN,
{
    let mut inner: Vec<u8> = Vec::new();
    append_bytes(&mut inner, password);
    append_bytes(&mut inner, user);
    let mut outer: Vec<u8> = Vec::new();
    append_hex(&mut outer, md5(inner.as_slice()).as_slice());
    append_bytes(&mut outer, salt.as_slice());
    let mut r: Vec<u8> = Vec::new();
    append_bytes(&mut r, "md5".as_bytes());
    let digest: [u8; 16] = md5(outer.as_slice());
    append_hex(&mut r, digest.as_slice());
    proof {
        reveal_strlit("md5");
        vstd::string::is_ascii_spec_bytes("md5");
        assert("md5".spec_bytes().len() == 3);
        assert(spec_hex(digest@).len() == 32);
    }
    r
}

/// Each byte of `a` combined with the byte of `b` at its position.
pub open spec fn xor(a: Seq<u8>, b: Seq<u8>) -> Seq<u8> {
    Seq::new(a.len(), |i: int| a[i] ^ b[i])
}

/// Combines each byte of `a` with the byte of `b` at its position.
pub fn xor_digests(a: &[u8; 32], b: &[u8; 32]) -> (r: [u8; 32])
    ensures
        r@ == xor(a@, b@),
{
    let mut r: [u8; 32] = *a;
    let mut i: usize = 0;
    while i < DIGEST_LEN
        invariant
            i <= DIGEST_LEN,
            forall|j: int| 0 <= j < i ==> r@[j] == a@[j] ^ b@[j],
            forall|j: int| i <= j < DIGEST_LEN ==> r@[j] == a@[j],
        decreases DIGEST_LEN - i,
    {
        r[i] = a[i] ^ b[i];
        i += 1;
    }
    assert(r@ =~= xor(a@, b@));
    r
}

/// The number one in four bytes, which closes the salt of the first round.
pub open spec fn block_index() -> Seq<u8> {
    seq![0u8, 0u8, 0u8, 1u8]
}

/// The digest of the round `k` of the hashing of `password` with `salt`: the first round
/// digests the salt and the number one, every other round the digest of the round before it.
pub open spec fn hi_block(password: Seq<u8>, salt: Seq<u8>, k: nat) -> Seq<u8>
    decreases k,
{
    if k <= 1 {
        spec_hmac_sha256(password, salt + block_index())
    } else {
        spec_hmac_sha256(password, hi_block(password, salt, (k - 1) as nat))
    }
}

/// `password` hashed with `salt` in `k` rounds: the digests of all rounds combined.
pub open spec fn hi(password: Seq<u8>, salt: Seq<u8>, k: nat) -> Seq<u8>
    decreases k,
{
    if k <= 1 {
        hi_block(password, salt, 1)
    } else {
        xor(hi(password, salt, (k - 1) as nat), hi_block(password, salt, k))
    }
}

/// Hashes `password` with `salt` in `iterations` rounds.
pub fn salted_password(iterations: u32, salt: &[u8], password: &[u8]) -> (r: [u8; 32])
    requires
        iterations >= 1,
    ensures
        r@ == hi(password@, salt@, iterations as nat),
{
    let mut first: Vec<u8> = Vec::new();
    append_bytes(&mut first, salt);
    let index: [u8; 4] = [0, 0, 0, 1];
    assert(index@ =~= block_index());
    append_bytes(&mut first, index.as_slice());
    let mut block: [u8; 32] = hmac_sha256(password, first.as_slice());
    let mut salted: [u8; 32] = block;
    let mut k: u32 = 1;
    while k < iterations
        invariant
            1 <= k <= iterations,
            block@ == hi_block(password@, salt@, k as nat),
            salted@ == hi(password@, salt@, k as nat),
        decreases iterations - k,
    {
        block = hmac_sha256(password, block.as_slice());
        salted = xor_digests(&salted, &block);
        k += 1;
    }
    salted
}

/// The proof of the client for the exchange `auth_message`: the key of the client combined
/// with its signature of the exchange under the digest of that key.
pub open spec fn spec_client_proof(salted_password: Seq<u8>, auth_message: Seq<u8>) -> Seq<u8> {
    let client_key = spec_hmac_sha256(salted_password, "Client Key".spec_bytes());
    xor(client_key, spec_hmac_sha256(spec_sha256(client_key), auth_message))
}

/// The signature of the server for the exchange `auth_message`.
pub open spec fn spec_server_signature(salted_password: Seq<u8>, auth_message: Seq<u8>) -> Seq<u8> {
    spec_hmac_sha256(spec_hmac_sha256(salted_password, "Server Key".spec_bytes()), auth_message)
}

/// Computes the proof of the client for the exchange `auth_message`.
pub fn client_proof(salted_password: &[u8; 32], auth_message: &[u8]) -> (r: [u8; 32])
    ensures
        r@ == spec_client_proof(salted_password@, auth_message@),
{
    let client_key = hmac_sha256(salted_password.as_slice(), "Client Key".as_bytes());
    let stored_key = sha256(client_key.as_slice());
    let signature = hmac_sha256(stored_key.as_slice(), auth_message);
    xor_digests(&client_key, &signature)
}

/// Computes the signature that the server has to show for the exchange `auth_message`.
pub fn server_signature(salted_password: &[u8; 32], auth_message: &[u8]) -> (r: [u8; 32])
    ensures
        r@ == spec_server_signature(salted_password@, auth_message@),
{
    let server_key = hmac_sha256(salted_password.as_slice(), "Server Key".as_bytes());
    hmac_sha256(server_key.as_slice(), auth_message)
}

/// What the client says first, without the header: an empty user name, which the server takes
/// from the start-up message, and the nonce.
pub open spec fn spec_client_first_bare(nonce: Seq<u8>) -> Seq<u8> {
    "n=,r=".spec_bytes() + nonce
}

/// What the client says last, without its proof: the channel binding, which is the header
/// and the end point of the encrypted channel if there is one, and the nonce of both sides.
pub open spec fn spec_client_final_without_proof(
    header: Seq<u8>,
    end_point: Seq<u8>,
    nonce: Seq<u8>,
) -> Seq<u8> {
    "c=".spec_bytes() + spec_base64_encode(header + end_point) + ",r=".spec_bytes() + nonce
}

/// The exchange that both sides sign: what the client said first, what the server answered
/// and what the client says last, without the proof.
pub open spec fn spec_auth_message(
    client_nonce: Seq<u8>,
    server_first: Seq<u8>,
    client_final_without_proof: Seq<u8>,
) -> Seq<u8> {
    spec_client_first_bare(client_nonce) + ",".spec_bytes() + server_first + ",".spec_bytes()
        + client_final_without_proof
}

/// What the client says last: what it says without the proof, and the proof.
pub open spec fn spec_client_final(client_final_without_proof: Seq<u8>, proof: Seq<u8>) -> Seq<u8> {
    client_final_without_proof + ",p=".spec_bytes() + spec_base64_encode(proof)
}

/// What the client needs to know to answer a challenge.
#[derive(Debug, Clone, Copy)]
pub struct ScramClient<'data> {
    /// The header that tells how the channel is bound.
    pub header: &'data [u8],
    /// What identifies the end point of the encrypted channel; empty without one.
    pub end_point: &'data [u8],
    /// The nonce that the client sent.
    pub nonce: &'data [u8],
    /// The password.
    pub password: &'data [u8],
}

/// The challenge of a server.
#[derive(Debug, Clone, Copy)]
pub struct ScramChallenge<'data> {
    /// How often the password has to be hashed.
    pub iterations: u32,
    /// The challenge as it was sent.
    pub payload: &'data [u8],
    /// The nonce of the client followed by the nonce of the server.
    pub nonce: &'data [u8],
    /// The salt of the password, in base64.
    pub salt: &'data [u8],
}

/// If `s` begins with `prefix`.
pub open spec fn starts_with(s: Seq<u8>, prefix: Seq<u8>) -> bool {
    prefix.len() <= s.len() && s.subrange(0, prefix.len() as int) == prefix
}

/// If the client can answer the challenge: the server asks for enough rounds, its nonce
/// continues the nonce of the client, and the salt is base64.
pub open spec fn is_answerable(client_nonce: Seq<u8>, iterations: u32, nonce: Seq<u8>, salt: Seq<u8>) -> bool {
    &&& iterations >= MIN_ITERATIONS
    &&& starts_with(nonce, client_nonce)
    &&& spec_base64_decode(salt) is Some
}

/// The answer of a client to a challenge, and the signature that the server has to show in
/// return.
pub struct ScramAnswer {
    /// What the client says last.
    pub client_final: Vec<u8>,
    /// The signature that the server has to show.
    pub server_signature: [u8; 32],
}

impl<'data> ScramClient<'data> {
    /// The password hashed as the challenge asks.
    pub open spec fn spec_salted_password(self, challenge: ScramChallenge<'_>) -> Seq<u8> {
        hi(
            self.password@,
            spec_base64_decode(challenge.salt@)->Some_0,
            challenge.iterations as nat,
        )
    }

    /// The exchange that both sides sign.
    pub open spec fn spec_auth_message(self, challenge: ScramChallenge<'_>) -> Seq<u8> {
        self::spec_auth_message(
            self.nonce@,
            challenge.payload@,
            spec_client_final_without_proof(self.header@, self.end_point@, challenge.nonce@),
        )
    }

    /// What the client says last.
    pub open spec fn spec_answer(self, challenge: ScramChallenge<'_>) -> Seq<u8> {
        spec_client_final(
            spec_client_final_without_proof(self.header@, self.end_point@, challenge.nonce@),
            spec_client_proof(
                self.spec_salted_password(challenge),
                self.spec_auth_message(challenge),
            ),
        )
    }

    /// Answers the challenge of the server. A challenge that asks for too few rounds, whose
    /// nonce does not continue the nonce of the client or whose salt can not be read is not
    /// answered.
    pub fn answer(&self, challenge: &ScramChallenge<'_>) -> (r: Result<ScramAnswer, Error>)
        requires
            self.header@.len() + self.end_point@.len() <= MAX_TEXT_LEN,
        ensures
            match r {
                Ok(answer) => {
                    &&& is_answerable(
                        self.nonce@,
                        challenge.iterations,
                        challenge.nonce@,
                        challenge.salt@,
                    )
                    &&& answer.client_final@ == self.spec_answer(*challenge)
                    &&& answer.server_signature@ == spec_server_signature(
                        self.spec_salted_password(*challenge),
                        self.spec_auth_message(*challenge),
                    )
                },
                Err(e) => e == Error::SaslVerificationFailed && !is_answerable(
                    self.nonce@,
                    challenge.iterations,
                    challenge.nonce@,
                    challenge.salt@,
                ),
            },
    {
        if challenge.iterations < MIN_ITERATIONS {
            return Err(Error::SaslVerificationFailed);
        }
        if challenge.nonce.len() < self.nonce.len() || !bytes_eq(
            vstd::slice::slice_subrange(challenge.nonce, 0, self.nonce.len()),
            self.nonce,
        ) {
            return Err(Error::SaslVerificationFailed);
        }
        let salt: Vec<u8> = match base64_decode(challenge.salt) {
            Some(salt) => salt,
            None => {
                return Err(Error::SaslVerificationFailed);
            },
        };
        let salted = salted_password(challenge.iterations, salt.as_slice(), self.password);
        let mut binding: Vec<u8> = Vec::new();
        append_bytes(&mut binding, self.header);
        append_bytes(&mut binding, self.end_point);
        let mut without_proof: Vec<u8> = Vec::new();
        append_bytes(&mut without_proof, "c=".as_bytes());
        append_bytes(&mut without_proof, base64_encode(binding.as_slice()).as_slice());
        append_bytes(&mut without_proof, ",r=".as_bytes());
        append_bytes(&mut without_proof, challenge.nonce);
        let mut auth_message: Vec<u8> = Vec::new();
        append_bytes(&mut auth_message, "n=,r=".as_bytes());
        append_bytes(&mut auth_message, self.nonce);
        append_bytes(&mut auth_message, ",".as_bytes());
        append_bytes(&mut auth_message, challenge.payload);
        append_bytes(&mut auth_message, ",".as_bytes());
        append_bytes(&mut auth_message, without_proof.as_slice());
        let proof = client_proof(&salted, auth_message.as_slice());
        let server_signature = server_signature(&salted, auth_message.as_slice());
        let mut client_final: Vec<u8> = Vec::new();
        append_bytes(&mut client_final, without_proof.as_slice());
        append_bytes(&mut client_final, ",p=".as_bytes());
        append_bytes(&mut client_final, base64_encode(proof.as_slice()).as_slice());
        Ok(ScramAnswer { client_final, server_signature })
    }
}

/// If the verifier `verifier` of the server, which is base64, shows the signature `expected`.
pub open spec fn is_verified(expected: Seq<u8>, verifier: Seq<u8>) -> bool {
    spec_base64_decode(verifier) == Some(expected)
}

/// Checks that the server showed the signature that proves that it knows the password.
pub fn verify_server(expected: &[u8; 32], verifier: &[u8]) -> (r: Result<(), Error>)
    ensures
        r is Ok <==> is_verified(expected@, verifier@),
        r matches Err(e) ==> e == Error::SaslVerificationFailed,
{
    match base64_decode(verifier) {
        Some(shown) => {
            if bytes_eq(shown.as_slice(), expected.as_slice()) {
                Ok(())
            } else {
                Err(Error::SaslVerificationFailed)
            }
        },
        None => Err(Error::SaslVerificationFailed),
    }
}

/// If `b` may stand in a nonce: a printable character that is no comma.
pub open spec fn is_nonce_char(b: u8) -> bool {
    0x30 <= b < 0x70
}

/// The character that the byte `drawn` stands for in a nonce: one of the 64 characters from
/// `0` on.
pub open spec fn nonce_char(drawn: u8) -> u8 {
    (0x30 + drawn % 64) as u8
}

/// The nonce that the bytes `drawn` stand for: each byte gives the character at its place.
pub fn nonce_of(drawn: [u8; 24]) -> (r: [u8; 24])
    ensures
        forall|i: int| 0 <= i < NONCE_LEN ==> #[trigger] r@[i] == nonce_char(drawn@[i]),
        forall|i: int| 0 <= i < NONCE_LEN ==> is_nonce_char(#[trigger] r@[i]),
{
    let mut r: [u8; 24] = drawn;
    let mut i: usize = 0;
    while i < NONCE_LEN
        invariant
            i <= NONCE_LEN,
            forall|j: int| 0 <= j < i ==> #[trigger] r@[j] == nonce_char(drawn@[j]),
            forall|j: int| i <= j < NONCE_LEN ==> #[trigger] r@[j] == drawn@[j],
        decreases NONCE_LEN - i,
    {
        r[i] = 0x30 + r[i] % 64;
        i += 1;
    }
    r
}

/// Draws the nonce of the client from `rng`: 24 bytes are drawn and each of them gives a
/// character, as [`nonce_of`] tells.
pub fn nonce<RNG>(rng: &mut RNG) -> (r: [u8; 24]) where RNG: Rng
    ensures
        forall|i: int| 0 <= i < NONCE_LEN ==> is_nonce_char(#[trigger] r@[i]),
{
    let mut drawn: [u8; 24] = [0u8;24];
    rng.fill_slice(&mut drawn);
    nonce_of(drawn)
}

/// How the exchange is tied to the channel that it runs over.
#[derive(Debug, Clone, Copy, PartialEq, Eq, Structural)]
pub enum ChannelBinding {
    /// The channel is not encrypted.
    Unsupported,
    /// The channel is encrypted, but the server offers no binding.
    Unused,
    /// The exchange is bound to the end point of the encrypted channel.
    TlsServerEndPoint,
}

/// If one of the names in `s`, each of which is closed by a zero byte, is `name`, from the
/// name that starts at `start` on.
pub open spec fn has_name(s: Seq<u8>, name: Seq<u8>, start: int) -> bool
    decreases s.len() + 1 - start,
{
    if start < 0 || start >= s.len() {
        false
    } else {
        let end = crate::misc::bytes::piece_end(s, 0, start);
        if end < start || end > s.len() {
            false
        } else if s.subrange(start, end) == name {
            true
        } else {
            has_name(s, name, end + 1)
        }
    }
}

/// How the exchange is bound when the server offers `mechanisms` and the channel is encrypted
/// or not; nothing if the server does not offer SCRAM-SHA-256 at all.
pub open spec fn spec_choose_binding(mechanisms: Seq<u8>, is_encrypted: bool) -> Option<
    ChannelBinding,
> {
    if is_encrypted && has_name(mechanisms, "SCRAM-SHA-256-PLUS".spec_bytes(), 0) {
        Some(ChannelBinding::TlsServerEndPoint)
    } else if has_name(mechanisms, "SCRAM-SHA-256".spec_bytes(), 0) {
        Some(
            if is_encrypted {
                ChannelBinding::Unused
            } else {
                ChannelBinding::Unsupported
            },
        )
    } else {
        None
    }
}

/// If one of the names in `mechanisms` is `name`.
pub fn contains_name(mechanisms: &[u8], name: &[u8]) -> (r: bool)
    ensures
        r == has_name(mechanisms@, name@, 0),
{
    let n: usize = mechanisms.len();
    let mut start: usize = 0;
    while start < n
        invariant
            n == mechanisms@.len(),
            start <= n + 1,
            has_name(mechanisms@, name@, 0) == has_name(mechanisms@, name@, start as int),
        decreases n + 1 - start,
    {
        proof {
            reveal_with_fuel(has_name, 2);
        }
        let end: usize = crate::misc::bytes::find_piece_end(mechanisms, 0, start);
        if bytes_eq(vstd::slice::slice_subrange(mechanisms, start, end), name) {
            return true;
        }
        if end >= n {
            return false;
        }
        start = end + 1;
    }
    false
}

/// Picks how the exchange is bound to the channel.
pub fn choose_binding(mechanisms: &[u8], is_encrypted: bool) -> (r: Option<ChannelBinding>)
    ensures
        r == spec_choose_binding(mechanisms@, is_encrypted),
{
    if is_encrypted && contains_name(mechanisms, "SCRAM-SHA-256-PLUS".as_bytes()) {
        Some(ChannelBinding::TlsServerEndPoint)
    } else if contains_name(mechanisms, "SCRAM-SHA-256".as_bytes()) {
        if is_encrypted {
            Some(ChannelBinding::Unused)
        } else {
            Some(ChannelBinding::Unsupported)
        }
    } else {
        None
    }
}

/// The largest number of bytes that the name of a mechanism or the header of a binding takes.
pub const MAX_NAME_LEN: usize = 24;

/// The largest number of bytes of an end point that an exchange can be bound to.
pub const MAX_END_POINT_LEN: usize = 0xffff;

/// What the exchange is bound to when the channel is bound as `binding` tells and the end
/// point of the channel is `end_point`, if it has one: the end point if the exchange is
/// bound to one, and nothing else.
pub open spec fn spec_bound_end_point(binding: ChannelBinding, end_point: Option<&[u8]>) -> Seq<
    u8,
> {
    match end_point {
        Some(end_point) => if binding == ChannelBinding::TlsServerEndPoint {
            end_point@
        } else {
            Seq::empty()
        },
        None => Seq::empty(),
    }
}

/// Tells what the exchange is bound to. An end point that is too long to be told is refused
/// with [`Error::InvalidEndpointBinding`].
pub fn bound_end_point<'data>(binding: ChannelBinding, end_point: Option<&'data [u8]>) -> (r:
    Result<&'data [u8], Error>)
    ensures
        match r {
            Ok(bound) => bound@ == spec_bound_end_point(binding, end_point) && bound@.len()
                <= MAX_END_POINT_LEN,
            Err(e) => e == Error::InvalidEndpointBinding && spec_bound_end_point(
                binding,
                end_point,
            ).len() > MAX_END_POINT_LEN,
        },
{
    let bound: &'data [u8] = match (binding, end_point) {
        (ChannelBinding::TlsServerEndPoint, Some(end_point)) => end_point,
        _ => &[],
    };
    if bound.len() > MAX_END_POINT_LEN {
        return Err(Error::InvalidEndpointBinding);
    }
    Ok(bound)
}

impl ChannelBinding {
    /// The name of the mechanism that goes with the binding.
    pub fn mechanism(self) -> (r: &'static [u8])
        ensures
            r@ == if self == ChannelBinding::TlsServerEndPoint {
                "SCRAM-SHA-256-PLUS".spec_bytes()
            } else {
                "SCRAM-SHA-256".spec_bytes()
            },
            r@.len() <= MAX_NAME_LEN,
    {
        proof {
            reveal_strlit("SCRAM-SHA-256-PLUS");
            reveal_strlit("SCRAM-SHA-256");
            vstd::string::is_ascii_spec_bytes("SCRAM-SHA-256-PLUS");
            vstd::string::is_ascii_spec_bytes("SCRAM-SHA-256");
        }
        match self {
            ChannelBinding::TlsServerEndPoint => "SCRAM-SHA-256-PLUS".as_bytes(),
            _ => "SCRAM-SHA-256".as_bytes(),
        }
    }

    /// The header that tells the server of the binding.
    pub fn header(self) -> (r: &'static [u8])
        ensures
            r@ == match self {
                ChannelBinding::Unsupported => "n,,".spec_bytes(),
                ChannelBinding::Unused => "y,,".spec_bytes(),
                ChannelBinding::TlsServerEndPoint => "p=tls-server-end-point,,".spec_bytes(),
            },
            r@.len() <= MAX_NAME_LEN,
    {
        proof {
            reveal_strlit("n,,");
            reveal_strlit("y,,");
            reveal_strlit("p=tls-server-end-point,,");
            vstd::string::is_ascii_spec_bytes("n,,");
            vstd::string::is_ascii_spec_bytes("y,,");
            vstd::string::is_ascii_spec_bytes("p=tls-server-end-point,,");
        }
        match self {
            ChannelBinding::Unsupported => "n,,".as_bytes(),
            ChannelBinding::Unused => "y,,".as_bytes(),
            ChannelBinding::TlsServerEndPoint => "p=tls-server-end-point,,".as_bytes(),
        }
    }
}

} // verus!
