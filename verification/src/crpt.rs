//! The encrypted registry container.
//!
//! On-disk layout, in order: `key_salt` (16 random bytes), `kdf_cost`
//! (4 bytes, big-endian `u32`), `nonce` (8 random bytes), `ciphertext`
//! (same length as the plaintext) and `tag` (16 bytes, over the ciphertext
//! alone).  A container is therefore always exactly 44 bytes longer than its
//! payload, and a buffer shorter than 44 bytes is rejected outright.
//!
//! The password is stretched into 64 bytes of key material; the first 32 key
//! the stream cipher, the last 32 key the one-time authenticator.  Decryption
//! first checks the tag and reports any mismatch as [`Error::WrongPassword`]:
//! a wrong password and a tampered ciphertext are indistinguishable here, by
//! design.  The tag does not cover the salt, cost or nonce fields.

use vstd::prelude::*;
use vstd::slice::slice_subrange;
use crate::errors::Error;

verus! {

pub const KEY_SALT_LEN: usize = 16;
pub const COST_LEN: usize = 4;
pub const NONCE_LEN: usize = 8;
pub const TAG_LEN: usize = 16;
/// Bytes of overhead around the payload: salt, cost, nonce and tag together.
pub const OVERHEAD_LEN: usize = 44;
/// The key-derivation work factor written into freshly encrypted containers.
pub const DEFAULT_COST: u32 = 16;

// ---------------------------------------------------------------------------
// Big-endian encoding of the cost field
// ---------------------------------------------------------------------------

/// The `u32` stored big-endian in four bytes.
pub open spec fn be32(b: Seq<u8>) -> u32
    recommends
        b.len() == 4,
{
    (((b[0] as u32) << 24u32) | ((b[1] as u32) << 16u32) | ((b[2] as u32) << 8u32) | (
    b[3] as u32))
}

/// The four big-endian bytes of a `u32`.
pub open spec fn be32_bytes(v: u32) -> Seq<u8> {
    seq![
        ((v >> 24u32) & 0xff) as u8,
        ((v >> 16u32) & 0xff) as u8,
        ((v >> 8u32) & 0xff) as u8,
        (v & 0xff) as u8,
    ]
}

pub proof fn lemma_be32_roundtrip(v: u32)
    ensures
        be32(be32_bytes(v)) == v,
{
    let b0 = ((v >> 24u32) & 0xff) as u8;
    let b1 = ((v >> 16u32) & 0xff) as u8;
    let b2 = ((v >> 8u32) & 0xff) as u8;
    let b3 = (v & 0xff) as u8;
    assert((((b0 as u32) << 24u32) | ((b1 as u32) << 16u32) | ((b2 as u32) << 8u32) | (
    b3 as u32)) == v) by (bit_vector)
        requires
            b0 == ((v >> 24u32) & 0xff) as u8,
            b1 == ((v >> 16u32) & 0xff) as u8,
            b2 == ((v >> 8u32) & 0xff) as u8,
            b3 == (v & 0xff) as u8,
    ;
    assert(be32_bytes(v)[0] == b0);
    assert(be32_bytes(v)[1] == b1);
    assert(be32_bytes(v)[2] == b2);
    assert(be32_bytes(v)[3] == b3);
}

fn read_u32_be(b: &[u8]) -> (r: u32)
    requires
        b@.len() == 4,
    ensures
        r == be32(b@),
{
    ((b[0] as u32) << 24u32) | ((b[1] as u32) << 16u32) | ((b[2] as u32) << 8u32) | (b[3] as u32)
}

fn u32_to_be_bytes(v: u32) -> (r: Vec<u8>)
    ensures
        r@ == be32_bytes(v),
        r@.len() == 4,
{
    proof {
        assert((v >> 24u32) & 0xff < 256 && (v >> 16u32) & 0xff < 256 && (v >> 8u32) & 0xff < 256
            && v & 0xff < 256) by (bit_vector);
    }
    let mut r: Vec<u8> = Vec::new();
    r.push(((v >> 24u32) & 0xff) as u8);
    r.push(((v >> 16u32) & 0xff) as u8);
    r.push(((v >> 8u32) & 0xff) as u8);
    r.push((v & 0xff) as u8);
    proof {
        assert(r@ =~= be32_bytes(v));
    }
    r
}

// ---------------------------------------------------------------------------
// The cryptographic primitives, named and wrapped
// ---------------------------------------------------------------------------

/// The 64 bytes of key material that the password-hardening function derives
/// from a password, a salt and a work factor.  Deterministic in its
/// arguments; nothing further is assumed about its value.
pub uninterp spec fn derived_key(password: Seq<char>, salt: Seq<u8>, cost: u32) -> Seq<u8>;

/// The keystream that the stream cipher produces from a 32-byte key and an
/// 8-byte nonce, cut to the given length.  Deterministic in its arguments.
pub uninterp spec fn chacha_keystream(key: Seq<u8>, nonce: Seq<u8>, len: nat) -> Seq<u8>;

/// The 16-byte authenticator of `data` under a one-time 32-byte key.
/// Deterministic in its arguments.
pub uninterp spec fn poly1305_mac(key: Seq<u8>, data: Seq<u8>) -> Seq<u8>;

/// Bytewise XOR; the result follows the length of `a`.
pub open spec fn xor_bytes(a: Seq<u8>, b: Seq<u8>) -> Seq<u8> {
    Seq::new(a.len(), |i: int| a[i] ^ b[i])
}

proof fn lemma_xor_u8(x: u8, y: u8)
    by (bit_vector)
    ensures
        (x ^ y) ^ y == x,
{
}

/// Masking with the same sequence twice gives the input back.
pub proof fn lemma_xor_bytes_involution(a: Seq<u8>, b: Seq<u8>)
    ensures
        xor_bytes(xor_bytes(a, b), b) == a,
{
    assert forall|i: int| 0 <= i < a.len() implies xor_bytes(xor_bytes(a, b), b)[i] == a[i] by {
        lemma_xor_u8(a[i], b[i]);
    }
    assert(xor_bytes(xor_bytes(a, b), b) =~= a);
}

/// Relies on `crypto::bcrypt_pbkdf::bcrypt_pbkdf`: a deterministic, salted
/// password-hardening function.  It requires a non-empty password, a
/// non-empty salt and a positive round count.
#[verifier::external_body]
fn build_key(password: &str, salt: &[u8], rounds: u32) -> (r: Vec<u8>)
    requires
        password@.len() > 0,
        salt@.len() > 0,
        rounds > 0,
    ensures
        r@ == derived_key(password@, salt@, rounds),
        r@.len() == 64,
{
    let mut output: Vec<u8> = vec![0u8; 64];
    crypto::bcrypt_pbkdf::bcrypt_pbkdf(password.as_bytes(), salt, rounds, &mut output);
    output
}

/// Relies on `crypto::chacha20::ChaCha20::process`: it XORs the input with a
/// keystream determined by the key and nonce alone, so applying it twice with
/// the same key and nonce restores the input.
#[verifier::external_body]
fn chacha_apply(key: &[u8], nonce: &[u8], data: &[u8]) -> (r: Vec<u8>)
    requires
        key@.len() == 32,
        nonce@.len() == 8,
        data@.len() > 0,
    ensures
        r@ == xor_bytes(data@, chacha_keystream(key@, nonce@, data@.len())),
{
    let mut out: Vec<u8> = vec![0u8; data.len()];
    let mut cipher = crypto::chacha20::ChaCha20::new(key, nonce);
    crypto::symmetriccipher::SynchronousStreamCipher::process(&mut cipher, data, &mut out);
    out
}

/// Relies on `crypto::poly1305::Poly1305`: a deterministic one-time
/// authenticator producing a 16-byte tag.
#[verifier::external_body]
fn compute_tag(key: &[u8], data: &[u8]) -> (r: Vec<u8>)
    requires
        key@.len() == 32,
    ensures
        r@ == poly1305_mac(key@, data@),
        r@.len() == 16,
{
    let mut poly = crypto::poly1305::Poly1305::new(key);
    crypto::mac::Mac::input(&mut poly, data);
    let result = crypto::mac::Mac::result(&mut poly);
    result.code().to_vec()
}

/// Relies on `crypto::poly1305::Poly1305` and `MacResult::eq`: the comparison
/// is true exactly when the freshly computed tag equals `tag`, and it runs in
/// constant time with respect to the tag bytes.
#[verifier::external_body]
fn verify_tag(key: &[u8], data: &[u8], tag: &[u8]) -> (r: bool)
    requires
        key@.len() == 32,
    ensures
        r == (poly1305_mac(key@, data@) == tag@),
{
    let mut poly = crypto::poly1305::Poly1305::new(key);
    crypto::mac::Mac::input(&mut poly, data);
    let expected = crypto::mac::MacResult::new(tag);
    crypto::mac::Mac::result(&mut poly).eq(&expected)
}

/// Relies on `rand::rngs::OsRng`: `n` bytes from the operating system's
/// cryptographically secure source.  Nothing is assumed about their values.
#[verifier::external_body]
fn random_bytes(n: usize) -> (r: Vec<u8>)
    ensures
        r@.len() == n,
{
    let mut buf: Vec<u8> = vec![0u8; n];
    rand::RngCore::fill_bytes(&mut rand::rngs::OsRng, &mut buf);
    buf
}

// ---------------------------------------------------------------------------
// The container, as a predicate over byte buffers
// ---------------------------------------------------------------------------

/// The salt field of a container.
pub open spec fn salt_of(buf: Seq<u8>) -> Seq<u8>
    recommends
        buf.len() >= 44,
{
    buf.subrange(0, 16)
}

/// The work factor stored in a container.
pub open spec fn cost_of(buf: Seq<u8>) -> u32
    recommends
        buf.len() >= 44,
{
    be32(buf.subrange(16, 20))
}

/// The nonce field of a container.
pub open spec fn nonce_of(buf: Seq<u8>) -> Seq<u8>
    recommends
        buf.len() >= 44,
{
    buf.subrange(20, 28)
}

/// The ciphertext field of a container.
pub open spec fn body_of(buf: Seq<u8>) -> Seq<u8>
    recommends
        buf.len() >= 44,
{
    buf.subrange(28, buf.len() - 16)
}

/// The authentication tag field of a container.
pub open spec fn tag_of(buf: Seq<u8>) -> Seq<u8>
    recommends
        buf.len() >= 44,
{
    buf.subrange(buf.len() - 16, buf.len() as int)
}

/// `buf` is a well-formed container holding `plain` under `password`: its
/// ciphertext is the plaintext masked with the keystream drawn from its own
/// salt, cost and nonce, and its tag authenticates that ciphertext under the
/// same key material.
pub open spec fn encrypted_with(buf: Seq<u8>, plain: Seq<u8>, password: Seq<char>) -> bool {
    let key = derived_key(password, salt_of(buf), cost_of(buf));
    &&& buf.len() == plain.len() + 44
    &&& password.len() > 0
    &&& cost_of(buf) > 0
    &&& body_of(buf) == xor_bytes(plain, chacha_keystream(key.subrange(0, 32), nonce_of(buf), plain.len()))
    &&& tag_of(buf) == poly1305_mac(key.subrange(32, 64), body_of(buf))
}

/// What decryption returns, for every buffer and password: too-short buffers
/// are corrupt; a zero work factor can never have been written by encryption
/// and is treated like any other failed authentication; a tag mismatch is
/// `WrongPassword`; otherwise the unmasked ciphertext comes back.
pub open spec fn decrypt_spec(buf: Seq<u8>, password: Seq<char>) -> Result<Seq<u8>, Error> {
    if buf.len() < 44 {
        Err(Error::CorruptedFileContent)
    } else if cost_of(buf) == 0 {
        Err(Error::WrongPassword)
    } else {
        let key = derived_key(password, salt_of(buf), cost_of(buf));
        if poly1305_mac(key.subrange(32, 64), body_of(buf)) != tag_of(buf) {
            Err(Error::WrongPassword)
        } else {
            Ok(xor_bytes(body_of(buf), chacha_keystream(key.subrange(0, 32), nonce_of(buf), body_of(buf).len())))
        }
    }
}

/// A container for the empty payload is exactly the 44 bytes of overhead,
/// and decrypting it with its password yields the empty payload.
pub proof fn lemma_empty_container(buf: Seq<u8>, password: Seq<char>)
    requires
        encrypted_with(buf, Seq::<u8>::empty(), password),
    ensures
        buf.len() == 44,
        decrypt_spec(buf, password) == Ok::<Seq<u8>, Error>(Seq::<u8>::empty()),
{
    lemma_encrypt_decrypt(buf, Seq::<u8>::empty(), password);
}

/// Any buffer too short to hold even an empty payload is rejected as
/// corrupt, whatever the password.
pub proof fn lemma_truncated_rejected(buf: Seq<u8>, password: Seq<char>)
    requires
        buf.len() < 44,
    ensures
        decrypt_spec(buf, password) == Err::<Seq<u8>, Error>(Error::CorruptedFileContent),
{
}

/// Decrypting any well-formed container with the password that produced it
/// yields the original plaintext.
pub proof fn lemma_encrypt_decrypt(buf: Seq<u8>, plain: Seq<u8>, password: Seq<char>)
    requires
        encrypted_with(buf, plain, password),
    ensures
        decrypt_spec(buf, password) == Ok::<Seq<u8>, Error>(plain),
{
    let key = derived_key(password, salt_of(buf), cost_of(buf));
    let ks = chacha_keystream(key.subrange(0, 32), nonce_of(buf), plain.len());
    assert(body_of(buf).len() == plain.len());
    lemma_xor_bytes_involution(plain, ks);
}

// ---------------------------------------------------------------------------
// The container codec
// ---------------------------------------------------------------------------

/// Field sizes and payload length of one container; the offsets of every
/// field follow from it.
pub struct RegistryFile {
    pub decrypted_len: usize,
    pub key_salt_len: usize,
    pub chacha_nonce_len: usize,
    pub tag_len: usize,
    pub bcrypt_pbkdf_cost: u32,
}

impl RegistryFile {
    /// The field lengths are the format's, and the whole container fits in a
    /// `usize`.
    pub open spec fn wf(&self) -> bool {
        &&& self.key_salt_len == 16
        &&& self.chacha_nonce_len == 8
        &&& self.tag_len == 16
        &&& self.bcrypt_pbkdf_cost > 0
        &&& self.decrypted_len + 44 <= usize::MAX
    }

    /// A codec for a payload of `len` bytes, with the current default cost.
    pub fn new_with_decrypted_length(len: usize) -> (r: Self)
        requires
            len + 44 <= usize::MAX,
        ensures
            r.wf(),
            r.decrypted_len == len,
            r.bcrypt_pbkdf_cost == DEFAULT_COST,
    {
        RegistryFile {
            decrypted_len: len,
            key_salt_len: 16,
            chacha_nonce_len: 8,
            tag_len: 16,
            bcrypt_pbkdf_cost: DEFAULT_COST,
        }
    }

    /// A codec for a container of `len` bytes; anything shorter than the
    /// fixed overhead cannot hold even an empty payload.
    pub fn new_with_encrypted_length(len: usize) -> (r: Result<Self, Error>)
        ensures
            len < 44 ==> (r matches Err(e) && e == Error::CorruptedFileContent),
            len >= 44 ==> (r matches Ok(f) && f.wf() && f.decrypted_len == len - 44
                && f.bcrypt_pbkdf_cost == DEFAULT_COST),
    {
        if len < OVERHEAD_LEN {
            return Err(Error::CorruptedFileContent);
        }
        Ok(RegistryFile {
            decrypted_len: len - OVERHEAD_LEN,
            key_salt_len: 16,
            chacha_nonce_len: 8,
            tag_len: 16,
            bcrypt_pbkdf_cost: DEFAULT_COST,
        })
    }

    /// The byte range of the salt field.
    pub fn key_salt(&self) -> (r: (usize, usize))
        requires
            self.wf(),
        ensures
            r == (0usize, 16usize),
    {
        (0, self.key_salt_len)
    }

    /// The byte range of the cost field.
    pub fn bcrypt_pbkdf(&self) -> (r: (usize, usize))
        requires
            self.wf(),
        ensures
            r == (16usize, 20usize),
    {
        (self.key_salt_len, self.key_salt_len + COST_LEN)
    }

    /// The byte range of the nonce field.
    pub fn chacha_nonce(&self) -> (r: (usize, usize))
        requires
            self.wf(),
        ensures
            r == (20usize, 28usize),
    {
        let start = self.key_salt_len + COST_LEN;
        (start, start + self.chacha_nonce_len)
    }

    /// The byte range of the ciphertext field.
    pub fn body(&self) -> (r: (usize, usize))
        requires
            self.wf(),
        ensures
            r.0 == 28usize && r.1 == 28 + self.decrypted_len,
    {
        let start = self.key_salt_len + COST_LEN + self.chacha_nonce_len;
        (start, start + self.decrypted_len)
    }

    /// The byte range of the tag field.
    pub fn tag(&self) -> (r: (usize, usize))
        requires
            self.wf(),
        ensures
            r.0 == 28 + self.decrypted_len && r.1 == 44 + self.decrypted_len,
    {
        let start = self.key_salt_len + COST_LEN + self.chacha_nonce_len + self.decrypted_len;
        (start, start + self.tag_len)
    }

    /// The length of the whole container.
    pub fn encrypted_len(&self) -> (r: usize)
        requires
            self.wf(),
        ensures
            r == self.decrypted_len + 44,
    {
        self.tag().1
    }

    /// The ciphertext for `input` under `key` and `nonce`; the empty payload
    /// never reaches the cipher.
    fn encrypt_body(&self, key: &[u8], nonce: &[u8], input: &[u8]) -> (r: Vec<u8>)
        requires
            self.wf(),
            key@.len() == 64,
            nonce@.len() == 8,
            input@.len() == self.decrypted_len,
        ensures
            r@ == xor_bytes(input@, chacha_keystream(key@.subrange(0, 32), nonce@, input@.len())),
    {
        if input.len() > 0 {
            chacha_apply(slice_subrange(key, 0, 32), nonce, input)
        } else {
            let r: Vec<u8> = Vec::new();
            proof {
                assert(r@ =~= xor_bytes(input@, chacha_keystream(key@.subrange(0, 32), nonce@, input@.len())));
            }
            r
        }
    }

    /// Encrypts `body` under `password` into a fresh container with a fresh
    /// random salt and nonce.
    pub fn encrypt(&self, body: &[u8], password: &str) -> (r: Vec<u8>)
        requires
            self.wf(),
            body@.len() == self.decrypted_len,
            password@.len() > 0,
        ensures
            r@.len() == body@.len() + 44,
            encrypted_with(r@, body@, password@),
            cost_of(r@) == self.bcrypt_pbkdf_cost,
    {
        let mut content = random_bytes(KEY_SALT_LEN);
        let ghost salt_s = content@;
        let key = build_key(password, content.as_slice(), self.bcrypt_pbkdf_cost);
        let nonce = random_bytes(NONCE_LEN);
        let ghost nonce_s = nonce@;
        let mut cipher = self.encrypt_body(key.as_slice(), nonce.as_slice(), body);
        let ghost cipher_s = cipher@;
        let mut tag = compute_tag(slice_subrange(key.as_slice(), 32, 64), cipher.as_slice());
        let ghost tag_s = tag@;

        let mut cost_bytes = u32_to_be_bytes(self.bcrypt_pbkdf_cost);
        content.append(&mut cost_bytes);
        let mut nonce_m = nonce;
        content.append(&mut nonce_m);
        content.append(&mut cipher);
        content.append(&mut tag);
        proof {
            let buf = content@;
            let n = body@.len() as int;
            assert(buf.len() == n + 44);
            assert(salt_of(buf) =~= salt_s);
            assert(buf.subrange(16, 20) =~= be32_bytes(self.bcrypt_pbkdf_cost));
            lemma_be32_roundtrip(self.bcrypt_pbkdf_cost);
            assert(nonce_of(buf) =~= nonce_s);
            assert(body_of(buf) =~= cipher_s);
            assert(tag_of(buf) =~= tag_s);
            assert(key@.subrange(32, 64) =~= key@.subrange(32, key@.len() as int));
        }
        content
    }

    /// The key material for an existing container, derived from the
    /// password and the container's own salt and cost fields.  A container
    /// claiming a zero work factor can never authenticate: the derivation
    /// refuses it, as any tag check after it would fail.
    fn extract_key(&self, encrypted: &[u8], password: &str) -> (r: Result<Vec<u8>, Error>)
        requires
            self.wf(),
            encrypted@.len() == self.decrypted_len + 44,
            password@.len() > 0,
        ensures
            r matches Err(e) ==> e == Error::WrongPassword && cost_of(encrypted@) == 0,
            r matches Ok(k) ==> cost_of(encrypted@) > 0 && k@.len() == 64 && k@ == derived_key(
                password@,
                salt_of(encrypted@),
                cost_of(encrypted@),
            ),
    {
        let key_salt = slice_subrange(encrypted, 0, KEY_SALT_LEN);
        let cost = read_u32_be(slice_subrange(encrypted, 16, 20));
        if cost == 0 {
            return Err(Error::WrongPassword);
        }
        Ok(build_key(password, key_salt, cost))
    }

    /// Checks the container's tag over its ciphertext field; a mismatch is
    /// indistinguishably a wrong password or tampered content.
    fn validate_mac(&self, key: &[u8], encrypted: &[u8]) -> (r: Result<(), Error>)
        requires
            self.wf(),
            key@.len() == 64,
            encrypted@.len() == self.decrypted_len + 44,
        ensures
            r is Ok <==> poly1305_mac(key@.subrange(32, 64), body_of(encrypted@)) == tag_of(
                encrypted@,
            ),
            r matches Err(e) ==> e == Error::WrongPassword,
    {
        let body_end = encrypted.len() - TAG_LEN;
        let body = slice_subrange(encrypted, 28, body_end);
        let tag = slice_subrange(encrypted, body_end, encrypted.len());
        let mac_key = slice_subrange(key, 32, 64);
        if !verify_tag(mac_key, body, tag) {
            return Err(Error::WrongPassword);
        }
        Ok(())
    }

    /// The unmasked ciphertext field; the empty payload never reaches the
    /// cipher.
    fn decrypt_body(&self, key: &[u8], encrypted: &[u8]) -> (r: Vec<u8>)
        requires
            self.wf(),
            key@.len() == 64,
            encrypted@.len() == self.decrypted_len + 44,
        ensures
            r@ == xor_bytes(
                body_of(encrypted@),
                chacha_keystream(key@.subrange(0, 32), nonce_of(encrypted@), body_of(encrypted@).len()),
            ),
    {
        if self.decrypted_len > 0 {
            let nonce = slice_subrange(encrypted, 20, 28);
            let body = slice_subrange(encrypted, 28, 28 + self.decrypted_len);
            proof {
                assert(body@ =~= body_of(encrypted@));
            }
            chacha_apply(slice_subrange(key, 0, 32), nonce, body)
        } else {
            let r: Vec<u8> = Vec::new();
            proof {
                assert(r@ =~= xor_bytes(
                    body_of(encrypted@),
                    chacha_keystream(key@.subrange(0, 32), nonce_of(encrypted@), body_of(encrypted@).len()),
                ));
            }
            r
        }
    }

    /// Decrypts a container whose length matches this codec, as
    /// [`decrypt_spec`] describes.
    pub fn decrypt(&self, encrypted: &Vec<u8>, password: &str) -> (r: Result<Vec<u8>, Error>)
        requires
            self.wf(),
            encrypted@.len() == self.decrypted_len + 44,
            password@.len() > 0,
        ensures
            r matches Ok(v) ==> decrypt_spec(encrypted@, password@) == Ok::<Seq<u8>, Error>(v@),
            r matches Err(e) ==> decrypt_spec(encrypted@, password@) == Err::<Seq<u8>, Error>(e),
    {
        let key = match self.extract_key(encrypted.as_slice(), password) {
            Ok(key) => key,
            Err(e) => {
                return Err(e);
            },
        };
        match self.validate_mac(key.as_slice(), encrypted.as_slice()) {
            Ok(()) => (),
            Err(e) => {
                return Err(e);
            },
        };
        Ok(self.decrypt_body(key.as_slice(), encrypted.as_slice()))
    }
}

/// Encrypts `body` under `password`: a container 44 bytes longer than the
/// payload, well formed in the sense of [`encrypted_with`].
pub fn encrypt(body: &[u8], password: &str) -> (r: Vec<u8>)
    requires
        body@.len() + 44 <= usize::MAX,
        password@.len() > 0,
    ensures
        r@.len() == body@.len() + 44,
        encrypted_with(r@, body@, password@),
        cost_of(r@) == DEFAULT_COST,
{
    let file = RegistryFile::new_with_decrypted_length(body.len());
    file.encrypt(body, password)
}

/// Decrypts any buffer, exactly as [`decrypt_spec`] describes: too-short
/// buffers are corrupt, authentication failures are `WrongPassword`, and a
/// well-formed container yields its plaintext.
pub fn decrypt(encrypted: &Vec<u8>, password: &str) -> (r: Result<Vec<u8>, Error>)
    requires
        password@.len() > 0,
    ensures
        r matches Ok(v) ==> decrypt_spec(encrypted@, password@) == Ok::<Seq<u8>, Error>(v@),
        r matches Err(e) ==> decrypt_spec(encrypted@, password@) == Err::<Seq<u8>, Error>(e),
{
    let file = match RegistryFile::new_with_encrypted_length(encrypted.len()) {
        Ok(file) => file,
        Err(e) => {
            return Err(e);
        },
    };
    file.decrypt(encrypted, password)
}

} // verus!
