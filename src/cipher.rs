//! Block ciphers that encrypt a module in place: AES-GCM (authenticated) and
//! AES-CTR (confidentiality only).
use vstd::prelude::*;
use crate::bytes::copy_bytes;
use crate::error::{Error, Result};

verus! {

/// Largest plaintext and AAD that AES-GCM accepts, in bytes.
pub const GCM_MAX_LEN: u64 = 0x10_0000_0000;

/// Length of the GCM authentication tag, in bytes.
pub const GCM_TAG_LEN: usize = 16;

/// Largest ciphertext of one module: its whole frame, length field and nonce
/// included, must fit in 32 bits.
pub const MAX_CIPHERTEXT_LEN: usize = 0xffff_ffef;

/// What AES-GCM returns for a key, a 12-byte nonce, an AAD and a message:
/// the ciphertext followed by the tag.
pub uninterp spec fn aes_gcm_seal(key: Seq<u8>, nonce: Seq<u8>, aad: Seq<u8>, m: Seq<u8>) -> Seq<u8>;

/// The AES keystream of CTR mode with a 32-bit big-endian counter, for a key,
/// an initial counter block and a length.
pub uninterp spec fn aes_ctr_keystream(key: Seq<u8>, iv: Seq<u8>, len: nat) -> Seq<u8>;

/// Byte-wise exclusive or of two sequences, as long as the first.
pub open spec fn xor_bytes(a: Seq<u8>, b: Seq<u8>) -> Seq<u8> {
    Seq::new(a.len(), |i: int| a[i] ^ b[i])
}

/// Whether a raw key has one of the AES key lengths.
pub open spec fn valid_key_len(n: nat) -> bool {
    n == 16 || n == 24 || n == 32
}

/// The initial counter block of CTR mode: the nonce, then a 32-bit counter 1.
pub open spec fn ctr_iv(nonce: Seq<u8>) -> Seq<u8> {
    nonce + seq![0u8, 0u8, 0u8, 1u8]
}

/// A cipher that encrypts and decrypts a buffer in place, with an explicit
/// nonce and AAD on each call.
pub trait BlockCipher {
    /// What encrypting message `m` under `nonce` and `aad` produces.
    spec fn encryption(&self, nonce: Seq<u8>, aad: Seq<u8>, m: Seq<u8>) -> Seq<u8>;

    /// How many bytes encryption adds to a message.
    spec fn overhead(&self) -> nat;

    /// Whether the cipher accepts a message of this length with an AAD of this length.
    open spec fn accepts(&self, msg_len: nat, aad_len: nat) -> bool {
        msg_len + self.overhead() <= MAX_CIPHERTEXT_LEN && aad_len <= GCM_MAX_LEN
    }

    /// Encrypts `buf` in place. Fails, leaving `buf` as it was, exactly when the
    /// ciphertext would not fit a frame or the AAD is longer than AES-GCM allows.
    fn encrypt_in_place(&self, buf: &mut Vec<u8>, nonce: [u8; 12], aad: &[u8]) -> (r: Result<()>)
        ensures
            r is Ok <==> self.accepts(old(buf)@.len(), aad@.len()),
            r is Ok ==> final(buf)@ == self.encryption(nonce@, aad@, old(buf)@),
            r is Ok ==> final(buf)@.len() == old(buf)@.len() + self.overhead(),
            r is Err ==> final(buf)@ == old(buf)@ && r == Err::<(), Error>(Error::ModuleTooLarge),
    ;

    /// Decrypts `buf` in place. The encryption of any accepted message `m`
    /// decrypts to `m`; whatever decrypts successfully encrypts back to the input.
    fn decrypt_in_place(&self, buf: &mut Vec<u8>, nonce: [u8; 12], aad: &[u8]) -> (r: Result<()>)
        ensures
            forall|m: Seq<u8>|
                self.accepts(m.len(), aad@.len()) && #[trigger] self.encryption(nonce@, aad@, m)
                    == old(buf)@ ==> r is Ok && final(buf)@ == m,
            r is Ok ==> self.encryption(nonce@, aad@, final(buf)@) == old(buf)@,
            r is Err ==> r == Err::<(), Error>(Error::AuthenticationFailed) || r == Err::<(), Error>(
                Error::ModuleTooLarge,
            ),
            r is Err ==> final(buf)@ == old(buf)@,
            old(buf)@.len() < self.overhead() ==> r is Err,
    ;
}

/// Relies on aes_gcm's `Aes128Gcm::encrypt_in_place`: under a 16-byte key it
/// appends the 16-byte tag to the ciphertext, and fails only on an over-long
/// message or AAD.
#[verifier::external_body]
fn gcm128_encrypt(key: &[u8], nonce: &[u8; 12], aad: &[u8], buf: &mut Vec<u8>) -> (ok: bool)
    requires
        key@.len() == 16,
    ensures
        old(buf)@.len() <= GCM_MAX_LEN && aad@.len() <= GCM_MAX_LEN ==> ok,
        ok ==> final(buf)@ == aes_gcm_seal(key@, nonce@, aad@, old(buf)@),
        ok ==> final(buf)@.len() == old(buf)@.len() + 16,
{
    let c = <aes_gcm::Aes128Gcm as aes_gcm::KeyInit>::new(aes_gcm::Key::<aes_gcm::Aes128Gcm>::from_slice(key));
    let n = aes_gcm::Nonce::<typenum::U12>::from_slice(nonce);
    aes_gcm::aead::AeadInPlace::encrypt_in_place(&c, n, aad, buf).is_ok()
}

/// Relies on aes_gcm's `AesGcm<Aes192, U12>::encrypt_in_place`, as for 16-byte keys.
#[verifier::external_body]
fn gcm192_encrypt(key: &[u8], nonce: &[u8; 12], aad: &[u8], buf: &mut Vec<u8>) -> (ok: bool)
    requires
        key@.len() == 24,
    ensures
        old(buf)@.len() <= GCM_MAX_LEN && aad@.len() <= GCM_MAX_LEN ==> ok,
        ok ==> final(buf)@ == aes_gcm_seal(key@, nonce@, aad@, old(buf)@),
        ok ==> final(buf)@.len() == old(buf)@.len() + 16,
{
    let c = <aes_gcm::AesGcm<aes_gcm::aes::Aes192, typenum::U12> as aes_gcm::KeyInit>::new(
        aes_gcm::Key::<aes_gcm::AesGcm<aes_gcm::aes::Aes192, typenum::U12>>::from_slice(key),
    );
    let n = aes_gcm::Nonce::<typenum::U12>::from_slice(nonce);
    aes_gcm::aead::AeadInPlace::encrypt_in_place(&c, n, aad, buf).is_ok()
}

/// Relies on aes_gcm's `Aes256Gcm::encrypt_in_place`, as for 16-byte keys.
#[verifier::external_body]
fn gcm256_encrypt(key: &[u8], nonce: &[u8; 12], aad: &[u8], buf: &mut Vec<u8>) -> (ok: bool)
    requires
        key@.len() == 32,
    ensures
        old(buf)@.len() <= GCM_MAX_LEN && aad@.len() <= GCM_MAX_LEN ==> ok,
        ok ==> final(buf)@ == aes_gcm_seal(key@, nonce@, aad@, old(buf)@),
        ok ==> final(buf)@.len() == old(buf)@.len() + 16,
{
    let c = <aes_gcm::Aes256Gcm as aes_gcm::KeyInit>::new(aes_gcm::Key::<aes_gcm::Aes256Gcm>::from_slice(key));
    let n = aes_gcm::Nonce::<typenum::U12>::from_slice(nonce);
    aes_gcm::aead::AeadInPlace::encrypt_in_place(&c, n, aad, buf).is_ok()
}

/// Relies on aes_gcm's `Aes128Gcm::decrypt_in_place`: the sealing of a message
/// that AES-GCM accepts opens to that message, and an opening that succeeds
/// seals back to its input (the tag was checked). A buffer shorter than the
/// tag fails, and every failure returns before the buffer is touched.
#[verifier::external_body]
fn gcm128_decrypt(key: &[u8], nonce: &[u8; 12], aad: &[u8], buf: &mut Vec<u8>) -> (ok: bool)
    requires
        key@.len() == 16,
    ensures
        forall|m: Seq<u8>|
            m.len() <= GCM_MAX_LEN && aad@.len() <= GCM_MAX_LEN && #[trigger] aes_gcm_seal(key@, nonce@, aad@, m)
                == old(buf)@ ==> ok && final(buf)@ == m,
        ok ==> aes_gcm_seal(key@, nonce@, aad@, final(buf)@) == old(buf)@,
        !ok ==> final(buf)@ == old(buf)@,
        old(buf)@.len() < 16 ==> !ok,
{
    let c = <aes_gcm::Aes128Gcm as aes_gcm::KeyInit>::new(aes_gcm::Key::<aes_gcm::Aes128Gcm>::from_slice(key));
    let n = aes_gcm::Nonce::<typenum::U12>::from_slice(nonce);
    aes_gcm::aead::AeadInPlace::decrypt_in_place(&c, n, aad, buf).is_ok()
}

/// Relies on aes_gcm's `AesGcm<Aes192, U12>::decrypt_in_place`, as for 16-byte keys.
#[verifier::external_body]
fn gcm192_decrypt(key: &[u8], nonce: &[u8; 12], aad: &[u8], buf: &mut Vec<u8>) -> (ok: bool)
    requires
        key@.len() == 24,
    ensures
        forall|m: Seq<u8>|
            m.len() <= GCM_MAX_LEN && aad@.len() <= GCM_MAX_LEN && #[trigger] aes_gcm_seal(key@, nonce@, aad@, m)
                == old(buf)@ ==> ok && final(buf)@ == m,
        ok ==> aes_gcm_seal(key@, nonce@, aad@, final(buf)@) == old(buf)@,
        !ok ==> final(buf)@ == old(buf)@,
        old(buf)@.len() < 16 ==> !ok,
{
    let c = <aes_gcm::AesGcm<aes_gcm::aes::Aes192, typenum::U12> as aes_gcm::KeyInit>::new(
        aes_gcm::Key::<aes_gcm::AesGcm<aes_gcm::aes::Aes192, typenum::U12>>::from_slice(key),
    );
    let n = aes_gcm::Nonce::<typenum::U12>::from_slice(nonce);
    aes_gcm::aead::AeadInPlace::decrypt_in_place(&c, n, aad, buf).is_ok()
}

/// Relies on aes_gcm's `Aes256Gcm::decrypt_in_place`, as for 16-byte keys.
#[verifier::external_body]
fn gcm256_decrypt(key: &[u8], nonce: &[u8; 12], aad: &[u8], buf: &mut Vec<u8>) -> (ok: bool)
    requires
        key@.len() == 32,
    ensures
        forall|m: Seq<u8>|
            m.len() <= GCM_MAX_LEN && aad@.len() <= GCM_MAX_LEN && #[trigger] aes_gcm_seal(key@, nonce@, aad@, m)
                == old(buf)@ ==> ok && final(buf)@ == m,
        ok ==> aes_gcm_seal(key@, nonce@, aad@, final(buf)@) == old(buf)@,
        !ok ==> final(buf)@ == old(buf)@,
        old(buf)@.len() < 16 ==> !ok,
{
    let c = <aes_gcm::Aes256Gcm as aes_gcm::KeyInit>::new(aes_gcm::Key::<aes_gcm::Aes256Gcm>::from_slice(key));
    let n = aes_gcm::Nonce::<typenum::U12>::from_slice(nonce);
    aes_gcm::aead::AeadInPlace::decrypt_in_place(&c, n, aad, buf).is_ok()
}

/// Relies on ctr's `Ctr32BE<Aes128>::apply_keystream`: it XORs the keystream
/// into the buffer; a fresh cipher has room for `u32::MAX` blocks of 16 bytes,
/// far more than this buffer, so it does not panic.
#[verifier::external_body]
fn ctr128_apply(key: &[u8], iv: &[u8], buf: &mut Vec<u8>)
    requires
        key@.len() == 16,
        iv@ == ctr_iv(iv@.subrange(0, 12)),
        old(buf)@.len() <= MAX_CIPHERTEXT_LEN,
    ensures
        final(buf)@ == xor_bytes(old(buf)@, aes_ctr_keystream(key@, iv@, old(buf)@.len())),
{
    let mut c = <ctr::Ctr32BE<aes::Aes128> as crypto_common::KeyIvInit>::new(
        crypto_common::Key::<ctr::Ctr32BE<aes::Aes128>>::from_slice(key),
        crypto_common::Iv::<ctr::Ctr32BE<aes::Aes128>>::from_slice(iv),
    );
    aes::cipher::StreamCipher::apply_keystream(&mut c, buf.as_mut_slice());
}

/// Relies on ctr's `Ctr32BE<Aes192>::apply_keystream`, as for 16-byte keys.
#[verifier::external_body]
fn ctr192_apply(key: &[u8], iv: &[u8], buf: &mut Vec<u8>)
    requires
        key@.len() == 24,
        iv@ == ctr_iv(iv@.subrange(0, 12)),
        old(buf)@.len() <= MAX_CIPHERTEXT_LEN,
    ensures
        final(buf)@ == xor_bytes(old(buf)@, aes_ctr_keystream(key@, iv@, old(buf)@.len())),
{
    let mut c = <ctr::Ctr32BE<aes::Aes192> as crypto_common::KeyIvInit>::new(
        crypto_common::Key::<ctr::Ctr32BE<aes::Aes192>>::from_slice(key),
        crypto_common::Iv::<ctr::Ctr32BE<aes::Aes192>>::from_slice(iv),
    );
    aes::cipher::StreamCipher::apply_keystream(&mut c, buf.as_mut_slice());
}

/// Relies on ctr's `Ctr32BE<Aes256>::apply_keystream`, as for 16-byte keys.
#[verifier::external_body]
fn ctr256_apply(key: &[u8], iv: &[u8], buf: &mut Vec<u8>)
    requires
        key@.len() == 32,
        iv@ == ctr_iv(iv@.subrange(0, 12)),
        old(buf)@.len() <= MAX_CIPHERTEXT_LEN,
    ensures
        final(buf)@ == xor_bytes(old(buf)@, aes_ctr_keystream(key@, iv@, old(buf)@.len())),
{
    let mut c = <ctr::Ctr32BE<aes::Aes256> as crypto_common::KeyIvInit>::new(
        crypto_common::Key::<ctr::Ctr32BE<aes::Aes256>>::from_slice(key),
        crypto_common::Iv::<ctr::Ctr32BE<aes::Aes256>>::from_slice(iv),
    );
    aes::cipher::StreamCipher::apply_keystream(&mut c, buf.as_mut_slice());
}
/// AES-GCM with a 16-, 24- or 32-byte key.
pub struct AesGcmCipher {
    key: Vec<u8>,
}

impl AesGcmCipher {
    #[verifier::type_invariant]
    spec fn inv(&self) -> bool {
        valid_key_len(self.key@.len())
    }

    /// The raw key.
    pub closed spec fn key(&self) -> Seq<u8> {
        self.key@
    }
}

impl BlockCipher for AesGcmCipher {
    open spec fn encryption(&self, nonce: Seq<u8>, aad: Seq<u8>, m: Seq<u8>) -> Seq<u8> {
        aes_gcm_seal(self.key(), nonce, aad, m)
    }

    open spec fn overhead(&self) -> nat {
        16
    }

    fn encrypt_in_place(&self, buf: &mut Vec<u8>, nonce: [u8; 12], aad: &[u8]) -> (r: Result<()>) {
        if buf.len() > MAX_CIPHERTEXT_LEN - GCM_TAG_LEN || aad.len() as u64 > GCM_MAX_LEN {
            return Err(Error::ModuleTooLarge);
        }
        proof { use_type_invariant(self); }
        let k = self.key.as_slice();
        let ok = if k.len() == 16 {
            gcm128_encrypt(k, &nonce, aad, buf)
        } else if k.len() == 24 {
            gcm192_encrypt(k, &nonce, aad, buf)
        } else {
            gcm256_encrypt(k, &nonce, aad, buf)
        };
        assert(ok);
        Ok(())
    }

    fn decrypt_in_place(&self, buf: &mut Vec<u8>, nonce: [u8; 12], aad: &[u8]) -> (r: Result<()>) {
        proof { use_type_invariant(self); }
        let k = self.key.as_slice();
        let ok = if k.len() == 16 {
            gcm128_decrypt(k, &nonce, aad, buf)
        } else if k.len() == 24 {
            gcm192_decrypt(k, &nonce, aad, buf)
        } else {
            gcm256_decrypt(k, &nonce, aad, buf)
        };
        if ok {
            Ok(())
        } else {
            Err(Error::AuthenticationFailed)
        }
    }
}

/// Builds an AES-GCM cipher for a raw key.
pub struct AesGcmCipherFactory;

impl AesGcmCipherFactory {
    /// The cipher for `key`, or [`Error::KeySize`] when the key is not 16, 24 or 32 bytes long.
    pub fn new(key: &[u8]) -> (r: Result<AesGcmCipher>)
        ensures
            r is Ok <==> valid_key_len(key@.len()),
            r is Ok ==> r->Ok_0.key() == key@,
            r is Err ==> r == Err::<AesGcmCipher, Error>(Error::KeySize(key@.len() as usize)),
    {
        let n = key.len();
        if n == 16 || n == 24 || n == 32 {
            Ok(AesGcmCipher { key: copy_bytes(key) })
        } else {
            Err(Error::KeySize(n))
        }
    }
}

/// AES-CTR with a 16-, 24- or 32-byte key; it provides no integrity.
pub struct AesCtrCipher {
    key: Vec<u8>,
}

impl AesCtrCipher {
    #[verifier::type_invariant]
    spec fn inv(&self) -> bool {
        valid_key_len(self.key@.len())
    }

    /// The raw key.
    pub closed spec fn key(&self) -> Seq<u8> {
        self.key@
    }
}

/// The counter block for a nonce.
fn make_iv(nonce: &[u8; 12]) -> (r: Vec<u8>)
    ensures
        r@ == ctr_iv(nonce@),
{
    let mut v: Vec<u8> = Vec::with_capacity(16);
    let mut i: usize = 0;
    while i < 12
        invariant
            i <= 12,
            v@ == nonce@.subrange(0, i as int),
        decreases 12 - i,
    {
        v.push(nonce[i]);
        i = i + 1;
        assert(v@ =~= nonce@.subrange(0, i as int));
    }
    v.push(0);
    v.push(0);
    v.push(0);
    v.push(1);
    assert(v@ =~= ctr_iv(nonce@));
    v
}

proof fn lemma_xor_twice(a: Seq<u8>, k: Seq<u8>)
    ensures
        xor_bytes(xor_bytes(a, k), k) == a,
{
    assert forall|i: int| 0 <= i < a.len() implies #[trigger] xor_bytes(xor_bytes(a, k), k)[i] == a[i] by {
        let x = a[i];
        let y = k[i];
        assert((x ^ y) ^ y == x) by (bit_vector);
    }
    assert(xor_bytes(xor_bytes(a, k), k) =~= a);
}

impl AesCtrCipher {
    fn apply(&self, buf: &mut Vec<u8>, nonce: &[u8; 12])
        requires
            old(buf)@.len() <= MAX_CIPHERTEXT_LEN,
        ensures
            final(buf)@ == xor_bytes(old(buf)@, aes_ctr_keystream(self.key@, ctr_iv(nonce@), old(buf)@.len())),
    {
        proof { use_type_invariant(self); }
        let iv = make_iv(nonce);
        assert(iv@.subrange(0, 12) =~= nonce@);
        let k = self.key.as_slice();
        if k.len() == 16 {
            ctr128_apply(k, iv.as_slice(), buf);
        } else if k.len() == 24 {
            ctr192_apply(k, iv.as_slice(), buf);
        } else {
            ctr256_apply(k, iv.as_slice(), buf);
        }
    }
}

impl BlockCipher for AesCtrCipher {
    /// The message XORed with the keystream; the AAD plays no part.
    open spec fn encryption(&self, nonce: Seq<u8>, aad: Seq<u8>, m: Seq<u8>) -> Seq<u8> {
        xor_bytes(m, aes_ctr_keystream(self.key(), ctr_iv(nonce), m.len()))
    }

    open spec fn overhead(&self) -> nat {
        0
    }

    fn encrypt_in_place(&self, buf: &mut Vec<u8>, nonce: [u8; 12], aad: &[u8]) -> (r: Result<()>) {
        if buf.len() > MAX_CIPHERTEXT_LEN || aad.len() as u64 > GCM_MAX_LEN {
            return Err(Error::ModuleTooLarge);
        }
        self.apply(buf, &nonce);
        assert(buf@.len() == old(buf)@.len());
        Ok(())
    }

    /// The same transformation as encryption: CTR cannot detect tampering.
    fn decrypt_in_place(&self, buf: &mut Vec<u8>, nonce: [u8; 12], aad: &[u8]) -> (r: Result<()>) {
        if buf.len() > MAX_CIPHERTEXT_LEN || aad.len() as u64 > GCM_MAX_LEN {
            return Err(Error::ModuleTooLarge);
        }
        let ghost c = buf@;
        self.apply(buf, &nonce);
        proof {
            let ks = aes_ctr_keystream(self.key(), ctr_iv(nonce@), c.len());
            assert forall|m: Seq<u8>|
                self.accepts(m.len(), aad@.len()) && #[trigger] self.encryption(nonce@, aad@, m) == c
                implies buf@ == m by {
                assert(aes_ctr_keystream(self.key(), ctr_iv(nonce@), m.len()) == ks);
                lemma_xor_twice(m, ks);
            }
            lemma_xor_twice(c, ks);
        }
        Ok(())
    }
}

/// Builds an AES-CTR cipher for a raw key.
pub struct AesCtrCipherFactory;

impl AesCtrCipherFactory {
    /// The cipher for `key`, or [`Error::KeySize`] when the key is not 16, 24 or 32 bytes long.
    pub fn new(key: &[u8]) -> (r: Result<AesCtrCipher>)
        ensures
            r is Ok <==> valid_key_len(key@.len()),
            r is Ok ==> r->Ok_0.key() == key@,
            r is Err ==> r == Err::<AesCtrCipher, Error>(Error::KeySize(key@.len() as usize)),
    {
        let n = key.len();
        if n == 16 || n == 24 || n == 32 {
            Ok(AesCtrCipher { key: copy_bytes(key) })
        } else {
            Err(Error::KeySize(n))
        }
    }
}

/// Flips bit `bit` of byte `i`.
pub open spec fn flip_bit(s: Seq<u8>, i: int, bit: u8) -> Seq<u8> {
    s.update(i, s[i] ^ (1u8 << bit))
}

/// CTR has no integrity: flipping one bit of a CTR ciphertext gives the
/// ciphertext of the message with that same bit flipped, which decryption then
/// returns without error; it differs from the message that was encrypted.
pub proof fn lemma_ctr_bit_flip(c: AesCtrCipher, nonce: Seq<u8>, aad: Seq<u8>, m: Seq<u8>, i: int, bit: u8)
    requires
        0 <= i < m.len(),
        bit < 8,
    ensures
        flip_bit(c.encryption(nonce, aad, m), i, bit) == c.encryption(nonce, aad, flip_bit(m, i, bit)),
        flip_bit(m, i, bit) != m,
{
    let ks = aes_ctr_keystream(c.key(), ctr_iv(nonce), m.len());
    let x = m[i];
    let k = ks[i];
    assert((x ^ k) ^ (1u8 << bit) == (x ^ (1u8 << bit)) ^ k) by (bit_vector);
    assert(bit < 8 ==> x ^ (1u8 << bit) != x) by (bit_vector);
    assert(flip_bit(c.encryption(nonce, aad, m), i, bit) =~= c.encryption(nonce, aad, flip_bit(m, i, bit)));
    assert(flip_bit(m, i, bit)[i] != m[i]);
}

} // verus!
