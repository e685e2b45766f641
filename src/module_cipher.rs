//! A block cipher bound to one key, with a random nonce per module and the
//! on-wire frame `length (u32 LE) ‖ nonce (12 bytes) ‖ ciphertext`.
use vstd::prelude::*;
use crate::bytes::append_bytes;
use crate::cipher::{
    aes_ctr_keystream, aes_gcm_seal, ctr_iv, xor_bytes, AesCtrCipher, AesCtrCipherFactory, AesGcmCipher,
    AesGcmCipherFactory, BlockCipher, MAX_CIPHERTEXT_LEN, valid_key_len,
};
use crate::error::{Error, Result};

verus! {

#[verifier::external_type_specification]
#[verifier::external_body]
pub struct ExThreadRng(rand::rngs::ThreadRng);

/// Relies on rand's `thread_rng`: a handle to the thread-local CSPRNG.
#[verifier::external_body]
fn new_rng() -> rand::rngs::ThreadRng {
    rand::thread_rng()
}

/// Relies on rand's `RngCore::fill_bytes`: twelve random bytes, of which nothing is promised.
#[verifier::external_body]
fn random_nonce(rng: &mut rand::rngs::ThreadRng) -> [u8; 12] {
    let mut n = [0u8; 12];
    rand::RngCore::fill_bytes(rng, &mut n);
    n
}

/// Bytes of frame overhead: the length field and the nonce.
pub const FRAME_OVERHEAD: usize = 16;

/// The four little-endian bytes of a 32-bit length.
pub open spec fn le_u32(x: u32) -> Seq<u8> {
    seq![x as u8, (x >> 8u32) as u8, (x >> 16u32) as u8, (x >> 24u32) as u8]
}

/// The 32-bit value of four little-endian bytes.
pub open spec fn u32_of_le(b: Seq<u8>) -> u32 {
    (b[0] as u32) | ((b[1] as u32) << 8u32) | ((b[2] as u32) << 16u32) | ((b[3] as u32) << 24u32)
}

/// The frame of one module: ciphertext length, nonce, ciphertext.
pub open spec fn frame_bytes(nonce: Seq<u8>, ct: Seq<u8>) -> Seq<u8> {
    le_u32(ct.len() as u32) + nonce + ct
}

/// The nonce and ciphertext of the frame at the start of `src`, if `src` holds a whole one.
pub open spec fn parse_frame(src: Seq<u8>) -> Option<(Seq<u8>, Seq<u8>)> {
    if src.len() >= 16 && src.len() - 16 >= u32_of_le(src) {
        let n = u32_of_le(src) as int;
        Some((src.subrange(4, 16), src.subrange(16, 16 + n)))
    } else {
        None
    }
}

/// Which block cipher a module cipher uses.
#[derive(Debug, Clone, Copy, PartialEq, Eq, Structural)]
pub enum ModuleCipherMode {
    GCM,
    CTR,
}

/// What the cipher of `mode` under `key` makes of message `m`.
pub open spec fn mode_encryption(mode: ModuleCipherMode, key: Seq<u8>, nonce: Seq<u8>, aad: Seq<u8>, m: Seq<u8>) -> Seq<u8> {
    match mode {
        ModuleCipherMode::GCM => aes_gcm_seal(key, nonce, aad, m),
        ModuleCipherMode::CTR => xor_bytes(m, aes_ctr_keystream(key, ctr_iv(nonce), m.len())),
    }
}

/// How many bytes the cipher of `mode` adds to a message.
pub open spec fn mode_overhead(mode: ModuleCipherMode) -> nat {
    match mode {
        ModuleCipherMode::GCM => 16,
        ModuleCipherMode::CTR => 0,
    }
}

/// The block cipher of one key.
pub enum CipherBackend {
    Gcm(AesGcmCipher),
    Ctr(AesCtrCipher),
}

impl CipherBackend {
    /// The mode of the backend.
    pub open spec fn mode(&self) -> ModuleCipherMode {
        match self {
            CipherBackend::Gcm(_) => ModuleCipherMode::GCM,
            CipherBackend::Ctr(_) => ModuleCipherMode::CTR,
        }
    }

    /// The raw key of the backend.
    pub open spec fn key(&self) -> Seq<u8> {
        match self {
            CipherBackend::Gcm(c) => c.key(),
            CipherBackend::Ctr(c) => c.key(),
        }
    }
}

impl BlockCipher for CipherBackend {
    open spec fn encryption(&self, nonce: Seq<u8>, aad: Seq<u8>, m: Seq<u8>) -> Seq<u8> {
        match self {
            CipherBackend::Gcm(c) => c.encryption(nonce, aad, m),
            CipherBackend::Ctr(c) => c.encryption(nonce, aad, m),
        }
    }

    open spec fn overhead(&self) -> nat {
        match self {
            CipherBackend::Gcm(c) => c.overhead(),
            CipherBackend::Ctr(c) => c.overhead(),
        }
    }

    fn encrypt_in_place(&self, buf: &mut Vec<u8>, nonce: [u8; 12], aad: &[u8]) -> (r: Result<()>) {
        match self {
            CipherBackend::Gcm(c) => c.encrypt_in_place(buf, nonce, aad),
            CipherBackend::Ctr(c) => c.encrypt_in_place(buf, nonce, aad),
        }
    }

    fn decrypt_in_place(&self, buf: &mut Vec<u8>, nonce: [u8; 12], aad: &[u8]) -> (r: Result<()>) {
        match self {
            CipherBackend::Gcm(c) => c.decrypt_in_place(buf, nonce, aad),
            CipherBackend::Ctr(c) => c.decrypt_in_place(buf, nonce, aad),
        }
    }
}

fn push_le_u32(v: &mut Vec<u8>, x: u32)
    ensures
        final(v)@ == old(v)@ + le_u32(x),
{
    v.push(x as u8);
    v.push((x >> 8u32) as u8);
    v.push((x >> 16u32) as u8);
    v.push((x >> 24u32) as u8);
    assert(v@ =~= old(v)@ + le_u32(x));
}
/// The length of the frame that follows a 4-byte length field, nonce included.
pub fn decode_frame_length(header: &[u8]) -> (r: Option<u64>)
    ensures
        r is Some <==> header@.len() >= 4,
        r is Some ==> r->0 == 12 + u32_of_le(header@),
{
    if header.len() < 4 {
        return None;
    }
    let n = (header[0] as u32) | ((header[1] as u32) << 8u32) | ((header[2] as u32) << 16u32) | ((
    header[3] as u32) << 24u32);
    Some(12 + n as u64)
}

/// A block cipher bound to one key, with the random generator that draws its nonces.
pub struct ModuleCipher {
    cipher: CipherBackend,
    rng: rand::rngs::ThreadRng,
}

impl ModuleCipher {
    /// The block cipher in use.
    pub closed spec fn backend(&self) -> CipherBackend {
        self.cipher
    }

    /// A module cipher of the given mode for `key`; [`Error::KeySize`] when the
    /// key is not 16, 24 or 32 bytes long.
    pub fn new(mode: ModuleCipherMode, key: &[u8]) -> (r: Result<Self>)
        ensures
            r is Ok <==> valid_key_len(key@.len()),
            r is Ok ==> r->Ok_0.backend().mode() == mode && r->Ok_0.backend().key() == key@,
            r is Err ==> r == Err::<ModuleCipher, Error>(Error::KeySize(key@.len() as usize)),
    {
        let cipher = match mode {
            ModuleCipherMode::CTR => match AesCtrCipherFactory::new(key) {
                Ok(c) => CipherBackend::Ctr(c),
                Err(e) => return Err(e),
            },
            ModuleCipherMode::GCM => match AesGcmCipherFactory::new(key) {
                Ok(c) => CipherBackend::Gcm(c),
                Err(e) => return Err(e),
            },
        };
        Ok(ModuleCipher { cipher, rng: new_rng() })
    }

    /// Encrypts `buf` in place under `nonce` and appends its frame to `writer`;
    /// returns the number of bytes appended. Fails with [`Error::ModuleTooLarge`],
    /// changing nothing, exactly when the cipher does not accept the input.
    pub fn write_frame(&self, buf: &mut Vec<u8>, nonce: [u8; 12], writer: &mut Vec<u8>, aad: &[u8]) -> (r: Result<usize>)
        ensures
            r is Ok <==> self.backend().accepts(old(buf)@.len(), aad@.len()),
            r is Ok ==> final(buf)@ == self.backend().encryption(nonce@, aad@, old(buf)@)
                && final(buf)@.len() == old(buf)@.len() + self.backend().overhead()
                && final(writer)@ == old(writer)@ + frame_bytes(nonce@, final(buf)@)
                && r->Ok_0 == FRAME_OVERHEAD + final(buf)@.len(),
            r is Err ==> r == Err::<usize, Error>(Error::ModuleTooLarge) && final(buf)@ == old(buf)@
                && final(writer)@ == old(writer)@,
    {
        match self.cipher.encrypt_in_place(buf, nonce, aad) {
            Ok(()) => {},
            Err(e) => return Err(e),
        }
        let len = buf.len() as u32;
        push_le_u32(writer, len);
        append_bytes(writer, nonce.as_slice());
        append_bytes(writer, buf.as_slice());
        assert(writer@ =~= old(writer)@ + frame_bytes(nonce@, buf@));
        Ok(FRAME_OVERHEAD + buf.len())
    }

    /// A fresh random nonce from the cipher's generator.
    pub fn draw_nonce(&mut self) -> (r: [u8; 12])
        ensures
            final(self).backend() == old(self).backend(),
    {
        random_nonce(&mut self.rng)
    }

    /// Encrypts `buf` in place under a fresh random nonce and appends its frame
    /// to `writer`, as [`ModuleCipher::write_frame`] does for that nonce.
    pub fn write_to(&mut self, buf: &mut Vec<u8>, writer: &mut Vec<u8>, aad: &[u8]) -> (r: Result<usize>)
        ensures
            final(self).backend() == old(self).backend(),
            r is Ok <==> old(self).backend().accepts(old(buf)@.len(), aad@.len()),
            r is Ok ==> exists|nonce: Seq<u8>|
                nonce.len() == 12 && final(buf)@ == old(self).backend().encryption(nonce, aad@, old(buf)@)
                    && #[trigger] frame_bytes(nonce, final(buf)@) == final(writer)@.subrange(
                    old(writer)@.len() as int,
                    final(writer)@.len() as int,
                ),
            r is Ok ==> final(writer)@.subrange(0, old(writer)@.len() as int) == old(writer)@
                && r->Ok_0 == FRAME_OVERHEAD + final(buf)@.len()
                && final(buf)@.len() == old(buf)@.len() + old(self).backend().overhead()
                && final(writer)@.len() == old(writer)@.len() + r->Ok_0,
            r is Err ==> r == Err::<usize, Error>(Error::ModuleTooLarge) && final(buf)@ == old(buf)@
                && final(writer)@ == old(writer)@,
    {
        let nonce = random_nonce(&mut self.rng);
        let r = self.write_frame(buf, nonce, writer, aad);
        if r.is_ok() {
            let ghost w = writer@;
            assert(w.subrange(old(writer)@.len() as int, w.len() as int) =~= frame_bytes(nonce@, buf@));
            assert(w.subrange(0, old(writer)@.len() as int) =~= old(writer)@);
        }
        r
    }

    /// Reads the frame at the start of `src` and decrypts it; returns the
    /// plaintext and the number of bytes the frame took. Fails with
    /// [`Error::FormatViolation`] when `src` does not hold a whole frame.
    pub fn read_from(&self, src: &[u8], aad: &[u8]) -> (r: Result<(Vec<u8>, usize)>)
        ensures
            parse_frame(src@) is None <==> r == Err::<(Vec<u8>, usize), Error>(Error::FormatViolation),
            parse_frame(src@) matches Some((nonce, ct)) ==> forall|m: Seq<u8>|
                self.backend().accepts(m.len(), aad@.len()) && #[trigger] self.backend().encryption(nonce, aad@, m)
                    == ct ==> r is Ok && r->Ok_0.0@ == m && r->Ok_0.1 == FRAME_OVERHEAD + ct.len(),
            r is Ok ==> (parse_frame(src@) matches Some((nonce, ct)) && self.backend().encryption(
                nonce,
                aad@,
                r->Ok_0.0@,
            ) == ct && r->Ok_0.1 == FRAME_OVERHEAD + ct.len()),
    {
        if src.len() < 16 {
            return Err(Error::FormatViolation);
        }
        let n = (src[0] as u32) | ((src[1] as u32) << 8u32) | ((src[2] as u32) << 16u32) | ((
        src[3] as u32) << 24u32);
        if src.len() - 16 < n as usize {
            return Err(Error::FormatViolation);
        }
        let mut nonce = [0u8; 12];
        let mut i: usize = 0;
        while i < 12
            invariant
                i <= 12,
                src@.len() >= 16,
                forall|j: int| 0 <= j < i ==> nonce@[j] == src@[4 + j],
            decreases 12 - i,
        {
            nonce[i] = src[4 + i];
            i = i + 1;
        }
        assert(nonce@ =~= src@.subrange(4, 16));
        let end: usize = 16 + n as usize;
        let mut buf: Vec<u8> = Vec::with_capacity(n as usize);
        let mut k: usize = 16;
        while k < end
            invariant
                16 <= k <= end,
                end <= src@.len(),
                buf@ == src@.subrange(16, k as int),
            decreases end - k,
        {
            buf.push(src[k]);
            k = k + 1;
            assert(buf@ =~= src@.subrange(16, k as int));
        }
        let ghost ct = buf@;
        match self.cipher.decrypt_in_place(&mut buf, nonce, aad) {
            Ok(()) => Ok((buf, end)),
            Err(e) => {
                Err(e)
            },
        }
    }
}

proof fn lemma_le_u32_round_trip(x: u32)
    ensures
        u32_of_le(le_u32(x)) == x,
{
    let b = le_u32(x);
    assert(b[0] == x as u8 && b[1] == (x >> 8u32) as u8 && b[2] == (x >> 16u32) as u8 && b[3] == (x >> 24u32) as u8);
    assert(((x as u8) as u32) | ((((x >> 8u32) as u8) as u32) << 8u32) | ((((x >> 16u32) as u8) as u32)
        << 16u32) | ((((x >> 24u32) as u8) as u32) << 24u32) == x) by (bit_vector);
}

/// A frame that `write_frame` or `write_to` produced, followed by any bytes,
/// is read back whole: `read_from` finds its nonce and ciphertext, so it
/// returns the plaintext that was written and consumes exactly 4 + 12 + the
/// ciphertext's length.
pub proof fn lemma_frame_round_trip(nonce: Seq<u8>, ct: Seq<u8>, rest: Seq<u8>)
    requires
        nonce.len() == 12,
        ct.len() <= MAX_CIPHERTEXT_LEN,
    ensures
        parse_frame(frame_bytes(nonce, ct) + rest) == Some((nonce, ct)),
        frame_bytes(nonce, ct).len() == FRAME_OVERHEAD + ct.len(),
{
    let s = frame_bytes(nonce, ct) + rest;
    lemma_le_u32_round_trip(ct.len() as u32);
    assert(s.subrange(0, 4) =~= le_u32(ct.len() as u32));
    assert(u32_of_le(s) == u32_of_le(s.subrange(0, 4)));
    assert(s.subrange(4, 16) =~= nonce);
    assert(s.subrange(16, 16 + ct.len() as int) =~= ct);
}

} // verus!
