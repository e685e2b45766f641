//! The file's head and tail: magic bytes, the footer in its two modes, and the
//! trailer `footer length (u32 LE) ‖ magic`.
use vstd::prelude::*;
use crate::bytes::{append_bytes, copy_range};
use crate::aad::footer_aad_bytes;
use crate::cipher::{aes_gcm_seal, BlockCipher};
use crate::encryptor::{signature_bytes, Encryptor, SIGNATURE_LEN};
use crate::error::{Error, Result};
use crate::module_cipher::{frame_bytes, le_u32, u32_of_le};

verus! {

/// Size of the trailer: footer length and magic.
pub const FOOTER_SIZE: u64 = 8;

/// The magic of a file whose footer is plaintext ("PAR1") or encrypted ("PARE").
pub open spec fn magic_bytes(encrypted_footer: bool) -> Seq<u8> {
    if encrypted_footer {
        seq![80u8, 65u8, 82u8, 69u8]
    } else {
        seq![80u8, 65u8, 82u8, 49u8]
    }
}

fn push_magic(writer: &mut Vec<u8>, encrypted_footer: bool)
    ensures
        final(writer)@ == old(writer)@ + magic_bytes(encrypted_footer),
{
    writer.push(80u8);
    writer.push(65u8);
    writer.push(82u8);
    writer.push(if encrypted_footer { 69u8 } else { 49u8 });
    assert(writer@ =~= old(writer)@ + magic_bytes(encrypted_footer));
}

/// Writes the head of a file with a plaintext footer; returns its length.
pub fn start_file(writer: &mut Vec<u8>) -> (r: u64)
    ensures
        final(writer)@ == old(writer)@ + magic_bytes(false),
        r == 4,
{
    push_magic(writer, false);
    4
}

/// Writes the head of a file whose footer is encrypted or not; returns its length.
pub fn start_file_with(writer: &mut Vec<u8>, encrypted_footer: bool) -> (r: u64)
    ensures
        final(writer)@ == old(writer)@ + magic_bytes(encrypted_footer),
        r == 4,
{
    push_magic(writer, encrypted_footer);
    4
}

/// Writes the trailer: the footer region's length and the magic.
pub fn write_trailer(writer: &mut Vec<u8>, footer_len: u32, encrypted_footer: bool)
    ensures
        final(writer)@ == old(writer)@ + le_u32(footer_len) + magic_bytes(encrypted_footer),
{
    writer.push(footer_len as u8);
    writer.push((footer_len >> 8u32) as u8);
    writer.push((footer_len >> 16u32) as u8);
    writer.push((footer_len >> 24u32) as u8);
    assert(writer@ =~= old(writer)@ + le_u32(footer_len));
    push_magic(writer, encrypted_footer);
}
/// The tail of a file with an encrypted footer: crypto metadata, the footer's
/// frame, and a "PARE" trailer over both.
pub open spec fn encrypted_tail(key: Seq<u8>, nonce: Seq<u8>, file_aad: Seq<u8>, crypto_metadata: Seq<u8>, footer: Seq<u8>) -> Seq<u8> {
    let frame = frame_bytes(nonce, aes_gcm_seal(key, nonce, footer_aad_bytes(file_aad), footer));
    crypto_metadata + frame + le_u32((crypto_metadata.len() + frame.len()) as u32) + magic_bytes(true)
}

/// The tail of a file with a signed plaintext footer: the footer, its
/// signature, and a "PAR1" trailer over both.
pub open spec fn signed_tail(key: Seq<u8>, nonce: Seq<u8>, file_aad: Seq<u8>, footer: Seq<u8>) -> Seq<u8> {
    footer + signature_bytes(key, nonce, file_aad, footer) + le_u32((footer.len() + SIGNATURE_LEN) as u32)
        + magic_bytes(false)
}

/// Writes the tail of a file: in encrypted-footer mode the plaintext crypto
/// metadata, the framed encrypted footer and a "PARE" trailer; in
/// plaintext-footer mode the footer, its 28-byte signature and a "PAR1"
/// trailer. Returns the tail's length. Fails, writing nothing, when the
/// footer is too large for a frame, or the footer region for the trailer.
pub fn end_file(enc: &mut Encryptor, crypto_metadata: &[u8], footer: &[u8], writer: &mut Vec<u8>) -> (r: Result<u64>)
    requires
        old(enc).well_formed(),
    ensures
        final(enc).well_formed(),
        final(enc).options() == old(enc).options(),
        r is Err ==> final(writer)@ == old(writer)@,
        old(enc).options().encrypted_footer ==> (r is Ok <==> old(enc).footer_backend().accepts(
            footer@.len(),
            footer_aad_bytes(old(enc).file_aad_bytes()).len(),
        ) && crypto_metadata@.len() + footer@.len() + 32 <= 0xffff_ffff),
        !old(enc).options().encrypted_footer ==> (r is Ok <==> old(enc).footer_backend().accepts(
            footer@.len(),
            footer_aad_bytes(old(enc).file_aad_bytes()).len(),
        ) && footer@.len() + SIGNATURE_LEN <= 0xffff_ffff),
        r matches Ok(n) ==> final(writer)@.subrange(0, old(writer)@.len() as int) == old(writer)@
            && final(writer)@.len() == old(writer)@.len() + n,
        r matches Ok(n) ==> n == if old(enc).options().encrypted_footer {
            crypto_metadata@.len() + footer@.len() + 32 + FOOTER_SIZE
        } else {
            footer@.len() + SIGNATURE_LEN + FOOTER_SIZE
        },
        r is Ok && old(enc).options().encrypted_footer ==> exists|nonce: Seq<u8>|
            nonce.len() == 12 && final(writer)@ == old(writer)@ + #[trigger] encrypted_tail(
                old(enc).options().footer_key@,
                nonce,
                old(enc).file_aad_bytes(),
                crypto_metadata@,
                footer@,
            ),
        r is Ok && !old(enc).options().encrypted_footer ==> exists|nonce: Seq<u8>|
            nonce.len() == 12 && final(writer)@ == old(writer)@ + #[trigger] signed_tail(
                old(enc).options().footer_key@,
                nonce,
                old(enc).file_aad_bytes(),
                footer@,
            ),
{
    if enc.encrypted_footer() {
        let mut buf: Vec<u8> = Vec::new();
        append_bytes(&mut buf, footer);
        let mut frame: Vec<u8> = Vec::new();
        let n = match enc.write_footer(&mut buf, &mut frame) {
            Ok(n) => n,
            Err(e) => return Err(e),
        };
        assert(frame@.subrange(0, 0) =~= Seq::<u8>::empty());
        assert(frame@.subrange(0, frame@.len() as int) =~= frame@);
        if crypto_metadata.len() > 0xffff_ffff || n > 0xffff_ffff - crypto_metadata.len() {
            return Err(Error::ModuleTooLarge);
        }
        let region_len = (crypto_metadata.len() + n) as u32;
        append_bytes(writer, crypto_metadata);
        append_bytes(writer, frame.as_slice());
        write_trailer(writer, region_len, true);
        proof {
            assert(writer@.subrange(0, old(writer)@.len() as int) =~= old(writer)@);
            let nonce = choose|nonce: Seq<u8>|
                nonce.len() == 12 && buf@ == aes_gcm_seal(
                    old(enc).options().footer_key@,
                    nonce,
                    footer_aad_bytes(old(enc).file_aad_bytes()),
                    footer@,
                ) && #[trigger] frame_bytes(nonce, buf@) == frame@.subrange(0, frame@.len() as int);
            assert(writer@ =~= old(writer)@ + encrypted_tail(
                old(enc).options().footer_key@,
                nonce,
                old(enc).file_aad_bytes(),
                crypto_metadata@,
                footer@,
            ));
        }
        Ok(region_len as u64 + FOOTER_SIZE)
    } else {
        let sig = match enc.sign(footer) {
            Ok(s) => s,
            Err(e) => return Err(e),
        };
        if footer.len() > 0xffff_ffff - SIGNATURE_LEN {
            return Err(Error::ModuleTooLarge);
        }
        let region_len = (footer.len() + SIGNATURE_LEN) as u32;
        append_bytes(writer, footer);
        append_bytes(writer, sig.as_slice());
        write_trailer(writer, region_len, false);
        proof {
            assert(writer@.subrange(0, old(writer)@.len() as int) =~= old(writer)@);
            assert(writer@ =~= old(writer)@ + signed_tail(
                old(enc).options().footer_key@,
                sig@.subrange(0, 12),
                old(enc).file_aad_bytes(),
                footer@,
            ));
        }
        Ok(region_len as u64 + FOOTER_SIZE)
    }
}

/// The plaintext footer and its signature at the end of a file whose trailer
/// ends in "PAR1"; `None` when the bytes do not end in such a trailer and region.
pub open spec fn signed_footer_parts(file: Seq<u8>) -> Option<(Seq<u8>, Seq<u8>)> {
    if file.len() >= 8 && file.subrange(file.len() - 4, file.len() as int) == magic_bytes(false) {
        let region_len = u32_of_le(file.subrange(file.len() - 8, file.len() - 4)) as int;
        let end = file.len() - 8;
        if region_len >= SIGNATURE_LEN && region_len <= end {
            Some((file.subrange(end - region_len, end - SIGNATURE_LEN), file.subrange(end - SIGNATURE_LEN, end)))
        } else {
            None
        }
    } else {
        None
    }
}
/// The plaintext footer and the signature at the end of `file`. Fails with
/// [`Error::FormatViolation`] when the file does not end in a signed
/// plaintext footer.
pub fn split_signed_footer(file: &[u8]) -> (r: Result<(Vec<u8>, Vec<u8>)>)
    ensures
        signed_footer_parts(file@) is None <==> r is Err,
        r is Err ==> r == Err::<(Vec<u8>, Vec<u8>), Error>(Error::FormatViolation),
        r matches Ok((footer, sig)) ==> signed_footer_parts(file@) == Some((footer@, sig@)),
{
    let n = file.len();
    if n < 8 || file[n - 4] != 80u8 || file[n - 3] != 65u8 || file[n - 2] != 82u8 || file[n - 1] != 49u8 {
        proof {
            if n >= 8 && file@.subrange(n - 4, n as int) == magic_bytes(false) {
                assert(file@.subrange(n - 4, n as int)[0] == file@[n - 4]);
                assert(file@.subrange(n - 4, n as int)[1] == file@[n - 3]);
                assert(file@.subrange(n - 4, n as int)[2] == file@[n - 2]);
                assert(file@.subrange(n - 4, n as int)[3] == file@[n - 1]);
            }
        }
        return Err(Error::FormatViolation);
    }
    assert(file@.subrange(n - 4, n as int) =~= magic_bytes(false));
    let len_bytes = copy_range(file, n - 8, n - 4);
    let region_len = (len_bytes[0] as u32) | ((len_bytes[1] as u32) << 8u32) | ((len_bytes[2] as u32) << 16u32) | ((
    len_bytes[3] as u32) << 24u32);
    let end = n - 8;
    if (region_len as usize) < SIGNATURE_LEN || region_len as usize > end {
        return Err(Error::FormatViolation);
    }
    let footer = copy_range(file, end - region_len as usize, end - SIGNATURE_LEN);
    let sig = copy_range(file, end - SIGNATURE_LEN, end);
    Ok((footer, sig))
}

/// Checks the signature of a file's plaintext footer under the encryptor's
/// footer key. Fails with [`Error::FormatViolation`] when the file does not
/// end in a signed plaintext footer; otherwise tells whether the signature matches.
pub fn check_signed_footer(enc: &Encryptor, file: &[u8]) -> (r: Result<bool>)
    requires
        enc.well_formed(),
    ensures
        signed_footer_parts(file@) is None <==> r == Err::<bool, Error>(Error::FormatViolation),
        signed_footer_parts(file@) matches Some((footer, sig)) ==> r == Ok::<bool, Error>(
            enc.footer_backend().accepts(footer.len(), footer_aad_bytes(enc.file_aad_bytes()).len()) && sig
                == signature_bytes(enc.options().footer_key@, sig.subrange(0, 12), enc.file_aad_bytes(), footer),
        ),
{
    match split_signed_footer(file) {
        Ok((footer, sig)) => Ok(enc.verify_signature(footer.as_slice(), sig.as_slice())),
        Err(e) => Err(e),
    }
}

} // verus!
