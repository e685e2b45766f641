//! File-level encryption: options, the footer modes, and the cache of one
//! module cipher per column key.
use vstd::prelude::*;
use crate::aad::{footer_aad_bytes, ModuleType, AAD};
use crate::cipher::{
    aes_ctr_keystream, aes_gcm_seal, ctr_iv, valid_key_len, xor_bytes, BlockCipher, GCM_MAX_LEN, GCM_TAG_LEN,
    MAX_CIPHERTEXT_LEN,
};
use crate::error::{Error, Result};
use crate::module_cipher::{
    frame_bytes, mode_overhead, CipherBackend, ModuleCipher, ModuleCipherMode, FRAME_OVERHEAD,
};
use crate::bytes::{bytes_eq, concat, copy_bytes};

verus! {

/// The encryption algorithm of a file.
#[derive(Debug, Clone, Copy, PartialEq, Eq, Structural)]
pub enum ParquetCipherType {
    /// AES-GCM for every module.
    AesGcmV1,
    /// AES-GCM for metadata, AES-CTR for page payloads.
    AesGcmCtrV1,
}

/// How one column is encrypted.
pub struct ColumnEncryptOptions {
    pub encrypted: bool,
    pub encrypted_with_footer_key: bool,
    pub key: Vec<u8>,
    pub key_metadata: Option<Vec<u8>>,
}

/// How one column is decrypted.
pub struct ColumnDecryptOptions {
    pub encrypted: bool,
    pub encrypted_with_footer_key: bool,
    pub key: Vec<u8>,
    pub key_metadata: Option<Vec<u8>>,
}

/// The encryption properties of one column: its path, whether and with
/// which key it is encrypted, and the key metadata to persist (empty for none).
pub struct ColumnEncryptionProperties {
    pub encrypted: bool,
    pub encrypted_with_footer_key: bool,
    pub column_path: Vec<u8>,
    pub key_bytes: Vec<u8>,
    pub key_meta_bytes: Vec<u8>,
}

impl ColumnEncryptionProperties {
    /// The column's entry of [`FileEncryptOptions::columns`].
    pub fn into_options(self) -> (r: (Vec<u8>, ColumnEncryptOptions))
        ensures
            r.0@ == self.column_path@,
            r.1.encrypted == self.encrypted,
            r.1.encrypted_with_footer_key == self.encrypted_with_footer_key,
            r.1.key@ == self.key_bytes@,
            self.key_meta_bytes@.len() == 0 ==> r.1.key_metadata is None,
            self.key_meta_bytes@.len() > 0 ==> (r.1.key_metadata matches Some(m) && m@ == self.key_meta_bytes@),
    {
        let key_metadata = if self.key_meta_bytes.len() == 0 {
            None
        } else {
            Some(self.key_meta_bytes)
        };
        (
            self.column_path,
            ColumnEncryptOptions {
                encrypted: self.encrypted,
                encrypted_with_footer_key: self.encrypted_with_footer_key,
                key: self.key_bytes,
                key_metadata,
            },
        )
    }
}

/// The encryption configuration of a file; columns are keyed by their path.
pub struct FileEncryptOptions {
    pub algorithm: ParquetCipherType,
    pub encrypted_footer: bool,
    pub columns: Vec<(Vec<u8>, ColumnEncryptOptions)>,
    pub aad_prefix: Option<Vec<u8>>,
    pub store_aad_prefix_in_file: bool,
    pub footer_key: Vec<u8>,
    pub footer_key_metadata: Option<Vec<u8>>,
}

/// A column that supplies both a raw key and key metadata.
pub open spec fn column_key_conflict(c: ColumnEncryptOptions) -> bool {
    c.key@.len() > 0 && c.key_metadata is Some
}

/// The index of the first column configured under `path`.
pub open spec fn column_index(o: FileEncryptOptions, path: Seq<u8>) -> Option<int> {
    if exists|i: int| 0 <= i < o.columns@.len() && o.columns@[i].0@ == path && forall|k: int|
        0 <= k < i ==> (#[trigger] o.columns@[k]).0@ != path {
        Some(
            choose|i: int|
                0 <= i < o.columns@.len() && o.columns@[i].0@ == path && forall|k: int|
                    0 <= k < i ==> (#[trigger] o.columns@[k]).0@ != path,
        )
    } else {
        None
    }
}

/// The key of an encrypted column: the footer key, or its own.
pub open spec fn column_key(o: FileEncryptOptions, i: int) -> Seq<u8> {
    if o.columns@[i].1.encrypted_with_footer_key {
        o.footer_key@
    } else {
        o.columns@[i].1.key@
    }
}

/// The cipher mode of a module: CTR for page payloads under `AesGcmCtrV1`, else GCM.
pub open spec fn module_mode(alg: ParquetCipherType, t: ModuleType) -> ModuleCipherMode {
    if alg == ParquetCipherType::AesGcmCtrV1 && (t == ModuleType::DataPage || t == ModuleType::DictionaryPage) {
        ModuleCipherMode::CTR
    } else {
        ModuleCipherMode::GCM
    }
}

/// The algorithm record of a file, as persisted in its metadata.
pub struct EncryptionAlgorithm {
    pub cipher: ParquetCipherType,
    /// The AAD prefix, when it is stored in the file.
    pub aad_prefix: Option<Vec<u8>>,
    pub aad_file_unique: Vec<u8>,
    /// Whether readers must supply the AAD prefix themselves.
    pub supply_aad_prefix: bool,
}

/// The plaintext record that precedes an encrypted footer.
pub struct FileCryptoMetaData {
    pub encryption_algorithm: EncryptionAlgorithm,
    pub key_metadata: Option<Vec<u8>>,
}

/// Length of a plaintext footer's signature: nonce and GCM tag.
pub const SIGNATURE_LEN: usize = 28;

/// The signature of a plaintext footer under a nonce: the nonce, then the tag
/// of the footer's AES-GCM sealing under the footer AAD.
pub open spec fn signature_bytes(key: Seq<u8>, nonce: Seq<u8>, file_aad: Seq<u8>, footer: Seq<u8>) -> Seq<u8> {
    let sealed = aes_gcm_seal(key, nonce, footer_aad_bytes(file_aad), footer);
    nonce + sealed.subrange(footer.len() as int, footer.len() + 16int)
}

/// Relies on rand's `random`: eight random bytes, of which nothing is promised.
#[verifier::external_body]
fn random_file_unique() -> [u8; 8] {
    rand::random::<[u8; 8]>()
}

/// Length of the random unique part of a file's AAD.
pub const AAD_FILE_UNIQUE_LEN: usize = 8;

/// The index of the first column configured under `path`.
pub fn find_column(o: &FileEncryptOptions, path: &[u8]) -> (r: Option<usize>)
    ensures
        r matches Some(i) ==> column_index(*o, path@) == Some(i as int) && i < o.columns@.len(),
        r is None ==> column_index(*o, path@) is None,
{
    let mut i: usize = 0;
    while i < o.columns.len()
        invariant
            i <= o.columns@.len(),
            forall|k: int| 0 <= k < i ==> (#[trigger] o.columns@[k]).0@ != path@,
        decreases o.columns@.len() - i,
    {
        if bytes_eq(o.columns[i].0.as_slice(), path) {
            proof {
                let j = choose|j: int|
                    0 <= j < o.columns@.len() && o.columns@[j].0@ == path@ && forall|k: int|
                        0 <= k < j ==> (#[trigger] o.columns@[k]).0@ != path@;
                if j < i {
                    assert(o.columns@[j].0@ != path@);
                } else if j > i {
                    assert(o.columns@[i as int].0@ != path@);
                }
            }
            return Some(i);
        }
        i = i + 1;
    }
    proof {
        if exists|j: int|
            0 <= j < o.columns@.len() && o.columns@[j].0@ == path@ && forall|k: int|
                0 <= k < j ==> (#[trigger] o.columns@[k]).0@ != path@ {
            let j = choose|j: int|
                0 <= j < o.columns@.len() && o.columns@[j].0@ == path@ && forall|k: int|
                    0 <= k < j ==> (#[trigger] o.columns@[k]).0@ != path@;
            assert(o.columns@[j].0@ != path@);
        }
    }
    None
}

struct CachedCipher {
    path: Vec<u8>,
    mode: ModuleCipherMode,
    cipher: ModuleCipher,
}

fn copy_opt(o: &Option<Vec<u8>>) -> (r: Option<Vec<u8>>)
    ensures
        r matches Some(v) ==> o matches Some(w) && v@ == w@,
        r is None ==> o is None,
{
    match o {
        Some(v) => Some(copy_bytes(v.as_slice())),
        None => None,
    }
}

/// Encrypts the modules of one file; holds the footer cipher and caches one
/// module cipher per (column, mode) on first use.
pub struct Encryptor {
    options: FileEncryptOptions,
    aad_file_unique: Vec<u8>,
    file_aad: Vec<u8>,
    footer_cipher: ModuleCipher,
    column_ciphers: Vec<CachedCipher>,
}

impl Encryptor {
    /// The configuration.
    pub closed spec fn options(&self) -> FileEncryptOptions {
        self.options
    }

    /// The file AAD: the AAD prefix, if any, then the file's unique part.
    pub closed spec fn file_aad_bytes(&self) -> Seq<u8> {
        self.file_aad@
    }

    /// The unique part of the file AAD.
    pub closed spec fn aad_file_unique_bytes(&self) -> Seq<u8> {
        self.aad_file_unique@
    }

    /// The (column path, mode) pairs whose cipher has been built.
    pub closed spec fn cached(&self) -> Seq<(Seq<u8>, ModuleCipherMode)> {
        self.column_ciphers@.map_values(|c: CachedCipher| (c.path@, c.mode))
    }

    /// The footer cipher.
    pub closed spec fn footer_backend(&self) -> CipherBackend {
        self.footer_cipher.backend()
    }

    /// The invariant: the footer cipher is GCM under the footer key, and each
    /// cached cipher has its column's key and the mode it is filed under.
    pub closed spec fn well_formed(&self) -> bool {
        &&& self.footer_cipher.backend().mode() == ModuleCipherMode::GCM
        &&& self.footer_cipher.backend().key() == self.options.footer_key@
        &&& forall|i: int|
            0 <= i < self.column_ciphers@.len() ==> {
                let c = #[trigger] self.column_ciphers@[i];
                &&& column_index(self.options, c.path@) is Some
                &&& valid_key_len(c.cipher.backend().key().len())
                &&& c.cipher.backend().key() == column_key(self.options, column_index(self.options, c.path@)->0)
                &&& c.cipher.backend().mode() == c.mode
            }
    }

    /// An encryptor for `options`, whose file AAD is the AAD prefix, if any,
    /// followed by `aad_file_unique`. Fails with [`Error::KeySize`] for a bad
    /// footer key, and with [`Error::ColumnKeyConflict`] when a column gives
    /// both a raw key and key metadata.
    pub fn new(options: FileEncryptOptions, aad_file_unique: &[u8]) -> (r: Result<Encryptor>)
        ensures
            r is Ok <==> valid_key_len(options.footer_key@.len()) && forall|i: int|
                0 <= i < options.columns@.len() ==> !column_key_conflict(#[trigger] options.columns@[i].1),
            !valid_key_len(options.footer_key@.len()) ==> r == Err::<Encryptor, Error>(
                Error::KeySize(options.footer_key@.len() as usize),
            ),
            valid_key_len(options.footer_key@.len()) && r is Err ==> r == Err::<Encryptor, Error>(
                Error::ColumnKeyConflict,
            ),
            r matches Ok(e) ==> e.well_formed() && e.options() == options && e.cached().len() == 0
                && e.aad_file_unique_bytes() == aad_file_unique@
                && e.file_aad_bytes() == match options.aad_prefix {
                Some(p) => p@ + aad_file_unique@,
                None => aad_file_unique@,
            },
    {
        let footer_cipher = match ModuleCipher::new(ModuleCipherMode::GCM, options.footer_key.as_slice()) {
            Ok(c) => c,
            Err(e) => return Err(e),
        };
        let mut i: usize = 0;
        while i < options.columns.len()
            invariant
                i <= options.columns@.len(),
                valid_key_len(options.footer_key@.len()),
                footer_cipher.backend().key() == options.footer_key@,
                footer_cipher.backend().mode() == ModuleCipherMode::GCM,
                forall|k: int| 0 <= k < i ==> !column_key_conflict(#[trigger] options.columns@[k].1),
            decreases options.columns@.len() - i,
        {
            let c = &options.columns[i].1;
            if c.key.len() > 0 && c.key_metadata.is_some() {
                return Err(Error::ColumnKeyConflict);
            }
            i = i + 1;
        }
        let mut file_aad: Vec<u8> = match &options.aad_prefix {
            Some(p) => copy_bytes(p.as_slice()),
            None => Vec::new(),
        };
        let mut k: usize = 0;
        let ghost start = file_aad@;
        while k < aad_file_unique.len()
            invariant
                k <= aad_file_unique@.len(),
                file_aad@ == start + aad_file_unique@.subrange(0, k as int),
            decreases aad_file_unique@.len() - k,
        {
            file_aad.push(aad_file_unique[k]);
            k = k + 1;
            assert(file_aad@ =~= start + aad_file_unique@.subrange(0, k as int));
        }
        assert(aad_file_unique@.subrange(0, aad_file_unique@.len() as int) =~= aad_file_unique@);
        assert(start + aad_file_unique@ == match options.aad_prefix {
            Some(p) => p@ + aad_file_unique@,
            None => aad_file_unique@,
        }) by {
            if options.aad_prefix is None {
                assert(start =~= Seq::<u8>::empty());
                assert(start + aad_file_unique@ =~= aad_file_unique@);
            }
        }
        let e = Encryptor {
            options,
            aad_file_unique: copy_bytes(aad_file_unique),
            file_aad,
            footer_cipher,
            column_ciphers: Vec::new(),
        };
        assert(e.cached() =~= Seq::<(Seq<u8>, ModuleCipherMode)>::empty());
        Ok(e)
    }

    /// An encryptor whose file AAD ends in eight fresh random bytes; otherwise
    /// as [`Encryptor::new`].
    pub fn with_random_file_aad(options: FileEncryptOptions) -> (r: Result<Encryptor>)
        ensures
            r is Ok <==> valid_key_len(options.footer_key@.len()) && forall|i: int|
                0 <= i < options.columns@.len() ==> !column_key_conflict(#[trigger] options.columns@[i].1),
            !valid_key_len(options.footer_key@.len()) ==> r == Err::<Encryptor, Error>(
                Error::KeySize(options.footer_key@.len() as usize),
            ),
            valid_key_len(options.footer_key@.len()) && r is Err ==> r == Err::<Encryptor, Error>(
                Error::ColumnKeyConflict,
            ),
            r matches Ok(e) ==> e.well_formed() && e.options() == options && e.cached().len() == 0
                && e.aad_file_unique_bytes().len() == AAD_FILE_UNIQUE_LEN
                && e.file_aad_bytes() == match options.aad_prefix {
                Some(p) => p@ + e.aad_file_unique_bytes(),
                None => e.aad_file_unique_bytes(),
            },
    {
        let unique = random_file_unique();
        Encryptor::new(options, unique.as_slice())
    }

    /// Whether the footer is encrypted, rather than plaintext and signed.
    pub fn encrypted_footer(&self) -> (r: bool)
        ensures
            r == self.options().encrypted_footer,
    {
        self.options.encrypted_footer
    }

    /// The file's AAD builder.
    pub fn file_aad(&self) -> (r: AAD)
        ensures
            r@.file_aad == self.file_aad_bytes(),
            r@.row_group_ordinal == 0 && r@.column_ordinal == 0 && r@.page_ordinal == 0,
    {
        AAD::new(self.file_aad.as_slice())
    }

    /// The algorithm record: the AAD prefix is carried only when it is stored
    /// in the file; otherwise readers are told to supply it.
    pub fn get_encryption_algorithm(&self) -> (r: EncryptionAlgorithm)
        ensures
            r.cipher == self.options().algorithm,
            r.aad_file_unique@ == self.aad_file_unique_bytes(),
            r.supply_aad_prefix == (self.options().aad_prefix is Some && !self.options().store_aad_prefix_in_file),
            (self.options().aad_prefix is Some && self.options().store_aad_prefix_in_file) ==> (r.aad_prefix matches Some(
                p,
            ) && p@ == self.options().aad_prefix->0@),
            !(self.options().aad_prefix is Some && self.options().store_aad_prefix_in_file) ==> r.aad_prefix is None,
    {
        let stored = match &self.options.aad_prefix {
            Some(p) => if self.options.store_aad_prefix_in_file {
                Some(copy_bytes(p.as_slice()))
            } else {
                None
            },
            None => None,
        };
        EncryptionAlgorithm {
            cipher: self.options.algorithm,
            aad_prefix: stored,
            aad_file_unique: copy_bytes(self.aad_file_unique.as_slice()),
            supply_aad_prefix: self.options.aad_prefix.is_some() && !self.options.store_aad_prefix_in_file,
        }
    }

    /// The record that precedes an encrypted footer.
    pub fn get_file_crypto_metadata(&self) -> (r: FileCryptoMetaData)
        ensures
            r.encryption_algorithm.cipher == self.options().algorithm,
            r.key_metadata matches Some(k) ==> self.options().footer_key_metadata matches Some(m) && k@ == m@,
            r.key_metadata is None ==> self.options().footer_key_metadata is None,
    {
        FileCryptoMetaData {
            encryption_algorithm: self.get_encryption_algorithm(),
            key_metadata: copy_opt(&self.options.footer_key_metadata),
        }
    }

    /// The footer key metadata that a plaintext footer carries for its signature;
    /// none when the footer is encrypted.
    pub fn get_footer_signing_key_metadata(&self) -> (r: Option<Vec<u8>>)
        ensures
            self.options().encrypted_footer ==> r is None,
            !self.options().encrypted_footer ==> (r matches Some(k) ==> self.options().footer_key_metadata matches Some(
                m,
            ) && k@ == m@) && (r is None ==> self.options().footer_key_metadata is None),
    {
        if self.options.encrypted_footer {
            None
        } else {
            copy_opt(&self.options.footer_key_metadata)
        }
    }

    /// Encrypts the serialized footer under the footer AAD and appends its frame.
    pub fn write_footer(&mut self, footer: &mut Vec<u8>, writer: &mut Vec<u8>) -> (r: Result<usize>)
        requires
            old(self).well_formed(),
        ensures
            final(self).well_formed(),
            final(self).options() == old(self).options(),
            final(self).cached() == old(self).cached(),
            final(self).file_aad_bytes() == old(self).file_aad_bytes(),
            r is Ok <==> old(self).footer_backend().accepts(
                old(footer)@.len(),
                footer_aad_bytes(old(self).file_aad_bytes()).len(),
            ),
            r is Ok ==> exists|nonce: Seq<u8>|
                nonce.len() == 12 && final(footer)@ == aes_gcm_seal(
                    old(self).options().footer_key@,
                    nonce,
                    footer_aad_bytes(old(self).file_aad_bytes()),
                    old(footer)@,
                ) && #[trigger] frame_bytes(nonce, final(footer)@) == final(writer)@.subrange(
                    old(writer)@.len() as int,
                    final(writer)@.len() as int,
                ),
            r is Ok ==> final(writer)@.subrange(0, old(writer)@.len() as int) == old(writer)@
                && final(writer)@.len() == old(writer)@.len() + r->Ok_0
                && r->Ok_0 == FRAME_OVERHEAD + old(footer)@.len() + GCM_TAG_LEN,
            r is Err ==> final(writer)@ == old(writer)@,
    {
        let aad = AAD::new(self.file_aad.as_slice()).footer_add();
        self.footer_cipher.write_to(footer, writer, aad.as_slice())
    }

    /// The signature of a plaintext footer under `nonce`: the nonce and the GCM
    /// tag of the footer under the footer key and footer AAD.
    pub fn sign_with_nonce(&self, footer: &[u8], nonce: [u8; 12]) -> (r: Result<Vec<u8>>)
        requires
            self.well_formed(),
        ensures
            r is Ok <==> self.footer_backend().accepts(footer@.len(), footer_aad_bytes(self.file_aad_bytes()).len()),
            r matches Ok(s) ==> s@ == signature_bytes(self.options().footer_key@, nonce@, self.file_aad_bytes(), footer@)
                && s@.len() == SIGNATURE_LEN,
            r is Err ==> r == Err::<Vec<u8>, Error>(Error::ModuleTooLarge),
    {
        let aad = AAD::new(self.file_aad.as_slice()).footer_add();
        let mut buf = copy_bytes(footer);
        let mut frame: Vec<u8> = Vec::new();
        match self.footer_cipher.write_frame(&mut buf, nonce, &mut frame, aad.as_slice()) {
            Ok(_) => {},
            Err(e) => return Err(e),
        }
        assert(buf@.len() == footer@.len() + 16);
        let mut sig: Vec<u8> = Vec::with_capacity(SIGNATURE_LEN);
        let mut i: usize = 0;
        while i < 12
            invariant
                i <= 12,
                buf@.len() == footer@.len() + 16,
                footer@.len() + 16 <= usize::MAX,
                sig@ == nonce@.subrange(0, i as int),
            decreases 12 - i,
        {
            sig.push(nonce[i]);
            i = i + 1;
            assert(sig@ =~= nonce@.subrange(0, i as int));
        }
        let n = footer.len();
        let mut k: usize = n;
        while k < n + GCM_TAG_LEN
            invariant
                n <= k <= n + 16,
                n + 16 <= usize::MAX,
                buf@.len() == n + 16,
                sig@ == nonce@ + buf@.subrange(n as int, k as int),
            decreases n + 16 - k,
        {
            sig.push(buf[k]);
            k = k + 1;
            assert(sig@ =~= nonce@ + buf@.subrange(n as int, k as int));
        }
        assert(sig@ =~= nonce@ + buf@.subrange(n as int, n + 16int));
        Ok(sig)
    }

    /// The signature of a plaintext footer under a fresh random nonce.
    pub fn sign(&mut self, footer: &[u8]) -> (r: Result<Vec<u8>>)
        requires
            old(self).well_formed(),
        ensures
            final(self).well_formed(),
            final(self).options() == old(self).options(),
            final(self).cached() == old(self).cached(),
            final(self).file_aad_bytes() == old(self).file_aad_bytes(),
            final(self).footer_backend() == old(self).footer_backend(),
            r is Ok <==> old(self).footer_backend().accepts(
                footer@.len(),
                footer_aad_bytes(old(self).file_aad_bytes()).len(),
            ),
            r matches Ok(s) ==> s@.len() == SIGNATURE_LEN && s@ == signature_bytes(
                old(self).options().footer_key@,
                s@.subrange(0, 12),
                old(self).file_aad_bytes(),
                footer@,
            ),
            r is Err ==> r == Err::<Vec<u8>, Error>(Error::ModuleTooLarge),
    {
        let nonce = self.footer_cipher.draw_nonce();
        let r = self.sign_with_nonce(footer, nonce);
        proof {
            if r is Ok {
                assert(r->Ok_0@.subrange(0, 12) =~= nonce@);
            }
        }
        r
    }

    /// Whether `signature` is the signature of the plaintext footer `footer`
    /// under the footer key.
    pub fn verify_signature(&self, footer: &[u8], signature: &[u8]) -> (r: bool)
        requires
            self.well_formed(),
        ensures
            r <==> signature@.len() == SIGNATURE_LEN && self.footer_backend().accepts(
                footer@.len(),
                footer_aad_bytes(self.file_aad_bytes()).len(),
            ) && signature@ == signature_bytes(
                self.options().footer_key@,
                signature@.subrange(0, 12),
                self.file_aad_bytes(),
                footer@,
            ),
    {
        if signature.len() != SIGNATURE_LEN {
            return false;
        }
        let mut nonce = [0u8; 12];
        let mut i: usize = 0;
        while i < 12
            invariant
                i <= 12,
                signature@.len() == 28,
                forall|j: int| 0 <= j < i ==> nonce@[j] == signature@[j],
            decreases 12 - i,
        {
            nonce[i] = signature[i];
            i = i + 1;
        }
        assert(nonce@ =~= signature@.subrange(0, 12));
        match self.sign_with_nonce(footer, nonce) {
            Ok(expected) => bytes_eq(expected.as_slice(), signature),
            Err(_) => false,
        }
    }

    fn find_cached(&self, path: &[u8], mode: ModuleCipherMode) -> (r: Option<usize>)
        ensures
            r matches Some(i) ==> i < self.cached().len() && self.cached()[i as int] == (path@, mode),
            r is None ==> !self.cached().contains((path@, mode)),
    {
        let mut i: usize = 0;
        while i < self.column_ciphers.len()
            invariant
                i <= self.column_ciphers@.len(),
                forall|k: int| 0 <= k < i ==> #[trigger] self.cached()[k] != (path@, mode),
            decreases self.column_ciphers@.len() - i,
        {
            if self.column_ciphers[i].mode == mode && bytes_eq(self.column_ciphers[i].path.as_slice(), path) {
                return Some(i);
            }
            i = i + 1;
        }
        None
    }

    /// Encrypts one module of the column at `path` and appends it to `writer`.
    /// A column that is not configured, or not encrypted, passes through
    /// unmodified. The column's cipher for the module's mode is built on first
    /// use and reused afterwards.
    pub fn write_column_module(
        &mut self,
        path: &[u8],
        module_type: ModuleType,
        buf: &mut Vec<u8>,
        writer: &mut Vec<u8>,
        aad: &[u8],
    ) -> (r: Result<usize>)
        requires
            old(self).well_formed(),
        ensures
            final(self).well_formed(),
            final(self).options() == old(self).options(),
            final(self).file_aad_bytes() == old(self).file_aad_bytes(),
            old(self).cached().contains((path@, module_mode(old(self).options().algorithm, module_type)))
                ==> final(self).cached() == old(self).cached(),
            forall|c| old(self).cached().contains(c) ==> #[trigger] final(self).cached().contains(c),
            ({
                let o = old(self).options();
                match column_index(o, path@) {
                    Some(i) => if o.columns@[i].1.encrypted {
                        &&& !valid_key_len(column_key(o, i).len()) ==> r == Err::<usize, Error>(
                            Error::KeySize(column_key(o, i).len() as usize),
                        )
                        &&& valid_key_len(column_key(o, i).len()) ==> (r is Ok <==> old(buf)@.len() + mode_overhead(
                            module_mode(o.algorithm, module_type),
                        ) <= MAX_CIPHERTEXT_LEN && aad@.len() <= GCM_MAX_LEN)
                        &&& valid_key_len(column_key(o, i).len()) ==> final(self).cached().contains(
                            (path@, module_mode(o.algorithm, module_type)),
                        )
                        &&& r is Ok ==> r->Ok_0 == FRAME_OVERHEAD + final(buf)@.len() && final(buf)@.len() == old(
                            buf,
                        )@.len() + mode_overhead(module_mode(o.algorithm, module_type)) && final(writer)@.subrange(
                            0,
                            old(writer)@.len() as int,
                        ) == old(writer)@ && final(writer)@.len() == old(writer)@.len() + r->Ok_0
                        &&& r is Err ==> final(writer)@ == old(writer)@
                        &&& r is Ok ==> exists|nonce: Seq<u8>|
                            nonce.len() == 12 && #[trigger] frame_bytes(nonce, final(buf)@)
                                == final(writer)@.subrange(old(writer)@.len() as int, final(writer)@.len() as int)
                                && final(buf)@ == match module_mode(o.algorithm, module_type) {
                                ModuleCipherMode::GCM => aes_gcm_seal(column_key(o, i), nonce, aad@, old(buf)@),
                                ModuleCipherMode::CTR => xor_bytes(
                                    old(buf)@,
                                    aes_ctr_keystream(column_key(o, i), ctr_iv(nonce), old(buf)@.len()),
                                ),
                            }
                    } else {
                        r == Ok::<usize, Error>(old(buf)@.len() as usize) && final(writer)@ == old(writer)@ + old(
                            buf,
                        )@
                    },
                    None => r == Ok::<usize, Error>(old(buf)@.len() as usize) && final(writer)@ == old(writer)@
                        + old(buf)@,
                }
            }),
    {
        let mode = if self.options.algorithm == ParquetCipherType::AesGcmCtrV1 && (module_type == ModuleType::DataPage
            || module_type == ModuleType::DictionaryPage) {
            ModuleCipherMode::CTR
        } else {
            ModuleCipherMode::GCM
        };
        let col = find_column(&self.options, path);
        let encrypted = match col {
            Some(i) => self.options.columns[i].1.encrypted,
            None => false,
        };
        if !encrypted {
            let n = buf.len();
            let mut i: usize = 0;
            while i < n
                invariant
                    i <= n == buf@.len(),
                    writer@ == old(writer)@ + buf@.subrange(0, i as int),
                decreases n - i,
            {
                writer.push(buf[i]);
                i = i + 1;
                assert(writer@ =~= old(writer)@ + buf@.subrange(0, i as int));
            }
            assert(buf@.subrange(0, n as int) =~= buf@);
            return Ok(n);
        }
        let ci = col.unwrap();
        let ghost o = self.options;
        let idx = match self.find_cached(path, mode) {
            Some(j) => j,
            None => {
                let c = &self.options.columns[ci].1;
                let key = if c.encrypted_with_footer_key {
                    self.options.footer_key.as_slice()
                } else {
                    c.key.as_slice()
                };
                let cipher = match ModuleCipher::new(mode, key) {
                    Ok(m) => m,
                    Err(e) => return Err(e),
                };
                let ghost before = self.column_ciphers@;
                self.column_ciphers.push(CachedCipher { path: copy_bytes(path), mode, cipher });
                proof {
                    assert(self.cached() =~= old(self).cached().push((path@, mode)));
                    assert forall|k: int| 0 <= k < self.column_ciphers@.len() implies {
                        let c = #[trigger] self.column_ciphers@[k];
                        &&& column_index(self.options, c.path@) is Some
                        &&& valid_key_len(c.cipher.backend().key().len())
                        &&& c.cipher.backend().key() == column_key(self.options, column_index(self.options, c.path@)->0)
                        &&& c.cipher.backend().mode() == c.mode
                    } by {
                        if k < before.len() {
                            assert(self.column_ciphers@[k] == before[k]);
                        }
                    }
                }
                self.column_ciphers.len() - 1
            },
        };
        proof {
            assert(self.cached()[idx as int] == (path@, mode));
            assert(self.column_ciphers@[idx as int].path@ == path@);
        }
        let ghost mid = self.column_ciphers@;
        let ghost mid_cached = self.cached();
        let mut entry = self.column_ciphers.remove(idx);
        let ghost backend = entry.cipher.backend();
        let r = entry.cipher.write_to(buf, writer, aad);
        self.column_ciphers.insert(idx, entry);
        proof {
            assert(self.column_ciphers@ =~= mid.update(idx as int, entry));
            assert(self.cached() =~= mid_cached);
            assert forall|k: int| 0 <= k < self.column_ciphers@.len() implies {
                let c = #[trigger] self.column_ciphers@[k];
                &&& column_index(self.options, c.path@) is Some
                &&& valid_key_len(c.cipher.backend().key().len())
                &&& c.cipher.backend().key() == column_key(self.options, column_index(self.options, c.path@)->0)
                &&& c.cipher.backend().mode() == c.mode
            } by {
                if k != idx {
                    assert(self.column_ciphers@[k] == mid[k]);
                } else {
                    assert(mid[k].cipher.backend() == backend);
                }
            }
            assert forall|c| old(self).cached().contains(c) implies #[trigger] self.cached().contains(c) by {
                let k = choose|k: int| 0 <= k < old(self).cached().len() && old(self).cached()[k] == c;
                assert(mid_cached.len() >= old(self).cached().len());
                assert(mid_cached[k] == old(self).cached()[k]);
            }
            assert(backend.key() == column_key(o, ci as int));
            assert(backend.mode() == module_mode(o.algorithm, module_type));
            assert(backend.overhead() == mode_overhead(mode));
            assert(self.cached()[idx as int] == (path@, mode));
            if r is Ok {
                let nonce = choose|nonce: Seq<u8>|
                    nonce.len() == 12 && final(buf)@ == backend.encryption(nonce, aad@, old(buf)@)
                        && #[trigger] frame_bytes(nonce, final(buf)@) == final(writer)@.subrange(
                        old(writer)@.len() as int,
                        final(writer)@.len() as int,
                    );
                assert(buf@ == match module_mode(o.algorithm, module_type) {
                    ModuleCipherMode::GCM => aes_gcm_seal(column_key(o, ci as int), nonce, aad@, old(buf)@),
                    ModuleCipherMode::CTR => xor_bytes(
                        old(buf)@,
                        aes_ctr_keystream(column_key(o, ci as int), ctr_iv(nonce), old(buf)@.len()),
                    ),
                });
            }
        }
        r
    }
}

/// Encrypts modules into frames under one key.
pub struct BlockEncryptor {
    cipher: ModuleCipher,
}

impl BlockEncryptor {
    /// A GCM block encryptor for `key`; [`Error::KeySize`] for a bad key.
    pub fn new(key: &[u8]) -> (r: Result<Self>)
        ensures
            r is Ok <==> valid_key_len(key@.len()),
            r is Err ==> r == Err::<BlockEncryptor, Error>(Error::KeySize(key@.len() as usize)),
            r matches Ok(b) ==> b.backend().key() == key@ && b.backend().mode() == ModuleCipherMode::GCM,
    {
        match ModuleCipher::new(ModuleCipherMode::GCM, key) {
            Ok(cipher) => Ok(BlockEncryptor { cipher }),
            Err(e) => Err(e),
        }
    }

    /// The cipher in use.
    pub closed spec fn backend(&self) -> CipherBackend {
        self.cipher.backend()
    }

    /// The frame of `plaintext` encrypted under `aad` and a fresh nonce.
    pub fn encrypt(&mut self, plaintext: &[u8], aad: &[u8]) -> (r: Result<Vec<u8>>)
        ensures
            final(self).backend() == old(self).backend(),
            r is Ok <==> old(self).backend().accepts(plaintext@.len(), aad@.len()),
            r matches Ok(f) ==> f@.len() == FRAME_OVERHEAD + plaintext@.len() + old(self).backend().overhead(),
            r matches Ok(f) ==> exists|nonce: Seq<u8>|
                nonce.len() == 12 && f@ == #[trigger] frame_bytes(
                    nonce,
                    old(self).backend().encryption(nonce, aad@, plaintext@),
                ),
    {
        let mut buf = copy_bytes(plaintext);
        let mut out: Vec<u8> = Vec::new();
        match self.cipher.write_to(&mut buf, &mut out, aad) {
            Ok(_) => {
                assert(out@.subrange(0, out@.len() as int) =~= out@);
                Ok(out)
            },
            Err(e) => Err(e),
        }
    }
}

/// Hands out the block encryptors of one file: one for the footer, built with
/// the file encryptor, and one per encrypted column, built on first request;
/// each is reused for the life of the file encryptor.
pub struct FileEncryptor {
    options: FileEncryptOptions,
    file_aad: Vec<u8>,
    footer: BlockEncryptor,
    column_paths: Vec<Vec<u8>>,
    column_encryptors: Vec<BlockEncryptor>,
}

impl FileEncryptor {
    pub closed spec fn options(&self) -> FileEncryptOptions {
        self.options
    }

    pub closed spec fn file_aad_bytes(&self) -> Seq<u8> {
        self.file_aad@
    }

    /// The footer's block encryptor.
    pub closed spec fn footer_encryptor(&self) -> BlockEncryptor {
        self.footer
    }

    /// The paths of the columns whose block encryptor has been built.
    pub closed spec fn cached_paths(&self) -> Seq<Seq<u8>> {
        self.column_paths@.map_values(|p: Vec<u8>| p@)
    }

    /// The columns' block encryptors, in the order of `cached_paths`.
    pub closed spec fn column_encryptors(&self) -> Seq<BlockEncryptor> {
        self.column_encryptors@
    }

    /// The invariant: the footer encryptor is GCM under the footer key, and
    /// each column's encryptor is GCM under that column's key.
    pub closed spec fn well_formed(&self) -> bool {
        &&& self.footer.backend().key() == self.options.footer_key@
        &&& self.footer.backend().mode() == ModuleCipherMode::GCM
        &&& self.column_paths@.len() == self.column_encryptors@.len()
        &&& forall|i: int|
            0 <= i < self.column_paths@.len() ==> {
                &&& column_index(self.options, (#[trigger] self.column_paths@[i])@) is Some
                &&& valid_key_len(self.column_encryptors@[i].backend().key().len())
                &&& self.column_encryptors@[i].backend().key() == column_key(
                    self.options,
                    column_index(self.options, self.column_paths@[i]@)->0,
                )
                &&& self.column_encryptors@[i].backend().mode() == ModuleCipherMode::GCM
            }
    }

    /// A file encryptor whose file AAD is the AAD prefix, if any, then
    /// `aad_file_unique`. Fails with [`Error::KeySize`] for a bad footer key.
    pub fn new(options: FileEncryptOptions, aad_file_unique: &[u8]) -> (r: Result<Self>)
        ensures
            r is Ok <==> valid_key_len(options.footer_key@.len()),
            r is Err ==> r == Err::<FileEncryptor, Error>(Error::KeySize(options.footer_key@.len() as usize)),
            r matches Ok(f) ==> f.well_formed() && f.options() == options && f.cached_paths().len() == 0
                && f.file_aad_bytes() == match options.aad_prefix {
                Some(p) => p@ + aad_file_unique@,
                None => aad_file_unique@,
            },
    {
        let footer = match BlockEncryptor::new(options.footer_key.as_slice()) {
            Ok(b) => b,
            Err(e) => return Err(e),
        };
        let file_aad = match &options.aad_prefix {
            Some(p) => concat(p.as_slice(), aad_file_unique),
            None => copy_bytes(aad_file_unique),
        };
        let f = FileEncryptor { options, file_aad, footer, column_paths: Vec::new(), column_encryptors: Vec::new() };
        assert(f.cached_paths() =~= Seq::<Seq<u8>>::empty());
        Ok(f)
    }

    /// The file's AAD builder.
    pub fn file_aad(&self) -> (r: AAD)
        ensures
            r@.file_aad == self.file_aad_bytes(),
            r@.row_group_ordinal == 0 && r@.column_ordinal == 0 && r@.page_ordinal == 0,
    {
        AAD::new(self.file_aad.as_slice())
    }

    /// The block encryptor of the encrypted footer: GCM under the footer key.
    pub fn get_block_encryptor_file(&mut self) -> (r: &mut BlockEncryptor)
        requires
            old(self).well_formed(),
        ensures
            *r == old(self).footer_encryptor(),
            r.backend().key() == old(self).options().footer_key@,
            r.backend().mode() == ModuleCipherMode::GCM,
            final(self).footer_encryptor() == *final(r),
            final(self).options() == old(self).options(),
            final(self).file_aad_bytes() == old(self).file_aad_bytes(),
            final(self).cached_paths() == old(self).cached_paths(),
            final(self).column_encryptors() == old(self).column_encryptors(),
            final(r).backend() == r.backend() ==> final(self).well_formed(),
    {
        &mut self.footer
    }

    /// The block encryptor that signs a plaintext footer: the footer's, as
    /// both use GCM under the footer key.
    pub fn get_block_encryptor_file_sign(&mut self) -> (r: &mut BlockEncryptor)
        requires
            old(self).well_formed(),
        ensures
            *r == old(self).footer_encryptor(),
            r.backend().key() == old(self).options().footer_key@,
            r.backend().mode() == ModuleCipherMode::GCM,
            final(self).footer_encryptor() == *final(r),
            final(self).options() == old(self).options(),
            final(self).file_aad_bytes() == old(self).file_aad_bytes(),
            final(self).cached_paths() == old(self).cached_paths(),
            final(self).column_encryptors() == old(self).column_encryptors(),
            final(r).backend() == r.backend() ==> final(self).well_formed(),
    {
        &mut self.footer
    }

    fn find_cached(&self, path: &[u8]) -> (r: Option<usize>)
        ensures
            r matches Some(i) ==> i < self.cached_paths().len() && self.cached_paths()[i as int] == path@,
            r is None ==> !self.cached_paths().contains(path@),
    {
        let mut i: usize = 0;
        while i < self.column_paths.len()
            invariant
                i <= self.column_paths@.len(),
                forall|k: int| 0 <= k < i ==> #[trigger] self.cached_paths()[k] != path@,
            decreases self.column_paths@.len() - i,
        {
            if bytes_eq(self.column_paths[i].as_slice(), path) {
                return Some(i);
            }
            i = i + 1;
        }
        None
    }

    /// The block encryptor of the column at `path`: GCM under the column's
    /// key, built on the first request and the same one afterwards. Fails with
    /// [`Error::KeyRetrievalFailed`] when the column is not configured as
    /// encrypted, and with [`Error::KeySize`] when its key has a bad length.
    pub fn get_block_encryptor_column(&mut self, path: &[u8]) -> (r: Result<&mut BlockEncryptor>)
        requires
            old(self).well_formed(),
        ensures
            final(self).options() == old(self).options(),
            final(self).file_aad_bytes() == old(self).file_aad_bytes(),
            final(self).footer_encryptor() == old(self).footer_encryptor(),
            ({
                let o = old(self).options();
                match column_index(o, path@) {
                    Some(i) => if o.columns@[i].1.encrypted {
                        &&& r is Ok <==> valid_key_len(column_key(o, i).len())
                        &&& !valid_key_len(column_key(o, i).len()) ==> r == Err::<&mut BlockEncryptor, Error>(
                            Error::KeySize(column_key(o, i).len() as usize),
                        )
                    } else {
                        r == Err::<&mut BlockEncryptor, Error>(Error::KeyRetrievalFailed)
                    },
                    None => r == Err::<&mut BlockEncryptor, Error>(Error::KeyRetrievalFailed),
                }
            }),
            r is Err ==> final(self).cached_paths() == old(self).cached_paths() && final(self).column_encryptors()
                == old(self).column_encryptors(),
            r matches Ok(b) ==> {
                let o = old(self).options();
                &&& column_index(o, path@) matches Some(i) && b.backend().key() == column_key(o, i)
                &&& b.backend().mode() == ModuleCipherMode::GCM
                &&& final(self).cached_paths().contains(path@)
                &&& old(self).cached_paths().contains(path@) ==> final(self).cached_paths() == old(
                    self,
                ).cached_paths() && old(self).column_encryptors().contains(*b)
                &&& final(b).backend() == b.backend() ==> final(self).well_formed()
            },
    {
        let ci = match find_column(&self.options, path) {
            Some(i) => i,
            None => return Err(Error::KeyRetrievalFailed),
        };
        if !self.options.columns[ci].1.encrypted {
            return Err(Error::KeyRetrievalFailed);
        }
        let idx = match self.find_cached(path) {
            Some(j) => j,
            None => {
                let c = &self.options.columns[ci].1;
                let key = if c.encrypted_with_footer_key {
                    self.options.footer_key.as_slice()
                } else {
                    c.key.as_slice()
                };
                let b = match BlockEncryptor::new(key) {
                    Ok(b) => b,
                    Err(e) => return Err(e),
                };
                let ghost before = self.column_paths@;
                self.column_paths.push(copy_bytes(path));
                self.column_encryptors.push(b);
                proof {
                    assert(self.cached_paths() =~= old(self).cached_paths().push(path@));
                    assert forall|k: int| 0 <= k < self.column_paths@.len() implies {
                        &&& column_index(self.options, (#[trigger] self.column_paths@[k])@) is Some
                        &&& valid_key_len(self.column_encryptors@[k].backend().key().len())
                        &&& self.column_encryptors@[k].backend().key() == column_key(
                            self.options,
                            column_index(self.options, self.column_paths@[k]@)->0,
                        )
                        &&& self.column_encryptors@[k].backend().mode() == ModuleCipherMode::GCM
                    } by {
                        if k < before.len() {
                            assert(self.column_paths@[k] == before[k]);
                            assert(self.column_encryptors@[k] == old(self).column_encryptors@[k]);
                        }
                    }
                }
                self.column_encryptors.len() - 1
            },
        };
        proof {
            assert(self.cached_paths()[idx as int] == path@);
            assert(self.column_paths@[idx as int]@ == path@);
            if old(self).cached_paths().contains(path@) {
                assert(self.column_encryptors@[idx as int] == old(self).column_encryptors@[idx as int]);
            }
        }
        Ok(&mut self.column_encryptors[idx])
    }
}

} // verus!
