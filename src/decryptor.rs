//! File-level decryption: the file AAD, the footer in either mode, and the
//! cache of one module cipher per column and mode.
use vstd::prelude::*;
use crate::aad::{footer_aad_bytes, ModuleType, AAD};
use crate::cipher::{valid_key_len, BlockCipher, GCM_MAX_LEN, MAX_CIPHERTEXT_LEN};
use crate::encryptor::{module_mode, ColumnDecryptOptions, EncryptionAlgorithm, ParquetCipherType, SIGNATURE_LEN};
use crate::error::{Error, Result};
use crate::file::{signed_footer_parts, split_signed_footer};
use crate::key_retrieval::{AadPrefixVerifier, DecryptionKeyRetriever};
use crate::module_cipher::{
    mode_encryption, mode_overhead, parse_frame, CipherBackend, ModuleCipher, ModuleCipherMode, FRAME_OVERHEAD,
};
use crate::bytes::{bytes_eq, concat, copy_bytes};

verus! {

/// The decryption configuration of a file; columns are keyed by their path.
pub struct FileDecryptOptions {
    pub footer_key: Vec<u8>,
    /// The AAD prefix, for files that do not store it.
    pub aad_prefix: Option<Vec<u8>>,
    pub columns: Vec<(Vec<u8>, ColumnDecryptOptions)>,
    pub check_plaintext_footer_integrity: bool,
    pub plaintext_allowed: bool,
}

/// The AAD prefix that applies to a file, or `None` when it is missing or
/// contradicts the one stored in the file.
pub open spec fn effective_aad_prefix(stored: Option<Seq<u8>>, supplied: Option<Seq<u8>>, supply: bool) -> Option<Option<Seq<u8>>> {
    match (stored, supplied) {
        (Some(s), Some(p)) => if s == p { Some(Some(s)) } else { None },
        (Some(s), None) => Some(Some(s)),
        (None, Some(p)) => Some(Some(p)),
        (None, None) => if supply { None } else { Some(None) },
    }
}

/// The file AAD for an AAD prefix decision and the file's unique part.
pub open spec fn expected_file_aad(prefix: Option<Option<Seq<u8>>>, unique: Seq<u8>) -> Option<Seq<u8>> {
    match prefix {
        Some(Some(p)) => Some(p + unique),
        Some(None) => Some(unique),
        None => None,
    }
}

pub open spec fn opt_bytes(o: Option<Vec<u8>>) -> Option<Seq<u8>> {
    match o {
        Some(v) => Some(v@),
        None => None,
    }
}

/// The index of the first column configured under `path`.
pub open spec fn decrypt_column_index(cols: Seq<(Vec<u8>, ColumnDecryptOptions)>, path: Seq<u8>) -> Option<int> {
    if exists|i: int| 0 <= i < cols.len() && cols[i].0@ == path && forall|k: int|
        0 <= k < i ==> (#[trigger] cols[k]).0@ != path {
        Some(
            choose|i: int|
                0 <= i < cols.len() && cols[i].0@ == path && forall|k: int| 0 <= k < i ==> (#[trigger] cols[k]).0@ != path,
        )
    } else {
        None
    }
}

/// The key of a column that its options give directly: the footer key, or its
/// own raw key; `None` when it must be retrieved from key metadata.
pub open spec fn configured_key(footer_key: Seq<u8>, c: ColumnDecryptOptions) -> Option<Seq<u8>> {
    if c.encrypted_with_footer_key {
        Some(footer_key)
    } else if c.key@.len() > 0 {
        Some(c.key@)
    } else {
        None
    }
}

struct CachedDecipher {
    path: Vec<u8>,
    mode: ModuleCipherMode,
    cipher: ModuleCipher,
}

/// Decrypts the modules of one file.
pub struct Decryptor {
    options: FileDecryptOptions,
    algorithm: ParquetCipherType,
    file_aad: Vec<u8>,
    footer_cipher: ModuleCipher,
    column_ciphers: Vec<CachedDecipher>,
}
impl Decryptor {
    pub closed spec fn options(&self) -> FileDecryptOptions {
        self.options
    }

    pub closed spec fn file_aad_bytes(&self) -> Seq<u8> {
        self.file_aad@
    }

    /// The file's encryption algorithm.
    pub closed spec fn algorithm(&self) -> ParquetCipherType {
        self.algorithm
    }

    pub closed spec fn footer_backend(&self) -> CipherBackend {
        self.footer_cipher.backend()
    }

    /// The (column path, mode) pairs whose cipher has been built.
    pub closed spec fn cached(&self) -> Seq<(Seq<u8>, ModuleCipherMode)> {
        self.column_ciphers@.map_values(|c: CachedDecipher| (c.path@, c.mode))
    }

    /// The invariant: the footer cipher is GCM under the footer key, and each
    /// cached cipher has the mode it is filed under and, when its column's key
    /// is configured, that key.
    pub closed spec fn well_formed(&self) -> bool {
        &&& self.footer_cipher.backend().mode() == ModuleCipherMode::GCM
        &&& self.footer_cipher.backend().key() == self.options.footer_key@
        &&& forall|i: int|
            0 <= i < self.column_ciphers@.len() ==> {
                let c = #[trigger] self.column_ciphers@[i];
                &&& decrypt_column_index(self.options.columns@, c.path@) is Some
                &&& c.cipher.backend().mode() == c.mode
                &&& configured_key(
                    self.options.footer_key@,
                    self.options.columns@[decrypt_column_index(self.options.columns@, c.path@)->0].1,
                ) matches Some(k) ==> c.cipher.backend().key() == k
            }
    }

    /// A decryptor for a file written with `algorithm`. The file AAD is the AAD
    /// prefix, stored or supplied, followed by the file's unique part. Fails with
    /// [`Error::AadPrefixMismatch`] when a supplied prefix contradicts the stored
    /// one, when the file needs a prefix and none is supplied, or when the
    /// verifier rejects a supplied one; with [`Error::KeySize`] for a bad footer key.
    pub fn new<V: AadPrefixVerifier>(options: FileDecryptOptions, algorithm: &EncryptionAlgorithm, verifier: Option<&V>) -> (r: Result<Decryptor>)
        ensures
            effective_aad_prefix(opt_bytes(algorithm.aad_prefix), opt_bytes(options.aad_prefix), algorithm.supply_aad_prefix)
                is None ==> r == Err::<Decryptor, Error>(Error::AadPrefixMismatch),
            r matches Ok(d) ==> d.well_formed() && d.options() == options && d.cached().len() == 0
                && d.algorithm() == algorithm.cipher
                && valid_key_len(options.footer_key@.len())
                && Some(d.file_aad_bytes()) == expected_file_aad(
                    effective_aad_prefix(opt_bytes(algorithm.aad_prefix), opt_bytes(options.aad_prefix), algorithm.supply_aad_prefix),
                    algorithm.aad_file_unique@,
                ),
            effective_aad_prefix(opt_bytes(algorithm.aad_prefix), opt_bytes(options.aad_prefix), algorithm.supply_aad_prefix)
                is Some && !valid_key_len(options.footer_key@.len()) && !(algorithm.aad_prefix is None
                && options.aad_prefix is Some && verifier is Some) ==> r == Err::<Decryptor, Error>(
                Error::KeySize(options.footer_key@.len() as usize),
            ),
            effective_aad_prefix(opt_bytes(algorithm.aad_prefix), opt_bytes(options.aad_prefix), algorithm.supply_aad_prefix)
                is Some && valid_key_len(options.footer_key@.len()) && !(algorithm.aad_prefix is None
                && options.aad_prefix is Some && verifier is Some) ==> r is Ok,
            r is Err ==> r == Err::<Decryptor, Error>(Error::AadPrefixMismatch) || r == Err::<Decryptor, Error>(
                Error::KeySize(options.footer_key@.len() as usize),
            ),
    {
        let prefix: Option<Vec<u8>> = match (&algorithm.aad_prefix, &options.aad_prefix) {
            (Some(s), Some(p)) => {
                if !bytes_eq(s.as_slice(), p.as_slice()) {
                    return Err(Error::AadPrefixMismatch);
                }
                Some(copy_bytes(s.as_slice()))
            },
            (Some(s), None) => Some(copy_bytes(s.as_slice())),
            (None, Some(p)) => {
                match verifier {
                    Some(v) => {
                        if !v.verify(p.as_slice()) {
                            return Err(Error::AadPrefixMismatch);
                        }
                    },
                    None => {},
                }
                Some(copy_bytes(p.as_slice()))
            },
            (None, None) => {
                if algorithm.supply_aad_prefix {
                    return Err(Error::AadPrefixMismatch);
                }
                None
            },
        };
        let file_aad = match &prefix {
            Some(p) => concat(p.as_slice(), algorithm.aad_file_unique.as_slice()),
            None => copy_bytes(algorithm.aad_file_unique.as_slice()),
        };
        let footer_cipher = match ModuleCipher::new(ModuleCipherMode::GCM, options.footer_key.as_slice()) {
            Ok(c) => c,
            Err(e) => return Err(e),
        };
        let d = Decryptor { options, algorithm: algorithm.cipher, file_aad, footer_cipher, column_ciphers: Vec::new() };
        assert(d.cached() =~= Seq::<(Seq<u8>, ModuleCipherMode)>::empty());
        Ok(d)
    }

    /// The file's AAD builder.
    pub fn file_aad(&self) -> (r: AAD)
        ensures
            r@.file_aad == self.file_aad_bytes(),
            r@.row_group_ordinal == 0 && r@.column_ordinal == 0 && r@.page_ordinal == 0,
    {
        AAD::new(self.file_aad.as_slice())
    }

    /// Reads and decrypts the framed footer at the start of `src`; returns the
    /// footer and the frame's length.
    pub fn read_footer(&self, src: &[u8]) -> (r: Result<(Vec<u8>, usize)>)
        requires
            self.well_formed(),
        ensures
            parse_frame(src@) is None <==> r == Err::<(Vec<u8>, usize), Error>(Error::FormatViolation),
            parse_frame(src@) matches Some((nonce, ct)) ==> forall|m: Seq<u8>|
                self.footer_backend().accepts(m.len(), footer_aad_bytes(self.file_aad_bytes()).len())
                    && #[trigger] self.footer_backend().encryption(nonce, footer_aad_bytes(self.file_aad_bytes()), m)
                    == ct ==> r is Ok && r->Ok_0.0@ == m && r->Ok_0.1 == FRAME_OVERHEAD + ct.len(),
            r is Ok ==> (parse_frame(src@) matches Some((nonce, ct)) && self.footer_backend().encryption(
                nonce,
                footer_aad_bytes(self.file_aad_bytes()),
                r->Ok_0.0@,
            ) == ct),
    {
        let aad = AAD::new(self.file_aad.as_slice()).footer_add();
        self.footer_cipher.read_from(src, aad.as_slice())
    }

    /// Whether `signature` is the signature of the plaintext footer `footer`.
    pub fn verify_signature(&self, footer: &[u8], signature: &[u8]) -> (r: bool)
        requires
            self.well_formed(),
        ensures
            r <==> signature@.len() == SIGNATURE_LEN && self.footer_backend().accepts(
                footer@.len(),
                footer_aad_bytes(self.file_aad_bytes()).len(),
            ) && self.footer_backend().encryption(
                signature@.subrange(0, 12),
                footer_aad_bytes(self.file_aad_bytes()),
                footer@,
            ).subrange(footer@.len() as int, footer@.len() + 16int) == signature@.subrange(12, 28),
    {
        if signature.len() != SIGNATURE_LEN {
            return false;
        }
        let mut nonce = [0u8; 12];
        let mut i: usize = 0;
        while i < 12
            invariant
                i <= 12,
                signature@.len() == 28,
                forall|j: int| 0 <= j < i ==> nonce@[j] == signature@[j],
            decreases 12 - i,
        {
            nonce[i] = signature[i];
            i = i + 1;
        }
        assert(nonce@ =~= signature@.subrange(0, 12));
        let aad = AAD::new(self.file_aad.as_slice()).footer_add();
        let mut buf = copy_bytes(footer);
        let mut frame: Vec<u8> = Vec::new();
        match self.footer_cipher.write_frame(&mut buf, nonce, &mut frame, aad.as_slice()) {
            Ok(_) => {},
            Err(_) => return false,
        }
        let n = footer.len();
        let mut k: usize = 0;
        while k < 16
            invariant
                k <= 16,
                buf@.len() == n + 16,
                n + 16 <= usize::MAX,
                n == footer@.len(),
                buf@ == self.footer_backend().encryption(
                    signature@.subrange(0, 12),
                    footer_aad_bytes(self.file_aad_bytes()),
                    footer@,
                ),
                signature@.len() == 28,
                forall|j: int| 0 <= j < k ==> #[trigger] buf@.subrange(n as int, n + 16int)[j] == signature@.subrange(12, 28)[j],
            decreases 16 - k,
        {
            if buf[n + k] != signature[12 + k] {
                assert(buf@.subrange(n as int, n + 16int)[k as int] != signature@.subrange(12, 28)[k as int]);
                return false;
            }
            k = k + 1;
        }
        assert(buf@.subrange(n as int, n + 16int) =~= signature@.subrange(12, 28));
        true
    }

    /// Checks a file's signed plaintext footer when the options ask for it.
    /// Fails with [`Error::FormatViolation`] when the file does not end in a
    /// signed plaintext footer, and with [`Error::AuthenticationFailed`] when
    /// the signature does not match.
    pub fn check_plaintext_footer(&self, file: &[u8]) -> (r: Result<()>)
        requires
            self.well_formed(),
        ensures
            !self.options().check_plaintext_footer_integrity ==> r is Ok,
            self.options().check_plaintext_footer_integrity ==> (signed_footer_parts(file@) is None <==> r == Err::<
                (),
                Error,
            >(Error::FormatViolation)),
            self.options().check_plaintext_footer_integrity ==> (signed_footer_parts(file@) matches Some((footer, sig))
                ==> (r is Ok <==> sig.len() == SIGNATURE_LEN && self.footer_backend().accepts(
                footer.len(),
                footer_aad_bytes(self.file_aad_bytes()).len(),
            ) && self.footer_backend().encryption(sig.subrange(0, 12), footer_aad_bytes(self.file_aad_bytes()), footer).subrange(
                footer.len() as int,
                footer.len() + 16int,
            ) == sig.subrange(12, 28)) && (r is Err ==> r == Err::<(), Error>(Error::AuthenticationFailed))),
    {
        if !self.options.check_plaintext_footer_integrity {
            return Ok(());
        }
        match split_signed_footer(file) {
            Ok((footer, sig)) => if self.verify_signature(footer.as_slice(), sig.as_slice()) {
                Ok(())
            } else {
                Err(Error::AuthenticationFailed)
            },
            Err(e) => Err(e),
        }
    }

    fn find_column(&self, path: &[u8]) -> (r: Option<usize>)
        ensures
            r matches Some(i) ==> decrypt_column_index(self.options().columns@, path@) == Some(i as int),
            r is None ==> decrypt_column_index(self.options().columns@, path@) is None,
    {
        let ghost cols = self.options.columns@;
        let mut i: usize = 0;
        while i < self.options.columns.len()
            invariant
                i <= cols.len(),
                cols == self.options.columns@,
                forall|k: int| 0 <= k < i ==> (#[trigger] cols[k]).0@ != path@,
            decreases cols.len() - i,
        {
            if bytes_eq(self.options.columns[i].0.as_slice(), path) {
                proof {
                    let j = choose|j: int|
                        0 <= j < cols.len() && cols[j].0@ == path@ && forall|k: int|
                            0 <= k < j ==> (#[trigger] cols[k]).0@ != path@;
                    if j < i {
                        assert(cols[j].0@ != path@);
                    } else if j > i {
                        assert(cols[i as int].0@ != path@);
                    }
                }
                return Some(i);
            }
            i = i + 1;
        }
        proof {
            if exists|j: int|
                0 <= j < cols.len() && cols[j].0@ == path@ && forall|k: int| 0 <= k < j ==> (#[trigger] cols[k]).0@ != path@ {
                let j = choose|j: int|
                    0 <= j < cols.len() && cols[j].0@ == path@ && forall|k: int|
                        0 <= k < j ==> (#[trigger] cols[k]).0@ != path@;
                assert(cols[j].0@ != path@);
            }
        }
        None
    }

    fn find_cached(&self, path: &[u8], mode: ModuleCipherMode) -> (r: Option<usize>)
        ensures
            r matches Some(i) ==> i < self.cached().len() && self.cached()[i as int] == (path@, mode),
            r is None ==> !self.cached().contains((path@, mode)),
    {
        let mut i: usize = 0;
        while i < self.column_ciphers.len()
            invariant
                i <= self.column_ciphers@.len(),
                forall|k: int| 0 <= k < i ==> #[trigger] self.cached()[k] != (path@, mode),
            decreases self.column_ciphers@.len() - i,
        {
            if self.column_ciphers[i].mode == mode && bytes_eq(self.column_ciphers[i].path.as_slice(), path) {
                return Some(i);
            }
            i = i + 1;
        }
        None
    }

    /// Reads and decrypts one framed module of the column at `path`. The
    /// column's key is the footer key, its raw key, or else the key that
    /// `retriever` gives for its key metadata; the cipher is built on first use
    /// and reused afterwards. Fails with [`Error::KeyRetrievalFailed`] for a
    /// column that is not configured as encrypted, or whose key cannot be had.
    pub fn read_column_module<R: DecryptionKeyRetriever>(
        &mut self,
        path: &[u8],
        module_type: ModuleType,
        src: &[u8],
        aad: &[u8],
        retriever: Option<&mut R>,
    ) -> (r: Result<(Vec<u8>, usize)>)
        requires
            old(self).well_formed(),
        ensures
            final(self).well_formed(),
            final(self).options() == old(self).options(),
            final(self).file_aad_bytes() == old(self).file_aad_bytes(),
            old(self).cached().contains((path@, module_mode(old(self).algorithm(), module_type))) ==> final(self).cached()
                == old(self).cached(),
            forall|c| old(self).cached().contains(c) ==> #[trigger] final(self).cached().contains(c),
            (decrypt_column_index(old(self).options().columns@, path@) matches Some(i) ==> !old(
                self,
            ).options().columns@[i].1.encrypted) ==> r == Err::<(Vec<u8>, usize), Error>(Error::KeyRetrievalFailed),
            r is Ok ==> parse_frame(src@) is Some,
            ({
                let o = old(self).options();
                let mode = module_mode(old(self).algorithm(), module_type);
                decrypt_column_index(o.columns@, path@) matches Some(i) ==> (o.columns@[i].1.encrypted
                    ==> (configured_key(o.footer_key@, o.columns@[i].1) matches Some(k) ==> (valid_key_len(k.len())
                    ==> (parse_frame(src@) matches Some((nonce, ct)) ==> forall|m: Seq<u8>|
                    m.len() + mode_overhead(mode) <= MAX_CIPHERTEXT_LEN && aad@.len() <= GCM_MAX_LEN
                        && #[trigger] mode_encryption(mode, k, nonce, aad@, m) == ct ==> r is Ok && r->Ok_0.0@
                        == m && r->Ok_0.1 == FRAME_OVERHEAD + ct.len()))))
            }),
    {
        let mode = if self.algorithm == ParquetCipherType::AesGcmCtrV1 && (module_type == ModuleType::DataPage
            || module_type == ModuleType::DictionaryPage) {
            ModuleCipherMode::CTR
        } else {
            ModuleCipherMode::GCM
        };
        let ci = match self.find_column(path) {
            Some(i) => i,
            None => return Err(Error::KeyRetrievalFailed),
        };
        if !self.options.columns[ci].1.encrypted {
            return Err(Error::KeyRetrievalFailed);
        }
        let idx = match self.find_cached(path, mode) {
            Some(j) => j,
            None => {
                let c = &self.options.columns[ci].1;
                let retrieved: Vec<u8>;
                let key: &[u8] = if c.encrypted_with_footer_key {
                    self.options.footer_key.as_slice()
                } else if c.key.len() > 0 {
                    c.key.as_slice()
                } else {
                    let md = match &c.key_metadata {
                        Some(md) => md,
                        None => return Err(Error::KeyRetrievalFailed),
                    };
                    retrieved = match retriever {
                        Some(rt) => match rt.get_key(md.as_slice()) {
                            Ok(k) => k,
                            Err(_) => return Err(Error::KeyRetrievalFailed),
                        },
                        None => return Err(Error::KeyRetrievalFailed),
                    };
                    retrieved.as_slice()
                };
                let cipher = match ModuleCipher::new(mode, key) {
                    Ok(m) => m,
                    Err(e) => return Err(e),
                };
                let ghost before = self.column_ciphers@;
                self.column_ciphers.push(CachedDecipher { path: copy_bytes(path), mode, cipher });
                proof {
                    assert(self.cached() =~= old(self).cached().push((path@, mode)));
                    assert forall|k: int| 0 <= k < self.column_ciphers@.len() implies {
                        let c = #[trigger] self.column_ciphers@[k];
                        &&& decrypt_column_index(self.options.columns@, c.path@) is Some
                        &&& c.cipher.backend().mode() == c.mode
                        &&& configured_key(
                            self.options.footer_key@,
                            self.options.columns@[decrypt_column_index(self.options.columns@, c.path@)->0].1,
                        ) matches Some(k) ==> c.cipher.backend().key() == k
                    } by {
                        if k < before.len() {
                            assert(self.column_ciphers@[k] == before[k]);
                        }
                    }
                }
                self.column_ciphers.len() - 1
            },
        };
        proof {
            assert(self.cached()[idx as int] == (path@, mode));
        }
        let ghost mid = self.column_ciphers@;
        let ghost mid_cached = self.cached();
        let ghost backend = mid[idx as int].cipher.backend();
        proof {
            assert(mid[idx as int].path@ == path@);
            assert(backend.mode() == mode);
            assert forall|m: Seq<u8>, nonce: Seq<u8>| #[trigger] backend.encryption(nonce, aad@, m) == mode_encryption(
                mode,
                backend.key(),
                nonce,
                aad@,
                m,
            ) && backend.overhead() == mode_overhead(mode) by {}
        }
        let entry = self.column_ciphers.remove(idx);
        let r = entry.cipher.read_from(src, aad);
        self.column_ciphers.insert(idx, entry);
        proof {
            assert(self.column_ciphers@ =~= mid);
            assert(self.cached() =~= mid_cached);
            assert forall|c| old(self).cached().contains(c) implies #[trigger] self.cached().contains(c) by {
                let k = choose|k: int| 0 <= k < old(self).cached().len() && old(self).cached()[k] == c;
                assert(mid_cached[k] == old(self).cached()[k]);
            }
            let o = old(self).options();
            assert(decrypt_column_index(o.columns@, path@) == Some(ci as int));
            if let Some(k) = configured_key(o.footer_key@, o.columns@[ci as int].1) {
                assert(backend.key() == k);
                if let Some((nonce, ct)) = parse_frame(src@) {
                    assert forall|m: Seq<u8>|
                        m.len() + mode_overhead(mode) <= MAX_CIPHERTEXT_LEN && aad@.len() <= GCM_MAX_LEN
                            && #[trigger] mode_encryption(mode, k, nonce, aad@, m) == ct implies r is Ok && r->Ok_0.0@
                            == m && r->Ok_0.1 == FRAME_OVERHEAD + ct.len() by {
                        assert(backend.encryption(nonce, aad@, m) == mode_encryption(mode, k, nonce, aad@, m));
                    }
                }
            }
        }
        r
    }
}

} // verus!
