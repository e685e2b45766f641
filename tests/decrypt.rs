use parquet_crypto::aad::ModuleType;
use parquet_crypto::decryptor::{Decryptor, FileDecryptOptions};
use parquet_crypto::encryptor::{
    ColumnDecryptOptions, ColumnEncryptOptions, Encryptor, FileEncryptOptions, ParquetCipherType,
    AAD_FILE_UNIQUE_LEN,
};
use parquet_crypto::error::{Error, Result};
use parquet_crypto::file::{end_file, start_file_with};
use parquet_crypto::key_retrieval::{AadPrefixVerifier, DecryptionKeyRetriever};

fn key(n: usize, seed: u8) -> Vec<u8> {
    (0..n).map(|i| (i as u8).wrapping_mul(13).wrapping_add(seed)).collect()
}

struct Accept(bool);

impl AadPrefixVerifier for Accept {
    fn verify(&self, _aad_prefix: &[u8]) -> bool {
        self.0
    }
}

struct Keys;

impl DecryptionKeyRetriever for Keys {
    fn get_key(&mut self, key_metadata: &[u8]) -> Result<Vec<u8>> {
        if key_metadata == b"col-b-key" {
            Ok(key(24, 5))
        } else {
            Err(Error::KeyRetrievalFailed)
        }
    }
}

fn encrypt_options(store_prefix: bool) -> FileEncryptOptions {
    FileEncryptOptions {
        algorithm: ParquetCipherType::AesGcmV1,
        encrypted_footer: true,
        columns: vec![
            (
                b"a".to_vec(),
                ColumnEncryptOptions { encrypted: true, encrypted_with_footer_key: true, key: vec![], key_metadata: None },
            ),
            (
                b"b".to_vec(),
                ColumnEncryptOptions { encrypted: true, encrypted_with_footer_key: false, key: key(24, 5), key_metadata: None },
            ),
        ],
        aad_prefix: Some(b"tbl".to_vec()),
        store_aad_prefix_in_file: store_prefix,
        footer_key: key(32, 1),
        footer_key_metadata: None,
    }
}

fn decrypt_options(aad_prefix: Option<Vec<u8>>) -> FileDecryptOptions {
    FileDecryptOptions {
        footer_key: key(32, 1),
        aad_prefix,
        columns: vec![
            (
                b"a".to_vec(),
                ColumnDecryptOptions { encrypted: true, encrypted_with_footer_key: true, key: vec![], key_metadata: None },
            ),
            (
                b"b".to_vec(),
                ColumnDecryptOptions {
                    encrypted: true,
                    encrypted_with_footer_key: false,
                    key: vec![],
                    key_metadata: Some(b"col-b-key".to_vec()),
                },
            ),
            (
                b"c".to_vec(),
                ColumnDecryptOptions { encrypted: false, encrypted_with_footer_key: false, key: vec![], key_metadata: None },
            ),
        ],
        check_plaintext_footer_integrity: true,
        plaintext_allowed: false,
    }
}

#[test]
fn write_then_reopen_and_decrypt() {
    let mut enc = Encryptor::with_random_file_aad(encrypt_options(true)).unwrap();
    let alg = enc.get_encryption_algorithm();
    assert_eq!(alg.cipher, ParquetCipherType::AesGcmV1);
    assert_eq!(alg.aad_file_unique.len(), AAD_FILE_UNIQUE_LEN);

    let mut file = vec![];
    start_file_with(&mut file, true);
    let rows = [b"first page rows".to_vec(), b"second page rows".to_vec()];
    let mut starts = vec![];
    for (i, row) in rows.iter().enumerate() {
        let aad = enc.file_aad().with_column_ordinal(1).with_page_ordinal(i as i16).page_aad(ModuleType::DataPage);
        starts.push(file.len());
        let mut buf = row.clone();
        enc.write_column_module(b"b", ModuleType::DataPage, &mut buf, &mut file, &aad).unwrap();
    }
    let tail = file.len();
    end_file(&mut enc, b"", b"footer bytes", &mut file).unwrap();

    let mut dec = Decryptor::new::<Accept>(decrypt_options(None), &alg, None).unwrap();
    let (footer, used) = dec.read_footer(&file[tail..]).unwrap();
    assert_eq!(footer, b"footer bytes".to_vec());
    assert_eq!(used, 16 + footer.len() + 16);
    for (i, row) in rows.iter().enumerate() {
        let aad = dec.file_aad().with_column_ordinal(1).with_page_ordinal(i as i16).page_aad(ModuleType::DataPage);
        let (p, _) = dec
            .read_column_module(b"b", ModuleType::DataPage, &file[starts[i]..], &aad, Some(&mut Keys))
            .unwrap();
        assert_eq!(&p, row);
    }
    // A wrong page ordinal is detected.
    let aad = dec.file_aad().with_column_ordinal(1).with_page_ordinal(7).page_aad(ModuleType::DataPage);
    assert!(matches!(
        dec.read_column_module(b"b", ModuleType::DataPage, &file[starts[0]..], &aad, Some(&mut Keys)),
        Err(Error::AuthenticationFailed)
    ));
    // A column that is not encrypted has no cipher.
    assert!(matches!(
        dec.read_column_module::<Keys>(b"c", ModuleType::DataPage, &file[starts[0]..], &aad, None),
        Err(Error::KeyRetrievalFailed)
    ));
}

#[test]
fn column_key_needs_a_retriever() {
    let enc = Encryptor::new(encrypt_options(true), b"uniq").unwrap();
    let alg = enc.get_encryption_algorithm();
    let mut dec = Decryptor::new::<Accept>(decrypt_options(None), &alg, None).unwrap();
    assert!(matches!(
        dec.read_column_module::<Keys>(b"b", ModuleType::DataPage, &[0u8; 40], b"", None),
        Err(Error::KeyRetrievalFailed)
    ));
    assert!(matches!(
        dec.read_column_module::<Keys>(b"zz", ModuleType::DataPage, &[0u8; 40], b"", None),
        Err(Error::KeyRetrievalFailed)
    ));
}

#[test]
fn aad_prefix_rules() {
    let enc = Encryptor::new(encrypt_options(false), b"uniq").unwrap();
    let alg = enc.get_encryption_algorithm();
    assert!(alg.supply_aad_prefix);
    assert_eq!(alg.aad_prefix, None);
    assert!(matches!(
        Decryptor::new::<Accept>(decrypt_options(None), &alg, None),
        Err(Error::AadPrefixMismatch)
    ));
    assert!(matches!(
        Decryptor::new(decrypt_options(Some(b"tbl".to_vec())), &alg, Some(&Accept(false))),
        Err(Error::AadPrefixMismatch)
    ));
    let dec = Decryptor::new(decrypt_options(Some(b"tbl".to_vec())), &alg, Some(&Accept(true))).unwrap();
    assert_eq!(dec.file_aad().footer_add(), b"tbluniq\x00".to_vec());

    let stored = Encryptor::new(encrypt_options(true), b"uniq").unwrap().get_encryption_algorithm();
    assert!(matches!(
        Decryptor::new::<Accept>(decrypt_options(Some(b"other".to_vec())), &stored, None),
        Err(Error::AadPrefixMismatch)
    ));
    let mut bad = decrypt_options(None);
    bad.footer_key = vec![1; 5];
    assert!(matches!(Decryptor::new::<Accept>(bad, &stored, None), Err(Error::KeySize(5))));
}

#[test]
fn plaintext_footer_signature_checked_by_decryptor() {
    let mut o = encrypt_options(true);
    o.encrypted_footer = false;
    let mut enc = Encryptor::new(o, b"uniq").unwrap();
    let sig = enc.sign(b"plain footer").unwrap();
    let dec = Decryptor::new::<Accept>(decrypt_options(None), &enc.get_encryption_algorithm(), None).unwrap();
    assert!(dec.verify_signature(b"plain footer", &sig));
    assert!(!dec.verify_signature(b"plain footeR", &sig));
    assert!(!dec.verify_signature(b"plain footer", &sig[..27]));
}

#[test]
fn decryptor_rejects_corrupted_plaintext_footer() {
    let mut o = encrypt_options(true);
    o.encrypted_footer = false;
    let mut enc = Encryptor::new(o, b"uniq").unwrap();
    let alg = enc.get_encryption_algorithm();
    let mut file = vec![];
    start_file_with(&mut file, false);
    let footer = b"footer: schema, row groups".to_vec();
    end_file(&mut enc, b"", &footer, &mut file).unwrap();

    let dec = Decryptor::new::<Accept>(decrypt_options(None), &alg, None).unwrap();
    assert!(dec.check_plaintext_footer(&file).is_ok());

    // Corrupt one byte inside the footer, before the signature and trailer.
    let mut bad = file.clone();
    bad[4 + 2] ^= 0x01;
    assert!(matches!(dec.check_plaintext_footer(&bad), Err(Error::AuthenticationFailed)));
    // A plain reader still finds the footer's bytes where the trailer says.
    let (plain_footer, sig) = parquet_crypto::file::split_signed_footer(&bad).unwrap();
    assert_eq!(plain_footer.len(), footer.len());
    assert_eq!(sig.len(), 28);
    assert_eq!(&plain_footer[3..], &footer[3..]);

    let mut lax = decrypt_options(None);
    lax.check_plaintext_footer_integrity = false;
    let dec = Decryptor::new::<Accept>(lax, &alg, None).unwrap();
    assert!(dec.check_plaintext_footer(&bad).is_ok());
    assert!(matches!(
        Decryptor::new::<Accept>(decrypt_options(None), &alg, None).unwrap().check_plaintext_footer(b"PAR1"),
        Err(Error::FormatViolation)
    ));
}
