use std::collections::HashSet;

use parquet_crypto::aad::{ModuleType, AAD};
use parquet_crypto::bitmap::{encode_bool, BitmapIter};
use parquet_crypto::cipher::{AesCtrCipherFactory, AesGcmCipherFactory, BlockCipher};
use parquet_crypto::encryptor::{
    ColumnEncryptOptions, ColumnEncryptionProperties, Encryptor, FileEncryptOptions, FileEncryptor, ParquetCipherType,
    SIGNATURE_LEN,
};
use parquet_crypto::error::Error;
use parquet_crypto::file::{check_signed_footer, end_file, start_file, start_file_with};
use parquet_crypto::key_material::{KeyMaterial, KeyMetadata};
use parquet_crypto::key_retrieval::{
    kek_step, ByteMap, DecryptionKeyRetriever, FileKeyMaterialStore, FileKeyUnwrapper, KekStep, KeyUnwrapper,
};
use parquet_crypto::module_cipher::{decode_frame_length, ModuleCipher, ModuleCipherMode};
use parquet_crypto::record::{parse_record, RecordValue};

fn key(n: usize) -> Vec<u8> {
    (0..n).map(|i| (i * 7 + 3) as u8).collect()
}

/// A small deterministic generator for sampling positions.
struct Lcg(u64);

impl Lcg {
    fn next(&mut self) -> u64 {
        self.0 = self.0.wrapping_mul(6364136223846793005).wrapping_add(1442695040888963407);
        self.0 >> 33
    }
}

#[test]
fn footer_aad_is_file_aad_and_footer_tag() {
    let aad = AAD::new(&[1, 2, 3]);
    assert_eq!(aad.footer_add(), vec![1, 2, 3, 0]);
}

#[test]
fn column_chunk_aad_layout() {
    let aad = AAD::new(&[9]).with_row_group_ordinal(1).with_column_ordinal(-2);
    assert_eq!(aad.column_chunk_aad(ModuleType::ColumnMetaData), vec![9, 1, 1, 0, 0xfe, 0xff]);
}

#[test]
fn page_aad_layout() {
    let aad = AAD::new(&[7, 7])
        .with_row_group_ordinal(0x0102)
        .with_column_ordinal(3)
        .with_page_ordinal(0x7fff);
    assert_eq!(aad.page_aad(ModuleType::DataPageHeader), vec![7, 7, 4, 2, 1, 3, 0, 0xff, 0x7f]);
}

#[test]
fn page_aads_differ_for_distinct_ordinals() {
    let base = AAD::new(b"file-unique");
    let mut seen = HashSet::new();
    for t in [ModuleType::DataPage, ModuleType::DictionaryPage, ModuleType::DataPageHeader, ModuleType::DictionaryPageHeader] {
        for rg in [0i16, 1, -1, 256] {
            for col in [0i16, 1, 300] {
                for page in [0i16, 1, 2, i16::MAX] {
                    let a = base
                        .with_row_group_ordinal(rg)
                        .with_column_ordinal(col)
                        .with_page_ordinal(page)
                        .page_aad(t);
                    assert!(seen.insert(a));
                }
            }
        }
    }
}

#[test]
fn gcm_and_ctr_round_trip_for_all_key_sizes() {
    let nonce = [5u8; 12];
    let aad = b"aad bytes";
    for n in [16, 24, 32] {
        for m in [vec![], vec![1u8], (0..1000).map(|i| i as u8).collect::<Vec<u8>>()] {
            let gcm = AesGcmCipherFactory::new(&key(n)).unwrap();
            let mut buf = m.clone();
            gcm.encrypt_in_place(&mut buf, nonce, aad).unwrap();
            assert_eq!(buf.len(), m.len() + 16);
            if m.len() > 16 {
                assert_ne!(buf[..m.len()].to_vec(), m);
            }
            gcm.decrypt_in_place(&mut buf, nonce, aad).unwrap();
            assert_eq!(buf, m);

            let ctr = AesCtrCipherFactory::new(&key(n)).unwrap();
            let mut buf = m.clone();
            ctr.encrypt_in_place(&mut buf, nonce, aad).unwrap();
            assert_eq!(buf.len(), m.len());
            if m.len() > 16 {
                assert_ne!(buf, m);
            }
            ctr.decrypt_in_place(&mut buf, nonce, aad).unwrap();
            assert_eq!(buf, m);
        }
    }
}

#[test]
fn wrong_key_size_is_rejected() {
    for n in [0, 15, 17, 31, 33, 64] {
        assert!(matches!(AesGcmCipherFactory::new(&key(n)), Err(Error::KeySize(k)) if k == n));
        assert!(matches!(AesCtrCipherFactory::new(&key(n)), Err(Error::KeySize(k)) if k == n));
        assert!(matches!(ModuleCipher::new(ModuleCipherMode::GCM, &key(n)), Err(Error::KeySize(k)) if k == n));
    }
}

#[test]
fn gcm_detects_any_flipped_bit() {
    let gcm = AesGcmCipherFactory::new(&key(16)).unwrap();
    let nonce = [1u8; 12];
    let m: Vec<u8> = (0..64).collect();
    let mut ct = m.clone();
    gcm.encrypt_in_place(&mut ct, nonce, b"aad").unwrap();
    let mut rng = Lcg(42);
    for _ in 0..100 {
        let pos = (rng.next() as usize) % (ct.len() * 8);
        let mut t = ct.clone();
        t[pos / 8] ^= 1 << (pos % 8);
        assert!(matches!(gcm.decrypt_in_place(&mut t, nonce, b"aad"), Err(Error::AuthenticationFailed)));
    }
    let mut t = ct.clone();
    assert!(matches!(gcm.decrypt_in_place(&mut t, nonce, b"other aad"), Err(Error::AuthenticationFailed)));
}

#[test]
fn ctr_flipped_bit_decrypts_without_error() {
    let ctr = AesCtrCipherFactory::new(&key(32)).unwrap();
    let nonce = [9u8; 12];
    let m: Vec<u8> = (0..40).collect();
    let mut ct = m.clone();
    ctr.encrypt_in_place(&mut ct, nonce, b"").unwrap();
    ct[10] ^= 0x04;
    ctr.decrypt_in_place(&mut ct, nonce, b"").unwrap();
    let mut expected = m.clone();
    expected[10] ^= 0x04;
    assert_eq!(ct, expected);
    assert_ne!(ct, m);
}

#[test]
fn frame_round_trip_consumes_whole_frame() {
    for mode in [ModuleCipherMode::GCM, ModuleCipherMode::CTR] {
        let mut c = ModuleCipher::new(mode, &key(24)).unwrap();
        let m: Vec<u8> = (0..100).map(|i| (i * 3) as u8).collect();
        let mut buf = m.clone();
        let mut out = vec![];
        let n = c.write_to(&mut buf, &mut out, b"page aad").unwrap();
        let tag = if mode == ModuleCipherMode::GCM { 16 } else { 0 };
        assert_eq!(buf.len(), m.len() + tag);
        assert_eq!(n, 4 + 12 + buf.len());
        assert_eq!(out.len(), n);
        assert_eq!(out[..4].to_vec(), (buf.len() as u32).to_le_bytes().to_vec());
        assert_eq!(decode_frame_length(&out[..4]), Some(12 + buf.len() as u64));
        out.extend_from_slice(b"trailing");
        let (plain, used) = c.read_from(&out, b"page aad").unwrap();
        assert_eq!(plain, m);
        assert_eq!(used, 4 + 12 + buf.len());
    }
}

#[test]
fn truncated_frame_is_a_format_violation() {
    let mut c = ModuleCipher::new(ModuleCipherMode::GCM, &key(16)).unwrap();
    let mut buf = vec![1, 2, 3];
    let mut out = vec![];
    c.write_to(&mut buf, &mut out, b"").unwrap();
    assert!(matches!(c.read_from(&out[..out.len() - 1], b""), Err(Error::FormatViolation)));
    assert!(matches!(c.read_from(&out[..10], b""), Err(Error::FormatViolation)));
    assert!(matches!(c.read_from(&out, b"wrong"), Err(Error::AuthenticationFailed)));
}

#[test]
fn nonces_do_not_repeat() {
    let mut c = ModuleCipher::new(ModuleCipherMode::GCM, &key(16)).unwrap();
    let mut seen = HashSet::new();
    for _ in 0..10_000 {
        let mut buf = vec![0u8; 4];
        let mut out = vec![];
        c.write_to(&mut buf, &mut out, b"").unwrap();
        assert!(seen.insert(out[4..16].to_vec()));
    }
}

const SINGLE: &str = r#"{"keyMaterialType":"PKMT1","internalStorage":true,"isFooterKey":true,"kmsInstanceID":"DEFAULT","kmsInstanceURL":"DEFAULT","masterKeyID":"kf","wrappedDEK":"AAAA1234","doubleWrapping":false}"#;
const DOUBLE: &str = r#"{"keyMaterialType":"PKMT1","internalStorage":true,"isFooterKey":false,"masterKeyID":"kc1","wrappedDEK":"dek==","doubleWrapping":true,"keyEncryptionKeyID":"kek-1","wrappedKEK":"kek=="}"#;
const DOUBLE_NO_KEK_ID: &str = r#"{"masterKeyID":"kc1","wrappedDEK":"dek==","doubleWrapping":true,"wrappedKEK":"kek=="}"#;

#[test]
fn key_material_single_wrapped() {
    let m = KeyMaterial::parse(SINGLE.as_bytes()).unwrap();
    assert!(m.is_footer_key());
    assert_eq!(m.master_key_id(), b"kf");
    assert_eq!(m.encoded_wrapped_dek(), b"AAAA1234");
    assert!(!m.is_double_wrapped());
    assert_eq!(m.kek_id(), None);
    assert_eq!(m.encoded_wrapped_kek(), None);
    assert_eq!(m.kms_instance_id(), Some(&b"DEFAULT"[..]));
    assert_eq!(m.kms_instance_url(), Some(&b"DEFAULT"[..]));
}

#[test]
fn key_material_double_wrapped() {
    let m = KeyMaterial::parse(DOUBLE.as_bytes()).unwrap();
    assert!(!m.is_footer_key());
    assert_eq!(m.master_key_id(), b"kc1");
    assert_eq!(m.encoded_wrapped_dek(), b"dek==");
    assert!(m.is_double_wrapped());
    assert_eq!(m.kek_id(), Some(&b"kek-1"[..]));
    assert_eq!(m.encoded_wrapped_kek(), Some(&b"kek=="[..]));
}

#[test]
fn key_material_missing_kek_id_is_malformed() {
    assert!(matches!(KeyMaterial::parse(DOUBLE_NO_KEK_ID.as_bytes()), Err(Error::KeyMetadataMalformed)));
    assert!(matches!(KeyMaterial::parse(b"{\"wrappedDEK\":\"x\",\"doubleWrapping\":false}"), Err(Error::KeyMetadataMalformed)));
    assert!(matches!(KeyMaterial::parse(b"not a record"), Err(Error::KeyMetadataMalformed)));
    assert!(matches!(KeyMaterial::parse(b"{\"masterKeyID\":true,\"wrappedDEK\":\"x\",\"doubleWrapping\":false}"), Err(Error::KeyMetadataMalformed)));
}

#[test]
fn record_parsing() {
    let fs = parse_record(b"{\"a\":\"x\",\"b\":true,\"c\":false}").unwrap();
    assert_eq!(fs.len(), 3);
    assert_eq!(fs[0].name, b"a".to_vec());
    assert!(matches!(&fs[0].value, RecordValue::Text(t) if t == b"x"));
    assert!(matches!(fs[1].value, RecordValue::Flag(true)));
    assert!(matches!(fs[2].value, RecordValue::Flag(false)));
    assert_eq!(parse_record(b"{}").unwrap().len(), 0);
    assert!(parse_record(b"{\"a\":\"x\"").is_none());
    assert!(parse_record(b"{\"a\":\"x\",}").is_none());
    assert!(parse_record(b"{\"a\":tru}").is_none());
    assert!(parse_record(b"{\"a\\\":\"x\"}").is_none());
    assert!(parse_record(b"{\"a\":\"x\"} ").is_none());
}

#[test]
fn key_metadata_internal_and_external() {
    let md = KeyMetadata::parse(SINGLE.as_bytes()).unwrap();
    assert!(md.is_internal_storage());
    assert_eq!(md.key_material().unwrap().master_key_id(), b"kf");
    assert_eq!(md.key_reference(), None);

    let md = KeyMetadata::parse(b"{\"keyMaterialType\":\"PKMT1\",\"internalStorage\":false,\"keyReference\":\"ref-7\"}").unwrap();
    assert!(!md.is_internal_storage());
    assert!(md.key_material().is_none());
    assert_eq!(md.key_reference(), Some(&b"ref-7"[..]));

    assert!(matches!(KeyMetadata::parse(b"{\"internalStorage\":false}"), Err(Error::KeyMetadataMalformed)));
    assert!(matches!(KeyMetadata::parse(b"{\"keyReference\":\"r\"}"), Err(Error::KeyMetadataMalformed)));
}

#[test]
fn key_material_store_lookup() {
    let mut store = FileKeyMaterialStore::new();
    assert_eq!(store.get_key_material(b"a"), None);
    store.add_key_material(b"a", b"first");
    store.add_key_material(b"b", b"second");
    store.add_key_material(b"a", b"third");
    assert_eq!(store.get_key_material(b"a"), Some(b"third".to_vec()));
    assert_eq!(store.get_key_material(b"b"), Some(b"second".to_vec()));
    assert_eq!(store.get_key_material(b"c"), None);
}

struct MasterKeys;

impl DecryptionKeyRetriever for MasterKeys {
    fn get_key(&mut self, key_metadata: &[u8]) -> parquet_crypto::error::Result<Vec<u8>> {
        match key_metadata {
            b"kf" => Ok(vec![1; 16]),
            b"kc1" => Ok(vec![2; 16]),
            _ => Err(Error::KeyRetrievalFailed),
        }
    }
}

/// "Unwraps" by appending the wrapping key's first byte; counts its calls.
struct Tagging {
    calls: std::rc::Rc<std::cell::Cell<usize>>,
}

impl KeyUnwrapper for Tagging {
    fn unwrap_key(&mut self, encoded_wrapped_key: &[u8], wrapping_key: &[u8]) -> parquet_crypto::error::Result<Vec<u8>> {
        self.calls.set(self.calls.get() + 1);
        let mut k = encoded_wrapped_key.to_vec();
        k.push(wrapping_key[0]);
        Ok(k)
    }
}

#[test]
fn unwrapping_single_and_double_with_kek_cache() {
    let calls = std::rc::Rc::new(std::cell::Cell::new(0));
    let mut store = FileKeyMaterialStore::new();
    store.add_key_material(b"col-ref", DOUBLE.as_bytes());
    let mut u = FileKeyUnwrapper::new(store, MasterKeys, Tagging { calls: calls.clone() });

    assert_eq!(u.get_key(SINGLE.as_bytes()).unwrap(), b"AAAA1234\x01".to_vec());
    assert_eq!(calls.get(), 1);

    let external = b"{\"internalStorage\":false,\"keyReference\":\"col-ref\"}";
    // KEK unwrapped with the master key (2), then the DEK with the KEK ("kek==" + 2).
    assert_eq!(u.get_key(external).unwrap(), b"dek==k".to_vec());
    assert_eq!(calls.get(), 3);
    // The KEK is cached: only the DEK is unwrapped again.
    assert_eq!(u.get_key(DOUBLE.as_bytes()).unwrap(), b"dek==k".to_vec());
    assert_eq!(calls.get(), 4);

    let missing = b"{\"internalStorage\":false,\"keyReference\":\"nowhere\"}";
    assert!(matches!(u.get_key(missing), Err(Error::KeyRetrievalFailed)));
    let unknown_master = b"{\"internalStorage\":true,\"masterKeyID\":\"zz\",\"wrappedDEK\":\"d\",\"doubleWrapping\":false}";
    assert!(matches!(u.get_key(unknown_master), Err(Error::KeyRetrievalFailed)));
}

fn options(encrypted_footer: bool, algorithm: ParquetCipherType) -> FileEncryptOptions {
    FileEncryptOptions {
        algorithm,
        encrypted_footer,
        columns: vec![
            (
                b"a".to_vec(),
                ColumnEncryptOptions { encrypted: true, encrypted_with_footer_key: true, key: vec![], key_metadata: None },
            ),
            (
                b"b".to_vec(),
                ColumnEncryptOptions { encrypted: false, encrypted_with_footer_key: false, key: vec![], key_metadata: None },
            ),
            (
                b"c".to_vec(),
                ColumnEncryptOptions { encrypted: true, encrypted_with_footer_key: false, key: key(32), key_metadata: None },
            ),
        ],
        aad_prefix: Some(b"prefix".to_vec()),
        store_aad_prefix_in_file: true,
        footer_key: key(16),
        footer_key_metadata: Some(b"footer-key-md".to_vec()),
    }
}

#[test]
fn encryptor_rejects_bad_configuration() {
    let mut o = options(true, ParquetCipherType::AesGcmV1);
    o.footer_key = key(10);
    assert!(matches!(Encryptor::new(o, b"u"), Err(Error::KeySize(10))));
    let mut o = options(true, ParquetCipherType::AesGcmV1);
    o.columns[2].1.key_metadata = Some(b"md".to_vec());
    assert!(matches!(Encryptor::new(o, b"u"), Err(Error::ColumnKeyConflict)));
}

#[test]
fn encrypted_footer_file_round_trip() {
    let mut enc = Encryptor::new(options(true, ParquetCipherType::AesGcmV1), b"unique01").unwrap();
    let md = enc.get_file_crypto_metadata();
    assert_eq!(md.encryption_algorithm.cipher, ParquetCipherType::AesGcmV1);
    assert_eq!(md.encryption_algorithm.aad_prefix, Some(b"prefix".to_vec()));
    assert_eq!(md.encryption_algorithm.aad_file_unique, b"unique01".to_vec());
    assert!(!md.encryption_algorithm.supply_aad_prefix);
    assert_eq!(md.key_metadata, Some(b"footer-key-md".to_vec()));
    assert_eq!(enc.get_footer_signing_key_metadata(), None);
    assert_eq!(enc.file_aad().footer_add(), b"prefixunique01\x00".to_vec());

    let mut file = vec![];
    start_file_with(&mut file, true);
    assert_eq!(file, b"PARE".to_vec());

    // One row group, column "a", two pages.
    let rows: Vec<Vec<u8>> = vec![b"row one, row two".to_vec(), b"row three".to_vec()];
    let mut page_starts = vec![];
    for (i, row) in rows.iter().enumerate() {
        let aad = enc.file_aad().with_page_ordinal(i as i16).page_aad(ModuleType::DataPage);
        page_starts.push(file.len());
        let mut buf = row.clone();
        enc.write_column_module(b"a", ModuleType::DataPage, &mut buf, &mut file, &aad).unwrap();
        assert_ne!(&buf[..row.len()], &row[..]);
    }
    // A column that is not encrypted passes through.
    let mut plain = b"plain".to_vec();
    assert_eq!(enc.write_column_module(b"b", ModuleType::DataPage, &mut plain, &mut file, b"").unwrap(), 5);
    assert_eq!(file[file.len() - 5..].to_vec(), b"plain".to_vec());

    let footer = b"serialized footer".to_vec();
    let crypto_md = b"crypto metadata".to_vec();
    let tail_start = file.len();
    let n = end_file(&mut enc, &crypto_md, &footer, &mut file).unwrap();
    assert_eq!(file.len(), tail_start + n as usize);
    assert_eq!(file[file.len() - 4..].to_vec(), b"PARE".to_vec());
    let region = u32::from_le_bytes(file[file.len() - 8..file.len() - 4].try_into().unwrap()) as usize;
    assert_eq!(region + 8, n as usize);
    assert_eq!(file[tail_start..tail_start + crypto_md.len()].to_vec(), crypto_md);

    // Reopen: decrypt the footer and both pages with the footer key.
    let reader = ModuleCipher::new(ModuleCipherMode::GCM, &key(16)).unwrap();
    let footer_aad = AAD::new(b"prefixunique01").footer_add();
    let (f, _) = reader.read_from(&file[tail_start + crypto_md.len()..], &footer_aad).unwrap();
    assert_eq!(f, footer);
    for (i, row) in rows.iter().enumerate() {
        let aad = AAD::new(b"prefixunique01").with_page_ordinal(i as i16).page_aad(ModuleType::DataPage);
        let (p, _) = reader.read_from(&file[page_starts[i]..], &aad).unwrap();
        assert_eq!(&p, row);
    }
}

#[test]
fn ctr_pages_and_own_column_key() {
    let mut enc = Encryptor::new(options(true, ParquetCipherType::AesGcmCtrV1), b"u").unwrap();
    let mut out = vec![];
    let mut buf = b"page payload".to_vec();
    enc.write_column_module(b"c", ModuleType::DataPage, &mut buf, &mut out, b"x").unwrap();
    assert_eq!(buf.len(), 12);
    let ctr = ModuleCipher::new(ModuleCipherMode::CTR, &key(32)).unwrap();
    assert_eq!(ctr.read_from(&out, b"anything").unwrap().0, b"page payload".to_vec());

    let mut out = vec![];
    let mut buf = b"page header".to_vec();
    enc.write_column_module(b"c", ModuleType::DataPageHeader, &mut buf, &mut out, b"x").unwrap();
    assert_eq!(buf.len(), 11 + 16);
    let gcm = ModuleCipher::new(ModuleCipherMode::GCM, &key(32)).unwrap();
    assert_eq!(gcm.read_from(&out, b"x").unwrap().0, b"page header".to_vec());
}

#[test]
fn signed_plaintext_footer_detects_corruption() {
    let mut enc = Encryptor::new(options(false, ParquetCipherType::AesGcmV1), b"unique02").unwrap();
    assert_eq!(enc.get_footer_signing_key_metadata(), Some(b"footer-key-md".to_vec()));
    let mut file = vec![];
    start_file(&mut file);
    assert_eq!(file, b"PAR1".to_vec());
    let footer = b"a plaintext footer".to_vec();
    let n = end_file(&mut enc, b"", &footer, &mut file).unwrap();
    assert_eq!(n as usize, footer.len() + SIGNATURE_LEN + 8);
    assert_eq!(file[file.len() - 4..].to_vec(), b"PAR1".to_vec());
    assert_eq!(check_signed_footer(&enc, &file).unwrap(), true);

    // The footer stays readable as plain bytes.
    let region = u32::from_le_bytes(file[file.len() - 8..file.len() - 4].try_into().unwrap()) as usize;
    let start = file.len() - 8 - region;
    assert_eq!(file[start..start + footer.len()].to_vec(), footer);

    let mut bad = file.clone();
    bad[start + 3] ^= 0x20;
    assert_eq!(check_signed_footer(&enc, &bad).unwrap(), false);
    assert!(matches!(check_signed_footer(&enc, &file[..file.len() - 1]), Err(Error::FormatViolation)));
}

#[test]
fn signature_is_nonce_and_tag() {
    let mut enc = Encryptor::new(options(false, ParquetCipherType::AesGcmV1), b"u").unwrap();
    let nonce = [3u8; 12];
    let sig = enc.sign_with_nonce(b"footer", nonce).unwrap();
    assert_eq!(sig.len(), 28);
    assert_eq!(sig[..12].to_vec(), nonce.to_vec());
    assert!(enc.verify_signature(b"footer", &sig));
    assert!(!enc.verify_signature(b"footer!", &sig));
    let sig2 = enc.sign(b"footer").unwrap();
    assert!(enc.verify_signature(b"footer", &sig2));
}

#[test]
fn file_encryptor_hands_out_block_encryptors() {
    let mut bad = options(true, ParquetCipherType::AesGcmV1);
    bad.footer_key = key(7);
    assert!(matches!(FileEncryptor::new(bad, b"u"), Err(Error::KeySize(7))));

    let mut fe = FileEncryptor::new(options(true, ParquetCipherType::AesGcmV1), b"u").unwrap();
    assert_eq!(fe.file_aad().footer_add(), b"prefixu\x00".to_vec());
    let frame = fe.get_block_encryptor_file().encrypt(b"footer", b"aad").unwrap();
    assert_eq!(frame.len(), 6 + 32);
    let reader = ModuleCipher::new(ModuleCipherMode::GCM, &key(16)).unwrap();
    assert_eq!(reader.read_from(&frame, b"aad").unwrap().0, b"footer".to_vec());
    let frame = fe.get_block_encryptor_file_sign().encrypt(b"sign me", b"").unwrap();
    assert_eq!(reader.read_from(&frame, b"").unwrap().0, b"sign me".to_vec());

    assert!(matches!(fe.get_block_encryptor_column(b"b"), Err(Error::KeyRetrievalFailed)));
    assert!(matches!(fe.get_block_encryptor_column(b"zzz"), Err(Error::KeyRetrievalFailed)));
    let reader = ModuleCipher::new(ModuleCipherMode::GCM, &key(32)).unwrap();
    // The same cached encryptor serves every request for the column.
    let first = format!("{:p}", fe.get_block_encryptor_column(b"c").unwrap());
    for page in 0..3u8 {
        let c = fe.get_block_encryptor_column(b"c").unwrap();
        assert_eq!(format!("{:p}", c), first);
        let frame = c.encrypt(&[page; 5], b"").unwrap();
        assert_eq!(reader.read_from(&frame, b"").unwrap().0, vec![page; 5]);
    }
    let mut o = options(true, ParquetCipherType::AesGcmV1);
    o.columns[2].1.key = key(9);
    let mut fe = FileEncryptor::new(o, b"u").unwrap();
    assert!(matches!(fe.get_block_encryptor_column(b"c"), Err(Error::KeySize(9))));
}

#[test]
fn bitmap_encoding_and_iteration() {
    assert_eq!(parquet_crypto::bitmap::set(0, 0), 1);
    assert_eq!(parquet_crypto::bitmap::set(1, 7), 0x81);
    let values = [true, false, true, true, false, false, false, false, true, true];
    let mut out = vec![0xaa];
    encode_bool(&mut out, &values);
    assert_eq!(out, vec![0xaa, 0b0000_1101, 0b0000_0011]);
    let mut none = vec![];
    encode_bool(&mut none, &[]);
    assert!(none.is_empty());

    let mut it = BitmapIter::new(&out[1..], 2, 8);
    assert_eq!(it.remaining(), 8);
    let bits: Vec<bool> = std::iter::from_fn(|| it.next()).collect();
    assert_eq!(bits, vec![true, true, false, false, false, false, true, true]);
    assert_eq!(it.remaining(), 0);
    assert_eq!(it.next(), None);
}

#[test]
fn kek_step_decides_the_wrapping_key() {
    let single = KeyMaterial::parse(SINGLE.as_bytes()).unwrap();
    let double = KeyMaterial::parse(DOUBLE.as_bytes()).unwrap();
    let mut cache = ByteMap::new();
    assert!(matches!(kek_step(&single, b"master", &cache), KekStep::UseKey(k) if k == b"master"));
    assert!(matches!(
        kek_step(&double, b"master", &cache),
        KekStep::UnwrapKek(id, w) if id == b"kek-1" && w == b"kek=="
    ));
    cache.insert(b"kek-1", b"the kek");
    assert!(matches!(kek_step(&double, b"master", &cache), KekStep::UseKey(k) if k == b"the kek"));
}

#[test]
fn column_encryption_properties_become_options() {
    let p = ColumnEncryptionProperties {
        encrypted: true,
        encrypted_with_footer_key: false,
        column_path: b"x.y".to_vec(),
        key_bytes: key(16),
        key_meta_bytes: vec![],
    };
    let (path, o) = p.into_options();
    assert_eq!(path, b"x.y".to_vec());
    assert!(o.encrypted && !o.encrypted_with_footer_key);
    assert_eq!(o.key, key(16));
    assert_eq!(o.key_metadata, None);
    let p = ColumnEncryptionProperties {
        encrypted: true,
        encrypted_with_footer_key: true,
        column_path: b"z".to_vec(),
        key_bytes: vec![],
        key_meta_bytes: b"md".to_vec(),
    };
    assert_eq!(p.into_options().1.key_metadata, Some(b"md".to_vec()));
}

#[test]
fn failed_gcm_decryption_leaves_buffer_untouched() {
    let gcm = AesGcmCipherFactory::new(&key(24)).unwrap();
    let mut short = vec![1u8; 15];
    assert!(matches!(gcm.decrypt_in_place(&mut short, [0; 12], b""), Err(Error::AuthenticationFailed)));
    assert_eq!(short, vec![1u8; 15]);
    let mut ct = b"secret".to_vec();
    gcm.encrypt_in_place(&mut ct, [2; 12], b"a").unwrap();
    ct[0] ^= 1;
    let before = ct.clone();
    assert!(gcm.decrypt_in_place(&mut ct, [2; 12], b"a").is_err());
    assert_eq!(ct, before);
}
