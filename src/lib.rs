//! Modular encryption for a columnar file format: per-module associated data,
//! authenticated block ciphers, on-wire framing and envelope key material.
pub mod aad;
pub mod bitmap;
pub mod bytes;
pub mod cipher;
pub mod decryptor;
pub mod encryptor;
pub mod error;
pub mod file;
pub mod key_material;
pub mod key_retrieval;
pub mod module_cipher;
pub mod record;
