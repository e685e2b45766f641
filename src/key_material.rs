//! Envelope key material: a data key wrapped by a master key, directly or
//! through a key-encryption key, and the key metadata that holds or refers to it.
use vstd::prelude::*;
use crate::bytes::copy_bytes;
use crate::error::{Error, Result};
use vstd::string::StringSliceAdditionalSpecFns;
use crate::record::{
    RecordField, fields_view, flag_of, get_flag, get_text, parse_record, plain_fields, render_record,
    text_of, RecordValueModel,
};

verus! {

pub open spec fn is_footer_key_name() -> Seq<u8> {
    "isFooterKey".spec_bytes()
}

pub open spec fn master_key_id_name() -> Seq<u8> {
    "masterKeyID".spec_bytes()
}

pub open spec fn wrapped_dek_name() -> Seq<u8> {
    "wrappedDEK".spec_bytes()
}

pub open spec fn kms_instance_id_name() -> Seq<u8> {
    "kmsInstanceID".spec_bytes()
}

pub open spec fn kms_instance_url_name() -> Seq<u8> {
    "kmsInstanceURL".spec_bytes()
}

pub open spec fn double_wrapping_name() -> Seq<u8> {
    "doubleWrapping".spec_bytes()
}

pub open spec fn kek_id_name() -> Seq<u8> {
    "keyEncryptionKeyID".spec_bytes()
}

pub open spec fn wrapped_kek_name() -> Seq<u8> {
    "wrappedKEK".spec_bytes()
}

pub open spec fn internal_storage_name() -> Seq<u8> {
    "internalStorage".spec_bytes()
}

pub open spec fn key_reference_name() -> Seq<u8> {
    "keyReference".spec_bytes()
}

/// The mathematical value of [`KeyMaterial`].
pub struct KeyMaterialModel {
    pub is_footer_key: bool,
    pub master_key_id: Seq<u8>,
    pub encoded_wrapped_dek: Seq<u8>,
    pub kms_instance_id: Option<Seq<u8>>,
    pub kms_instance_url: Option<Seq<u8>>,
    pub is_double_wrapped: bool,
    pub kek_id: Option<Seq<u8>>,
    pub encoded_wrapped_kek: Option<Seq<u8>>,
}

/// The key material that a record's fields describe: `masterKeyID`,
/// `wrappedDEK` and `doubleWrapping` are required, and when doubly wrapped
/// `keyEncryptionKeyID` and `wrappedKEK` too; `isFooterKey` defaults to false.
pub open spec fn key_material_of(fs: Seq<(Seq<u8>, RecordValueModel)>) -> Option<KeyMaterialModel> {
    let master = text_of(fs, master_key_id_name());
    let dek = text_of(fs, wrapped_dek_name());
    let double = flag_of(fs, double_wrapping_name());
    let kek_id = text_of(fs, kek_id_name());
    let kek = text_of(fs, wrapped_kek_name());
    if master is Some && dek is Some && double is Some && (double->0 ==> kek_id is Some && kek is Some) {
        Some(
            KeyMaterialModel {
                is_footer_key: flag_of(fs, is_footer_key_name()) == Some(true),
                master_key_id: master->0,
                encoded_wrapped_dek: dek->0,
                kms_instance_id: text_of(fs, kms_instance_id_name()),
                kms_instance_url: text_of(fs, kms_instance_url_name()),
                is_double_wrapped: double->0,
                kek_id: if double->0 { kek_id } else { None },
                encoded_wrapped_kek: if double->0 { kek } else { None },
            },
        )
    } else {
        None
    }
}

/// A parsed envelope-key record.
pub struct KeyMaterial {
    is_footer_key: bool,
    master_key_id: Vec<u8>,
    encoded_wrapped_dek: Vec<u8>,
    kms_instance_id: Option<Vec<u8>>,
    kms_instance_url: Option<Vec<u8>>,
    is_double_wrapped: bool,
    kek_id: Option<Vec<u8>>,
    encoded_wrapped_kek: Option<Vec<u8>>,
}

pub open spec fn opt_view(o: Option<Vec<u8>>) -> Option<Seq<u8>> {
    match o {
        Some(v) => Some(v@),
        None => None,
    }
}

fn copy_opt(o: &Option<Vec<u8>>) -> (r: Option<Vec<u8>>)
    ensures
        opt_view(r) == opt_view(*o),
{
    match o {
        Some(v) => Some(copy_bytes(v.as_slice())),
        None => None,
    }
}

impl View for KeyMaterial {
    type V = KeyMaterialModel;

    closed spec fn view(&self) -> KeyMaterialModel {
        KeyMaterialModel {
            is_footer_key: self.is_footer_key,
            master_key_id: self.master_key_id@,
            encoded_wrapped_dek: self.encoded_wrapped_dek@,
            kms_instance_id: opt_view(self.kms_instance_id),
            kms_instance_url: opt_view(self.kms_instance_url),
            is_double_wrapped: self.is_double_wrapped,
            kek_id: opt_view(self.kek_id),
            encoded_wrapped_kek: opt_view(self.encoded_wrapped_kek),
        }
    }
}

impl KeyMaterial {
    /// The key material that the record's fields describe.
    pub fn from_fields(fs: &Vec<RecordField>) -> (r: Option<KeyMaterial>)
        ensures
            r matches Some(m) ==> key_material_of(fields_view(fs@)) == Some(m@),
            r is None ==> key_material_of(fields_view(fs@)) is None,
    {
        let master = get_text(fs, "masterKeyID".as_bytes());
        let dek = get_text(fs, "wrappedDEK".as_bytes());
        let double = get_flag(fs, "doubleWrapping".as_bytes());
        let kek_id = get_text(fs, "keyEncryptionKeyID".as_bytes());
        let kek = get_text(fs, "wrappedKEK".as_bytes());
        let footer = get_flag(fs, "isFooterKey".as_bytes());
        let kms_id = get_text(fs, "kmsInstanceID".as_bytes());
        let kms_url = get_text(fs, "kmsInstanceURL".as_bytes());
        match (master, dek, double) {
            (Some(master), Some(dek), Some(double)) => {
                if double && (kek_id.is_none() || kek.is_none()) {
                    return None;
                }
                let m = KeyMaterial {
                    is_footer_key: match footer {
                        Some(true) => true,
                        _ => false,
                    },
                    master_key_id: master,
                    encoded_wrapped_dek: dek,
                    kms_instance_id: kms_id,
                    kms_instance_url: kms_url,
                    is_double_wrapped: double,
                    kek_id: if double { kek_id } else { None },
                    encoded_wrapped_kek: if double { kek } else { None },
                };
                assert(m@.kms_instance_id == text_of(fields_view(fs@), kms_instance_id_name()));
                Some(m)
            },
            _ => None,
        }
    }

    /// Parses a key-material record. Fails with [`Error::KeyMetadataMalformed`]
    /// when the bytes are not a record, or it lacks a required field.
    pub fn parse(key_material_bytes: &[u8]) -> (r: Result<KeyMaterial>)
        ensures
            forall|fs: Seq<(Seq<u8>, RecordValueModel)>|
                plain_fields(fs) && #[trigger] render_record(fs) == key_material_bytes@ ==> (r is Ok
                    <==> key_material_of(fs) is Some) && (r is Ok ==> key_material_of(fs) == Some(r->Ok_0@)),
            r is Ok ==> exists|fs: Seq<(Seq<u8>, RecordValueModel)>|
                plain_fields(fs) && #[trigger] render_record(fs) == key_material_bytes@ && key_material_of(fs)
                    == Some(r->Ok_0@),
            r is Err ==> r == Err::<KeyMaterial, Error>(Error::KeyMetadataMalformed),
    {
        match parse_record(key_material_bytes) {
            Some(fs) => match KeyMaterial::from_fields(&fs) {
                Some(m) => Ok(m),
                None => Err(Error::KeyMetadataMalformed),
            },
            None => Err(Error::KeyMetadataMalformed),
        }
    }

    /// A copy of the key material.
    pub fn copy(&self) -> (r: KeyMaterial)
        ensures
            r@ == self@,
    {
        KeyMaterial {
            is_footer_key: self.is_footer_key,
            master_key_id: copy_bytes(self.master_key_id.as_slice()),
            encoded_wrapped_dek: copy_bytes(self.encoded_wrapped_dek.as_slice()),
            kms_instance_id: copy_opt(&self.kms_instance_id),
            kms_instance_url: copy_opt(&self.kms_instance_url),
            is_double_wrapped: self.is_double_wrapped,
            kek_id: copy_opt(&self.kek_id),
            encoded_wrapped_kek: copy_opt(&self.encoded_wrapped_kek),
        }
    }

    pub fn is_footer_key(&self) -> (r: bool)
        ensures
            r == self@.is_footer_key,
    {
        self.is_footer_key
    }

    pub fn master_key_id(&self) -> (r: &[u8])
        ensures
            r@ == self@.master_key_id,
    {
        self.master_key_id.as_slice()
    }

    pub fn encoded_wrapped_dek(&self) -> (r: &[u8])
        ensures
            r@ == self@.encoded_wrapped_dek,
    {
        self.encoded_wrapped_dek.as_slice()
    }

    pub fn is_double_wrapped(&self) -> (r: bool)
        ensures
            r == self@.is_double_wrapped,
    {
        self.is_double_wrapped
    }

    pub fn kek_id(&self) -> (r: Option<&[u8]>)
        ensures
            r matches Some(k) ==> self@.kek_id == Some(k@),
            r is None ==> self@.kek_id is None,
    {
        match &self.kek_id {
            Some(k) => Some(k.as_slice()),
            None => None,
        }
    }

    pub fn encoded_wrapped_kek(&self) -> (r: Option<&[u8]>)
        ensures
            r matches Some(k) ==> self@.encoded_wrapped_kek == Some(k@),
            r is None ==> self@.encoded_wrapped_kek is None,
    {
        match &self.encoded_wrapped_kek {
            Some(k) => Some(k.as_slice()),
            None => None,
        }
    }

    pub fn kms_instance_id(&self) -> (r: Option<&[u8]>)
        ensures
            r matches Some(k) ==> self@.kms_instance_id == Some(k@),
            r is None ==> self@.kms_instance_id is None,
    {
        match &self.kms_instance_id {
            Some(k) => Some(k.as_slice()),
            None => None,
        }
    }

    pub fn kms_instance_url(&self) -> (r: Option<&[u8]>)
        ensures
            r matches Some(k) ==> self@.kms_instance_url == Some(k@),
            r is None ==> self@.kms_instance_url is None,
    {
        match &self.kms_instance_url {
            Some(k) => Some(k.as_slice()),
            None => None,
        }
    }
}

/// The mathematical value of [`KeyMetadata`].
pub enum KeyMetadataModel {
    /// The key material is stored in the metadata itself.
    Internal(KeyMaterialModel),
    /// The key material is stored apart, under this reference.
    External(Seq<u8>),
}

/// What a key-metadata record describes: `internalStorage` is required; when
/// true the record is the key material itself, else `keyReference` names it.
pub open spec fn key_metadata_of(fs: Seq<(Seq<u8>, RecordValueModel)>) -> Option<KeyMetadataModel> {
    match flag_of(fs, internal_storage_name()) {
        Some(true) => match key_material_of(fs) {
            Some(m) => Some(KeyMetadataModel::Internal(m)),
            None => None,
        },
        Some(false) => match text_of(fs, key_reference_name()) {
            Some(r) => Some(KeyMetadataModel::External(r)),
            None => None,
        },
        None => None,
    }
}

/// Key metadata: the key material inline, or a reference to where it is stored.
pub struct KeyMetadata {
    is_internal_storage: bool,
    key_reference: Option<Vec<u8>>,
    key_material: Option<KeyMaterial>,
}

impl View for KeyMetadata {
    type V = KeyMetadataModel;

    closed spec fn view(&self) -> KeyMetadataModel {
        if self.is_internal_storage && self.key_material is Some {
            KeyMetadataModel::Internal(self.key_material->0@)
        } else {
            KeyMetadataModel::External(
                match self.key_reference {
                    Some(r) => r@,
                    None => Seq::empty(),
                },
            )
        }
    }
}

impl KeyMetadata {
    #[verifier::type_invariant]
    spec fn inv(&self) -> bool {
        if self.is_internal_storage {
            self.key_material is Some
        } else {
            self.key_reference is Some
        }
    }

    /// Parses key metadata. Fails with [`Error::KeyMetadataMalformed`] when the
    /// bytes are not a record or lack what the storage mode requires. It does
    /// not resolve an external reference.
    pub fn parse(key_metadata: &[u8]) -> (r: Result<KeyMetadata>)
        ensures
            forall|fs: Seq<(Seq<u8>, RecordValueModel)>|
                plain_fields(fs) && #[trigger] render_record(fs) == key_metadata@ ==> (r is Ok
                    <==> key_metadata_of(fs) is Some) && (r is Ok ==> key_metadata_of(fs) == Some(r->Ok_0@)),
            r is Ok ==> exists|fs: Seq<(Seq<u8>, RecordValueModel)>|
                plain_fields(fs) && #[trigger] render_record(fs) == key_metadata@ && key_metadata_of(fs)
                    == Some(r->Ok_0@),
            r is Err ==> r == Err::<KeyMetadata, Error>(Error::KeyMetadataMalformed),
    {
        let fs = match parse_record(key_metadata) {
            Some(fs) => fs,
            None => return Err(Error::KeyMetadataMalformed),
        };
        match get_flag(&fs, "internalStorage".as_bytes()) {
            Some(true) => match KeyMaterial::from_fields(&fs) {
                Some(m) => Ok(KeyMetadata { is_internal_storage: true, key_reference: None, key_material: Some(m) }),
                None => Err(Error::KeyMetadataMalformed),
            },
            Some(false) => match get_text(&fs, "keyReference".as_bytes()) {
                Some(r) => Ok(KeyMetadata { is_internal_storage: false, key_reference: Some(r), key_material: None }),
                None => Err(Error::KeyMetadataMalformed),
            },
            None => Err(Error::KeyMetadataMalformed),
        }
    }

    /// Whether the key material is stored inline.
    pub fn is_internal_storage(&self) -> (r: bool)
        ensures
            r == (self@ is Internal),
    {
        proof { use_type_invariant(self); }
        self.is_internal_storage
    }

    /// The inline key material, if any.
    pub fn key_material(&self) -> (r: Option<&KeyMaterial>)
        ensures
            r matches Some(m) ==> self@ == KeyMetadataModel::Internal(m@),
            r is None ==> self@ is External,
    {
        proof { use_type_invariant(self); }
        if self.is_internal_storage {
            self.key_material.as_ref()
        } else {
            None
        }
    }

    /// The reference to external key material, if any.
    pub fn key_reference(&self) -> (r: Option<&[u8]>)
        ensures
            r matches Some(k) ==> self@ == KeyMetadataModel::External(k@),
            r is None ==> self@ is Internal,
    {
        proof { use_type_invariant(self); }
        if self.is_internal_storage {
            None
        } else {
            match &self.key_reference {
                Some(k) => Some(k.as_slice()),
                None => None,
            }
        }
    }
}

} // verus!
