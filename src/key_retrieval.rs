//! Resolving key metadata to a raw data key: the key-material store, the
//! pluggable retrieval capabilities, and the unwrapping of a single- or
//! double-wrapped data key with a cache of key-encryption keys.
use vstd::prelude::*;
use crate::error::{Error, Result};
use crate::key_material::{key_material_of, key_metadata_of, KeyMaterial, KeyMetadata, KeyMetadataModel};
use crate::record::{plain_fields, render_record, RecordValueModel};
use crate::bytes::{bytes_eq, copy_bytes};

verus! {

/// The map that a list of entries describes; a later entry overrides an earlier one.
pub open spec fn entry_map(es: Seq<(Seq<u8>, Seq<u8>)>) -> Map<Seq<u8>, Seq<u8>>
    decreases es.len(),
{
    if es.len() == 0 {
        Map::empty()
    } else {
        entry_map(es.drop_last()).insert(es.last().0, es.last().1)
    }
}

proof fn lemma_entry_map_last(es: Seq<(Seq<u8>, Seq<u8>)>, i: int, k: Seq<u8>)
    requires
        0 <= i < es.len(),
        es[i].0 == k,
        forall|j: int| i < j < es.len() ==> (#[trigger] es[j]).0 != k,
    ensures
        entry_map(es).contains_key(k),
        entry_map(es)[k] == es[i].1,
    decreases es.len(),
{
    if i < es.len() - 1 {
        let d = es.drop_last();
        assert forall|j: int| i < j < d.len() implies (#[trigger] d[j]).0 != k by {
            assert(d[j] == es[j]);
        }
        lemma_entry_map_last(d, i, k);
        assert(es.last() == es[es.len() - 1]);
    }
}

proof fn lemma_entry_map_absent(es: Seq<(Seq<u8>, Seq<u8>)>, k: Seq<u8>)
    requires
        forall|j: int| 0 <= j < es.len() ==> (#[trigger] es[j]).0 != k,
    ensures
        !entry_map(es).contains_key(k),
    decreases es.len(),
{
    if es.len() > 0 {
        let d = es.drop_last();
        assert forall|j: int| 0 <= j < d.len() implies (#[trigger] d[j]).0 != k by {
            assert(d[j] == es[j]);
        }
        lemma_entry_map_absent(d, k);
        assert(es.last() == es[es.len() - 1]);
    }
}

/// A map from byte strings to byte strings.
pub struct ByteMap {
    entries: Vec<(Vec<u8>, Vec<u8>)>,
}

impl View for ByteMap {
    type V = Map<Seq<u8>, Seq<u8>>;

    closed spec fn view(&self) -> Map<Seq<u8>, Seq<u8>> {
        entry_map(self.entries@.map_values(|e: (Vec<u8>, Vec<u8>)| (e.0@, e.1@)))
    }
}

impl ByteMap {
    /// An empty map.
    pub fn new() -> (r: Self)
        ensures
            r@ == Map::<Seq<u8>, Seq<u8>>::empty(),
    {
        let r = ByteMap { entries: Vec::new() };
        assert(r.entries@.map_values(|e: (Vec<u8>, Vec<u8>)| (e.0@, e.1@)) =~= Seq::empty());
        r
    }

    /// Maps `key` to `value`.
    pub fn insert(&mut self, key: &[u8], value: &[u8])
        ensures
            final(self)@ == old(self)@.insert(key@, value@),
    {
        let ghost before = self.entries@.map_values(|e: (Vec<u8>, Vec<u8>)| (e.0@, e.1@));
        self.entries.push((copy_bytes(key), copy_bytes(value)));
        let ghost after = self.entries@.map_values(|e: (Vec<u8>, Vec<u8>)| (e.0@, e.1@));
        assert(after.drop_last() =~= before);
    }

    /// The value of `key`, if any.
    pub fn get(&self, key: &[u8]) -> (r: Option<Vec<u8>>)
        ensures
            r matches Some(v) ==> self@.contains_key(key@) && self@[key@] == v@,
            r is None ==> !self@.contains_key(key@),
    {
        let ghost es = self.entries@.map_values(|e: (Vec<u8>, Vec<u8>)| (e.0@, e.1@));
        let mut i: usize = self.entries.len();
        while i > 0
            invariant
                i <= self.entries@.len(),
                es == self.entries@.map_values(|e: (Vec<u8>, Vec<u8>)| (e.0@, e.1@)),
                forall|j: int| i <= j < es.len() ==> (#[trigger] es[j]).0 != key@,
            decreases i,
        {
            i = i - 1;
            if bytes_eq(self.entries[i].0.as_slice(), key) {
                proof {
                    lemma_entry_map_last(es, i as int, key@);
                }
                return Some(copy_bytes(self.entries[i].1.as_slice()));
            }
        }
        proof {
            lemma_entry_map_absent(es, key@);
        }
        None
    }
}

/// Serialized key material, stored apart from the file under a key id.
pub struct FileKeyMaterialStore {
    key_material_map: ByteMap,
}

impl View for FileKeyMaterialStore {
    type V = Map<Seq<u8>, Seq<u8>>;

    closed spec fn view(&self) -> Map<Seq<u8>, Seq<u8>> {
        self.key_material_map@
    }
}

impl FileKeyMaterialStore {
    /// An empty store.
    pub fn new() -> (r: Self)
        ensures
            r@ == Map::<Seq<u8>, Seq<u8>>::empty(),
    {
        FileKeyMaterialStore { key_material_map: ByteMap::new() }
    }

    /// Stores `key_material` under `key_id`.
    pub fn add_key_material(&mut self, key_id: &[u8], key_material: &[u8])
        ensures
            final(self)@ == old(self)@.insert(key_id@, key_material@),
    {
        self.key_material_map.insert(key_id, key_material);
    }

    /// The key material stored under `key_id`, if any.
    pub fn get_key_material(&self, key_id: &[u8]) -> (r: Option<Vec<u8>>)
        ensures
            r matches Some(v) ==> self@.contains_key(key_id@) && self@[key_id@] == v@,
            r is None ==> !self@.contains_key(key_id@),
    {
        self.key_material_map.get(key_id)
    }
}

/// Maps key metadata, or a key id, to raw key bytes; implemented by the user,
/// most often over a key-management service.
pub trait DecryptionKeyRetriever {
    /// The raw key that `key_metadata` designates, or [`Error::KeyRetrievalFailed`].
    fn get_key(&mut self, key_metadata: &[u8]) -> Result<Vec<u8>>;
}

/// Unwraps an encoded wrapped key with a wrapping key; implemented by the user.
pub trait KeyUnwrapper {
    /// The key that `encoded_wrapped_key` wraps under `wrapping_key`.
    fn unwrap_key(&mut self, encoded_wrapped_key: &[u8], wrapping_key: &[u8]) -> Result<Vec<u8>>;
}

/// Decides whether an AAD prefix supplied apart from the file is the expected one.
pub trait AadPrefixVerifier {
    /// Whether `aad_prefix` is accepted.
    fn verify(&self, aad_prefix: &[u8]) -> bool;
}

/// The key material of parsed key metadata, looked up in `store` when external.
/// Fails with [`Error::KeyRetrievalFailed`] when the reference is not in the
/// store, and with [`Error::KeyMetadataMalformed`] when what is stored does not parse.
pub fn resolve_key_material(md: &KeyMetadata, store: &FileKeyMaterialStore) -> (r: Result<KeyMaterial>)
    ensures
        md@ matches KeyMetadataModel::Internal(m) ==> r is Ok && r->Ok_0@ == m,
        md@ matches KeyMetadataModel::External(k) ==> (!store@.contains_key(k) <==> r == Err::<KeyMaterial, Error>(
            Error::KeyRetrievalFailed,
        )),
        md@ matches KeyMetadataModel::External(k) ==> store@.contains_key(k) ==> (r is Ok || r == Err::<
            KeyMaterial,
            Error,
        >(Error::KeyMetadataMalformed)),
        md@ matches KeyMetadataModel::External(k) ==> store@.contains_key(k) ==> forall|fs: Seq<(Seq<u8>, RecordValueModel)>|
            plain_fields(fs) && #[trigger] render_record(fs) == store@[k] ==> (r is Ok <==> key_material_of(fs) is Some) && (
            r is Ok ==> key_material_of(fs) == Some(r->Ok_0@)),
{
    match md.key_material() {
        Some(m) => Ok(m.copy()),
        None => {
            let reference = match md.key_reference() {
                Some(k) => k,
                None => return Err(Error::KeyRetrievalFailed),
            };
            match store.get_key_material(reference) {
                Some(bytes) => KeyMaterial::parse(bytes.as_slice()),
                None => Err(Error::KeyRetrievalFailed),
            }
        },
    }
}

/// What wraps a data key: a key at hand, or a key-encryption key that must
/// first be unwrapped with the master key.
pub enum KekStep {
    /// Unwrap the data key with this key.
    UseKey(Vec<u8>),
    /// Unwrap the key-encryption key with this id and encoded wrapped form,
    /// cache it, then unwrap the data key with it.
    UnwrapKek(Vec<u8>, Vec<u8>),
}

/// The step that gives the key wrapping `material`'s data key: the master key
/// for a single-wrapped key; for a double-wrapped one its key-encryption key
/// from the cache, or else the order to unwrap it.
pub fn kek_step(material: &KeyMaterial, master_key: &[u8], kek_cache: &ByteMap) -> (r: KekStep)
    ensures
        material@.kek_id matches Some(id) ==> (material@.encoded_wrapped_kek matches Some(w) ==> (
            kek_cache@.contains_key(id) ==> (r matches KekStep::UseKey(k) && k@ == kek_cache@[id]))),
        material@.kek_id matches Some(id) ==> (material@.encoded_wrapped_kek matches Some(w) ==> (
            !kek_cache@.contains_key(id) ==> (r matches KekStep::UnwrapKek(i2, w2) && i2@ == id && w2@ == w))),
        !(material@.kek_id is Some && material@.encoded_wrapped_kek is Some) ==> (r matches KekStep::UseKey(k) && k@
            == master_key@),
{
    match (material.kek_id(), material.encoded_wrapped_kek()) {
        (Some(kek_id), Some(wrapped_kek)) => match kek_cache.get(kek_id) {
            Some(k) => KekStep::UseKey(k),
            None => KekStep::UnwrapKek(copy_bytes(kek_id), copy_bytes(wrapped_kek)),
        },
        _ => KekStep::UseKey(copy_bytes(master_key)),
    }
}

/// The retrieval of data keys for one file, with its cache of unwrapped
/// key-encryption keys by KEK id.
pub struct FileKeyUnwrapper<R: DecryptionKeyRetriever, U: KeyUnwrapper> {
    kek_per_kek_id: ByteMap,
    store: FileKeyMaterialStore,
    master_keys: R,
    unwrapper: U,
}

impl<R: DecryptionKeyRetriever, U: KeyUnwrapper> FileKeyUnwrapper<R, U> {
    /// The cached key-encryption keys.
    pub closed spec fn kek_cache(&self) -> Map<Seq<u8>, Seq<u8>> {
        self.kek_per_kek_id@
    }

    /// The store of external key material.
    pub closed spec fn store(&self) -> Map<Seq<u8>, Seq<u8>> {
        self.store@
    }

    /// An unwrapper with an empty KEK cache.
    pub fn new(store: FileKeyMaterialStore, master_keys: R, unwrapper: U) -> (r: Self)
        ensures
            r.kek_cache() == Map::<Seq<u8>, Seq<u8>>::empty(),
            r.store() == store@,
    {
        FileKeyUnwrapper { kek_per_kek_id: ByteMap::new(), store, master_keys, unwrapper }
    }

    /// The raw data key that `key_metadata` designates. The master key comes
    /// from the retriever under the material's master key id; [`kek_step`]
    /// then decides the key that unwraps the data key: the master key, a cached
    /// key-encryption key, or one unwrapped with the master key and cached.
    pub fn get_key(&mut self, key_metadata: &[u8]) -> (r: Result<Vec<u8>>)
        ensures
            final(self).store() == old(self).store(),
            forall|k: Seq<u8>| #[trigger] old(self).kek_cache().contains_key(k) ==> final(self).kek_cache().contains_key(k)
                && final(self).kek_cache()[k] == old(self).kek_cache()[k],
            (forall|fs: Seq<(Seq<u8>, RecordValueModel)>|
                plain_fields(fs) && #[trigger] render_record(fs) == key_metadata@ ==> key_metadata_of(fs) is None) ==> r
                == Err::<Vec<u8>, Error>(Error::KeyMetadataMalformed),
            (exists|fs: Seq<(Seq<u8>, RecordValueModel)>|
                plain_fields(fs) && #[trigger] render_record(fs) == key_metadata@ && (key_metadata_of(fs) matches Some(
                    KeyMetadataModel::External(k),
                ) && !old(self).store().contains_key(k))) ==> r == Err::<Vec<u8>, Error>(Error::KeyRetrievalFailed),
            r is Ok ==> exists|fs: Seq<(Seq<u8>, RecordValueModel)>|
                plain_fields(fs) && #[trigger] render_record(fs) == key_metadata@ && key_metadata_of(fs) is Some,
            forall|fs: Seq<(Seq<u8>, RecordValueModel)>|
                plain_fields(fs) && #[trigger] render_record(fs) == key_metadata@ ==> (key_metadata_of(fs) matches Some(
                    KeyMetadataModel::Internal(m),
                ) ==> (m.kek_id is None ==> final(self).kek_cache() == old(self).kek_cache()) && (m.kek_id matches Some(
                    id,
                ) ==> (old(self).kek_cache().contains_key(id) ==> final(self).kek_cache() == old(self).kek_cache())
                    && (r is Ok ==> final(self).kek_cache().contains_key(id)))),
    {
        let md = match KeyMetadata::parse(key_metadata) {
            Ok(md) => md,
            Err(e) => return Err(e),
        };
        let material = match resolve_key_material(&md, &self.store) {
            Ok(m) => m,
            Err(e) => return Err(e),
        };
        let master_key = match self.master_keys.get_key(material.master_key_id()) {
            Ok(k) => k,
            Err(_) => return Err(Error::KeyRetrievalFailed),
        };
        match kek_step(&material, master_key.as_slice(), &self.kek_per_kek_id) {
            KekStep::UseKey(k) => self.unwrapper.unwrap_key(material.encoded_wrapped_dek(), k.as_slice()),
            KekStep::UnwrapKek(kek_id, wrapped_kek) => {
                let kek = match self.unwrapper.unwrap_key(wrapped_kek.as_slice(), master_key.as_slice()) {
                    Ok(k) => k,
                    Err(e) => return Err(e),
                };
                self.kek_per_kek_id.insert(kek_id.as_slice(), kek.as_slice());
                self.unwrapper.unwrap_key(material.encoded_wrapped_dek(), kek.as_slice())
            },
        }
    }
}

} // verus!
