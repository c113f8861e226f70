use vstd::prelude::*;
use crate::cache::{CacheObject, CacheError, CompleteHit, HitModel, HttpCacheStorage, ObjectMissHandler, ObjectModel, decode_model, encode_model, model_fits, lemma_decode_encode, get_wegith, weight_of, HEADER_SIZE};
use crate::parse::{parse_bounded, parse_max};
use crate::text::{push_str, push_char};
use tinyufo::TinyUfo;

verus! {

#[verifier::external_type_specification]
#[verifier::external_body]
#[verifier::reject_recursive_types(K)]
#[verifier::reject_recursive_types(T)]
pub struct ExTinyUfo<K, T>(TinyUfo<K, T>);

/// The objects that the in-memory tier holds, whatever their keys.
pub uninterp spec fn ufo_objects(c: TinyUfo<String, CacheObject>) -> Set<ObjectModel>;

/// Relies on `TinyUfo::new`: a new cache holds nothing.
#[verifier::external_body]
fn ufo_new(total_weight_limit: usize, estimated_size: usize) -> (r: TinyUfo<String, CacheObject>)
    ensures
        ufo_objects(r) == Set::<ObjectModel>::empty(),
{
    TinyUfo::new(total_weight_limit, estimated_size)
}

/// Relies on `TinyUfo::get`: it hands out a clone of an object it holds. The
/// key is hashed with a per-cache seed, so no more is promised of which one.
#[verifier::external_body]
fn ufo_get(c: &TinyUfo<String, CacheObject>, key: &String) -> (r: Option<CacheObject>)
    ensures
        r is Some ==> ufo_objects(*c).contains(r->Some_0.model()),
{
    c.get(key)
}

/// Relies on `TinyUfo::put`: the object may be admitted, replacing the one
/// under the same key, and others may be evicted; it asserts a positive weight.
#[verifier::external_body]
fn ufo_put(c: &mut TinyUfo<String, CacheObject>, key: String, data: CacheObject, weight: u16)
    requires
        weight > 0,
    ensures
        forall|o: ObjectModel| #[trigger] ufo_objects(*final(c)).contains(o) ==> ufo_objects(*old(c)).contains(o) || o == data.model(),
{
    c.put(key, data, weight);
}

/// A cache held in memory only, with TinyLFU admission.
pub struct TinyUfoCache {
    cache: TinyUfo<String, CacheObject>,
}

impl TinyUfoCache {
    pub closed spec fn objects(&self) -> Set<ObjectModel> {
        ufo_objects(self.cache)
    }

    pub fn new(total_weight_limit: usize, estimated_size: usize) -> (r: TinyUfoCache)
        ensures
            r.objects() == Set::<ObjectModel>::empty(),
    {
        TinyUfoCache { cache: ufo_new(total_weight_limit, estimated_size) }
    }

    /// An object of the cache; only objects that were put come out.
    pub fn lookup(&self, key: &str) -> (r: Option<CacheObject>)
        ensures
            r is Some ==> self.objects().contains(r->Some_0.model()),
    {
        ufo_get(&self.cache, &key.to_string())
    }

    /// Offers `data` to the cache; nothing but `data` joins what it holds.
    pub fn store(&mut self, key: String, data: CacheObject, weight: u16)
        requires
            weight > 0,
        ensures
            forall|o: ObjectModel| #[trigger] final(self).objects().contains(o) ==> old(self).objects().contains(o) || o == data.model(),
    {
        ufo_put(&mut self.cache, key, data, weight);
    }
}

impl HttpCacheStorage for TinyUfoCache {
    fn get(&mut self, key: &str) -> Option<CacheObject> {
        self.lookup(key)
    }

    fn put(&mut self, key: String, data: CacheObject, weight: u16) -> Result<(), CacheError> {
        self.store(key, data, weight);
        Ok(())
    }

    /// The memory tier cannot remove: entries age out under admission pressure.
    fn remove(&mut self, key: &str) -> Result<Option<CacheObject>, CacheError> {
        Ok(None)
    }
}

/// The in-memory tier of a file cache: 100 units of weight.
pub const FILE_CACHE_WEIGHT_LIMIT: usize = 100;

/// What the persistent tier gives back for the bytes of a file: nothing for
/// a file shorter than the header, else the decoded object.
pub open spec fn file_object(b: Seq<u8>) -> Option<ObjectModel> {
    if b.len() < HEADER_SIZE {
        None
    } else {
        Some(decode_model(b))
    }
}

/// The path of the file that holds `key` under `dir`.
pub open spec fn file_path_of(dir: Seq<char>, key: Seq<char>) -> Seq<char> {
    if dir.len() > 0 && dir.last() == '/' {
        dir + key
    } else {
        dir + seq!['/'] + key
    }
}

/// A two-tier cache: objects live in files named by their key under a
/// directory, and the hot ones also in memory. The file reads and writes
/// themselves are done by the caller with the paths and bytes given here.
pub struct FileCache {
    pub directory: String,
    pub memory: TinyUfoCache,
}

impl FileCache {
    pub closed spec fn memory_objects(&self) -> Set<ObjectModel> {
        self.memory.objects()
    }

    pub fn new(directory: String) -> (r: FileCache)
        ensures
            r.directory@ == directory@,
            r.memory_objects() == Set::<ObjectModel>::empty(),
    {
        FileCache { directory, memory: TinyUfoCache::new(FILE_CACHE_WEIGHT_LIMIT, FILE_CACHE_WEIGHT_LIMIT) }
    }

    /// The path of the file for `key`.
    pub fn file_path(&self, key: &str) -> (r: String)
        ensures
            r@ == file_path_of(self.directory@, key@),
    {
        let mut p = self.directory.clone();
        let n = p.as_str().unicode_len();
        if n == 0 || p.as_str().get_char(n - 1) != '/' {
            push_char(&mut p, '/');
        }
        push_str(&mut p, key);
        p
    }

    /// The memory tier's object for `key`, if it has one.
    pub fn get_memory(&self, key: &str) -> (r: Option<CacheObject>)
        ensures
            r is Some ==> self.memory_objects().contains(r->Some_0.model()),
    {
        self.memory.lookup(key)
    }

    /// The object held by a file of the persistent tier.
    pub fn from_file(buf: &[u8]) -> (r: Option<CacheObject>)
        ensures
            r is Some <==> file_object(buf@) is Some,
            r is Some ==> r->Some_0.model() == file_object(buf@)->Some_0,
    {
        if buf.len() < HEADER_SIZE {
            None
        } else {
            Some(CacheObject::decode(buf))
        }
    }

    /// Puts `data` in the memory tier and returns the bytes to write to its
    /// file. An object too large for the stored layout is refused.
    pub fn prepare_put(&mut self, key: String, data: CacheObject, weight: u16) -> (r: Result<Vec<u8>, CacheError>)
        requires
            weight > 0,
        ensures
            r is Ok <==> data.well_formed(),
            r is Ok ==> r->Ok_0@ == encode_model(data.model()),
            r is Err ==> r->Err_0 is Invalid,
            forall|o: ObjectModel| #[trigger] final(self).memory_objects().contains(o) ==> old(self).memory_objects().contains(o) || o == data.model(),
            final(self).directory == old(self).directory,
    {
        if !fits(&data) {
            return Err(CacheError::Invalid { message: String::from_str("cache object too large") });
        }
        let buf = data.encode();
        self.memory.store(key, data, weight);
        Ok(buf)
    }
}

/// Whether `o` fits the stored layout.
pub fn fits(o: &CacheObject) -> (r: bool)
    ensures
        r == o.well_formed(),
{
    let a = o.meta.0.len();
    let b = o.meta.1.len();
    let c = o.body.len();
    a <= u32::MAX as usize && b <= u32::MAX as usize && a <= usize::MAX - HEADER_SIZE
        && b <= usize::MAX - HEADER_SIZE - a && c <= usize::MAX - HEADER_SIZE - a - b
}

/// The bytes written for a well-formed object read back as that object.
pub proof fn lemma_file_round_trip(m: ObjectModel)
    requires
        model_fits(m),
    ensures
        file_object(encode_model(m)) == Some(m),
{
    lemma_decode_encode(m);
}

} // verus!

verus! {

/// Buffer size for a missed body whose length is not announced.
pub const DEFAULT_BODY_CAPACITY: usize = 5120;

/// The HTTP cache over a key-to-object store.
pub struct HttpCache<S: HttpCacheStorage> {
    pub cached: S,
}

/// The meta parts of `o` and a hit handle over its whole body.
pub fn hit_of(o: CacheObject) -> (r: ((Vec<u8>, Vec<u8>), CompleteHit))
    ensures
        r.0.0@ == o.meta.0@,
        r.0.1@ == o.meta.1@,
        r.1.wf(),
        r.1.model() == (HitModel { body: o.body@, done: false, range_start: 0, range_end: o.body@.len() as int }),
{
    let CacheObject { meta, body } = o;
    (meta, CompleteHit::new(body))
}

/// `o` with its meta replaced, and the weight to store it with.
pub fn with_meta(o: CacheObject, meta: (Vec<u8>, Vec<u8>)) -> (r: (CacheObject, u16))
    ensures
        r.0.model() == (meta.0@, meta.1@, o.body@),
        r.1 == weight_of(o.body@.len() as int),
{
    let weight = get_wegith(o.body.len());
    (CacheObject { meta, body: o.body }, weight)
}

/// The buffer size for a missed body: its announced length when that reads
/// as a number, else the default.
pub fn body_capacity(content_length: Option<&str>) -> (r: usize)
    ensures
        r == match content_length {
            Some(s) => match parse_bounded(s@, usize::MAX as nat) {
                Some(v) => v as usize,
                None => DEFAULT_BODY_CAPACITY,
            },
            None => DEFAULT_BODY_CAPACITY,
        },
{
    match content_length {
        Some(s) => match parse_max(s, usize::MAX as u64) {
            Some(v) => v as usize,
            None => DEFAULT_BODY_CAPACITY,
        },
        None => DEFAULT_BODY_CAPACITY,
    }
}

impl<S: HttpCacheStorage> HttpCache<S> {
    /// The meta and a hit handle for `key`, when the store has it.
    pub fn lookup(&mut self, key: &str) -> (r: Option<((Vec<u8>, Vec<u8>), CompleteHit)>)
        ensures
            r is Some ==> r->Some_0.1.wf() && !r->Some_0.1.model().done && r->Some_0.1.model().range_start == 0
                && r->Some_0.1.model().range_end == r->Some_0.1.model().body.len(),
    {
        match self.cached.get(key) {
            Some(o) => Some(hit_of(o)),
            None => None,
        }
    }

    /// A handler that collects a missed body for `key`.
    pub fn get_miss_handler(&self, key: String, meta: (Vec<u8>, Vec<u8>)) -> (r: ObjectMissHandler)
        ensures
            r.key@ == key@,
            r.meta.0@ == meta.0@,
            r.meta.1@ == meta.1@,
            r.body@.len() == 0,
    {
        ObjectMissHandler::new(key, meta)
    }

    /// Removes `key`; true only when the store reports an object removed.
    pub fn purge(&mut self, key: &str) -> bool {
        let res = self.cached.remove(key);
        removed(&res)
    }

    /// Replaces the meta of the object under `key` and stores it again with
    /// the weight of its body. Without an object there it fails as invalid.
    pub fn update_meta(&mut self, key: &str, meta: (Vec<u8>, Vec<u8>)) -> (r: Result<bool, CacheError>)
        ensures
            r is Ok ==> r->Ok_0,
    {
        let found = self.cached.get(key);
        match meta_update(found, meta) {
            Ok((obj, weight)) => match self.cached.put(key.to_string(), obj, weight) {
                Ok(()) => Ok(true),
                Err(e) => Err(e),
            },
            Err(e) => Err(e),
        }
    }
}

/// Whether a removal reports an object removed.
pub fn removed(res: &Result<Option<CacheObject>, CacheError>) -> (r: bool)
    ensures
        r == (res is Ok && res->Ok_0 is Some),
{
    match res {
        Ok(Some(_)) => true,
        _ => false,
    }
}

/// What a meta update stores, from what the store held: nothing there is
/// an invalid update; else the object with the new meta and the weight of
/// its body.
pub fn meta_update(found: Option<CacheObject>, meta: (Vec<u8>, Vec<u8>)) -> (r: Result<(CacheObject, u16), CacheError>)
    ensures
        r is Ok <==> found is Some,
        found is None ==> r->Err_0 is Invalid && r->Err_0->Invalid_message@ == "no meta found"@,
        found is Some ==> r->Ok_0.0.model() == (meta.0@, meta.1@, found->Some_0.body@)
            && r->Ok_0.1 == weight_of(found->Some_0.body@.len() as int),
{
    match found {
        Some(o) => Ok(with_meta(o, meta)),
        None => Err(CacheError::Invalid { message: String::from_str("no meta found") }),
    }
}

} // verus!
