use vstd::prelude::*;
use crate::bytes_util::{be_bytes, read_be_u32, lemma_be_round_trip, put_u32_be, get_u32_be, extend_from, copy_range};
use crate::text::{push_dec, push_str};

verus! {

/// Size of the header of a stored cache object: two big-endian `u32` lengths.
pub const HEADER_SIZE: usize = 8;

/// A cached response: its two serialised meta parts and its body.
#[derive(Debug, Default, PartialEq)]
pub struct CacheObject {
    pub meta: (Vec<u8>, Vec<u8>),
    pub body: Vec<u8>,
}

/// The mathematical value of a cache object: (meta0, meta1, body).
pub type ObjectModel = (Seq<u8>, Seq<u8>, Seq<u8>);

impl Clone for CacheObject {
    fn clone(&self) -> (r: Self)
        ensures
            r.model() == self.model(),
    {
        CacheObject { meta: (self.meta.0.clone(), self.meta.1.clone()), body: self.body.clone() }
    }
}

impl CacheObject {
    pub open spec fn model(&self) -> ObjectModel {
        (self.meta.0@, self.meta.1@, self.body@)
    }

    /// Both meta lengths fit the `u32` fields of the stored layout, and the
    /// whole stored form fits in memory.
    pub open spec fn well_formed(&self) -> bool {
        model_fits(self.model())
    }

    /// An object with empty meta and an empty body.
    pub fn empty() -> (r: CacheObject)
        ensures
            r.model() == empty_model(),
    {
        CacheObject { meta: (Vec::new(), Vec::new()), body: Vec::new() }
    }

    /// The stored form: `len(meta0)`, `len(meta1)` (big-endian `u32`), then
    /// `meta0 || meta1 || body`.
    pub fn encode(&self) -> (r: Vec<u8>)
        requires
            self.well_formed(),
        ensures
            r@ == encode_model(self.model()),
    {
        let mut buf: Vec<u8> = Vec::new();
        put_u32_be(&mut buf, self.meta.0.len() as u32);
        put_u32_be(&mut buf, self.meta.1.len() as u32);
        extend_from(&mut buf, self.meta.0.as_slice());
        extend_from(&mut buf, self.meta.1.as_slice());
        extend_from(&mut buf, self.body.as_slice());
        buf
    }

    /// Reads a stored object. A buffer too short for the header, or whose
    /// lengths run past its end (a truncated file), gives the empty object.
    pub fn decode(buf: &[u8]) -> (r: CacheObject)
        ensures
            r.model() == decode_model(buf@),
    {
        if buf.len() < HEADER_SIZE {
            return CacheObject::empty();
        }
        let n0 = get_u32_be(buf, 0) as usize;
        let n1 = get_u32_be(buf, 4) as usize;
        let rest = buf.len() - HEADER_SIZE;
        if n0 > rest || n1 > rest - n0 {
            return CacheObject::empty();
        }
        let m0_end = HEADER_SIZE + n0;
        let m1_end = m0_end + n1;
        let meta0 = copy_range(buf, HEADER_SIZE, m0_end);
        let meta1 = copy_range(buf, m0_end, m1_end);
        let body = copy_range(buf, m1_end, buf.len());
        CacheObject { meta: (meta0, meta1), body }
    }
}

pub open spec fn empty_model() -> ObjectModel {
    (Seq::empty(), Seq::empty(), Seq::empty())
}

pub open spec fn model_fits(m: ObjectModel) -> bool {
    &&& m.0.len() <= u32::MAX
    &&& m.1.len() <= u32::MAX
    &&& HEADER_SIZE + m.0.len() + m.1.len() + m.2.len() <= usize::MAX
}

pub open spec fn encode_model(m: ObjectModel) -> Seq<u8> {
    be_bytes(m.0.len() as u32) + be_bytes(m.1.len() as u32) + m.0 + m.1 + m.2
}

pub open spec fn decode_model(b: Seq<u8>) -> ObjectModel {
    if b.len() < HEADER_SIZE {
        empty_model()
    } else {
        let n0 = read_be_u32(b, 0) as int;
        let n1 = read_be_u32(b, 4) as int;
        if HEADER_SIZE + n0 + n1 > b.len() {
            empty_model()
        } else {
            (
                b.subrange(8, 8 + n0),
                b.subrange(8 + n0, 8 + n0 + n1),
                b.subrange(8 + n0 + n1, b.len() as int),
            )
        }
    }
}

/// Decoding the stored form of a well-formed object gives the object back.
pub proof fn lemma_decode_encode(m: ObjectModel)
    requires
        model_fits(m),
    ensures
        decode_model(encode_model(m)) == m,
{
    let b = encode_model(m);
    let n0 = m.0.len() as u32;
    let n1 = m.1.len() as u32;
    lemma_be_round_trip(n0);
    lemma_be_round_trip(n1);
    assert(b.subrange(0, 4) =~= be_bytes(n0));
    assert(b.subrange(4, 8) =~= be_bytes(n1));
    assert(b[0] == be_bytes(n0)[0] && b[1] == be_bytes(n0)[1] && b[2] == be_bytes(n0)[2] && b[3] == be_bytes(n0)[3]);
    assert(b[4] == be_bytes(n1)[0] && b[5] == be_bytes(n1)[1] && b[6] == be_bytes(n1)[2] && b[7] == be_bytes(n1)[3]);
    assert(read_be_u32(b, 0) == n0);
    assert(read_be_u32(b, 4) == n1);
    let l0 = m.0.len() as int;
    let l1 = m.1.len() as int;
    assert(b.subrange(8, 8 + l0) =~= m.0);
    assert(b.subrange(8 + l0, 8 + l0 + l1) =~= m.1);
    assert(b.subrange(8 + l0 + l1, b.len() as int) =~= m.2);
}

/// A buffer shorter than the header decodes to the empty object.
pub proof fn lemma_decode_short(b: Seq<u8>)
    requires
        b.len() < HEADER_SIZE,
    ensures
        decode_model(b) == empty_model(),
{
}

} // verus!

verus! {

/// Errors of the cache layer.
#[derive(Debug)]
pub enum CacheError {
    /// A request that cannot be served, such as a seek past the end.
    Invalid { message: String },
    /// Reading or writing the persistent tier failed.
    Io { message: String },
}

/// The model of a hit handle: the body, whether the current range was read,
/// and the current range.
pub struct HitModel {
    pub body: Seq<u8>,
    pub done: bool,
    pub range_start: int,
    pub range_end: int,
}

/// A cache hit whose body is held in memory; it can serve byte ranges.
pub struct CompleteHit {
    body: Vec<u8>,
    done: bool,
    range_start: usize,
    range_end: usize,
}

/// The bytes a hit hands out for its current range; an end before the start
/// gives nothing.
pub open spec fn range_bytes(h: HitModel) -> Seq<u8> {
    if h.range_end < h.range_start {
        Seq::empty()
    } else {
        h.body.subrange(h.range_start, h.range_end)
    }
}

impl CompleteHit {
    pub closed spec fn model(&self) -> HitModel {
        HitModel {
            body: self.body@,
            done: self.done,
            range_start: self.range_start as int,
            range_end: self.range_end as int,
        }
    }

    pub open spec fn wf(&self) -> bool {
        let m = self.model();
        &&& 0 <= m.range_start <= m.body.len()
        &&& 0 <= m.range_end <= m.body.len()
    }

    /// A handle over the whole of `body`, not read yet.
    pub fn new(body: Vec<u8>) -> (r: CompleteHit)
        ensures
            r.wf(),
            r.model() == (HitModel { body: body@, done: false, range_start: 0, range_end: body@.len() as int }),
    {
        let size = body.len();
        CompleteHit { body, done: false, range_start: 0, range_end: size }
    }

    /// The bytes of the current range, once; `None` once they were read.
    pub fn get(&mut self) -> (r: Option<Vec<u8>>)
        requires
            old(self).wf(),
        ensures
            final(self).wf(),
            old(self).model().done ==> r is None && final(self).model() == old(self).model(),
            !old(self).model().done ==> {
                &&& r is Some
                &&& r->Some_0@ == range_bytes(old(self).model())
                &&& final(self).model() == HitModel { done: true, ..old(self).model() }
            },
    {
        if self.done {
            None
        } else {
            self.done = true;
            if self.range_end < self.range_start {
                Some(Vec::new())
            } else {
                Some(copy_range(self.body.as_slice(), self.range_start, self.range_end))
            }
        }
    }

    /// Moves to the range `[start, min(len, end))`; without `end` the end of
    /// the range stays. The range can then be read again. A start at or past
    /// the end of the body is refused.
    pub fn seek(&mut self, start: usize, end: Option<usize>) -> (r: Result<(), CacheError>)
        requires
            old(self).wf(),
        ensures
            final(self).wf(),
            start >= old(self).model().body.len() <==> r is Err,
            r is Err ==> r->Err_0 is Invalid && final(self).model() == old(self).model(),
            r is Ok ==> final(self).model() == (HitModel {
                body: old(self).model().body,
                done: false,
                range_start: start as int,
                range_end: match end {
                    Some(e) => if e < old(self).model().body.len() { e as int } else { old(self).model().body.len() as int },
                    None => old(self).model().range_end,
                },
            }),
    {
        let len = self.body.len();
        if start >= len {
            let mut message = String::from_str("seek start out of range ");
            push_dec(&mut message, start as u64);
            push_str(&mut message, " >= ");
            push_dec(&mut message, len as u64);
            return Err(CacheError::Invalid { message });
        }
        self.range_start = start;
        if let Some(e) = end {
            self.range_end = if e < len { e } else { len };
        }
        self.done = false;
        Ok(())
    }
}

/// Admission weight of a cached body of `size` bytes: small bodies weigh more.
pub open spec fn weight_of(size: int) -> u16 {
    if size < 50 * 1024 {
        4
    } else if size < 500 * 1024 {
        2
    } else {
        1
    }
}

/// The admission weight for a body of `size` bytes.
pub fn get_wegith(size: usize) -> (r: u16)
    ensures
        r == weight_of(size as int),
        1 <= r <= 4,
{
    if size < 50 * 1024 {
        return 4;
    }
    if size < 500 * 1024 {
        return 2;
    }
    1
}

/// A key-to-object store behind the HTTP cache.
pub trait HttpCacheStorage {
    /// The object stored under `key`, if any.
    fn get(&mut self, key: &str) -> Option<CacheObject>;

    /// Stores `data` under `key` with an admission weight.
    fn put(&mut self, key: String, data: CacheObject, weight: u16) -> Result<(), CacheError>
        requires
            weight > 0,
    ;

    /// Removes the object under `key`; returns it when the store knows it.
    fn remove(&mut self, key: &str) -> Result<Option<CacheObject>, CacheError>;
}

/// Collects the body of a response that missed the cache, and stores it
/// with its meta when the response is complete.
pub struct ObjectMissHandler {
    pub meta: (Vec<u8>, Vec<u8>),
    pub body: Vec<u8>,
    pub key: String,
}

impl ObjectMissHandler {
    pub fn new(key: String, meta: (Vec<u8>, Vec<u8>)) -> (r: ObjectMissHandler)
        ensures
            r.key@ == key@,
            r.meta.0@ == meta.0@,
            r.meta.1@ == meta.1@,
            r.body@.len() == 0,
    {
        ObjectMissHandler { meta, body: Vec::new(), key }
    }

    /// Appends a chunk of the body.
    pub fn write_body(&mut self, data: &[u8])
        ensures
            final(self).body@ == old(self).body@ + data@,
            final(self).meta == old(self).meta,
            final(self).key == old(self).key,
    {
        extend_from(&mut self.body, data);
    }

    /// What `finish` stores: the key, the object, and the weight of its body.
    pub fn into_entry(self) -> (r: (String, CacheObject, u16))
        ensures
            r.0@ == self.key@,
            r.1.model() == (self.meta.0@, self.meta.1@, self.body@),
            r.2 == weight_of(self.body@.len() as int),
    {
        let weight = get_wegith(self.body.len());
        (self.key, CacheObject { meta: self.meta, body: self.body }, weight)
    }

    /// Stores the collected object and returns the size of its body.
    pub fn finish<S: HttpCacheStorage>(self, storage: &mut S) -> (r: Result<usize, CacheError>)
        ensures
            r is Ok ==> r->Ok_0 == self.body@.len(),
    {
        let size = self.body.len();
        let (key, obj, weight) = self.into_entry();
        let stored = storage.put(key, obj, weight);
        finished(stored, size)
    }
}

/// The result of a finished miss: the body size once stored, else the
/// store's error unchanged.
pub fn finished(stored: Result<(), CacheError>, size: usize) -> (r: Result<usize, CacheError>)
    ensures
        stored is Ok ==> r == Ok::<usize, CacheError>(size),
        stored is Err ==> r == Err::<usize, CacheError>(stored->Err_0),
{
    match stored {
        Ok(()) => Ok(size),
        Err(e) => Err(e),
    }
}

} // verus!
