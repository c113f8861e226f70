use pingap_core::cache::{finished, get_wegith, CacheError, CacheObject, CompleteHit, HttpCacheStorage, ObjectMissHandler};
use std::io::{Read, Seek, Write};
use pingap_core::store::{body_capacity, meta_update, removed, FileCache, HttpCache, TinyUfoCache};

fn hello() -> CacheObject {
    CacheObject {
        meta: (b"Hello".to_vec(), b"World".to_vec()),
        body: b"Hello World!".to_vec(),
    }
}

#[test]
fn test_complete_hit() {
    let body = b"Hello World!".to_vec();
    let size = body.len();
    let mut hit = CompleteHit::new(body);
    let body = hit.get();
    assert_eq!(true, body.is_some());
    assert_eq!(b"Hello World!".to_vec(), body.unwrap());

    hit.seek(1, Some(size - 1)).unwrap();
    let body = hit.get();
    assert_eq!(true, body.is_some());
    assert_eq!(b"ello World".to_vec(), body.unwrap());
}

#[test]
fn test_object_miss_handler() {
    let key = "key";
    let mut cache = TinyUfoCache::new(10, 10);
    let mut handle = ObjectMissHandler::new(key.to_string(), (b"Hello".to_vec(), b"World".to_vec()));
    handle.write_body(b"Hello World!");
    handle.finish(&mut cache).unwrap();

    let data = cache.get(key).unwrap();
    assert_eq!("Hello World!", std::str::from_utf8(&data.body).unwrap());
}

#[test]
fn test_file_cache() {
    let mut cache = FileCache::new("/tmp/cache".to_string());
    let key = "key".to_string();
    let obj = hello();
    assert_eq!(true, cache.get_memory(&key).is_none());
    let buf = cache.prepare_put(key.clone(), obj.clone(), 1).unwrap();
    assert_eq!(obj, cache.get_memory(&key).unwrap());

    // the bytes go to disk; a fresh memory tier reads the object back from the file
    let mut file = tempfile::tempfile().unwrap();
    file.write_all(&buf).unwrap();
    file.rewind().unwrap();
    let mut stored = vec![];
    file.read_to_end(&mut stored).unwrap();
    let cache = FileCache::new("/tmp/cache".to_string());
    assert_eq!(true, cache.get_memory(&key).is_none());
    assert_eq!(obj, FileCache::from_file(&stored).unwrap());
    // once the file is gone there is nothing to read back
    drop(file);
    assert_eq!(true, FileCache::from_file(&[]).is_none());
    assert_eq!("/tmp/cache/key", cache.file_path(&key));
}

#[test]
fn encode_layout_is_exact() {
    let buf = hello().encode();
    let mut expected = vec![0u8, 0, 0, 5, 0, 0, 0, 5];
    expected.extend_from_slice(b"HelloWorldHello World!");
    assert_eq!(expected, buf);
}

#[test]
fn decode_round_trip() {
    let obj = hello();
    assert_eq!(obj, CacheObject::decode(&obj.encode()));
    let empty = CacheObject::default();
    assert_eq!(empty, CacheObject::decode(&empty.encode()));
}

#[test]
fn decode_short_buffer_is_default() {
    assert_eq!(CacheObject::default(), CacheObject::decode(&[0, 0, 0, 1, 0, 0, 0]));
    assert_eq!(CacheObject::default(), CacheObject::decode(&[]));
}

#[test]
fn decode_truncated_is_default() {
    // claims a 5-byte meta but holds only 2 bytes after the header
    assert_eq!(CacheObject::default(), CacheObject::decode(&[0, 0, 0, 5, 0, 0, 0, 0, 1, 2]));
}

#[test]
fn short_file_is_no_object() {
    assert_eq!(true, FileCache::from_file(&[1, 2, 3]).is_none());
    assert_eq!(Some(CacheObject::default()), FileCache::from_file(&[0; 8]));
}

#[test]
fn weight_thresholds() {
    assert_eq!(4, get_wegith(0));
    assert_eq!(4, get_wegith(50 * 1024 - 1));
    assert_eq!(2, get_wegith(50 * 1024));
    assert_eq!(2, get_wegith(500 * 1024 - 1));
    assert_eq!(1, get_wegith(500 * 1024));
}

#[test]
fn seek_past_end_is_invalid() {
    let mut hit = CompleteHit::new(b"Hello World!".to_vec());
    assert_eq!(b"Hello World!".to_vec(), hit.get().unwrap());
    assert_eq!(true, hit.get().is_none());
    match hit.seek(12, None) {
        Err(CacheError::Invalid { message }) => assert_eq!("seek start out of range 12 >= 12", message),
        _ => panic!("seek past the end must fail"),
    }
    hit.seek(6, Some(100)).unwrap();
    assert_eq!(b"World!".to_vec(), hit.get().unwrap());
}

#[test]
fn http_cache_update_meta_and_purge() {
    let mut http = HttpCache { cached: TinyUfoCache::new(100, 100) };
    assert_eq!(true, http.lookup("k").is_none());
    match http.update_meta("k", (vec![1], vec![2])) {
        Err(CacheError::Invalid { message }) => assert_eq!("no meta found", message),
        _ => panic!("update of a missing object must fail"),
    }
    http.cached.put("k".to_string(), hello(), 4).unwrap();
    assert_eq!(true, http.update_meta("k", (b"A".to_vec(), b"B".to_vec())).unwrap());
    let (meta, mut hit) = http.lookup("k").unwrap();
    assert_eq!((b"A".to_vec(), b"B".to_vec()), meta);
    assert_eq!(b"Hello World!".to_vec(), hit.get().unwrap());
    // the memory tier cannot remove
    assert_eq!(false, http.purge("k"));
}

#[test]
fn miss_capacity_from_content_length() {
    assert_eq!(1234, body_capacity(Some("1234")));
    assert_eq!(5120, body_capacity(Some("abc")));
    assert_eq!(5120, body_capacity(None));
}

#[test]
fn too_large_object_is_refused_by_nothing_small() {
    let mut cache = FileCache::new("dir/".to_string());
    assert_eq!("dir/k", cache.file_path("k"));
    assert_eq!(true, cache.prepare_put("k".to_string(), CacheObject::default(), 4).is_ok());
}

#[test]
fn purge_update_and_finish_steps() {
    assert_eq!(true, removed(&Ok(Some(hello()))));
    assert_eq!(false, removed(&Ok(None)));
    assert_eq!(false, removed(&Err(CacheError::Io { message: "x".to_string() })));
    match meta_update(None, (vec![], vec![])) {
        Err(CacheError::Invalid { message }) => assert_eq!("no meta found", message),
        _ => panic!("nothing to update"),
    }
    let (obj, weight) = meta_update(Some(hello()), (b"A".to_vec(), b"B".to_vec())).unwrap();
    assert_eq!((b"A".to_vec(), b"B".to_vec()), obj.meta);
    assert_eq!(b"Hello World!".to_vec(), obj.body);
    assert_eq!(4, weight);
    assert_eq!(12, finished(Ok(()), 12).unwrap());
    assert!(matches!(finished(Err(CacheError::Io { message: "disk".to_string() }), 12), Err(CacheError::Io { .. })));
}
