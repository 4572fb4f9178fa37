use tcrelay::cache::{CacheStore, FanoutBody};

#[test]
fn cache_static() {
    let mut cachestore = CacheStore::new();
    let mut body = FanoutBody::new(b"/test".to_vec());

    // the one data frame; the upstream declares its end on the frame itself
    body.on_data(&mut cachestore, b"you wouldn't download a fox", true);

    let res = cachestore.get(b"/test").unwrap();
    assert_eq!(res, &b"you wouldn't download a fox".to_vec());
    assert_eq!(res.len(), 27);

    // make sure extra polling does not mess up the cache
    body.on_end(&mut cachestore);
    let res = cachestore.get(b"/test").unwrap().clone();
    assert_eq!(res, b"you wouldn't download a fox".to_vec());

    let res = cachestore.remove(b"/test").unwrap();
    assert_eq!(res, b"you wouldn't download a fox".to_vec());
    assert!(cachestore.get(b"/test").is_none());
}

#[test]
fn insert_get_remove() {
    let mut store = CacheStore::new();
    store.insert(b"/x".to_vec(), b"beep boop".to_vec());
    assert_eq!(store.get(b"/x").unwrap(), &b"beep boop".to_vec());
    store.insert(b"/x".to_vec(), b"replaced".to_vec());
    assert_eq!(store.get(b"/x").unwrap(), &b"replaced".to_vec());
    assert_eq!(store.remove(b"/x"), Some(b"replaced".to_vec()));
    assert!(store.get(b"/x").is_none());
    assert_eq!(store.remove(b"/x"), None);
}

#[test]
fn distinct_paths_kept_apart() {
    let mut store = CacheStore::new();
    store.insert(b"/a".to_vec(), b"one".to_vec());
    store.insert(b"/b".to_vec(), b"two".to_vec());
    assert_eq!(store.get(b"/a").unwrap(), &b"one".to_vec());
    assert_eq!(store.get(b"/b").unwrap(), &b"two".to_vec());
    assert!(store.get(b"/c").is_none());
    store.remove(b"/a");
    assert!(store.get(b"/a").is_none());
    assert_eq!(store.get(b"/b").unwrap(), &b"two".to_vec());
}

#[test]
fn empty_insert_rejected() {
    let mut store = CacheStore::new();
    store.insert(b"/x".to_vec(), Vec::new());
    assert!(store.get(b"/x").is_none());
}

#[test]
fn fanout_streams_then_publishes() {
    let mut store = CacheStore::new();
    let mut body = FanoutBody::new(b"/p".to_vec());
    body.on_data(&mut store, b"hello ", false);
    body.on_data(&mut store, b"world", false);
    assert!(store.get(b"/p").is_none());
    body.on_end(&mut store);
    assert_eq!(store.get(b"/p").unwrap(), &b"hello world".to_vec());
}

#[test]
fn fanout_error_midway_publishes_nothing() {
    let mut store = CacheStore::new();
    let mut body = FanoutBody::new(b"/p".to_vec());
    body.on_data(&mut store, b"partial", false);
    // the upstream errors here: the fan-out is dropped with no end signal seen
    drop(body);
    assert!(store.get(b"/p").is_none());
}

#[test]
fn fanout_empty_stream_publishes_nothing() {
    let mut store = CacheStore::new();
    let mut body = FanoutBody::new(b"/p".to_vec());
    body.on_end(&mut store);
    assert!(store.get(b"/p").is_none());
}
