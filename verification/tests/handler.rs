use tcrelay::bloom;
use tcrelay::cache::{CacheStore, FanoutBody};
use tcrelay::handler::{
    cached_reply, handle_delete, handle_not_found, is_metrics_path, should_cache, handle_upstream,
};
use tcrelay::metrics::Metrics;

#[test]
fn no_mirrors() {
    // a request for a path that no mirror can serve, with an empty mirror list
    let mut metrics = Metrics::new();
    let filter = [0_u8; 8192];
    let store = CacheStore::new();
    let path = b"/meow";

    metrics.trace_request();
    assert!(!is_metrics_path(path));
    let seen = bloom::check(&filter, path);
    assert!(!seen);
    assert!(store.get(path).is_none());

    // the empty mirror list is exhausted at once
    let reply = handle_not_found(&mut metrics);
    assert_eq!(reply.status, 404);
    assert_eq!(reply.body.len(), 11);
    assert_eq!(reply.body, b"knot found\n".to_vec());
    assert!(metrics.output().contains("not_found 1"));
}

#[test]
fn seen_skip_interaction() {
    // skip = 1 and two mirrors that both serve the path
    let skip = 1;
    let path = b"/p";
    let body = b"fox bytes";
    let mut filter = [0_u8; 8192];
    let mut store = CacheStore::new();
    let mut metrics = Metrics::new();

    // first request: mirror 0 answers; not cached, the path becomes seen
    metrics.trace_request();
    let seen = bloom::check(&filter, path);
    assert!(!seen);
    assert!(store.get(path).is_none());
    let cache_this = handle_upstream(&mut filter, &mut metrics, seen, 0, skip, path);
    assert!(!cache_this);
    assert!(bloom::check(&filter, path));

    // second request: mirror 0 again; seen, but below the skip threshold
    metrics.trace_request();
    let seen = bloom::check(&filter, path);
    assert!(seen);
    assert!(store.get(path).is_none());
    let cache_this = handle_upstream(&mut filter, &mut metrics, seen, 0, skip, path);
    assert!(!cache_this);
    assert!(store.get(path).is_none());

    // third request: mirror 0 retired, mirror 1 answers; cached now
    metrics.trace_request();
    let seen = bloom::check(&filter, path);
    assert!(seen);
    assert!(store.get(path).is_none());
    let cache_this = handle_upstream(&mut filter, &mut metrics, seen, 1, skip, path);
    assert!(cache_this);
    let mut fanout = FanoutBody::new(path.to_vec());
    fanout.on_data(&mut store, body, false);
    fanout.on_end(&mut store);
    assert_eq!(store.get(path).unwrap(), &body.to_vec());

    // fourth request: served from the cache
    metrics.trace_request();
    assert!(bloom::check(&filter, path));
    let data = store.get(path).unwrap().clone();
    let reply = cached_reply(&data, None, &mut metrics);
    assert_eq!(reply.status, 200);
    assert!(reply.accept_ranges);
    assert_eq!(reply.body, body.to_vec());

    // delete it; a later fetch with the remaining mirror down finds nothing
    metrics.trace_request();
    let reply = handle_delete(&mut store, &mut metrics, path);
    assert_eq!(reply.status, 200);
    assert_eq!(reply.body, b"nom nom\n".to_vec());
    assert!(store.get(path).is_none());

    metrics.trace_request();
    let reply = handle_not_found(&mut metrics);
    assert_eq!(reply.status, 404);
    assert_eq!(reply.body, b"knot found\n".to_vec());
}

#[test]
fn range_on_cached() {
    // a Range header against a cached object, well-formed and broken
    let mut metrics = Metrics::new();
    let data = b"beep boop".to_vec();

    let r = cached_reply(&data, Some(&b"bytes=3-5".to_vec()), &mut metrics);
    assert_eq!(r.status, 206);
    assert!(r.accept_ranges);
    assert_eq!(r.content_range, Some((3, 5, 9)));
    assert_eq!(r.body.len(), 3);

    let r = cached_reply(&data, Some(&b"bytes=meow".to_vec()), &mut metrics);
    assert_eq!(r.status, 416);
    assert_eq!(r.body, b"U WOT M8\n".to_vec());
}

#[test]
fn delete_miss_is_not_found() {
    let mut metrics = Metrics::new();
    let mut store = CacheStore::new();
    let r = handle_delete(&mut store, &mut metrics, b"/absent");
    assert_eq!(r.status, 404);
    assert_eq!(r.body, b"knot found\n".to_vec());
    assert!(metrics.output().contains("deletes 1"));
}

#[test]
fn metrics_path_recognized() {
    assert!(is_metrics_path(b"/_tcrelay/metrics"));
    assert!(!is_metrics_path(b"/_tcrelay/metric"));
    assert!(!is_metrics_path(b"/metrics"));
    assert!(!is_metrics_path(b""));
}

#[test]
fn skip_threshold() {
    assert!(!should_cache(true, 0, 1));
    assert!(!should_cache(false, 5, 1));
    assert!(should_cache(true, 1, 1));
    assert!(should_cache(true, 5, 0));
}
