//! Request handler decisions: the reply type, the DELETE and metrics paths,
//! the cache-hit reply, and the bookkeeping after an upstream answer.

use vstd::prelude::*;
use vstd::string::StringSliceAdditionalSpecFns;

use crate::bloom;
use crate::cache::{bytes_eq, CacheStore};
use crate::metrics::{counted, Metrics, MetricsView};
use crate::ranges;

verus! {

/// What the handler answers: a status, whether ranges are advertised
/// (`Accept-Ranges: bytes`), an optional `Content-Range` triple
/// (first byte, last byte, total length), and the body bytes.
pub struct Reply {
    pub status: u16,
    pub accept_ranges: bool,
    pub content_range: Option<(usize, usize, usize)>,
    pub body: Vec<u8>,
}

/// The bytes of `s`, as an owned buffer.
pub fn static_body(s: &str) -> (r: Vec<u8>)
    ensures
        r@ == s.spec_bytes(),
{
    vstd::slice::slice_to_vec(s.as_bytes())
}

/// The 404 reply: `knot found`.
pub fn not_found() -> (r: Reply)
    ensures
        r.status == 404,
        !r.accept_ranges,
        r.content_range == None::<(usize, usize, usize)>,
        r.body@ == ("knot found\n").spec_bytes(),
{
    Reply {
        status: 404,
        accept_ranges: false,
        content_range: None,
        body: static_body("knot found\n"),
    }
}

/// Whether `path` is the reserved metrics path.
pub fn is_metrics_path(path: &[u8]) -> (r: bool)
    ensures
        r == (path@ == ("/_tcrelay/metrics").spec_bytes()),
{
    bytes_eq(path, "/_tcrelay/metrics".as_bytes())
}

/// Answer a DELETE: count it, drop the cache entry under the path, and reply
/// `nom nom` when something was there, the 404 reply when nothing was.
pub fn handle_delete(store: &mut CacheStore, metrics: &mut Metrics, path: &[u8]) -> (r: Reply)
    requires
        old(store).wf(),
    ensures
        final(store).wf(),
        final(store)@ == old(store)@.remove(path@),
        final(metrics)@ == (MetricsView {
            deletes: counted(old(metrics)@.deletes),
            ..old(metrics)@
        }),
        old(store)@.contains_key(path@) ==> r.status == 200 && r.body@ == (
        "nom nom\n").spec_bytes() && !r.accept_ranges && r.content_range == None::<
            (usize, usize, usize),
        >,
        !old(store)@.contains_key(path@) ==> r.status == 404 && r.body@ == (
        "knot found\n").spec_bytes(),
{
    metrics.trace_delete();
    match store.remove(path) {
        Some(_prior) => Reply {
            status: 200,
            accept_ranges: false,
            content_range: None,
            body: static_body("nom nom\n"),
        },
        None => not_found(),
    }
}

/// Answer a request from the cache: count the hit, advertise ranges, honor a
/// `Range` header when one came, else hand the whole cached body back.
pub fn cached_reply(data: &Vec<u8>, range: Option<&Vec<u8>>, metrics: &mut Metrics) -> (r: Reply)
    ensures
        final(metrics)@ == (MetricsView { hits: counted(old(metrics)@.hits), ..old(metrics)@ }),
        r.accept_ranges,
        match range {
            None => r.status == 200 && r.content_range == None::<(usize, usize, usize)> && r.body@
                == data@,
            Some(h) => match ranges::spec_parse(h@, data@.len() as usize) {
                Some((a, b)) => r.status == 206 && r.content_range == Some(
                    (a, b, data@.len() as usize),
                ) && r.body@ == data@.subrange(a as int, b as int + 1),
                None => r.status == 416 && r.content_range == None::<(usize, usize, usize)>
                    && r.body@ == ("U WOT M8\n").spec_bytes(),
            },
        },
{
    metrics.trace_hit();
    match range {
        Some(h) => ranges::ranged_response(data, h.as_slice()),
        None => Reply {
            status: 200,
            accept_ranges: true,
            content_range: None,
            body: vstd::slice::slice_to_vec(data.as_slice()),
        },
    }
}

/// Whether a response from mirror `mindex` enters the cache: only when the
/// path was already seen and the mirror is at or past the skip threshold.
pub open spec fn spec_should_cache(seen: bool, mindex: usize, skip: usize) -> bool {
    seen && mindex >= skip
}

/// Decide caching for a response from mirror `mindex`.
pub fn should_cache(seen: bool, mindex: usize, skip: usize) -> (r: bool)
    ensures
        r == spec_should_cache(seen, mindex, skip),
{
    seen && mindex >= skip
}

/// Skip threshold: a response from a mirror below the threshold never enters
/// the cache, whether or not the path was seen.
pub proof fn lemma_skip_never_caches(seen: bool, mindex: usize, skip: usize)
    requires
        mindex < skip,
    ensures
        !spec_should_cache(seen, mindex, skip),
{
}

/// Bookkeeping after the mirror at `mindex` answered a request for `path`
/// that missed the cache: count the miss; decide caching; when caching, count
/// that too and leave the filter alone; when not, mark the path as seen so
/// the next identical request may cache.
pub fn handle_upstream(
    filter: &mut [u8; 8192],
    metrics: &mut Metrics,
    seen: bool,
    mindex: usize,
    skip: usize,
    path: &[u8],
) -> (cache_this: bool)
    ensures
        cache_this == spec_should_cache(seen, mindex, skip),
        cache_this ==> final(filter)@ == old(filter)@ && final(metrics)@ == (MetricsView {
            misses: counted(old(metrics)@.misses),
            cached: counted(old(metrics)@.cached),
            ..old(metrics)@
        }),
        !cache_this ==> final(filter)@ == bloom::spec_add(old(filter)@, path@) && final(metrics)@
            == (MetricsView { misses: counted(old(metrics)@.misses), ..old(metrics)@ }),
{
    metrics.trace_miss();
    if should_cache(seen, mindex, skip) {
        metrics.trace_cache();
        true
    } else {
        bloom::add(filter, path);
        false
    }
}

/// No mirror served the path: count it and answer the 404 reply.
pub fn handle_not_found(metrics: &mut Metrics) -> (r: Reply)
    ensures
        final(metrics)@ == (MetricsView {
            not_found: counted(old(metrics)@.not_found),
            ..old(metrics)@
        }),
        r.status == 404,
        !r.accept_ranges,
        r.content_range == None::<(usize, usize, usize)>,
        r.body@ == ("knot found\n").spec_bytes(),
{
    metrics.trace_404();
    not_found()
}

} // verus!
