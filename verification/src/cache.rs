//! Cache store — a mapping from path to completed body bytes — and the
//! fan-out buffer that accumulates an upstream stream and publishes it to the
//! store exactly once, when the stream ends with at least one byte.

use vstd::prelude::*;
use vstd::slice::slice_to_vec;

verus! {

/// Whether the paths of `s` are pairwise distinct.
pub open spec fn keys_distinct(s: Seq<(Vec<u8>, Vec<u8>)>) -> bool {
    forall|i: int, j: int|
        0 <= i < j < s.len() ==> (#[trigger] s[i]).0@ != (#[trigger] s[j]).0@
}

/// The mapping from path to content that an entry list holds.
pub open spec fn map_of(s: Seq<(Vec<u8>, Vec<u8>)>) -> Map<Seq<u8>, Seq<u8>> {
    Map::new(
        |k: Seq<u8>| exists|i: int| 0 <= i < s.len() && (#[trigger] s[i]).0@ == k,
        |k: Seq<u8>|
            {
                let i = choose|i: int| 0 <= i < s.len() && (#[trigger] s[i]).0@ == k;
                s[i].1@
            },
    )
}

/// An entry with path `s[i].0` is in the mapping, under that path.
proof fn lemma_map_of_at(s: Seq<(Vec<u8>, Vec<u8>)>, i: int)
    requires
        keys_distinct(s),
        0 <= i < s.len(),
    ensures
        map_of(s).contains_key(s[i].0@),
        map_of(s)[s[i].0@] == s[i].1@,
{
    let k = s[i].0@;
    assert(exists|j: int| 0 <= j < s.len() && (#[trigger] s[j]).0@ == k);
    let j = choose|j: int| 0 <= j < s.len() && (#[trigger] s[j]).0@ == k;
    assert(j == i);
}

/// A path matching no entry is not in the mapping.
proof fn lemma_map_of_absent(s: Seq<(Vec<u8>, Vec<u8>)>, k: Seq<u8>)
    requires
        forall|i: int| 0 <= i < s.len() ==> (#[trigger] s[i]).0@ != k,
    ensures
        !map_of(s).contains_key(k),
{
}

/// Removing entry `i` removes exactly its path from the mapping.
proof fn lemma_map_of_remove(s: Seq<(Vec<u8>, Vec<u8>)>, i: int)
    requires
        keys_distinct(s),
        0 <= i < s.len(),
    ensures
        keys_distinct(s.remove(i)),
        map_of(s.remove(i)) == map_of(s).remove(s[i].0@),
{
    let s2 = s.remove(i);
    assert forall|a: int, b: int| 0 <= a < b < s2.len() implies (#[trigger] s2[a]).0@ != (
    #[trigger] s2[b]).0@ by {
        let a0 = if a < i {
            a
        } else {
            a + 1
        };
        let b0 = if b < i {
            b
        } else {
            b + 1
        };
        assert(s2[a] == s[a0] && s2[b] == s[b0]);
    }
    assert forall|k: Seq<u8>| true implies #[trigger] map_of(s2).contains_key(k) == map_of(
        s,
    ).remove(s[i].0@).contains_key(k) by {
        if k == s[i].0@ {
            assert forall|j: int| 0 <= j < s2.len() implies (#[trigger] s2[j]).0@ != k by {
                let j0 = if j < i {
                    j
                } else {
                    j + 1
                };
                assert(s2[j] == s[j0] && j0 != i);
            }
            lemma_map_of_absent(s2, k);
        } else {
            if map_of(s).contains_key(k) {
                let j = choose|j: int| 0 <= j < s.len() && (#[trigger] s[j]).0@ == k;
                let j2 = if j < i {
                    j
                } else {
                    j - 1
                };
                assert(s2[j2] == s[j]);
                assert(map_of(s2).contains_key(k));
            }
            if map_of(s2).contains_key(k) {
                let j = choose|j: int| 0 <= j < s2.len() && (#[trigger] s2[j]).0@ == k;
                let j0 = if j < i {
                    j
                } else {
                    j + 1
                };
                assert(s[j0] == s2[j]);
                assert(map_of(s).contains_key(k));
            }
        }
    }
    assert forall|k: Seq<u8>| map_of(s2).contains_key(k) implies #[trigger] map_of(s2)[k] == map_of(
        s,
    ).remove(s[i].0@)[k] by {
        let j = choose|j: int| 0 <= j < s2.len() && (#[trigger] s2[j]).0@ == k;
        lemma_map_of_at(s2, j);
        let j0 = if j < i {
            j
        } else {
            j + 1
        };
        assert(s[j0] == s2[j]);
        lemma_map_of_at(s, j0);
    }
    assert(map_of(s.remove(i)) =~= map_of(s).remove(s[i].0@));
}

/// Appending an entry with a fresh path adds exactly that pair to the mapping.
proof fn lemma_map_of_push(s: Seq<(Vec<u8>, Vec<u8>)>, kv: (Vec<u8>, Vec<u8>))
    requires
        keys_distinct(s),
        forall|i: int| 0 <= i < s.len() ==> (#[trigger] s[i]).0@ != kv.0@,
    ensures
        keys_distinct(s.push(kv)),
        map_of(s.push(kv)) == map_of(s).insert(kv.0@, kv.1@),
{
    let s2 = s.push(kv);
    assert forall|a: int, b: int| 0 <= a < b < s2.len() implies (#[trigger] s2[a]).0@ != (
    #[trigger] s2[b]).0@ by {
        if b < s.len() {
            assert(s2[a] == s[a] && s2[b] == s[b]);
        } else {
            assert(s2[a] == s[a] && s2[b] == kv);
        }
    }
    assert forall|k: Seq<u8>| true implies #[trigger] map_of(s2).contains_key(k) == map_of(
        s,
    ).insert(kv.0@, kv.1@).contains_key(k) by {
        if k == kv.0@ {
            assert(s2[s.len() as int] == kv);
            assert(map_of(s2).contains_key(k));
        } else {
            if map_of(s).contains_key(k) {
                let j = choose|j: int| 0 <= j < s.len() && (#[trigger] s[j]).0@ == k;
                assert(s2[j] == s[j]);
                assert(map_of(s2).contains_key(k));
            }
            if map_of(s2).contains_key(k) {
                let j = choose|j: int| 0 <= j < s2.len() && (#[trigger] s2[j]).0@ == k;
                assert(j < s.len() && s2[j] == s[j]);
                assert(map_of(s).contains_key(k));
            }
        }
    }
    assert forall|k: Seq<u8>| map_of(s2).contains_key(k) implies #[trigger] map_of(s2)[k] == map_of(
        s,
    ).insert(kv.0@, kv.1@)[k] by {
        let j = choose|j: int| 0 <= j < s2.len() && (#[trigger] s2[j]).0@ == k;
        lemma_map_of_at(s2, j);
        if k == kv.0@ {
            assert(j == s.len());
        } else {
            assert(j < s.len() && s2[j] == s[j]);
            lemma_map_of_at(s, j);
        }
    }
    assert(map_of(s.push(kv)) =~= map_of(s).insert(kv.0@, kv.1@));
}

/// Whether two byte slices hold the same bytes.
pub fn bytes_eq(a: &[u8], b: &[u8]) -> (r: bool)
    ensures
        r == (a@ == b@),
{
    if a.len() != b.len() {
        return false;
    }
    let mut i: usize = 0;
    while i < a.len()
        invariant
            a@.len() == b@.len(),
            0 <= i <= a@.len(),
            forall|k: int| 0 <= k < i ==> a@[k] == b@[k],
        decreases a@.len() - i,
    {
        if a[i] != b[i] {
            return false;
        }
        i = i + 1;
    }
    proof {
        assert(a@ =~= b@);
    }
    true
}

/// A mapping from request path to the completed, non-empty body bytes cached
/// under it.
pub struct CacheStore {
    entries: Vec<(Vec<u8>, Vec<u8>)>,
}

impl View for CacheStore {
    type V = Map<Seq<u8>, Seq<u8>>;

    closed spec fn view(&self) -> Map<Seq<u8>, Seq<u8>> {
        map_of(self.entries@)
    }
}

impl CacheStore {
    /// Paths are distinct and every cached body is non-empty.
    pub closed spec fn wf(&self) -> bool {
        &&& keys_distinct(self.entries@)
        &&& forall|i: int|
            0 <= i < self.entries@.len() ==> (#[trigger] self.entries@[i]).1@.len() > 0
    }

    /// An empty store.
    pub fn new() -> (r: CacheStore)
        ensures
            r.wf(),
            r@ == Map::<Seq<u8>, Seq<u8>>::empty(),
    {
        let r = CacheStore { entries: Vec::new() };
        proof {
            assert(r@ =~= Map::<Seq<u8>, Seq<u8>>::empty());
        }
        r
    }

    /// The index holding `uri`, if any.
    fn find(&self, uri: &[u8]) -> (r: Option<usize>)
        ensures
            match r {
                Some(i) => i < self.entries@.len() && self.entries@[i as int].0@ == uri@,
                None => forall|i: int|
                    0 <= i < self.entries@.len() ==> (#[trigger] self.entries@[i]).0@ != uri@,
            },
    {
        let mut i: usize = 0;
        while i < self.entries.len()
            invariant
                0 <= i <= self.entries@.len(),
                forall|k: int| 0 <= k < i ==> (#[trigger] self.entries@[k]).0@ != uri@,
            decreases self.entries@.len() - i,
        {
            if bytes_eq(self.entries[i].0.as_slice(), uri) {
                return Some(i);
            }
            i = i + 1;
        }
        None
    }

    /// Look `uri` up; a hit hands back the cached bytes.
    pub fn get(&self, uri: &[u8]) -> (r: Option<&Vec<u8>>)
        requires
            self.wf(),
        ensures
            match r {
                Some(v) => self@.contains_key(uri@) && v@ == self@[uri@] && v@.len() > 0,
                None => !self@.contains_key(uri@),
            },
    {
        match self.find(uri) {
            Some(i) => {
                proof {
                    lemma_map_of_at(self.entries@, i as int);
                }
                Some(&self.entries[i].1)
            },
            None => {
                proof {
                    lemma_map_of_absent(self.entries@, uri@);
                }
                None
            },
        }
    }

    /// Cache `content` under `uri`, replacing any prior entry; an empty
    /// `content` is rejected and the store is left as it was.
    pub fn insert(&mut self, uri: Vec<u8>, content: Vec<u8>)
        requires
            old(self).wf(),
        ensures
            final(self).wf(),
            content@.len() > 0 ==> final(self)@ == old(self)@.insert(uri@, content@),
            content@.len() == 0 ==> final(self)@ == old(self)@,
    {
        if content.len() == 0 {
            return ;
        }
        let _prior = self.remove(uri.as_slice());
        let ghost mid = self.entries@;
        proof {
            if exists|i: int| 0 <= i < mid.len() && (#[trigger] mid[i]).0@ == uri@ {
                let i = choose|i: int| 0 <= i < mid.len() && (#[trigger] mid[i]).0@ == uri@;
                lemma_map_of_at(mid, i);
                assert(false);
            }
            lemma_map_of_push(mid, (uri, content));
        }
        self.entries.push((uri, content));
        proof {
            assert(final(self)@ =~= old(self)@.insert(uri@, content@)) by {
                assert(map_of(mid) =~= old(self)@.remove(uri@));
            }
        }
    }

    /// Drop the entry under `uri`, handing back what was cached there.
    pub fn remove(&mut self, uri: &[u8]) -> (r: Option<Vec<u8>>)
        requires
            old(self).wf(),
        ensures
            final(self).wf(),
            final(self)@ == old(self)@.remove(uri@),
            match r {
                Some(v) => old(self)@.contains_key(uri@) && v@ == old(self)@[uri@],
                None => !old(self)@.contains_key(uri@),
            },
    {
        match self.find(uri) {
            Some(i) => {
                proof {
                    lemma_map_of_at(self.entries@, i as int);
                    lemma_map_of_remove(self.entries@, i as int);
                }
                let (_key, content) = self.entries.remove(i);
                Some(content)
            },
            None => {
                proof {
                    lemma_map_of_absent(self.entries@, uri@);
                    assert(final(self)@ =~= old(self)@.remove(uri@));
                }
                None
            },
        }
    }
}

/// Cache round trip: inserting then looking up yields the inserted bytes;
/// removing yields them and leaves nothing behind under the path.
pub proof fn lemma_cache_insert_get_remove(m: Map<Seq<u8>, Seq<u8>>, p: Seq<u8>, v: Seq<u8>)
    ensures
        m.insert(p, v).contains_key(p),
        m.insert(p, v)[p] == v,
        !m.insert(p, v).remove(p).contains_key(p),
{
}

/// A fan-out buffer bound to one path: it grows with the upstream data frames
/// and publishes the accumulated body to a cache store when the stream ends.
/// The caller that polls the upstream reports each outcome here.
pub struct FanoutBody {
    pub uri: Vec<u8>,
    pub buffer: Vec<u8>,
}

/// One poll outcome applied to a fan-out state: the frame bytes (empty for an
/// end without a frame) join the buffer; if the upstream declared its end and
/// anything has accumulated, the whole body is published under `uri` and the
/// buffer is dropped, so a later spurious poll is a no-op.
pub open spec fn spec_fanout_step(
    uri: Seq<u8>,
    buf: Seq<u8>,
    store: Map<Seq<u8>, Seq<u8>>,
    data: Seq<u8>,
    end: bool,
) -> (Seq<u8>, Map<Seq<u8>, Seq<u8>>) {
    let grown = buf + data;
    if end && grown.len() > 0 {
        (Seq::<u8>::empty(), store.insert(uri, grown))
    } else {
        (grown, store)
    }
}

impl FanoutBody {
    /// A fresh fan-out buffer for `uri`.
    pub fn new(uri: Vec<u8>) -> (r: FanoutBody)
        ensures
            r.uri@ == uri@,
            r.buffer@ == Seq::<u8>::empty(),
    {
        FanoutBody { uri, buffer: Vec::new() }
    }

    /// Publish: insert the accumulated buffer, if non-empty, then drop it.
    fn publish(&mut self, store: &mut CacheStore)
        requires
            old(store).wf(),
        ensures
            final(store).wf(),
            final(self).uri@ == old(self).uri@,
            old(self).buffer@.len() > 0 ==> final(self).buffer@ == Seq::<u8>::empty()
                && final(store)@ == old(store)@.insert(old(self).uri@, old(self).buffer@),
            old(self).buffer@.len() == 0 ==> final(self).buffer@ == old(self).buffer@
                && final(store)@ == old(store)@,
    {
        if self.buffer.len() > 0 {
            let uri = slice_to_vec(self.uri.as_slice());
            let content = slice_to_vec(self.buffer.as_slice());
            self.buffer = Vec::new();
            store.insert(uri, content);
        }
    }

    /// A data frame arrived; `end` says the upstream declared its end with it.
    pub fn on_data(&mut self, store: &mut CacheStore, data: &[u8], end: bool)
        requires
            old(store).wf(),
        ensures
            final(store).wf(),
            final(self).uri@ == old(self).uri@,
            (final(self).buffer@, final(store)@) == spec_fanout_step(
                old(self).uri@,
                old(self).buffer@,
                old(store)@,
                data@,
                end,
            ),
    {
        let mut chunk = slice_to_vec(data);
        self.buffer.append(&mut chunk);
        if end {
            self.publish(store);
        }
    }

    /// The upstream signalled its definitive end without another frame.
    pub fn on_end(&mut self, store: &mut CacheStore)
        requires
            old(store).wf(),
        ensures
            final(store).wf(),
            final(self).uri@ == old(self).uri@,
            (final(self).buffer@, final(store)@) == spec_fanout_step(
                old(self).uri@,
                old(self).buffer@,
                old(store)@,
                Seq::<u8>::empty(),
                true,
            ),
    {
        proof {
            assert(old(self).buffer@ + Seq::<u8>::empty() =~= old(self).buffer@);
        }
        self.publish(store);
    }
}

/// All the data frames of a stream in order, concatenated.
pub open spec fn concat_frames(frames: Seq<Seq<u8>>) -> Seq<u8>
    decreases frames.len(),
{
    if frames.len() == 0 {
        Seq::<u8>::empty()
    } else {
        concat_frames(frames.drop_last()) + frames.last()
    }
}

/// The fan-out state after forwarding `frames`, none marked end-of-stream.
pub open spec fn spec_fanout_feed(
    uri: Seq<u8>,
    buf: Seq<u8>,
    store: Map<Seq<u8>, Seq<u8>>,
    frames: Seq<Seq<u8>>,
) -> (Seq<u8>, Map<Seq<u8>, Seq<u8>>)
    decreases frames.len(),
{
    if frames.len() == 0 {
        (buf, store)
    } else {
        let prev = spec_fanout_feed(uri, buf, store, frames.drop_last());
        spec_fanout_step(uri, prev.0, prev.1, frames.last(), false)
    }
}

/// While no end-of-stream is seen the store is untouched and the buffer holds
/// exactly the bytes produced so far; a stream that fails mid-way therefore
/// never publishes.
pub proof fn lemma_fanout_no_end_no_publish(
    uri: Seq<u8>,
    buf: Seq<u8>,
    store: Map<Seq<u8>, Seq<u8>>,
    frames: Seq<Seq<u8>>,
)
    ensures
        spec_fanout_feed(uri, buf, store, frames) == (buf + concat_frames(frames), store),
    decreases frames.len(),
{
    if frames.len() == 0 {
        assert(buf + concat_frames(frames) =~= buf);
    } else {
        lemma_fanout_no_end_no_publish(uri, buf, store, frames.drop_last());
        assert((buf + concat_frames(frames.drop_last())) + frames.last() =~= buf + concat_frames(
            frames,
        ));
    }
}

/// After a whole stream — its data frames, then the definitive end signal —
/// the store holds the full body under the path, published exactly once.
pub proof fn lemma_fanout_publishes(
    uri: Seq<u8>,
    store: Map<Seq<u8>, Seq<u8>>,
    frames: Seq<Seq<u8>>,
)
    requires
        concat_frames(frames).len() > 0,
    ensures
        ({
            let fed = spec_fanout_feed(uri, Seq::<u8>::empty(), store, frames);
            spec_fanout_step(uri, fed.0, fed.1, Seq::<u8>::empty(), true) == (
                Seq::<u8>::empty(),
                store.insert(uri, concat_frames(frames)),
            )
        }),
{
    lemma_fanout_no_end_no_publish(uri, Seq::<u8>::empty(), store, frames);
    assert(Seq::<u8>::empty() + concat_frames(frames) =~= concat_frames(frames));
    assert(concat_frames(frames) + Seq::<u8>::empty() =~= concat_frames(frames));
}

/// The other upstream protocol: the end declared on the final data frame
/// itself publishes the same full body.
pub proof fn lemma_fanout_publishes_end_on_last(
    uri: Seq<u8>,
    store: Map<Seq<u8>, Seq<u8>>,
    frames: Seq<Seq<u8>>,
)
    requires
        frames.len() > 0,
        concat_frames(frames).len() > 0,
    ensures
        ({
            let fed = spec_fanout_feed(uri, Seq::<u8>::empty(), store, frames.drop_last());
            spec_fanout_step(uri, fed.0, fed.1, frames.last(), true) == (
                Seq::<u8>::empty(),
                store.insert(uri, concat_frames(frames)),
            )
        }),
{
    lemma_fanout_no_end_no_publish(uri, Seq::<u8>::empty(), store, frames.drop_last());
    assert(Seq::<u8>::empty() + concat_frames(frames.drop_last()) =~= concat_frames(
        frames.drop_last(),
    ));
    assert(concat_frames(frames.drop_last()) + frames.last() =~= concat_frames(frames));
}

/// A spurious poll after publication is a no-op: with an empty buffer an end
/// signal publishes nothing and changes nothing.
pub proof fn lemma_fanout_spurious_end(uri: Seq<u8>, store: Map<Seq<u8>, Seq<u8>>)
    ensures
        spec_fanout_step(uri, Seq::<u8>::empty(), store, Seq::<u8>::empty(), true) == (
            Seq::<u8>::empty(),
            store,
        ),
{
    assert(Seq::<u8>::empty() + Seq::<u8>::empty() =~= Seq::<u8>::empty());
}

} // verus!
