use vstd::prelude::*;
use vstd::string::StrSliceExecFns;
use vstd::string::StringSliceAdditionalSpecFns;

use crate::cache::ResultCache;
use crate::cache_model::{after_get, after_put, keys_distinct, lemma_get_after_put, lookup, Entries};
use crate::engine::EngineError;
use crate::fingerprint::{generate_cache_key, key_of};
use crate::params::{valid_dims, ThumbnailParams};

verus! {

/// What the dispatcher decides about an inbound request before any
/// rendering work is scheduled.
pub enum BeginOutcome {
    /// A caller error: respond with a client error; neither the engine nor
    /// the cache key's entry is touched.
    Invalid,
    /// The result was already cached: respond immediately with these bytes.
    Hit(Vec<u8>),
    /// Not cached: rendering must be scheduled under this key.
    Miss(String),
}

/// A transport-ready response: a status code, a marker for the image
/// content type, and the body bytes.
pub struct HttpResponse {
    pub status: u16,
    pub is_png: bool,
    pub body: Vec<u8>,
}

/// The status an engine failure maps to: a caller error is the client's
/// fault, an unresolved source is missing, everything else is a server
/// error. Internal detail is never echoed to the client.
pub open spec fn status_of(e: EngineError) -> u16 {
    match e {
        EngineError::InvalidParameters => 400,
        EngineError::SourceNotFound => 404,
        _ => 500,
    }
}

/// The one diagnostic an error response carries: fixed and non-sensitive,
/// whatever internal error occurred, so decoder messages and filesystem
/// layout never reach a client.
pub open spec fn spec_error_body() -> Seq<u8> {
    ("Failed to generate thumbnail").spec_bytes()
}

fn status_code(e: EngineError) -> (s: u16)
    ensures
        s == status_of(e),
{
    match e {
        EngineError::InvalidParameters => 400,
        EngineError::SourceNotFound => 404,
        _ => 500,
    }
}

/// The cache-aware front half of a request: invalid parameters are rejected
/// before the cache or the engine is consulted; otherwise the fingerprint
/// key is derived, and a cached result is served immediately while a miss
/// hands the key back for rendering.
pub fn begin_request(cache: &mut ResultCache, image_path: &str, params: &ThumbnailParams) -> (r:
    BeginOutcome)
    requires
        old(cache).wf(),
    ensures
        final(cache).wf(),
        final(cache).capacity() == old(cache).capacity(),
        !valid_dims(*params) ==> r is Invalid && final(cache).entries() == old(cache).entries(),
        valid_dims(*params) ==> final(cache).entries() == after_get(
            old(cache).entries(),
            key_of(image_path.spec_bytes(), *params),
        ),
        valid_dims(*params) ==> match r {
            BeginOutcome::Invalid => false,
            BeginOutcome::Hit(v) => lookup(
                old(cache).entries(),
                key_of(image_path.spec_bytes(), *params),
            ) == Some(v@),
            BeginOutcome::Miss(k) => k@ == key_of(image_path.spec_bytes(), *params) && lookup(
                old(cache).entries(),
                key_of(image_path.spec_bytes(), *params),
            ) is None,
        },
{
    if params.width == 0 || params.height == 0 {
        return BeginOutcome::Invalid;
    }
    let key = generate_cache_key(image_path, params);
    match cache.get(&key) {
        Some(v) => BeginOutcome::Hit(v),
        None => BeginOutcome::Miss(key),
    }
}

/// The back half of a request whose rendering was offloaded: a successful
/// render is stored under its key and served with the image content type; a
/// failure is served as an error and is never cached, so the next identical
/// request retries instead of seeing a pinned failure.
pub fn complete_request(
    cache: &mut ResultCache,
    key: String,
    rendered: Result<Vec<u8>, EngineError>,
) -> (resp: HttpResponse)
    requires
        old(cache).wf(),
    ensures
        final(cache).wf(),
        final(cache).capacity() == old(cache).capacity(),
        match rendered {
            Ok(v) => final(cache).entries() == after_put(
                old(cache).entries(),
                old(cache).capacity(),
                key@,
                v@,
            ) && resp.status == 200 && resp.is_png && resp.body@ == v@,
            Err(e) => final(cache).entries() == old(cache).entries() && resp.status == status_of(e)
                && !resp.is_png && resp.body@ == spec_error_body(),
        },
{
    match rendered {
        Ok(v) => {
            let stored = vstd::slice::slice_to_vec(v.as_slice());
            cache.put(key, stored);
            HttpResponse { status: 200, is_png: true, body: v }
        },
        Err(e) => HttpResponse {
            status: status_code(e),
            is_png: false,
            body: "Failed to generate thumbnail".as_bytes_vec(),
        },
    }
}

/// Idempotent serving: once a render for a request has been completed and
/// its bytes stored under the request's fingerprint key, looking that key up
/// again finds exactly those bytes — an identical request is served from the
/// cache, byte for byte, with no second render.
pub proof fn lemma_idempotent_serving(
    es: Entries,
    cap: nat,
    path_bytes: Seq<u8>,
    p: ThumbnailParams,
    v: Seq<u8>,
)
    requires
        keys_distinct(es),
        es.len() <= cap,
        1 <= cap,
    ensures
        lookup(after_put(es, cap, key_of(path_bytes, p), v), key_of(path_bytes, p)) == Some(v),
{
    lemma_get_after_put(es, cap, key_of(path_bytes, p), v);
}

/// The per-key in-flight registry that deduplicates concurrent renders:
/// before rendering a missed key, a request must claim it, and only the
/// single claimant renders while the others wait for its completion.
pub struct InFlight {
    keys: Vec<String>,
}

impl InFlight {
    /// The keys whose renders are currently in flight.
    pub closed spec fn pending(&self) -> Seq<Seq<char>> {
        self.keys@.map_values(|s: String| s@)
    }

    pub open spec fn pending_contains(&self, x: Seq<char>) -> bool {
        self.pending().contains(x)
    }

    /// No key is claimed twice.
    pub open spec fn wf(&self) -> bool {
        forall|i: int, j: int|
            0 <= i < j < self.pending().len() ==> self.pending()[i] != self.pending()[j]
    }

    /// An empty registry: nothing in flight.
    pub fn new() -> (r: InFlight)
        ensures
            r.wf(),
            forall|x: Seq<char>| !r.pending_contains(x),
    {
        InFlight { keys: Vec::new() }
    }

    fn position_of(&self, k: &String) -> (r: Option<usize>)
        ensures
            match r {
                Some(i) => i < self.pending().len() && self.pending()[i as int] == k@,
                None => !self.pending_contains(k@),
            },
    {
        let mut i: usize = 0;
        while i < self.keys.len()
            invariant
                i <= self.keys@.len(),
                forall|j: int| 0 <= j < i ==> self.pending()[j] != k@,
            decreases self.keys@.len() - i,
        {
            let hit = self.keys[i] == *k;
            proof {
                assert(self.pending()[i as int] == self.keys@[i as int]@);
            }
            if hit {
                return Some(i);
            }
            i = i + 1;
        }
        proof {
            if self.pending().contains(k@) {
                let j = choose|j: int| 0 <= j < self.pending().len() && self.pending()[j] == k@;
                assert(self.pending()[j] != k@);
            }
        }
        None
    }

    /// Claims a key for rendering. The claim succeeds exactly when no other
    /// request holds the key; afterwards the key is in flight either way.
    pub fn try_claim(&mut self, k: &String) -> (claimed: bool)
        requires
            old(self).wf(),
        ensures
            final(self).wf(),
            claimed <==> !old(self).pending_contains(k@),
            forall|x: Seq<char>|
                final(self).pending_contains(x) <==> (old(self).pending_contains(x) || x == k@),
    {
        match self.position_of(k) {
            Some(i) => {
                proof {
                    assert(self.pending_contains(k@)) by {
                        assert(self.pending()[i as int] == k@);
                    }
                }
                false
            },
            None => {
                let ghost before = self.pending();
                self.keys.push(k.clone());
                proof {
                    assert(self.pending() =~= before.push(k@));
                    assert forall|x: Seq<char>|
                        self.pending_contains(x) <==> (before.contains(x) || x == k@) by {
                        if self.pending().contains(x) {
                            let j = choose|j: int|
                                0 <= j < self.pending().len() && self.pending()[j] == x;
                            if j < before.len() {
                                assert(before[j] == x);
                            }
                        }
                        if before.contains(x) {
                            let j = choose|j: int| 0 <= j < before.len() && before[j] == x;
                            assert(self.pending()[j] == x);
                        }
                        if x == k@ {
                            assert(self.pending()[before.len() as int] == x);
                        }
                    }
                }
                true
            },
        }
    }

    /// Releases a claimed key once its render has completed (or failed):
    /// afterwards a key is in flight exactly when it was and is not `k`.
    pub fn release(&mut self, k: &String)
        requires
            old(self).wf(),
        ensures
            final(self).wf(),
            forall|x: Seq<char>|
                final(self).pending_contains(x) <==> (old(self).pending_contains(x) && x != k@),
    {
        match self.position_of(k) {
            Some(i) => {
                let ghost before = self.pending();
                let ghost ii = i as int;
                self.keys.remove(i);
                proof {
                    assert(self.pending() =~= before.remove(ii));
                    assert forall|x: Seq<char>|
                        self.pending_contains(x) <==> (before.contains(x) && x != k@) by {
                        if self.pending().contains(x) {
                            let j = choose|j: int|
                                0 <= j < self.pending().len() && self.pending()[j] == x;
                            let j0 = if j < ii {
                                j
                            } else {
                                j + 1
                            };
                            assert(before[j0] == x);
                            if x == k@ {
                                assert(before[ii] == k@);
                                assert(j0 != ii);
                            }
                        }
                        if before.contains(x) && x != k@ {
                            let j = choose|j: int| 0 <= j < before.len() && before[j] == x;
                            assert(before[ii] == k@);
                            assert(j != ii);
                            if j < ii {
                                assert(self.pending()[j] == x);
                            } else {
                                assert(self.pending()[j - 1] == x);
                            }
                        }
                    }
                }
            },
            None => {
                proof {
                    assert forall|x: Seq<char>|
                        self.pending_contains(x) <==> (old(self).pending_contains(x) && x != k@) by {
                        if x == k@ {
                            assert(!self.pending_contains(x));
                        }
                    }
                }
            },
        }
    }
}

} // verus!
