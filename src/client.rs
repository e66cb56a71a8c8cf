use vstd::prelude::*;
use lru_cache::LruCache;
use crate::assoc::{Assoc, keys_unique, has_key, assoc_get, assoc_put, lemma_key_pos};
use crate::cache::{
    CacheView, lru_entries, lru_capacity, lru_touch, lru_put, lru_new, lru_get, lru_insert,
    lemma_touch_keeps, lemma_put_keeps, lemma_put_then_get,
};
use crate::decode::{decode_body, decoded, property_texts, utf8_decoded, json_accepts};
use crate::fingerprint::{fingerprint, fingerprint_of, is_digest_text};
use crate::headers::Headers;
use crate::properties::{Properties, all_derived};
use crate::value::ValueView;

verus! {

/// Whether a cached map is one that a decode could have given.
pub open spec fn cached_ok(e: (Seq<char>, Assoc<ValueView>)) -> bool {
    keys_unique(e.1) && all_derived(e.1)
}

/// Endpoint parameters and the cache of answers.
pub struct Config {
    pub host: String,
    pub licence_key: String,
    capacity: usize,
    cc: LruCache<String, Properties>,
}

impl Config {
    /// The cached answers, least recently used first.
    pub closed spec fn cached(&self) -> CacheView {
        lru_entries(self.cc)
    }

    pub closed spec fn host_text(&self) -> Seq<char> {
        self.host@
    }

    pub closed spec fn licence_key_text(&self) -> Seq<char> {
        self.licence_key@
    }

    /// The most answers the cache keeps; zero disables it.
    pub closed spec fn cache_capacity(&self) -> nat {
        self.capacity as nat
    }

    pub closed spec fn wf(&self) -> bool {
        &&& lru_capacity(self.cc) == self.capacity
        &&& keys_unique(lru_entries(self.cc))
        &&& lru_entries(self.cc).len() <= self.capacity
        &&& forall|i: int| 0 <= i < lru_entries(self.cc).len() ==> cached_ok(#[trigger] lru_entries(self.cc)[i])
    }

    /// A configuration with an empty cache of `centries` answers.
    pub fn new(host: String, licence_key: String, centries: usize) -> (r: Config)
        ensures
            r.wf(),
            r.host_text() == host@,
            r.licence_key_text() == licence_key@,
            r.cache_capacity() == centries,
            r.cached() == Seq::<(Seq<char>, Assoc<ValueView>)>::empty(),
    {
        Config { host, licence_key, capacity: centries, cc: lru_new(centries) }
    }

    /// The most answers the cache keeps.
    pub fn capacity(&self) -> (r: usize)
        ensures
            r == self.cache_capacity(),
    {
        self.capacity
    }
}

/// A well-formed configuration's cache has unique keys, holds no more
/// answers than its capacity, and holds only maps a decode could give.
pub proof fn lemma_config_cache(c: Config)
    requires
        c.wf(),
    ensures
        keys_unique(c.cached()),
        c.cached().len() <= c.cache_capacity(),
        forall|i: int| 0 <= i < c.cached().len() ==> cached_ok(#[trigger] c.cached()[i]),
{
}

/// The header that must be present for a request to be made.
pub open spec fn ua_key() -> Seq<char> {
    "user-agent"@
}

/// The address asked for the properties of user agent `ua`.
pub open spec fn request_url(host: Seq<char>, licence_key: Seq<char>, ua: Seq<char>) -> Seq<char> {
    "http://"@ + host + "/v1/detect/properties?licencekey="@ + licence_key + "&useragent="@ + ua
}

/// One outgoing header line for a header of the store.
pub open spec fn forwarded(e: (Seq<char>, Seq<char>)) -> Seq<char> {
    "X-DA-"@ + e.0 + ": "@ + e.1
}

/// The outgoing header lines: each header of the store, forwarded in order,
/// then the client's own `User-Agent` and `Accept`.
pub open spec fn outgoing(h: Assoc<Seq<char>>) -> Seq<Seq<char>> {
    h.map_values(|e: (Seq<char>, Seq<char>)| forwarded(e)).push("User-Agent: rust/0.1.0"@).push(
        "Accept: application/json"@,
    )
}

/// A call that the transport has to make.
pub struct FetchPlan {
    pub url: String,
    pub headers: Vec<String>,
    /// The cache key the answer is stored under.
    pub fingerprint: String,
}

impl FetchPlan {
    pub open spec fn header_lines(&self) -> Seq<Seq<char>> {
        self.headers@.map_values(|s: String| s@)
    }
}

/// What a request needs next: nothing (its answer is here), or a fetch.
pub enum Step {
    Done(Properties),
    Fetch(FetchPlan),
}

/// The answer to a fetch: its properties, and whether the body could be
/// decoded at all.
pub struct Reply {
    pub properties: Properties,
    pub decoded: bool,
}

/// Why a request failed.
pub enum RequestError {
    /// The transport could not make the call; its message.
    Transport(String),
}

/// A client of the detection service: a configuration and the headers that
/// describe the device.
pub struct Dacloud {
    cfg: Config,
    pub headers: Headers,
}

impl Dacloud {
    pub closed spec fn config(&self) -> Config {
        self.cfg
    }

    /// The header store.
    pub closed spec fn header_store(&self) -> Headers {
        self.headers
    }

    /// A client with no headers.
    pub fn new(cfg: Config) -> (r: Dacloud)
        ensures
            r.config() == cfg,
            r.header_store().wf(),
            r.header_store()@ == Seq::<(Seq<char>, Seq<char>)>::empty(),
    {
        Dacloud { cfg, headers: Headers::new() }
    }

    /// Sets the header named `k` to `v`.
    pub fn set_header(&mut self, k: String, v: String)
        requires
            old(self).header_store().wf(),
        ensures
            final(self).header_store().wf(),
            final(self).header_store()@ == assoc_put(old(self).header_store()@, k@, v@),
            final(self).config() == old(self).config(),
    {
        self.headers.insert(k, v);
    }

    /// The client's configuration.
    pub fn cfg(&self) -> (r: &Config)
        ensures
            *r == self.config(),
    {
        &self.cfg
    }

    fn forwarded_lines(&self) -> (r: Vec<String>)
        ensures
            r@.map_values(|s: String| s@) == outgoing(self.headers@),
    {
        let mut lines: Vec<String> = Vec::new();
        let n = self.headers.len();
        let mut i: usize = 0;
        while i < n
            invariant
                n == self.headers@.len(),
                i <= n,
                lines@.len() == i,
                forall|j: int| 0 <= j < i ==> (#[trigger] lines@[j])@ == forwarded(self.headers@[j]),
            decreases n - i,
        {
            let (k, v) = self.headers.entry(i);
            let mut line = String::from_str("X-DA-");
            line.append(k.as_str());
            line.append(": ");
            line.append(v.as_str());
            lines.push(line);
            i = i + 1;
        }
        lines.push(String::from_str("User-Agent: rust/0.1.0"));
        lines.push(String::from_str("Accept: application/json"));
        assert(lines@.map_values(|s: String| s@) =~= outgoing(self.headers@));
        lines
    }

    /// The first half of a request: with no `user-agent` header the answer is
    /// empty; a cached answer for the headers' fingerprint is returned as a
    /// copy; otherwise the fetch to make.
    pub fn prepare(&mut self) -> (r: Step)
        requires
            old(self).config().wf(),
            old(self).header_store().wf(),
        ensures
            final(self).header_store() == old(self).header_store(),
            final(self).config().wf(),
            final(self).config().host_text() == old(self).config().host_text(),
            final(self).config().licence_key_text() == old(self).config().licence_key_text(),
            final(self).config().cache_capacity() == old(self).config().cache_capacity(),
            !has_key(old(self).header_store()@, ua_key()) ==> (r matches Step::Done(p) && p@.len() == 0)
                && final(self).config().cached() == old(self).config().cached(),
            has_key(old(self).header_store()@, ua_key()) ==> ({
                let fp = fingerprint_of(old(self).header_store()@);
                let c = old(self).config().cached();
                &&& final(self).config().cached() == lru_touch(c, fp)
                &&& has_key(c, fp) ==> (r matches Step::Done(p) && assoc_get(c, fp) == Some(p@))
                &&& !has_key(c, fp) ==> (r matches Step::Fetch(f) && f.fingerprint@ == fp
                    && is_digest_text(f.fingerprint@)
                    && f.header_lines() == outgoing(old(self).header_store()@)
                    && Some(f.url@) == ({
                        let host = old(self).config().host_text();
                        let lk = old(self).config().licence_key_text();
                        match assoc_get(old(self).header_store()@, ua_key()) {
                            Some(ua) => Some(request_url(host, lk, ua)),
                            None => None,
                        }
                    }))
            }),
    {
        let ua = match self.headers.get("user-agent") {
            Some(v) => v,
            None => {
                proof {
                    reveal_strlit("user-agent");
                    if has_key(self.headers@, ua_key()) {
                        let j = choose|j: int| 0 <= j < self.headers@.len() && #[trigger] self.headers@[j].0 == ua_key();
                        lemma_key_pos(self.headers@, j);
                    }
                }
                return Step::Done(Properties::new());
            },
        };
        let mut url = String::from_str("http://");
        url.append(self.cfg.host.as_str());
        url.append("/v1/detect/properties?licencekey=");
        url.append(self.cfg.licence_key.as_str());
        url.append("&useragent=");
        url.append(ua.as_str());
        let lines = self.forwarded_lines();
        let fp = fingerprint(&self.headers);
        proof {
            lemma_touch_keeps(lru_entries(self.cfg.cc), fp@);
        }
        match lru_get(&mut self.cfg.cc, &fp) {
            Some(p) => Step::Done(p.copy()),
            None => Step::Fetch(FetchPlan { url, headers: lines, fingerprint: fp }),
        }
    }

    /// The second half of a request: the transport's outcome for `plan`.
    /// A decoded answer is stored under the plan's fingerprint when the cache
    /// is enabled; a body that cannot be decoded gives an empty map and is not
    /// stored.
    pub fn complete(&mut self, plan: &FetchPlan, outcome: Result<Vec<u8>, String>) -> (r: Result<
        Reply,
        RequestError,
    >)
        requires
            old(self).config().wf(),
        ensures
            final(self).header_store() == old(self).header_store(),
            final(self).config().wf(),
            final(self).config().host_text() == old(self).config().host_text(),
            final(self).config().licence_key_text() == old(self).config().licence_key_text(),
            final(self).config().cache_capacity() == old(self).config().cache_capacity(),
            outcome matches Err(e) ==> (r matches Err(RequestError::Transport(m)) && m@ == e@)
                && final(self).config().cached() == old(self).config().cached(),
            outcome matches Ok(body) ==> (r matches Ok(reply) && ({
                let c = old(self).config().cached();
                let cap = old(self).config().cache_capacity();
                &&& reply.decoded <==> (utf8_decoded(body@) matches Some(t) && json_accepts(t))
                &&& !reply.decoded ==> reply.properties@.len() == 0 && final(self).config().cached() == c
                &&& reply.decoded ==> reply.properties.wf() && all_derived(reply.properties@)
                &&& reply.decoded ==> (utf8_decoded(body@) matches Some(t)
                    && reply.properties@ == decoded(property_texts(t)))
                &&& reply.decoded && cap > 0 ==> final(self).config().cached()
                    == lru_put(c, cap, plan.fingerprint@, reply.properties@)
                &&& reply.decoded && cap == 0 ==> final(self).config().cached() == c
            })),
    {
        let body = match outcome {
            Ok(b) => b,
            Err(e) => return Err(RequestError::Transport(e)),
        };
        match decode_body(body) {
            Some(props) => {
                if self.cfg.capacity > 0 {
                    let stored = props.copy();
                    proof {
                        lemma_put_keeps(lru_entries(self.cfg.cc), self.cfg.capacity as nat, plan.fingerprint@, stored@);
                    }
                    lru_insert(&mut self.cfg.cc, plan.fingerprint.clone(), stored);
                }
                Ok(Reply { properties: props, decoded: true })
            },
            None => Ok(Reply { properties: Properties::new(), decoded: false }),
        }
    }
}

/// Once an answer `p` for headers `h` is stored in the cache of a
/// well-formed configuration of positive capacity, the next request with the
/// same headers finds `p` under their fingerprint, and so makes no fetch.
pub proof fn lemma_repeat_request_hits(c: Config, h: Assoc<Seq<char>>, p: Assoc<ValueView>)
    requires
        c.wf(),
        c.cache_capacity() > 0,
    ensures
        has_key(lru_put(c.cached(), c.cache_capacity(), fingerprint_of(h), p), fingerprint_of(h)),
        assoc_get(lru_put(c.cached(), c.cache_capacity(), fingerprint_of(h), p), fingerprint_of(h))
            == Some(p),
{
    lemma_config_cache(c);
    lemma_put_then_get(c.cached(), c.cache_capacity(), fingerprint_of(h), p);
}

} // verus!
