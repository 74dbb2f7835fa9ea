//! The request-handling core: classifying the request line, extracting the
//! requested resource path and the request body, the shared per-process
//! state with its memoizing site cache, and the per-connection decision
//! logic. All byte-level rules are stated over sequence models.

use crate::cache::{bytes_eq, clone_bytes, SiteCache};
use crate::matcher::{find_in_buffer, first_match, has_match, is_match_at, lemma_first_match_props};
use crate::numbers::{extract_number, extract_spec};
use crate::response::HttpResponseStatus;
use vstd::prelude::*;
use vstd::slice::slice_subrange;

verus! {

/// ASCII space.
pub const SPACE: u8 = 32;

/// Largest request body the server accepts, in bytes.
pub const BODY_LIMIT: i64 = 8192;

/// The bytes of `"Content-Length: "`.
pub open spec fn content_length_field() -> Seq<u8> {
    seq![67u8, 111, 110, 116, 101, 110, 116, 45, 76, 101, 110, 103, 116, 104, 58, 32]
}

/// Builds the `"Content-Length: "` token.
pub fn content_length_field_bytes() -> (r: Vec<u8>)
    ensures
        r@ == content_length_field(),
{
    let r: Vec<u8> = vec![
        67u8, 111, 110, 116, 101, 110, 116, 45, 76, 101, 110, 103, 116, 104, 58, 32,
    ];
    proof {
        assert(r@ =~= content_length_field());
    }
    r
}

/// The bytes of `"GET"`.
pub open spec fn get_token() -> Seq<u8> {
    seq![71u8, 69, 84]
}

/// The bytes of `"POST"`.
pub open spec fn post_token() -> Seq<u8> {
    seq![80u8, 79, 83, 84]
}

/// The bytes of `"site_not_found.html"`, the key under which the fallback
/// content is always cached.
pub open spec fn site_not_found_key() -> Seq<u8> {
    seq![115u8, 105, 116, 101, 95, 110, 111, 116, 95, 102, 111, 117, 110, 100, 46, 104, 116, 109,
        108]
}

/// Builds the `"site_not_found.html"` key.
pub fn site_not_found_key_bytes() -> (r: Vec<u8>)
    ensures
        r@ == site_not_found_key(),
{
    let r: Vec<u8> = vec![
        115u8, 105, 116, 101, 95, 110, 111, 116, 95, 102, 111, 117, 110, 100, 46, 104, 116, 109,
        108,
    ];
    proof {
        assert(r@ =~= site_not_found_key());
    }
    r
}

/// The bytes of `"resource/html/"`, the directory prefix under which
/// requested paths are looked up on disk.
pub open spec fn resource_dir_prefix() -> Seq<u8> {
    seq![114u8, 101, 115, 111, 117, 114, 99, 101, 47, 104, 116, 109, 108, 47]
}

fn resource_dir_prefix_bytes() -> (r: Vec<u8>)
    ensures
        r@ == resource_dir_prefix(),
{
    let r: Vec<u8> = vec![114u8, 101, 115, 111, 117, 114, 99, 101, 47, 104, 116, 109, 108, 47];
    proof {
        assert(r@ =~= resource_dir_prefix());
    }
    r
}

/// The bytes of `"Hello World"`, the fallback content.
pub open spec fn hello_world() -> Seq<u8> {
    seq![72u8, 101, 108, 108, 111, 32, 87, 111, 114, 108, 100]
}

fn hello_world_bytes() -> (r: Vec<u8>)
    ensures
        r@ == hello_world(),
{
    let r: Vec<u8> = vec![72u8, 101, 108, 108, 111, 32, 87, 111, 114, 108, 100];
    proof {
        assert(r@ =~= hello_world());
    }
    r
}

/// The method of a request: the closed set the server understands.
#[derive(PartialEq, Eq, Structural, Debug)]
pub enum RequestType {
    Get,
    Post,
    Invalid,
}

/// The method a buffer's fixed-offset prefix names: `GET`, `POST`, or
/// neither. Buffers too short for either token are `Invalid`.
pub open spec fn classify_spec(b: Seq<u8>) -> RequestType {
    if b.len() >= 3 && b.subrange(0, 3) == get_token() {
        RequestType::Get
    } else if b.len() >= 4 && b.subrange(0, 4) == post_token() {
        RequestType::Post
    } else {
        RequestType::Invalid
    }
}

/// How many bytes the method token of a (valid) method occupies.
pub open spec fn method_skip(t: RequestType) -> int {
    match t {
        RequestType::Get => 3,
        RequestType::Post => 4,
        RequestType::Invalid => 0,
    }
}

/// Number of bytes before the first space in `s` (all of `s` if none).
pub open spec fn space_run_len(s: Seq<u8>) -> nat
    decreases s.len(),
{
    if s.len() == 0 {
        0
    } else if s[0] == SPACE {
        0
    } else {
        1 + space_run_len(s.subrange(1, s.len() as int))
    }
}

proof fn lemma_space_run_len_is(s: Seq<u8>, n: int)
    requires
        0 <= n <= s.len(),
        forall|j: int| 0 <= j < n ==> s[j] != SPACE,
        n < s.len() ==> s[n] == SPACE,
    ensures
        space_run_len(s) == n,
    decreases s.len(),
{
    if n == 0 {
    } else {
        let tail = s.subrange(1, s.len() as int);
        assert(s[0] != SPACE);
        assert forall|j: int| 0 <= j < n - 1 implies tail[j] != SPACE by {
            assert(tail[j] == s[j + 1]);
        }
        if n - 1 < tail.len() {
            assert(tail[n - 1] == s[n]);
        }
        lemma_space_run_len_is(tail, n - 1);
    }
}

/// The resource path a request names: the bytes after the method token and
/// its trailing space, up to the next space (exclusive). Empty for an
/// invalid method, for a buffer with no room after the token, and when no
/// terminating space follows.
pub open spec fn resource_spec(b: Seq<u8>, t: RequestType) -> Seq<u8> {
    if t == RequestType::Invalid {
        Seq::empty()
    } else {
        let start = method_skip(t) + 1;
        if start > b.len() {
            Seq::empty()
        } else {
            let tail = b.skip(start);
            if space_run_len(tail) < tail.len() {
                tail.take(space_run_len(tail) as int)
            } else {
                Seq::empty()
            }
        }
    }
}

/// The body a request buffer carries. Empty when the buffer has no
/// `Content-Length: ` field, when the declared length is negative, exceeds
/// `BODY_LIMIT`, or exceeds the buffer itself; otherwise the trailing slice
/// of the buffer whose length is the declared length.
pub open spec fn body_spec(b: Seq<u8>) -> Seq<u8> {
    let pat = content_length_field();
    if !has_match(b, pat) {
        Seq::empty()
    } else {
        let k = first_match(b, pat);
        let v = extract_spec(b.skip(k + pat.len()));
        if v < 0 || v > BODY_LIMIT as int || v > b.len() {
            Seq::empty()
        } else {
            b.skip(b.len() - v)
        }
    }
}

/// State shared by all concurrently handled connections.
#[derive(Debug, Clone)]
pub struct ThreadSharedState {
    /// How many hosts are connected right now.
    pub cur_connected_hosts: u32,
    /// Contents already loaded, by resource key.
    pub cached_sites: SiteCache,
    /// Directory prefix prepended to resource keys to form disk paths.
    pub resource_html_dir: Vec<u8>,
}

/// A server instance: its immutable configuration and the shared state its
/// connection handlers work on.
#[derive(Debug, Clone)]
pub struct Server {
    ip: String,
    port: u16,
    max_connected_hosts: u32,
    timeout_in_secs: u32,
    shared_state: ThreadSharedState,
}

impl Server {
    /// The cache mapping.
    pub closed spec fn cache(&self) -> Map<Seq<u8>, Seq<u8>> {
        self.shared_state.cached_sites@
    }

    /// The connected-host count.
    pub closed spec fn connected(&self) -> u32 {
        self.shared_state.cur_connected_hosts
    }

    /// The configured resource directory prefix.
    pub closed spec fn resource_dir(&self) -> Seq<u8> {
        self.shared_state.resource_html_dir@
    }

    /// The configured bind address.
    pub closed spec fn ip_spec(&self) -> Seq<char> {
        self.ip@
    }

    /// The configured bind port.
    pub closed spec fn port_spec(&self) -> u16 {
        self.port
    }

    /// The configured connection limit.
    pub closed spec fn max_hosts(&self) -> u32 {
        self.max_connected_hosts
    }

    /// The configured read timeout, in seconds.
    pub closed spec fn timeout_spec(&self) -> u32 {
        self.timeout_in_secs
    }

    /// The well-formedness every operation preserves: cache keys are unique
    /// and the not-found sentinel is always present, so every lookup path
    /// has a fallback value.
    pub closed spec fn wf(&self) -> bool {
        &&& self.shared_state.cached_sites.wf()
        &&& self.cache().contains_key(site_not_found_key())
    }
}

/// The two servers agree on every configuration value.
pub open spec fn same_config(a: Server, b: Server) -> bool {
    &&& a.ip_spec() == b.ip_spec()
    &&& a.port_spec() == b.port_spec()
    &&& a.max_hosts() == b.max_hosts()
    &&& a.timeout_spec() == b.timeout_spec()
    &&& a.resource_dir() == b.resource_dir()
}

impl Server {
    /// Builds a server from its configuration values, with no host
    /// connected and the cache holding only the not-found sentinel.
    pub fn new(ip: String, port: u16, max_connected_hosts: u32, timeout_in_secs: u32) -> (r:
        Server)
        ensures
            r.wf(),
            r.cache() == Map::<Seq<u8>, Seq<u8>>::empty().insert(
                site_not_found_key(),
                hello_world(),
            ),
            r.connected() == 0,
            r.resource_dir() == resource_dir_prefix(),
            r.ip_spec() == ip@,
            r.port_spec() == port,
            r.max_hosts() == max_connected_hosts,
            r.timeout_spec() == timeout_in_secs,
    {
        let mut cached_sites = SiteCache::new();
        cached_sites.insert(site_not_found_key_bytes(), hello_world_bytes());
        let shared_state = ThreadSharedState {
            cur_connected_hosts: 0,
            cached_sites,
            resource_html_dir: resource_dir_prefix_bytes(),
        };
        Server { ip, port, max_connected_hosts, timeout_in_secs, shared_state }
    }

    /// Classifies the request from the buffer's fixed-offset prefix.
    pub fn read_request_type(&self, buffer: &Vec<u8>) -> (r: RequestType)
        ensures
            r == classify_spec(buffer@),
    {
        if buffer.len() >= 3 && buffer[0] == 71 && buffer[1] == 69 && buffer[2] == 84 {
            proof {
                assert(buffer@.subrange(0, 3) =~= get_token());
            }
            return RequestType::Get;
        }
        if buffer.len() >= 4 && buffer[0] == 80 && buffer[1] == 79 && buffer[2] == 83 && buffer[3]
            == 84 {
            proof {
                assert(buffer@.subrange(0, 4) =~= post_token());
                if buffer@.len() >= 3 && buffer@.subrange(0, 3) == get_token() {
                    assert(buffer@.subrange(0, 3)[0] == buffer@[0]);
                    assert(false);
                }
            }
            return RequestType::Post;
        }
        proof {
            if buffer@.len() >= 3 && buffer@.subrange(0, 3) == get_token() {
                assert(buffer@.subrange(0, 3)[0] == buffer@[0]);
                assert(buffer@.subrange(0, 3)[1] == buffer@[1]);
                assert(buffer@.subrange(0, 3)[2] == buffer@[2]);
                assert(false);
            }
            if buffer@.len() >= 4 && buffer@.subrange(0, 4) == post_token() {
                assert(buffer@.subrange(0, 4)[0] == buffer@[0]);
                assert(buffer@.subrange(0, 4)[1] == buffer@[1]);
                assert(buffer@.subrange(0, 4)[2] == buffer@[2]);
                assert(buffer@.subrange(0, 4)[3] == buffer@[3]);
                assert(false);
            }
        }
        RequestType::Invalid
    }

    /// Copies the requested resource path out of the raw request line:
    /// the bytes after the method token and its trailing space, up to the
    /// next space.
    pub fn read_resource(&self, buffer: &Vec<u8>, req_type: &RequestType) -> (r: Vec<u8>)
        ensures
            r@ == resource_spec(buffer@, *req_type),
    {
        let request_offset: usize = match req_type {
            RequestType::Get => 3,
            RequestType::Post => 4,
            RequestType::Invalid => {
                return Vec::new();
            },
        };
        let start: usize = request_offset + 1;
        let n: usize = buffer.len();
        if start > n {
            return Vec::new();
        }
        let ghost tail = buffer@.skip(start as int);
        let mut vec_to_return: Vec<u8> = Vec::new();
        let mut i: usize = start;
        while i < n
            invariant
                n == buffer@.len(),
                start <= i <= n,
                *req_type != RequestType::Invalid,
                start == method_skip(*req_type) + 1,
                tail == buffer@.skip(start as int),
                forall|j: int| 0 <= j < i - start ==> tail[j] != SPACE,
                vec_to_return@ == tail.take(i - start),
            decreases n - i,
        {
            let byte = buffer[i];
            proof {
                assert(tail[i - start] == buffer@[i as int]);
            }
            if byte == SPACE {
                proof {
                    lemma_space_run_len_is(tail, i - start);
                }
                return vec_to_return;
            }
            vec_to_return.push(byte);
            proof {
                assert(vec_to_return@ =~= tail.take(i + 1 - start));
            }
            i = i + 1;
        }
        proof {
            lemma_space_run_len_is(tail, n - start);
        }
        Vec::new()
    }

    /// Slices the request body out of the buffer: locates `Content-Length: `,
    /// reads the declared length, and takes that many trailing bytes. An
    /// absent field, an over-large or negative declared length, or one
    /// exceeding the buffer all yield an empty body.
    pub fn read_request_body(&self, buffer: &Vec<u8>) -> (r: Vec<u8>)
        ensures
            r@ == body_spec(buffer@),
    {
        let pattern = content_length_field_bytes();
        let n: usize = buffer.len();
        let content_field_idx = find_in_buffer(buffer, pattern.as_slice());
        proof {
            lemma_first_match_props(buffer@, content_length_field());
        }
        if content_field_idx == usize::MAX {
            proof {
                if has_match(buffer@, content_length_field()) {
                    assert(is_match_at(
                        buffer@,
                        content_length_field(),
                        content_field_idx as int,
                    ));
                    assert(false);
                }
            }
            return Vec::new();
        }
        let offset_start: usize = pattern.len();
        let tail = slice_subrange(buffer.as_slice(), content_field_idx + offset_start, n);
        proof {
            assert(tail@ =~= buffer@.skip(content_field_idx + offset_start));
        }
        let body_length: i64 = extract_number(tail);
        if body_length > BODY_LIMIT {
            return Vec::new();
        }
        if body_length < 0 {
            return Vec::new();
        }
        let bl: usize = body_length as usize;
        if bl > n {
            return Vec::new();
        }
        let start: usize = n - bl;
        let mut r: Vec<u8> = Vec::new();
        let mut i: usize = start;
        while i < n
            invariant
                n == buffer@.len(),
                start <= i <= n,
                r@ == buffer@.subrange(start as int, i as int),
            decreases n - i,
        {
            r.push(buffer[i]);
            proof {
                assert(r@ =~= buffer@.subrange(start as int, i + 1));
            }
            i = i + 1;
        }
        proof {
            assert(buffer@.subrange(start as int, n as int) =~= buffer@.skip(n - bl));
        }
        r
    }
}

/// Concatenates two byte vectors.
fn concat_bytes(a: &Vec<u8>, b: &Vec<u8>) -> (r: Vec<u8>)
    ensures
        r@ == a@ + b@,
{
    let mut r = clone_bytes(a);
    let n: usize = b.len();
    let mut i: usize = 0;
    while i < n
        invariant
            n == b@.len(),
            i <= n,
            r@ == a@ + b@.take(i as int),
        decreases n - i,
    {
        r.push(b[i]);
        proof {
            assert(r@ =~= a@ + b@.take(i + 1));
        }
        i = i + 1;
    }
    proof {
        assert(a@ + b@.take(n as int) =~= a@ + b@);
    }
    r
}

/// The bytes of `".."`.
pub open spec fn parent_dir_token() -> Seq<u8> {
    seq![46u8, 46]
}

/// A requested path may be looked up under the resource root only if it
/// holds no parent-directory segment, closing path traversal. A leading
/// slash is harmless here: the path is only ever appended to the relative
/// root prefix, never used absolutely.
pub open spec fn path_is_safe(p: Seq<u8>) -> bool {
    !has_match(p, parent_dir_token())
}

/// Decides `path_is_safe`.
pub fn is_path_safe(p: &Vec<u8>) -> (r: bool)
    ensures
        r == path_is_safe(p@),
{
    let token: Vec<u8> = vec![46u8, 46];
    proof {
        assert(token@ =~= parent_dir_token());
    }
    let _n: usize = p.len();
    let idx = find_in_buffer(p, token.as_slice());
    proof {
        lemma_first_match_props(p@, parent_dir_token());
        if has_match(p@, parent_dir_token()) {
            assert(is_match_at(p@, parent_dir_token(), first_match(p@, parent_dir_token())));
        }
    }
    idx == usize::MAX
}

/// The view of an optional loaded byte vector.
pub open spec fn loaded_view(loaded: Option<Vec<u8>>) -> Option<Seq<u8>> {
    match loaded {
        Some(v) => Some(v@),
        None => None,
    }
}

/// What a fetch returns, given the cache, the key, and what the disk gave
/// back on a miss (`None`: the file does not exist; `Some` of empty: the
/// read yielded no bytes). The not-found sentinel content answers an empty
/// key, a missing file, and an empty read.
pub open spec fn fetch_result(
    cache: Map<Seq<u8>, Seq<u8>>,
    key: Seq<u8>,
    loaded: Option<Seq<u8>>,
) -> Seq<u8> {
    if key.len() == 0 {
        cache[site_not_found_key()]
    } else if cache.contains_key(key) {
        cache[key]
    } else {
        match loaded {
            Some(c) => if c.len() > 0 {
                c
            } else {
                cache[site_not_found_key()]
            },
            None => cache[site_not_found_key()],
        }
    }
}

/// How a fetch changes the cache: only a miss answered by a non-empty disk
/// read is memoized; misses themselves are never cached.
pub open spec fn fetch_cache_after(
    cache: Map<Seq<u8>, Seq<u8>>,
    key: Seq<u8>,
    loaded: Option<Seq<u8>>,
) -> Map<Seq<u8>, Seq<u8>> {
    if key.len() == 0 || cache.contains_key(key) {
        cache
    } else {
        match loaded {
            Some(c) => if c.len() > 0 {
                cache.insert(key, c)
            } else {
                cache
            },
            None => cache,
        }
    }
}

impl Server {
    /// The not-found sentinel content, always present in a well-formed
    /// server's cache.
    fn sentinel_content(&self) -> (r: Vec<u8>)
        requires
            self.wf(),
        ensures
            r@ == self.cache()[site_not_found_key()],
    {
        let key = site_not_found_key_bytes();
        match self.shared_state.cached_sites.get(&key) {
            Some(v) => v,
            None => {
                proof {
                    assert(false);
                }
                Vec::new()
            },
        }
    }

    /// Whether serving `resource_path` requires a disk read, and if so from
    /// which path: the configured resource directory prefix followed by the
    /// key. Cached keys and the empty key need no read, and a traversing
    /// key is never looked up on disk: its fetch falls back to the
    /// not-found sentinel.
    pub fn needs_load(&self, resource_path: &Vec<u8>) -> (r: Option<Vec<u8>>)
        requires
            self.wf(),
        ensures
            match r {
                None => resource_path@.len() == 0 || self.cache().contains_key(resource_path@)
                    || !path_is_safe(resource_path@),
                Some(p) => resource_path@.len() > 0 && !self.cache().contains_key(resource_path@)
                    && path_is_safe(resource_path@) && p@ == self.resource_dir()
                    + resource_path@,
            },
    {
        if resource_path.len() == 0 {
            return None;
        }
        if !is_path_safe(resource_path) {
            return None;
        }
        if self.shared_state.cached_sites.contains(resource_path) {
            return None;
        }
        Some(concat_bytes(&self.shared_state.resource_html_dir, resource_path))
    }

    /// The get-or-populate step of a fetch: returns the content for
    /// `resource_path` given what the disk gave back on a miss, and
    /// memoizes a non-empty disk read. The caller obtains `loaded` by
    /// reading the path `needs_load` named, and passes `None` both when no
    /// read was needed and when the file does not exist.
    pub fn fetch_resource(&mut self, resource_path: &Vec<u8>, loaded: Option<Vec<u8>>) -> (r: Vec<
        u8,
    >)
        requires
            old(self).wf(),
        ensures
            final(self).wf(),
            same_config(*old(self), *final(self)),
            final(self).connected() == old(self).connected(),
            r@ == fetch_result(old(self).cache(), resource_path@, loaded_view(loaded)),
            final(self).cache() == fetch_cache_after(
                old(self).cache(),
                resource_path@,
                loaded_view(loaded),
            ),
    {
        if resource_path.len() == 0 {
            return self.sentinel_content();
        }
        match self.shared_state.cached_sites.get(resource_path) {
            Some(v) => v,
            None => match loaded {
                Some(site) => {
                    if site.len() > 0 {
                        let content = clone_bytes(&site);
                        let key = clone_bytes(resource_path);
                        self.shared_state.cached_sites.insert(key, site);
                        content
                    } else {
                        self.sentinel_content()
                    }
                },
                None => self.sentinel_content(),
            },
        }
    }

    /// Admission control: admits a connection while the configured limit is
    /// not reached, incrementing the connected-host count; otherwise the
    /// connection is to be rejected and nothing changes.
    pub fn admit_connection(&mut self) -> (r: bool)
        requires
            old(self).wf(),
        ensures
            final(self).wf(),
            same_config(*old(self), *final(self)),
            final(self).cache() == old(self).cache(),
            r == (old(self).connected() < old(self).max_hosts()),
            r ==> final(self).connected() == old(self).connected() + 1,
            !r ==> final(self).connected() == old(self).connected(),
    {
        if self.shared_state.cur_connected_hosts < self.max_connected_hosts {
            self.shared_state.cur_connected_hosts = self.shared_state.cur_connected_hosts + 1;
            true
        } else {
            false
        }
    }

    /// The counterpart of `admit_connection`, run when a handler finishes,
    /// on success and on every failure path alike.
    pub fn release_connection(&mut self)
        requires
            old(self).wf(),
        ensures
            final(self).wf(),
            same_config(*old(self), *final(self)),
            final(self).cache() == old(self).cache(),
            old(self).connected() > 0 ==> final(self).connected() == old(self).connected() - 1,
            old(self).connected() == 0 ==> final(self).connected() == 0,
    {
        if self.shared_state.cur_connected_hosts > 0 {
            self.shared_state.cur_connected_hosts = self.shared_state.cur_connected_hosts - 1;
        }
    }
}

/// What a connection handler must do with a captured request buffer.
#[derive(Debug)]
pub enum RequestPlan {
    /// The buffer carries no body: answer the handshake with the content
    /// for the empty key, then close.
    Handshake,
    /// The method is invalid: close without a response.
    InvalidType,
    /// The resource path is empty: close without a response.
    EmptyResource,
    /// Serve the named resource, then close.
    Serve(Vec<u8>),
}

impl Server {
    /// The decision core of a connection handler: what to do with a
    /// captured buffer, composing the body, method, and resource
    /// extractors.
    pub fn plan_request(&self, buffer: &Vec<u8>) -> (r: RequestPlan)
        ensures
            match r {
                RequestPlan::Handshake => body_spec(buffer@).len() == 0,
                RequestPlan::InvalidType => body_spec(buffer@).len() > 0 && classify_spec(buffer@)
                    == RequestType::Invalid,
                RequestPlan::EmptyResource => body_spec(buffer@).len() > 0 && classify_spec(
                    buffer@,
                ) != RequestType::Invalid && resource_spec(buffer@, classify_spec(buffer@)).len()
                    == 0,
                RequestPlan::Serve(p) => body_spec(buffer@).len() > 0 && classify_spec(buffer@)
                    != RequestType::Invalid && p@.len() > 0 && p@ == resource_spec(
                    buffer@,
                    classify_spec(buffer@),
                ),
            },
    {
        let body = self.read_request_body(buffer);
        if body.len() == 0 {
            return RequestPlan::Handshake;
        }
        let request_type = self.read_request_type(buffer);
        if request_type == RequestType::Invalid {
            return RequestPlan::InvalidType;
        }
        let resource_path = self.read_resource(buffer, &request_type);
        if resource_path.len() == 0 {
            return RequestPlan::EmptyResource;
        }
        RequestPlan::Serve(resource_path)
    }

    /// The configured bind address.
    pub fn bind_ip(&self) -> (r: &String)
        ensures
            r@ == self.ip_spec(),
    {
        &self.ip
    }

    /// The configured bind port.
    pub fn bind_port(&self) -> (r: u16)
        ensures
            r == self.port_spec(),
    {
        self.port
    }

    /// The configured connection limit.
    pub fn connection_limit(&self) -> (r: u32)
        ensures
            r == self.max_hosts(),
    {
        self.max_connected_hosts
    }

    /// The configured read timeout, in seconds.
    pub fn read_timeout_secs(&self) -> (r: u32)
        ensures
            r == self.timeout_spec(),
    {
        self.timeout_in_secs
    }
}

impl Server {
    /// The status a fetched content is served with: the not-found sentinel
    /// content answers with 404, everything else with 200.
    pub fn choose_status(&self, content: &Vec<u8>) -> (r: HttpResponseStatus)
        requires
            self.wf(),
        ensures
            r == (if content@ == self.cache()[site_not_found_key()] {
                HttpResponseStatus::NotFound
            } else {
                HttpResponseStatus::Okay
            }),
    {
        let sentinel = self.sentinel_content();
        if bytes_eq(content, &sentinel) {
            HttpResponseStatus::NotFound
        } else {
            HttpResponseStatus::Okay
        }
    }
}

/// Fetching with an empty key and fetching a key that resolves to no file
/// return the same not-found sentinel content, and neither grows the cache:
/// misses are not memoized.
pub proof fn lemma_fetch_not_found(cache: Map<Seq<u8>, Seq<u8>>, key: Seq<u8>)
    requires
        !cache.contains_key(key),
    ensures
        fetch_result(cache, Seq::<u8>::empty(), None) == cache[site_not_found_key()],
        fetch_result(cache, key, None) == cache[site_not_found_key()],
        fetch_cache_after(cache, Seq::<u8>::empty(), None) == cache,
        fetch_cache_after(cache, key, None) == cache,
{
}

/// A fetch of a cached key is a pure hit: it returns the cached bytes,
/// whatever the disk would now say, and leaves the cache unchanged.
pub proof fn lemma_fetch_cached_hit(
    cache: Map<Seq<u8>, Seq<u8>>,
    key: Seq<u8>,
    loaded: Option<Seq<u8>>,
)
    requires
        key.len() > 0,
        cache.contains_key(key),
    ensures
        fetch_result(cache, key, loaded) == cache[key],
        fetch_cache_after(cache, key, loaded) == cache,
{
}

/// A never-before-seen key is populated by its first successful fetch
/// alone: every later fetch of it returns the same bytes, whatever disk
/// result it carries, and leaves the cache as the first fetch left it.
pub proof fn lemma_fetch_populate_once(
    cache: Map<Seq<u8>, Seq<u8>>,
    key: Seq<u8>,
    c: Seq<u8>,
    later: Option<Seq<u8>>,
)
    requires
        key.len() > 0,
        !cache.contains_key(key),
        c.len() > 0,
    ensures
        ({
            let cache1 = fetch_cache_after(cache, key, Some(c));
            &&& fetch_result(cache, key, Some(c)) == c
            &&& fetch_result(cache1, key, later) == c
            &&& fetch_cache_after(cache1, key, later) == cache1
        }),
{
}

/// A declared `Content-Length` above the acceptance limit always yields an
/// empty body, never a buffer slice.
pub proof fn lemma_oversized_body_rejected(b: Seq<u8>)
    requires
        has_match(b, content_length_field()),
        extract_spec(
            b.skip(first_match(b, content_length_field()) + content_length_field().len()),
        ) > BODY_LIMIT as int,
    ensures
        body_spec(b) == Seq::<u8>::empty(),
{
}

/// A server wired with a default local configuration.
pub fn server_init() -> (r: Server)
    ensures
        r.wf(),
        r.connected() == 0,
        r.cache() == Map::<Seq<u8>, Seq<u8>>::empty().insert(site_not_found_key(), hello_world()),
        r.resource_dir() == resource_dir_prefix(),
{
    Server::new(String::from_str("127.0.0.1"), 8080, 16, 60)
}

} // verus!
