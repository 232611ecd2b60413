//! The proxy's decisions on each request: whether to rewrite it, which
//! headers pass in either direction, which method goes upstream, what the
//! rewrite is estimated to save, and the window of recent requests.

use vstd::prelude::*;
use vstd::string::StringSliceAdditionalSpecFns;
use std::collections::VecDeque;
use crate::json::lit;
use crate::text::{starts_with, starts_with_bytes, bytes_eq};
use crate::info::TransformInfo;
use crate::render::views;

verus! {

/// Whether a request is rewritten: compression is on, and it is a `POST`
/// whose path (with query) starts with `/v1/messages`.
pub open spec fn compress_wanted(no_compress: bool, is_post: bool, path: Seq<u8>) -> bool {
    !no_compress && is_post && starts_with(path, "/v1/messages".spec_bytes())
}

pub fn should_compress(no_compress: bool, is_post: bool, path: &[u8]) -> (r: bool)
    ensures
        r == compress_wanted(no_compress, is_post, path@),
{
    !no_compress && is_post && starts_with_bytes(path, lit("/v1/messages").as_slice())
}

// ----- headers -----
/// ASCII upper-case letters turned to lower case, other bytes kept.
pub open spec fn ascii_lower(s: Seq<u8>) -> Seq<u8> {
    s.map_values(
        |b: u8|
            if 65 <= b && b <= 90 {
                (b + 32) as u8
            } else {
                b
            },
    )
}

/// The connection-specific headers and those the HTTP client sets itself;
/// none of them is forwarded in either direction.
pub open spec fn hop_headers() -> Seq<Seq<u8>> {
    seq![
        "connection".spec_bytes(),
        "keep-alive".spec_bytes(),
        "proxy-connection".spec_bytes(),
        "transfer-encoding".spec_bytes(),
        "upgrade".spec_bytes(),
        "te".spec_bytes(),
        "host".spec_bytes(),
        "content-length".spec_bytes(),
        "expect".spec_bytes(),
        "accept-encoding".spec_bytes(),
    ]
}

/// Whether a header named `name` is passed on: not a hop header (compared
/// in lower case), and from upstream not `content-encoding` either (the
/// body is passed on decoded).
pub open spec fn header_forwarded(name: Seq<u8>, from_upstream: bool) -> bool {
    let l = ascii_lower(name);
    &&& !hop_headers().contains(l)
    &&& !(from_upstream && l == "content-encoding".spec_bytes())
}

fn hop_header_list() -> (r: Vec<Vec<u8>>)
    ensures
        r@.map_values(|v: Vec<u8>| v@) == hop_headers(),
{
    let mut r: Vec<Vec<u8>> = Vec::new();
    r.push(lit("connection"));
    r.push(lit("keep-alive"));
    r.push(lit("proxy-connection"));
    r.push(lit("transfer-encoding"));
    r.push(lit("upgrade"));
    r.push(lit("te"));
    r.push(lit("host"));
    r.push(lit("content-length"));
    r.push(lit("expect"));
    r.push(lit("accept-encoding"));
    assert(r@.map_values(|v: Vec<u8>| v@) =~= hop_headers());
    r
}

fn to_ascii_lower(s: &[u8]) -> (r: Vec<u8>)
    ensures
        r@ == ascii_lower(s@),
{
    let mut r: Vec<u8> = Vec::new();
    let mut i: usize = 0;
    while i < s.len()
        invariant
            i <= s@.len(),
            r@ == ascii_lower(s@.subrange(0, i as int)),
        decreases s@.len() - i,
    {
        let b = s[i];
        r.push(
            if 65 <= b && b <= 90 {
                b + 32
            } else {
                b
            },
        );
        i = i + 1;
        assert(r@ =~= ascii_lower(s@.subrange(0, i as int)));
    }
    assert(s@.subrange(0, s@.len() as int) == s@);
    r
}

/// Whether a header is passed on, to upstream (`from_upstream` false) or
/// back to the client.
pub fn is_forwarded_header(name: &[u8], from_upstream: bool) -> (r: bool)
    ensures
        r == header_forwarded(name@, from_upstream),
{
    let l = to_ascii_lower(name);
    let hops = hop_header_list();
    let ghost hv = hops@.map_values(|v: Vec<u8>| v@);
    let mut i: usize = 0;
    while i < hops.len()
        invariant
            i <= hops@.len(),
            hv == hops@.map_values(|v: Vec<u8>| v@),
            hv == hop_headers(),
            l@ == ascii_lower(name@),
            forall|j: int| 0 <= j < i ==> hv[j] != l@,
        decreases hops@.len() - i,
    {
        if bytes_eq(hops[i].as_slice(), l.as_slice()) {
            assert(hv[i as int] == l@);
            return false;
        }
        i = i + 1;
    }
    assert(!hv.contains(l@));
    if from_upstream && bytes_eq(l.as_slice(), lit("content-encoding").as_slice()) {
        return false;
    }
    true
}

/// Whether the default `anthropic-version` header must be added to the
/// forwarded headers: none of their (lower-case) names is that header.
pub open spec fn needs_default_version(names: Seq<Seq<u8>>) -> bool {
    !names.contains("anthropic-version".spec_bytes())
}

pub fn needs_version_header(names: &Vec<Vec<u8>>) -> (r: bool)
    ensures
        r == needs_default_version(views(names@)),
{
    let key = lit("anthropic-version");
    let ghost nv = views(names@);
    let mut i: usize = 0;
    while i < names.len()
        invariant
            i <= names@.len(),
            nv == views(names@),
            key@ == "anthropic-version".spec_bytes(),
            forall|j: int| 0 <= j < i ==> nv[j] != key@,
        decreases names@.len() - i,
    {
        if bytes_eq(names[i].as_slice(), key.as_slice()) {
            assert(nv[i as int] == key@);
            return false;
        }
        i = i + 1;
    }
    assert(!nv.contains(key@));
    true
}

/// The body of the answer when the upstream request fails:
/// `{"error":"upstream_error","detail":` then `detail` (the error message
/// as a JSON string) then `}`.
pub open spec fn upstream_error(detail: Seq<u8>) -> Seq<u8> {
    "{\"error\":\"upstream_error\",\"detail\":".spec_bytes() + detail + "}".spec_bytes()
}

pub fn upstream_error_body(detail: &[u8]) -> (r: Vec<u8>)
    ensures
        r@ == upstream_error(detail@),
{
    let mut r = lit("{\"error\":\"upstream_error\",\"detail\":");
    crate::text::push_all(&mut r, detail);
    crate::text::push_all(&mut r, lit("}").as_slice());
    r
}

// ----- methods -----
/// Request methods the proxy tells apart.
#[derive(PartialEq, Eq, Structural, Clone, Copy, Debug)]
pub enum HttpMethod {
    Get,
    Post,
    Put,
    Delete,
    Head,
    Other,
}

/// The method used upstream: the same for the five known methods, `POST`
/// for any other.
pub fn upstream_method(m: HttpMethod) -> (r: HttpMethod)
    ensures
        r == (if m == HttpMethod::Other {
            HttpMethod::Post
        } else {
            m
        }),
{
    match m {
        HttpMethod::Get => HttpMethod::Get,
        HttpMethod::Post => HttpMethod::Post,
        HttpMethod::Put => HttpMethod::Put,
        HttpMethod::Delete => HttpMethod::Delete,
        HttpMethod::Head => HttpMethod::Head,
        HttpMethod::Other => HttpMethod::Post,
    }
}

// ----- savings -----
/// The tokens a rewrite is estimated to save: the replaced text (system
/// and tool documentation bytes) at one token per four bytes, less the
/// expected image tokens, never below zero.
pub open spec fn token_surplus(text_chars: usize, tool_chars: usize, image_tokens: u64) -> u64 {
    let replaced = ((text_chars + tool_chars) / 4) as u64;
    if replaced >= image_tokens {
        (replaced - image_tokens) as u64
    } else {
        0
    }
}

pub fn saved_token_estimate(info: &TransformInfo) -> (r: u64)
    requires
        info.system_text_chars + info.tool_text_added <= usize::MAX,
    ensures
        r == token_surplus(info.system_text_chars, info.tool_text_added, info.expected_image_tokens),
{
    let replaced = ((info.system_text_chars + info.tool_text_added) / 4) as u64;
    replaced.saturating_sub(info.expected_image_tokens)
}

// ----- recent requests -----
/// How many recent requests are kept.
pub const RECENT_CAP: usize = 64;

/// The last `n` elements of `s` (all of them when there are fewer).
pub open spec fn keep_last<T>(s: Seq<T>, n: nat) -> Seq<T> {
    if s.len() > n {
        s.skip(s.len() - n)
    } else {
        s
    }
}

/// The most recent entries, oldest first, at most `RECENT_CAP` of them.
pub struct Recent<T> {
    entries: VecDeque<T>,
}

impl<T> View for Recent<T> {
    type V = Seq<T>;

    closed spec fn view(&self) -> Seq<T> {
        self.entries@
    }
}

impl<T> Recent<T> {
    #[verifier::type_invariant]
    spec fn bounded(self) -> bool {
        self.entries@.len() <= RECENT_CAP
    }

    pub fn new() -> (r: Self)
        ensures
            r@ == Seq::<T>::empty(),
    {
        Recent { entries: VecDeque::with_capacity(RECENT_CAP) }
    }

    /// Adds the newest entry, dropping the oldest when the window is full.
    pub fn push(&mut self, e: T)
        ensures
            final(self)@ == keep_last(old(self)@.push(e), RECENT_CAP as nat),
            final(self)@.len() <= RECENT_CAP,
    {
        proof {
            use_type_invariant(&*self);
        }
        let ghost s0 = self.entries@;
        let mut q = VecDeque::new();
        std::mem::swap(&mut q, &mut self.entries);
        if q.len() >= RECENT_CAP {
            q.pop_front();
        }
        q.push_back(e);
        assert(q@ =~= keep_last(s0.push(e), RECENT_CAP as nat));
        self.entries = q;
    }

    /// A copy of the entries, oldest first.
    pub fn snapshot(&self) -> (r: Vec<T>) where T: Clone
        ensures
            r@.len() == self@.len(),
            forall|k: int| 0 <= k < r@.len() ==> cloned(self@[k], #[trigger] r@[k]),
    {
        let mut r: Vec<T> = Vec::new();
        let mut i: usize = 0;
        while i < self.entries.len()
            invariant
                i <= self.entries@.len(),
                r@.len() == i,
                forall|k: int| 0 <= k < i ==> cloned(self.entries@[k], #[trigger] r@[k]),
            decreases self.entries@.len() - i,
        {
            r.push(self.entries[i].clone());
            i = i + 1;
        }
        r
    }
}

impl<T> Default for Recent<T> {
    fn default() -> (r: Self)
        ensures
            r@ == Seq::<T>::empty(),
    {
        Recent::new()
    }
}

/// Entries pushed in turn, from `s`.
pub open spec fn pushed_all<T>(s: Seq<T>, es: Seq<T>) -> Seq<T>
    decreases es.len(),
{
    if es.len() == 0 {
        s
    } else {
        keep_last(pushed_all(s, es.drop_last()).push(es.last()), RECENT_CAP as nat)
    }
}

/// However many entries are pushed, the window holds the last
/// `RECENT_CAP` of all entries so far, in the order they came.
pub proof fn law_recent_window<T>(s: Seq<T>, es: Seq<T>)
    requires
        s.len() <= RECENT_CAP,
    ensures
        pushed_all(s, es) == keep_last(s + es, RECENT_CAP as nat),
    decreases es.len(),
{
    if es.len() > 0 {
        law_recent_window(s, es.drop_last());
        let prev = keep_last(s + es.drop_last(), RECENT_CAP as nat);
        assert((s + es.drop_last()).push(es.last()) =~= s + es);
        assert(keep_last(prev.push(es.last()), RECENT_CAP as nat) =~= keep_last(
            s + es,
            RECENT_CAP as nat,
        ));
    }
}

} // verus!
