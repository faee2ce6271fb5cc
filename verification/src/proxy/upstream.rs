//! Requests to backends.

use vstd::prelude::*;

use crate::config::BackendConfig;
use crate::json::opt_text;
use crate::registry::{models_path, models_url};
use crate::seqs::{lemma_filter_none, lemma_filter_push};
use crate::text::{text_eq, trim_end_matches, trim_end_of};

verus! {

/// `hyper::Uri` takes the text.
pub uninterp spec fn is_uri(text: Seq<char>) -> bool;

/// `str::parse` for `hyper::Uri`: whether a text is taken depends on the text
/// alone.
#[verifier::external_body]
fn parses_as_uri(text: &str) -> (r: bool)
    ensures
        r == is_uri(text@),
{
    text.parse::<hyper::Uri>().is_ok()
}

/// The URL, if a request can be sent to it.
pub fn checked_url(url: String) -> (r: Option<String>)
    ensures
        match r {
            Some(u) => is_uri(url@) && u@ == url@,
            None => !is_uri(url@),
        },
{
    if parses_as_uri(url.as_str()) {
        Some(url)
    } else {
        None
    }
}

/// The URL under which to ask a backend for its models, if there can be such a
/// request.
pub fn models_target(backend: &BackendConfig) -> (r: Option<String>)
    ensures
        ({
            let url = trim_end_of(backend.url@, '/') + models_path(backend.backend_type);
            match r {
                Some(u) => is_uri(url) && u@ == url,
                None => !is_uri(url),
            }
        }),
{
    checked_url(models_url(backend))
}

/// The URL under which to ask a backend for the models that it is running, if
/// there can be such a request.
pub fn running_target(backend: &BackendConfig) -> (r: Option<String>)
    ensures
        ({
            let url = trim_end_of(backend.url@, '/') + "/api/ps"@;
            match r {
                Some(u) => is_uri(url) && u@ == url,
                None => !is_uri(url),
            }
        }),
{
    let mut url = trim_end_matches(backend.url.as_str(), '/');
    url.append("/api/ps");
    checked_url(url)
}

/// A header of a request.
#[derive(Debug)]
pub struct Header {
    /// The name, in lower case.
    pub name: String,
    pub value: Vec<u8>,
}

/// The model of `Header`.
pub struct HeaderView {
    pub name: Seq<char>,
    pub value: Seq<u8>,
}

impl View for Header {
    type V = HeaderView;

    open spec fn view(&self) -> HeaderView {
        HeaderView { name: self.name@, value: self.value@ }
    }
}

/// The models of headers.
pub open spec fn header_views(s: Seq<Header>) -> Seq<HeaderView> {
    Seq::new(s.len(), |i: int| s[i]@)
}

/// Headers that concern the connection between the client and the gateway, or
/// that tell a backend who the client is.
pub open spec fn is_own_header(name: Seq<char>) -> bool {
    ||| name == "host"@
    ||| name == "connection"@
    ||| name == "transfer-encoding"@
    ||| name == "authorization"@
    ||| name == "origin"@
    ||| name == "referer"@
    ||| name == "content-length"@
}

/// Whether a header is not passed on to a backend.
pub fn own_header(name: &str) -> (r: bool)
    ensures
        r == is_own_header(name@),
{
    text_eq(name, "host") || text_eq(name, "connection") || text_eq(name, "transfer-encoding")
        || text_eq(name, "authorization") || text_eq(name, "origin") || text_eq(name, "referer")
        || text_eq(name, "content-length")
}

/// A request to a backend, but for its body.
#[derive(Debug)]
pub struct UpstreamRequest {
    pub method: String,
    pub uri: String,
    pub headers: Vec<Header>,
}

/// The target of a request to a backend: the backend's URL and the path and
/// query of the client's request.
pub open spec fn upstream_uri(url: Seq<char>, path_and_query: Option<Seq<char>>) -> Seq<char> {
    trim_end_of(url, '/') + match path_and_query {
        Some(pq) => pq,
        None => "/"@,
    }
}

/// The headers that are passed on to a backend.
pub open spec fn passed_on(headers: Seq<HeaderView>) -> Seq<HeaderView> {
    headers.filter(|h: HeaderView| !is_own_header(h.name))
}

/// The request to a backend for a client's request; none if the target is no
/// URI.
pub fn build_upstream_request(
    upstream_url: &str,
    method: String,
    path_and_query: Option<String>,
    headers: Vec<Header>,
) -> (r: Option<UpstreamRequest>)
    ensures
        ({
            let uri = upstream_uri(upstream_url@, opt_text(path_and_query));
            match r {
                Some(u) => is_uri(uri) && u.method@ == method@ && u.uri@ == uri && header_views(
                    u.headers@,
                ) == passed_on(header_views(headers@)),
                None => !is_uri(uri),
            }
        }),
{
    let mut uri = trim_end_matches(upstream_url, '/');
    match &path_and_query {
        Some(pq) => uri.append(pq.as_str()),
        None => uri.append("/"),
    }
    let uri = match checked_url(uri) {
        Some(u) => u,
        None => return None,
    };
    let ghost all = header_views(headers@);
    let ghost f = |h: HeaderView| !is_own_header(h.name);
    let mut kept: Vec<Header> = Vec::new();
    let mut i: usize = 0;
    proof {
        lemma_filter_none(all.take(0), f);
        assert(header_views(kept@) =~= all.take(0).filter(f));
    }
    while i < headers.len()
        invariant
            i <= headers@.len(),
            all == header_views(headers@),
            f == (|h: HeaderView| !is_own_header(h.name)),
            header_views(kept@) == all.take(i as int).filter(f),
        decreases headers.len() - i,
    {
        let header = &headers[i];
        let ghost before = header_views(kept@);
        proof {
            assert(all.take(i + 1) =~= all.take(i as int).push(header@));
            lemma_filter_push(all.take(i as int), header@, f);
        }
        if !own_header(header.name.as_str()) {
            let copy = Header { name: header.name.clone(), value: header.value.clone() };
            assert(copy.value@ =~= header.value@);
            kept.push(copy);
            assert(header_views(kept@) =~= before.push(header@));
        }
        i += 1;
    }
    assert(all.take(all.len() as int) =~= all);
    Some(UpstreamRequest { method, uri, headers: kept })
}

/// No credentials of a client reach a backend: of the headers that are passed
/// on none is an `authorization` header, and every other header that is not
/// the gateway's own is passed on.
pub proof fn law_credentials_stay(headers: Seq<HeaderView>, h: HeaderView)
    ensures
        passed_on(headers).contains(h) <==> headers.contains(h) && !is_own_header(h.name),
        h.name == "authorization"@ ==> !passed_on(headers).contains(h),
    decreases headers.len(),
{
    let f = |x: HeaderView| !is_own_header(x.name);
    reveal(Seq::filter);
    if headers.len() > 0 {
        let rest = headers.drop_last();
        let last = headers.last();
        law_credentials_stay(rest, h);
        assert(rest.push(last) =~= headers);
        lemma_filter_push(rest, last, f);
        lemma_push_contains(rest, last, h);
        lemma_push_contains(rest.filter(f), last, h);
    }
}

/// A sequence with one more item has that item and those before.
proof fn lemma_push_contains(s: Seq<HeaderView>, x: HeaderView, h: HeaderView)
    ensures
        s.push(x).contains(h) <==> s.contains(h) || h == x,
{
    if s.contains(h) {
        let i = choose|i: int| 0 <= i < s.len() && s[i] == h;
        assert(s.push(x)[i] == h);
    }
    if h == x {
        assert(s.push(x)[s.len() as int] == h);
    }
    if s.push(x).contains(h) && h != x {
        let i = choose|i: int| 0 <= i < s.push(x).len() && s.push(x)[i] == h;
        assert(s[i] == h);
    }
}

/// A header is kept from the backends exactly if it is one of these.
pub proof fn law_own_headers(name: Seq<char>)
    ensures
        is_own_header(name) <==> {
            ||| name == "authorization"@
            ||| name == "host"@
            ||| name == "connection"@
            ||| name == "transfer-encoding"@
            ||| name == "origin"@
            ||| name == "referer"@
            ||| name == "content-length"@
        },
{
}

/// The headers that are passed on are those that came, as they came and in their
/// order, but for the gateway's own.
pub proof fn law_headers_passed_on(headers: Seq<HeaderView>, h: HeaderView)
    ensures
        passed_on(Seq::empty()).len() == 0,
        passed_on(headers.push(h)) == if h.name == "authorization"@ || h.name == "host"@ || h.name
            == "connection"@ || h.name == "transfer-encoding"@ || h.name == "origin"@ || h.name
            == "referer"@ || h.name == "content-length"@ {
            passed_on(headers)
        } else {
            passed_on(headers).push(h)
        },
{
    let f = |x: HeaderView| !is_own_header(x.name);
    lemma_filter_none(Seq::<HeaderView>::empty(), f);
    lemma_filter_push(headers, h, f);
}

/// A request goes to the backend's URL, without slashes at its end, and then to
/// the path and query of the client's request, or to `/` if there is none.
pub proof fn law_upstream_uri(base: Seq<char>, slashes: Seq<char>, pq: Seq<char>)
    requires
        base.len() > 0 ==> base.last() != '/',
        forall|i: int| 0 <= i < slashes.len() ==> #[trigger] slashes[i] == '/',
    ensures
        upstream_uri(base + slashes, Some(pq)) == base + pq,
        upstream_uri(base + slashes, None) == base.push('/'),
{
    lemma_slashes(base, slashes);
    reveal_strlit("/");
    assert(base + "/"@ =~= base.push('/'));
}

/// Slashes at the end go.
proof fn lemma_slashes(base: Seq<char>, slashes: Seq<char>)
    requires
        base.len() > 0 ==> base.last() != '/',
        forall|i: int| 0 <= i < slashes.len() ==> #[trigger] slashes[i] == '/',
    ensures
        trim_end_of(base + slashes, '/') == base,
    decreases slashes.len(),
{
    let all = base + slashes;
    if slashes.len() == 0 {
        assert(all =~= base);
    } else {
        assert(all.last() == slashes[slashes.len() - 1]);
        assert(all.drop_last() =~= base + slashes.drop_last());
        lemma_slashes(base, slashes.drop_last());
    }
}

/// The models of headers have all that the headers have, in order.
pub proof fn law_header_models(h: Header, s: Seq<Header>, i: int)
    ensures
        h@.name == h.name@,
        h@.value == h.value@,
        header_views(s).len() == s.len(),
        0 <= i < s.len() ==> header_views(s)[i] == s[i]@,
{
}

} // verus!
