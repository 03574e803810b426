//! Endpoints: scheme, host, optional port, path and optional query of a URL.
use vstd::prelude::*;
use crate::error::NetError;
use crate::text::{chars_of, decimal, find_char, find_seq, first_index, first_occurrence, has_char, occurs_at, last_index, lemma_first_index, lemma_first_occurrence_unique, lemma_last_index, lemma_no_occurrence, parse_u16, push_char, push_str, rfind_char, string_from, u16_text, u64_decimal};

verus! {

/// An endpoint as plain characters.
pub struct EndpointView {
    pub scheme: Seq<char>,
    pub host: Seq<char>,
    pub port: Option<u16>,
    pub path: Seq<char>,
    pub query: Option<Seq<char>>,
}

/// A request target: `scheme://host[:port]/path[?query]`.
#[derive(Debug)]
pub struct Endpoint {
    scheme: String,
    host: String,
    port: Option<u16>,
    path: String,
    query: Option<String>,
}

/// The characters of an optional string.
pub open spec fn opt_text(s: Option<String>) -> Option<Seq<char>> {
    match s {
        Some(t) => Some(t@),
        None => None,
    }
}

impl View for Endpoint {
    type V = EndpointView;

    closed spec fn view(&self) -> EndpointView {
        EndpointView {
            scheme: self.scheme@,
            host: self.host@,
            port: self.port,
            path: self.path@,
            query: opt_text(self.query),
        }
    }
}

/// A path made absolute: empty becomes `/`, a missing leading `/` is added.
pub open spec fn normalized_path(p: Seq<char>) -> Seq<char> {
    if p.len() == 0 {
        seq!['/']
    } else if p[0] == '/' {
        p
    } else {
        seq!['/'] + p
    }
}

/// The separator between scheme and authority.
pub open spec fn scheme_separator() -> Seq<char> {
    seq![':', '/', '/']
}

/// How an authority splits into host and port, or `None` for an invalid port.
pub open spec fn host_and_port(a: Seq<char>) -> Option<(Seq<char>, Option<u16>)> {
    match last_index(a, ':') {
        None => Some((a, None)),
        Some(k) => {
            let host = a.take(k);
            let port = a.skip(k + 1);
            if host.contains(']') || port.len() == 0 {
                Some((a, None))
            } else {
                match u16_text(port) {
                    Some(p) => Some((host, Some(p))),
                    None => None,
                }
            }
        },
    }
}

/// The outcome of parsing a URL.
pub enum UrlParse {
    MissingScheme,
    InvalidPort(Seq<char>),
    Parsed(EndpointView),
}

/// How `Endpoint::parse` reads a URL: the scheme ends at the first `://`, the
/// authority at the next `/`, the path at the first `?`; the port follows the
/// last `:` of the authority unless the host holds `]` or the port is empty.
pub open spec fn parse_url(url: Seq<char>) -> UrlParse {
    match first_occurrence(url, scheme_separator()) {
        None => UrlParse::MissingScheme,
        Some(i) => {
            let scheme = url.take(i);
            let remain = url.skip(i + 3);
            let authority = match first_index(remain, '/') {
                Some(j) => remain.take(j),
                None => remain,
            };
            let tail = match first_index(remain, '/') {
                Some(j) => remain.skip(j),
                None => seq!['/'],
            };
            let path = match first_index(tail, '?') {
                Some(q) => tail.take(q),
                None => tail,
            };
            let query = match first_index(tail, '?') {
                Some(q) => Some(tail.skip(q + 1)),
                None => None,
            };
            match host_and_port(authority) {
                None => UrlParse::InvalidPort(authority),
                Some(hp) => UrlParse::Parsed(EndpointView {
                    scheme,
                    host: hp.0,
                    port: hp.1,
                    path: normalized_path(path),
                    query,
                }),
            }
        },
    }
}

/// `host` or `host:port`.
pub open spec fn authority_text(e: EndpointView) -> Seq<char> {
    match e.port {
        Some(p) => e.host + seq![':'] + decimal(p as nat),
        None => e.host,
    }
}

/// `scheme://authority`.
pub open spec fn origin_text(e: EndpointView) -> Seq<char> {
    e.scheme + scheme_separator() + authority_text(e)
}

/// `path` or `path?query`.
pub open spec fn uri_text(e: EndpointView) -> Seq<char> {
    match e.query {
        Some(q) => e.path + seq!['?'] + q,
        None => e.path,
    }
}

/// The whole URL: `scheme://authority` followed by the path and query.
pub open spec fn url_text(e: EndpointView) -> Seq<char> {
    origin_text(e) + uri_text(e)
}

/// Number of leading `/` characters.
pub open spec fn leading_slashes(s: Seq<char>) -> nat
    decreases s.len(),
{
    if s.len() > 0 && s[0] == '/' { 1 + leading_slashes(s.drop_first()) } else { 0 }
}

/// The path after appending `tail` with exactly one `/` between them.
pub open spec fn joined_path(path: Seq<char>, tail: Seq<char>) -> Seq<char> {
    let t = tail.skip(leading_slashes(tail) as int);
    if path.len() > 0 && path.last() == '/' {
        path + t
    } else {
        path + seq!['/'] + t
    }
}

/// Makes a path absolute.
pub fn normalize_path(path: String) -> (r: String)
    ensures
        r@ == normalized_path(path@),
{
    let chars = chars_of(path.as_str());
    if chars.len() == 0 {
        let mut r = String::new();
        push_char(&mut r, '/');
        assert(r@ =~= seq!['/']);
        r
    } else if chars[0] == '/' {
        path
    } else {
        let mut r = String::new();
        push_char(&mut r, '/');
        push_str(&mut r, path.as_str());
        assert(r@ =~= seq!['/'] + path@);
        r
    }
}

fn copy_opt(s: &Option<String>) -> (r: Option<String>)
    ensures
        r == *s,
{
    match s {
        Some(t) => Some(t.clone()),
        None => None,
    }
}

impl Clone for Endpoint {
    fn clone(&self) -> (r: Self)
        ensures
            r@ == self@,
    {
        Endpoint {
            scheme: self.scheme.clone(),
            host: self.host.clone(),
            port: self.port,
            path: self.path.clone(),
            query: copy_opt(&self.query),
        }
    }
}

/// Splits an authority into host and port.
fn parse_host_port(authority: &Vec<char>) -> (r: Result<(String, Option<u16>), NetError>)
    ensures
        match host_and_port(authority@) {
            Some(hp) => r matches Ok(v) && v.0@ == hp.0 && v.1 == hp.1,
            None => r matches Err(NetError::InvalidRequest(m))
                && m@ == "invalid port in authority: "@ + authority@,
        },
{
    match rfind_char(authority, ':') {
        None => {
            proof {
                assert(last_index(authority@, ':') is None);
            }
            Ok((string_from(authority, 0, authority.len()), None))
        },
        Some(k) => {
            proof {
                lemma_last_index(authority@, ':', k as int);
            }
            assert(k < authority.len());
            let host = string_from(authority, 0, k);
            let port_chars = vec_slice(authority, k + 1, authority.len());
            let host_chars = vec_slice(authority, 0, k);
            assert(host_chars@ =~= authority@.take(k as int));
            assert(port_chars@ =~= authority@.skip(k + 1));
            assert(authority@.subrange(0, authority@.len() as int) =~= authority@);
            if has_char(&host_chars, ']') || port_chars.len() == 0 {
                Ok((string_from(authority, 0, authority.len()), None))
            } else {
                match parse_u16(&port_chars) {
                    Some(p) => Ok((host, Some(p))),
                    None => {
                        let mut m = String::new();
                        push_str(&mut m, "invalid port in authority: ");
                        let a = string_from(authority, 0, authority.len());
                        push_str(&mut m, a.as_str());
                        Err(NetError::InvalidRequest(m))
                    },
                }
            }
        },
    }
}

/// The characters `v[lo..hi]`.
pub fn vec_slice(v: &Vec<char>, lo: usize, hi: usize) -> (r: Vec<char>)
    requires
        lo <= hi <= v@.len(),
    ensures
        r@ == v@.subrange(lo as int, hi as int),
{
    let mut r: Vec<char> = Vec::new();
    let mut i = lo;
    while i < hi
        invariant
            lo <= i <= hi <= v@.len(),
            r@ == v@.subrange(lo as int, i as int),
        decreases hi - i,
    {
        r.push(v[i]);
        assert(v@.subrange(lo as int, i + 1) =~= v@.subrange(lo as int, i as int).push(v@[i as int]));
        i = i + 1;
    }
    r
}

impl Endpoint {
    /// An endpoint from its parts; the path is made absolute and there is no query.
    pub fn new(scheme: String, host: String, port: Option<u16>, path: String) -> (e: Endpoint)
        ensures
            e@ == (EndpointView {
                scheme: scheme@,
                host: host@,
                port,
                path: normalized_path(path@),
                query: None,
            }),
    {
        let path = normalize_path(path);
        Endpoint { scheme, host, port, path, query: None }
    }

    /// Parses `scheme://host[:port][/path][?query]`.
    pub fn parse(url: &str) -> (r: Result<Endpoint, NetError>)
        ensures
            match parse_url(url@) {
                UrlParse::MissingScheme => r matches Err(NetError::InvalidRequest(m))
                    && m@ == "missing scheme in url: "@ + url@,
                UrlParse::InvalidPort(a) => r matches Err(NetError::InvalidRequest(m))
                    && m@ == "invalid port in authority: "@ + a,
                UrlParse::Parsed(v) => r matches Ok(e) && e@ == v,
            },
    {
        let chars = chars_of(url);
        let sep = vec![':', '/', '/'];
        assert(sep@ =~= scheme_separator());
        let at = find_seq(&chars, &sep);
        let i = match at {
            None => {
                proof {
                    lemma_no_occurrence(chars@, sep@);
                }
                let mut m = String::new();
                push_str(&mut m, "missing scheme in url: ");
                push_str(&mut m, url);
                return Err(NetError::InvalidRequest(m));
            },
            Some(i) => i,
        };
        proof {
            lemma_first_occurrence_unique(chars@, sep@, i as int);
        }
        assert(occurs_at(chars@, sep@, i as int));
        assert(i + 3 <= chars.len());
        let scheme = string_from(&chars, 0, i);
        let remain = vec_slice(&chars, i + 3, chars.len());
        let ghost remain_spec = url@.skip(i + 3);
        assert(remain@ =~= remain_spec);
        let (authority, tail): (Vec<char>, Vec<char>) = match find_char(&remain, '/') {
            Some(j) => {
                proof {
                    lemma_first_index(remain@, '/', j as int);
                }
                let a = vec_slice(&remain, 0, j);
                let t = vec_slice(&remain, j, remain.len());
                assert(a@ =~= remain@.take(j as int));
                assert(t@ =~= remain@.skip(j as int));
                (a, t)
            },
            None => {
                let a = vec_slice(&remain, 0, remain.len());
                assert(a@ =~= remain@);
                (a, vec!['/'])
            },
        };
        assert(tail@ =~= match first_index(remain_spec, '/') {
            Some(j) => remain_spec.skip(j),
            None => seq!['/'],
        });
        let (path, query): (String, Option<String>) = match find_char(&tail, '?') {
            Some(q) => {
                proof {
                    lemma_first_index(tail@, '?', q as int);
                }
                (string_from(&tail, 0, q), Some(string_from(&tail, q + 1, tail.len())))
            },
            None => (string_from(&tail, 0, tail.len()), None),
        };
        proof {
            assert(tail@.subrange(0, tail@.len() as int) =~= tail@);
        }
        let (host, port) = parse_host_port(&authority)?;
        let path = normalize_path(path);
        Ok(Endpoint { scheme, host, port, path, query })
    }

    /// The scheme.
    pub fn scheme(&self) -> (r: &str)
        ensures
            r@ == self@.scheme,
    {
        self.scheme.as_str()
    }

    /// The host.
    pub fn host(&self) -> (r: &str)
        ensures
            r@ == self@.host,
    {
        self.host.as_str()
    }

    /// The port, if one was given.
    pub fn port(&self) -> (r: Option<u16>)
        ensures
            r == self@.port,
    {
        self.port
    }

    /// The path.
    pub fn path(&self) -> (r: &str)
        ensures
            r@ == self@.path,
    {
        self.path.as_str()
    }

    /// The query, if one was given.
    pub fn query(&self) -> (r: Option<&str>)
        ensures
            match self@.query {
                Some(q) => r matches Some(s) && s@ == q,
                None => r is None,
            },
    {
        match &self.query {
            Some(q) => Some(q.as_str()),
            None => None,
        }
    }

    /// The same endpoint with another host.
    pub fn with_host(self, host: String) -> (e: Endpoint)
        ensures
            e@ == (EndpointView { host: host@, ..self@ }),
    {
        let mut e = self;
        e.host = host;
        e
    }

    /// The same endpoint with another port.
    pub fn with_port(self, port: Option<u16>) -> (e: Endpoint)
        ensures
            e@ == (EndpointView { port, ..self@ }),
    {
        let mut e = self;
        e.port = port;
        e
    }

    /// The same endpoint with a query.
    pub fn with_query(self, query: String) -> (e: Endpoint)
        ensures
            e@ == (EndpointView { query: Some(query@), ..self@ }),
    {
        let mut e = self;
        e.query = Some(query);
        e
    }

    /// `host` or `host:port`.
    pub fn authority(&self) -> (r: String)
        ensures
            r@ == authority_text(self@),
    {
        let mut r = self.host.clone();
        match self.port {
            Some(p) => {
                push_char(&mut r, ':');
                let d = u64_decimal(p as u64);
                push_str(&mut r, d.as_str());
                assert(r@ =~= authority_text(self@));
            },
            None => {},
        }
        r
    }

    /// `scheme://authority`.
    pub fn origin(&self) -> (r: String)
        ensures
            r@ == origin_text(self@),
    {
        let mut r = self.scheme.clone();
        push_str(&mut r, "://");
        let a = self.authority();
        push_str(&mut r, a.as_str());
        proof {
            reveal_strlit("://");
            assert(r@ =~= origin_text(self@));
        }
        r
    }

    /// The path followed by `?query` when there is a query.
    pub fn uri(&self) -> (r: String)
        ensures
            r@ == uri_text(self@),
    {
        let mut r = self.path.clone();
        match &self.query {
            Some(q) => {
                push_char(&mut r, '?');
                push_str(&mut r, q.as_str());
                assert(r@ =~= uri_text(self@));
            },
            None => {},
        }
        r
    }

    /// The whole URL.
    pub fn to_string(&self) -> (r: String)
        ensures
            r@ == url_text(self@),
    {
        let mut r = self.origin();
        let u = self.uri();
        push_str(&mut r, u.as_str());
        r
    }

    /// A copy of the endpoint whose path has `tail` appended after one `/`.
    pub fn join_path(&self, tail: &str) -> (e: Endpoint)
        ensures
            e@ == (EndpointView { path: joined_path(self@.path, tail@), ..self@ }),
    {
        let mut next = self.clone();
        let t = chars_of(tail);
        let mut k: usize = 0;
        assert(t@.skip(0) =~= t@);
        while k < t.len() && t[k] == '/'
            invariant
                k <= t@.len(),
                leading_slashes(t@) == k + leading_slashes(t@.skip(k as int)),
            decreases t.len() - k,
        {
            assert(t@.skip(k as int).drop_first() =~= t@.skip(k + 1));
            k = k + 1;
        }
        assert(leading_slashes(t@) == k);
        let rest = string_from(&t, k, t.len());
        let p = chars_of(next.path.as_str());
        if p.len() > 0 && p[p.len() - 1] == '/' {
            push_str(&mut next.path, rest.as_str());
        } else {
            push_char(&mut next.path, '/');
            push_str(&mut next.path, rest.as_str());
        }
        assert(next.path@ =~= joined_path(self@.path, tail@));
        next
    }
}

} // verus!
