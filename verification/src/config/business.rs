//! Call-scoped business context and per-request business profiles.
use vstd::prelude::*;
use crate::strmap::{entries_map, text_values, unique_keys, StrMap};
use crate::types::endpoint::opt_text;
use crate::types::headers::{header_key, Headers};
use crate::text::{ascii_lower, ascii_lower_char, is_space, lemma_trailing_spaces_bound, lemma_trim_noop, push_str, trailing_spaces, trimmed};

verus! {

/// Who is calling and on whose behalf: application, operation, tenant, user,
/// device, region, channel, environment, trace and free attributes.
#[derive(Debug)]
pub struct BusinessContext {
    pub app: String,
    pub operation: String,
    pub tenant_id: Option<String>,
    pub user_id: Option<String>,
    pub device_id: Option<String>,
    pub region: Option<String>,
    pub channel: Option<String>,
    pub environment: Option<String>,
    pub trace_id: Option<String>,
    pub attributes: StrMap<String>,
}

/// `m` with `k` set to `v` when `v` is present.
pub open spec fn insert_opt(m: Map<Seq<char>, Seq<char>>, k: Seq<char>, v: Option<String>) -> Map<Seq<char>, Seq<char>> {
    match v {
        Some(s) => m.insert(header_key(k), s@),
        None => m,
    }
}

/// `m` with one header per pair, named `prefix` followed by the pair's key, in order.
pub open spec fn insert_prefixed(m: Map<Seq<char>, Seq<char>>, prefix: Seq<char>, s: Seq<(String, String)>) -> Map<Seq<char>, Seq<char>>
    decreases s.len(),
{
    if s.len() == 0 {
        m
    } else {
        insert_prefixed(m, prefix, s.drop_last()).insert(header_key(prefix + s.last().0@), s.last().1@)
    }
}

/// The headers that a business context contributes to every request.
pub open spec fn business_headers(c: BusinessContext) -> Map<Seq<char>, Seq<char>> {
    insert_prefixed(field_headers(c), "x-biz-attr-"@, c.attributes.entry_seq())
}

/// The headers of a business context's own fields, before its attributes.
pub open spec fn field_headers(c: BusinessContext) -> Map<Seq<char>, Seq<char>> {
    let m0 = Map::<Seq<char>, Seq<char>>::empty();
    let m1 = if c.app@.len() > 0 { m0.insert(header_key("x-biz-app"@), c.app@) } else { m0 };
    let m2 = if c.operation@.len() > 0 { m1.insert(header_key("x-biz-operation"@), c.operation@) } else { m1 };
    let m3 = insert_opt(m2, "x-biz-tenant-id"@, c.tenant_id);
    let m4 = insert_opt(m3, "x-biz-user-id"@, c.user_id);
    let m5 = insert_opt(m4, "x-biz-device-id"@, c.device_id);
    let m6 = insert_opt(m5, "x-biz-region"@, c.region);
    let m7 = insert_opt(m6, "x-biz-channel"@, c.channel);
    let m8 = insert_opt(m7, "x-biz-environment"@, c.environment);
    insert_opt(m8, "x-trace-id"@, c.trace_id)
}

/// Every attribute header name has `t` as its eighth character.
proof fn lemma_attr_key_shape(k: Seq<char>)
    ensures
        header_key("x-biz-attr-"@ + k).len() > 7,
        header_key("x-biz-attr-"@ + k)[7] == 't',
{
    reveal_strlit("x-biz-attr-");
    let s = "x-biz-attr-"@ + k;
    assert(s[0] == 'x');
    assert(s[7] == 't');
    assert(s[10] == '-');
    lemma_trailing_spaces_bound(s);
    let t = trailing_spaces(s);
    assert(s.len() - t > 10) by {
        if s.len() - t <= 10 {
            assert(is_space(s[10]));
        }
    }
    assert(trimmed(s) == s.subrange(0, s.len() - t));
    assert(trimmed(s)[7] == 't');
    assert(ascii_lower(trimmed(s))[7] == ascii_lower_char('t'));
}

/// Attribute headers never touch a name whose eighth character is not `t`.
proof fn lemma_prefixed_keeps(m: Map<Seq<char>, Seq<char>>, s: Seq<(String, String)>, key: Seq<char>)
    requires
        key.len() > 7,
        key[7] != 't',
    ensures
        insert_prefixed(m, "x-biz-attr-"@, s).get(key) == m.get(key),
    decreases s.len(),
{
    if s.len() > 0 {
        lemma_prefixed_keeps(m, s.drop_last(), key);
        lemma_attr_key_shape(s.last().0@);
        assert(header_key("x-biz-attr-"@ + s.last().0@) != key);
    }
}

/// A header name already in stored form.
proof fn lemma_plain_key(f: Seq<char>)
    requires
        f.len() > 0,
        !is_space(f[0]),
        !is_space(f.last()),
        forall|i: int| 0 <= i < f.len() ==> !('A' <= #[trigger] f[i] && f[i] <= 'Z'),
    ensures
        header_key(f) == f,
{
    lemma_trim_noop(f);
    assert(ascii_lower(f) =~= f);
}

/// `m` holds `v` under `k`, or nothing when `v` is absent.
pub open spec fn carries(m: Map<Seq<char>, Seq<char>>, k: Seq<char>, v: Option<Seq<char>>) -> bool {
    m.get(k) == v
}

/// Each field of a business context that is present is sent under the header
/// named after that field, with that field's value, and no such header is
/// sent for a field that is absent (or, for the application and operation,
/// empty): tenant, user, device, region, channel and environment as
/// `x-biz-<field>`, the trace as `x-trace-id`.
pub proof fn law_business_headers_fields(c: BusinessContext)
    ensures
        carries(business_headers(c), "x-biz-app"@, if c.app@.len() > 0 { Some(c.app@) } else { None }),
        carries(business_headers(c), "x-biz-operation"@, if c.operation@.len() > 0 { Some(c.operation@) } else { None }),
        carries(business_headers(c), "x-biz-tenant-id"@, opt_text(c.tenant_id)),
        carries(business_headers(c), "x-biz-user-id"@, opt_text(c.user_id)),
        carries(business_headers(c), "x-biz-device-id"@, opt_text(c.device_id)),
        carries(business_headers(c), "x-biz-region"@, opt_text(c.region)),
        carries(business_headers(c), "x-biz-channel"@, opt_text(c.channel)),
        carries(business_headers(c), "x-biz-environment"@, opt_text(c.environment)),
        carries(business_headers(c), "x-trace-id"@, opt_text(c.trace_id)),
{
    reveal_strlit("x-biz-app");
    reveal_strlit("x-biz-operation");
    reveal_strlit("x-biz-tenant-id");
    reveal_strlit("x-biz-user-id");
    reveal_strlit("x-biz-device-id");
    reveal_strlit("x-biz-region");
    reveal_strlit("x-biz-channel");
    reveal_strlit("x-biz-environment");
    reveal_strlit("x-trace-id");
    lemma_plain_key("x-biz-app"@);
    lemma_plain_key("x-biz-operation"@);
    lemma_plain_key("x-biz-tenant-id"@);
    lemma_plain_key("x-biz-user-id"@);
    lemma_plain_key("x-biz-device-id"@);
    lemma_plain_key("x-biz-region"@);
    lemma_plain_key("x-biz-channel"@);
    lemma_plain_key("x-biz-environment"@);
    lemma_plain_key("x-trace-id"@);
    assert("x-biz-tenant-id"@[6] != "x-biz-device-id"@[6]);
    assert("x-biz-tenant-id"@[6] != "x-biz-operation"@[6]);
    assert("x-biz-device-id"@[6] != "x-biz-operation"@[6]);
    let m9 = field_headers(c);
    let e = c.attributes.entry_seq();
    lemma_prefixed_keeps(m9, e, "x-biz-app"@);
    lemma_prefixed_keeps(m9, e, "x-biz-operation"@);
    lemma_prefixed_keeps(m9, e, "x-biz-tenant-id"@);
    lemma_prefixed_keeps(m9, e, "x-biz-user-id"@);
    lemma_prefixed_keeps(m9, e, "x-biz-device-id"@);
    lemma_prefixed_keeps(m9, e, "x-biz-region"@);
    lemma_prefixed_keeps(m9, e, "x-biz-channel"@);
    lemma_prefixed_keeps(m9, e, "x-biz-environment"@);
    lemma_prefixed_keeps(m9, e, "x-trace-id"@);
}

fn insert_if(headers: &mut Headers, key: &str, value: &Option<String>)
    ensures
        final(headers)@ == insert_opt(old(headers)@, key@, *value),
{
    match value {
        Some(v) => headers.insert(key.to_owned(), v.clone()),
        None => {},
    }
}

impl BusinessContext {
    /// A context for `app` and `operation` with nothing else set.
    pub fn new(app: String, operation: String) -> (c: BusinessContext)
        ensures
            c.app == app,
            c.operation == operation,
            c.tenant_id is None,
            c.user_id is None,
            c.device_id is None,
            c.region is None,
            c.channel is None,
            c.environment is None,
            c.trace_id is None,
            c.attributes@ == Map::<Seq<char>, String>::empty(),
            c.attributes.entry_seq().len() == 0,
    {
        BusinessContext {
            app,
            operation,
            tenant_id: None,
            user_id: None,
            device_id: None,
            region: None,
            channel: None,
            environment: None,
            trace_id: None,
            attributes: StrMap::new(),
        }
    }

    /// The `x-biz-*` and `x-trace-id` headers that describe this context.
    pub fn headers(&self) -> (h: Headers)
        ensures
            h@ == business_headers(*self),
    {
        let mut headers = Headers::new();
        if !self.app.as_str().is_empty() {
            headers.insert("x-biz-app".to_owned(), self.app.clone());
        }
        if !self.operation.as_str().is_empty() {
            headers.insert("x-biz-operation".to_owned(), self.operation.clone());
        }
        insert_if(&mut headers, "x-biz-tenant-id", &self.tenant_id);
        insert_if(&mut headers, "x-biz-user-id", &self.user_id);
        insert_if(&mut headers, "x-biz-device-id", &self.device_id);
        insert_if(&mut headers, "x-biz-region", &self.region);
        insert_if(&mut headers, "x-biz-channel", &self.channel);
        insert_if(&mut headers, "x-biz-environment", &self.environment);
        insert_if(&mut headers, "x-trace-id", &self.trace_id);
        let ghost base = headers@;
        let entries = self.attributes.entries();
        let mut i: usize = 0;
        while i < entries.len()
            invariant
                i <= entries@.len(),
                entries@ == self.attributes.entry_seq(),
                headers@ == insert_prefixed(base, "x-biz-attr-"@, entries@.take(i as int)),
            decreases entries.len() - i,
        {
            let mut key = "x-biz-attr-".to_owned();
            push_str(&mut key, entries[i].0.as_str());
            headers.insert(key, entries[i].1.clone());
            assert(entries@.take(i + 1).drop_last() =~= entries@.take(i as int));
            i = i + 1;
        }
        assert(entries@.take(entries@.len() as int) =~= entries@);
        headers
    }
}

impl Default for BusinessContext {
    fn default() -> (c: Self)
        ensures
            c.app@.len() == 0,
            c.operation@.len() == 0,
            c.attributes@ == Map::<Seq<char>, String>::empty(),
    {
        BusinessContext::new(String::new(), String::new())
    }
}

/// Per-request business settings: auth scope, cache namespace, route tags,
/// extra headers and metadata.
#[derive(Debug)]
pub struct BusinessProfile {
    pub auth_scope: Option<String>,
    pub cache_namespace: Option<String>,
    pub route_tags: Vec<String>,
    pub headers: Headers,
    pub metadata: StrMap<String>,
}

/// A business profile as plain values.
pub struct BusinessProfileView {
    pub auth_scope: Option<Seq<char>>,
    pub cache_namespace: Option<Seq<char>>,
    pub route_tags: Seq<Seq<char>>,
    pub headers: Map<Seq<char>, Seq<char>>,
    pub metadata: Map<Seq<char>, Seq<char>>,
}

/// The characters of each string of a sequence.
pub open spec fn texts(s: Seq<String>) -> Seq<Seq<char>> {
    s.map_values(|t: String| t@)
}

impl View for BusinessProfile {
    type V = BusinessProfileView;

    open spec fn view(&self) -> BusinessProfileView {
        BusinessProfileView {
            auth_scope: opt_text(self.auth_scope),
            cache_namespace: opt_text(self.cache_namespace),
            route_tags: texts(self.route_tags@),
            headers: self.headers@,
            metadata: text_values(self.metadata@),
        }
    }
}

/// A copy of a list of strings.
pub fn copy_strings(v: &Vec<String>) -> (r: Vec<String>)
    ensures
        r@ == v@,
{
    let mut r: Vec<String> = Vec::new();
    let mut i: usize = 0;
    while i < v.len()
        invariant
            i <= v@.len(),
            r@ == v@.take(i as int),
        decreases v.len() - i,
    {
        r.push(v[i].clone());
        assert(v@.take(i + 1) =~= v@.take(i as int).push(v@[i as int]));
        i = i + 1;
    }
    assert(v@.take(v@.len() as int) =~= v@);
    r
}

/// A copy of an optional string.
pub fn copy_opt_string(s: &Option<String>) -> (r: Option<String>)
    ensures
        r == *s,
{
    match s {
        Some(t) => Some(t.clone()),
        None => None,
    }
}

impl Clone for BusinessProfile {
    fn clone(&self) -> (r: Self)
        ensures
            r@ == self@,
    {
        BusinessProfile {
            auth_scope: copy_opt_string(&self.auth_scope),
            cache_namespace: copy_opt_string(&self.cache_namespace),
            route_tags: copy_strings(&self.route_tags),
            headers: self.headers.clone(),
            metadata: self.metadata.copy(),
        }
    }
}

impl Clone for BusinessContext {
    fn clone(&self) -> (r: Self)
        ensures
            r.app == self.app,
            r.operation == self.operation,
            r.tenant_id == self.tenant_id,
            r.user_id == self.user_id,
            r.device_id == self.device_id,
            r.region == self.region,
            r.channel == self.channel,
            r.environment == self.environment,
            r.trace_id == self.trace_id,
            r.attributes@ == self.attributes@,
    {
        BusinessContext {
            app: self.app.clone(),
            operation: self.operation.clone(),
            tenant_id: copy_opt_string(&self.tenant_id),
            user_id: copy_opt_string(&self.user_id),
            device_id: copy_opt_string(&self.device_id),
            region: copy_opt_string(&self.region),
            channel: copy_opt_string(&self.channel),
            environment: copy_opt_string(&self.environment),
            trace_id: copy_opt_string(&self.trace_id),
            attributes: self.attributes.copy(),
        }
    }
}

impl BusinessProfile {
    /// An empty profile.
    pub fn new() -> (p: BusinessProfile)
        ensures
            p@ == (BusinessProfileView {
                auth_scope: None,
                cache_namespace: None,
                route_tags: Seq::empty(),
                headers: Map::empty(),
                metadata: Map::empty(),
            }),
    {
        let p = BusinessProfile {
            auth_scope: None,
            cache_namespace: None,
            route_tags: Vec::new(),
            headers: Headers::new(),
            metadata: StrMap::new(),
        };
        assert(p@.route_tags =~= Seq::<Seq<char>>::empty());
        assert(p@.metadata =~= Map::<Seq<char>, Seq<char>>::empty());
        p
    }

    /// This profile with an auth scope.
    pub fn auth_scope(self, scope: String) -> (p: BusinessProfile)
        ensures
            p@ == (BusinessProfileView { auth_scope: Some(scope@), ..self@ }),
    {
        let mut p = self;
        p.auth_scope = Some(scope);
        p
    }

    /// This profile with a cache namespace.
    pub fn cache_namespace(self, namespace: String) -> (p: BusinessProfile)
        ensures
            p@ == (BusinessProfileView { cache_namespace: Some(namespace@), ..self@ }),
    {
        let mut p = self;
        p.cache_namespace = Some(namespace);
        p
    }

    /// This profile with one more route tag.
    pub fn route_tag(self, tag: String) -> (p: BusinessProfile)
        ensures
            p@ == (BusinessProfileView { route_tags: self@.route_tags.push(tag@), ..self@ }),
    {
        let mut p = self;
        p.route_tags.push(tag);
        assert(texts(p.route_tags@) =~= self@.route_tags.push(tag@));
        p
    }

    /// This profile with one more header.
    pub fn header(self, key: String, value: String) -> (p: BusinessProfile)
        ensures
            p@ == (BusinessProfileView { headers: self@.headers.insert(header_key(key@), value@), ..self@ }),
    {
        let mut p = self;
        p.headers.insert(key, value);
        p
    }

    /// This profile with one more metadata entry.
    pub fn metadata(self, key: String, value: String) -> (p: BusinessProfile)
        ensures
            p@ == (BusinessProfileView { metadata: self@.metadata.insert(key@, value@), ..self@ }),
    {
        let mut p = self;
        p.metadata.insert(key, value);
        assert(text_values(p.metadata@) =~= self@.metadata.insert(key@, value@));
        p
    }
}

impl Default for BusinessProfile {
    fn default() -> (p: Self)
        ensures
            p@.auth_scope is None,
            p@.cache_namespace is None,
            p@.route_tags.len() == 0,
            p@.headers == Map::<Seq<char>, Seq<char>>::empty(),
            p@.metadata == Map::<Seq<char>, Seq<char>>::empty(),
    {
        BusinessProfile::new()
    }
}

} // verus!
