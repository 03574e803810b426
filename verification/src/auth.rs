//! Request signing: signers and the per-scope chains that apply them.
use vstd::prelude::*;
use crate::config::business::{texts, BusinessContext};
use crate::error::NetError;
use crate::strmap::StrMap;
use crate::text::push_str;
use crate::types::headers::{header_key, Headers};
use crate::types::request::{Request, RequestView};

verus! {

/// Adds credentials to a request.
pub trait Signer {
    /// The signer's name, as reported in an auth chain.
    fn name(&self) -> &str;

    /// Adds this signer's credentials to `request`.
    fn sign(&self, request: &mut Request, context: &BusinessContext) -> Result<(), NetError>;
}

/// `r` with its headers replaced by `headers`.
pub open spec fn with_headers(r: RequestView, headers: Map<Seq<char>, Seq<char>>) -> RequestView {
    RequestView { headers, ..r }
}

/// Sets a fixed header to an API key.
#[derive(Debug)]
pub struct ApiKeySigner {
    header_name: String,
    key: String,
}

impl Clone for ApiKeySigner {
    fn clone(&self) -> (r: Self)
        ensures
            r.header() == self.header(),
            r.secret() == self.secret(),
    {
        ApiKeySigner { header_name: self.header_name.clone(), key: self.key.clone() }
    }
}

impl ApiKeySigner {
    /// The header the key goes in.
    pub closed spec fn header(&self) -> Seq<char> {
        self.header_name@
    }

    /// The key.
    pub closed spec fn secret(&self) -> Seq<char> {
        self.key@
    }

    /// A signer that sets `header_name` to `key`.
    pub fn new(header_name: &str, key: &str) -> (s: ApiKeySigner)
        ensures
            s.header() == header_name@,
            s.secret() == key@,
    {
        ApiKeySigner { header_name: header_name.to_owned(), key: key.to_owned() }
    }
}

impl Signer for ApiKeySigner {
    fn name(&self) -> (r: &str)
        ensures
            r@ == "api-key"@,
    {
        "api-key"
    }

    fn sign(&self, request: &mut Request, context: &BusinessContext) -> (r: Result<(), NetError>)
        ensures
            r is Ok,
            final(request)@ == with_headers(old(request)@, old(request)@.headers.insert(header_key(self.header()), self.secret())),
    {
        request.headers.insert(self.header_name.clone(), self.key.clone());
        Ok(())
    }
}

/// Sets `authorization: Bearer <token>`.
#[derive(Debug)]
pub struct BearerTokenSigner {
    token: String,
}

impl Clone for BearerTokenSigner {
    fn clone(&self) -> (r: Self)
        ensures
            r.secret() == self.secret(),
    {
        BearerTokenSigner { token: self.token.clone() }
    }
}

impl BearerTokenSigner {
    /// The token.
    pub closed spec fn secret(&self) -> Seq<char> {
        self.token@
    }

    /// A signer for `token`.
    pub fn new(token: &str) -> (s: BearerTokenSigner)
        ensures
            s.secret() == token@,
    {
        BearerTokenSigner { token: token.to_owned() }
    }
}

impl Signer for BearerTokenSigner {
    fn name(&self) -> (r: &str)
        ensures
            r@ == "bearer"@,
    {
        "bearer"
    }

    fn sign(&self, request: &mut Request, context: &BusinessContext) -> (r: Result<(), NetError>)
        ensures
            r is Ok,
            final(request)@ == with_headers(old(request)@,
                old(request)@.headers.insert(header_key("authorization"@), "Bearer "@ + self.secret())),
    {
        let mut value = "Bearer ".to_owned();
        push_str(&mut value, self.token.as_str());
        request.headers.insert("authorization".to_owned(), value);
        Ok(())
    }
}

/// Adds `name=token` to the `cookie` header.
#[derive(Debug)]
pub struct SessionSigner {
    cookie_name: String,
    token: String,
}

impl Clone for SessionSigner {
    fn clone(&self) -> (r: Self)
        ensures
            r.cookie() == self.cookie(),
            r.secret() == self.secret(),
    {
        SessionSigner { cookie_name: self.cookie_name.clone(), token: self.token.clone() }
    }
}

/// The cookie header after adding `name=token` to `current` (absent counts as empty).
pub open spec fn session_cookie(current: Option<Seq<char>>, name: Seq<char>, token: Seq<char>) -> Seq<char> {
    let pair = name + "="@ + token;
    match current {
        Some(c) => if c.len() == 0 { pair } else { c + "; "@ + pair },
        None => pair,
    }
}

impl SessionSigner {
    /// The cookie's name.
    pub closed spec fn cookie(&self) -> Seq<char> {
        self.cookie_name@
    }

    /// The session token.
    pub closed spec fn secret(&self) -> Seq<char> {
        self.token@
    }

    /// A signer that adds the cookie `cookie_name=token`.
    pub fn new(cookie_name: &str, token: &str) -> (s: SessionSigner)
        ensures
            s.cookie() == cookie_name@,
            s.secret() == token@,
    {
        SessionSigner { cookie_name: cookie_name.to_owned(), token: token.to_owned() }
    }
}

impl Signer for SessionSigner {
    fn name(&self) -> (r: &str)
        ensures
            r@ == "session"@,
    {
        "session"
    }

    fn sign(&self, request: &mut Request, context: &BusinessContext) -> (r: Result<(), NetError>)
        ensures
            r is Ok,
            final(request)@ == with_headers(old(request)@, old(request)@.headers.insert(header_key("cookie"@),
                session_cookie(if old(request)@.headers.contains_key(header_key("cookie"@)) {
                    Some(old(request)@.headers[header_key("cookie"@)])
                } else {
                    None
                }, self.cookie(), self.secret()))),
    {
        let mut cookie = String::new();
        match request.headers.get("cookie") {
            Some(current) => {
                if !current.is_empty() {
                    push_str(&mut cookie, current);
                    push_str(&mut cookie, "; ");
                }
            },
            None => {},
        }
        push_str(&mut cookie, self.cookie_name.as_str());
        push_str(&mut cookie, "=");
        push_str(&mut cookie, self.token.as_str());
        let ghost current = if old(request)@.headers.contains_key(header_key("cookie"@)) {
            Some(old(request)@.headers[header_key("cookie"@)])
        } else {
            None
        };
        assert(cookie@ =~= session_cookie(current, self.cookie(), self.secret()));
        request.headers.insert("cookie".to_owned(), cookie);
        Ok(())
    }
}

/// Adds a fixed set of headers.
#[derive(Debug)]
pub struct HeaderSigner {
    headers: Headers,
}

impl Clone for HeaderSigner {
    fn clone(&self) -> (r: Self)
        ensures
            r.added() == self.added(),
    {
        HeaderSigner { headers: self.headers.clone() }
    }
}

impl HeaderSigner {
    /// The headers added.
    pub closed spec fn added(&self) -> Map<Seq<char>, Seq<char>> {
        self.headers@
    }

    /// A signer that adds `headers`.
    pub fn new(headers: Headers) -> (s: HeaderSigner)
        ensures
            s.added() == headers@,
    {
        HeaderSigner { headers }
    }
}

impl Signer for HeaderSigner {
    fn name(&self) -> (r: &str)
        ensures
            r@ == "header"@,
    {
        "header"
    }

    fn sign(&self, request: &mut Request, context: &BusinessContext) -> (r: Result<(), NetError>)
        ensures
            r is Ok,
            final(request)@ == with_headers(old(request)@, old(request)@.headers.union_prefer_right(self.added())),
    {
        request.headers.extend(&self.headers);
        Ok(())
    }
}

/// Signs through a function of the caller's.
pub trait SignFn {
    /// The function may be called with the borrowed request `request` under
    /// `context`.
    spec fn accepts(&self, request: &mut Request, context: BusinessContext) -> bool;

    /// Called with the borrowed request `request` under `context`, the
    /// function may return `r`.
    spec fn allows(&self, request: &mut Request, context: BusinessContext, r: Result<(), NetError>) -> bool;

    fn call(&self, request: &mut Request, context: &BusinessContext) -> (r: Result<(), NetError>)
        requires
            forall|m: &mut Request| mut_ref_current(m) == *old(request) ==> #[trigger] self.accepts(m, *context),
        ensures
            exists|m: &mut Request| mut_ref_current(m) == *old(request)
                && mut_ref_future(m) == *final(request) && #[trigger] self.allows(m, *context, r);
}

impl<F: Fn(&mut Request, &BusinessContext) -> Result<(), NetError>> SignFn for F {
    open spec fn accepts(&self, request: &mut Request, context: BusinessContext) -> bool {
        call_requires(*self, (request, &context))
    }

    open spec fn allows(&self, request: &mut Request, context: BusinessContext, r: Result<(), NetError>) -> bool {
        call_ensures(*self, (request, &context), r)
    }

    fn call(&self, request: &mut Request, context: &BusinessContext) -> (r: Result<(), NetError>) {
        assert forall|m: &mut Request| mut_ref_current(m) == *request implies call_requires(*self, (m, context)) by {
            assert(self.accepts(m, *context));
        }
        let r = self(request, context);
        proof {
            let w = choose|m: &mut Request| mut_ref_current(m) == *old(request) && mut_ref_future(m) == *request
                && call_ensures(*self, (m, context), r);
            assert(self.allows(w, *context, r));
        }
        r
    }
}

/// A signer whose work is a closure of the caller's, under a name of the
/// caller's.
pub struct DelegatingSigner {
    name: String,
    handler: Box<dyn SignFn>,
}

impl DelegatingSigner {
    /// The handler may be called on every request.
    #[verifier::type_invariant]
    spec fn handler_total(&self) -> bool {
        forall|m: &mut Request, c: BusinessContext| #[trigger] self.handler.accepts(m, c)
    }

    /// The signer's name.
    pub closed spec fn label(&self) -> Seq<char> {
        self.name@
    }

    /// Signing the borrowed request `request` under `context` may return `r`.
    pub closed spec fn allows(&self, request: &mut Request, context: BusinessContext, r: Result<(), NetError>) -> bool {
        self.handler.allows(request, context, r)
    }

    /// A signer named `name` that signs with `handler`, which must accept
    /// every request.
    pub fn new<F: Fn(&mut Request, &BusinessContext) -> Result<(), NetError> + 'static>(name: &str, handler: F) -> (s: DelegatingSigner)
        requires
            forall|m: &mut Request, c: &BusinessContext| call_requires(handler, (m, c)),
        ensures
            s.label() == name@,
            forall|m: &mut Request, c: BusinessContext, x: Result<(), NetError>| #[trigger] s.allows(m, c, x)
                == call_ensures(handler, (m, &c), x),
    {
        let boxed: Box<dyn SignFn> = Box::new(handler);
        DelegatingSigner { name: name.to_owned(), handler: boxed }
    }
}

impl Signer for DelegatingSigner {
    fn name(&self) -> (r: &str)
        ensures
            r@ == self.label(),
    {
        self.name.as_str()
    }

    fn sign(&self, request: &mut Request, context: &BusinessContext) -> (r: Result<(), NetError>)
        ensures
            exists|m: &mut Request| mut_ref_current(m) == *old(request)
                && mut_ref_future(m) == *final(request) && #[trigger] self.allows(m, *context, r),
    {
        proof {
            use_type_invariant(self);
        }
        let r = self.handler.call(request, context);
        proof {
            let w = choose|m: &mut Request| mut_ref_current(m) == *old(request) && mut_ref_future(m) == *request
                && self.handler.allows(m, *context, r);
            assert(self.allows(w, *context, r));
        }
        r
    }
}

/// The scope a request is signed under: the one given, or `default`.
pub open spec fn scope_or_default(scope: Option<&str>) -> Seq<char> {
    match scope {
        Some(s) => s@,
        None => "default"@,
    }
}

/// The error for a scope with no chain when signing is required.
pub open spec fn missing_chain_text(scope: Seq<char>) -> Seq<char> {
    "missing auth chain for scope `"@ + scope + "`"@
}

/// One signer of a chain, with the name it reported when it joined.
pub struct SignerSlot {
    name: String,
    signer: Box<dyn Signer>,
}

impl SignerSlot {
    /// The name the signer goes by in the chain.
    pub closed spec fn label(&self) -> Seq<char> {
        self.name@
    }

    fn new<S: Signer + 'static>(signer: S) -> SignerSlot {
        let name = signer.name().to_owned();
        let boxed: Box<dyn Signer> = Box::new(signer);
        SignerSlot { name, signer: boxed }
    }
}

/// The names of a chain's signers, in order.
pub open spec fn slot_names(chain: Seq<SignerSlot>) -> Seq<Seq<char>> {
    chain.map_values(|s: SignerSlot| s.label())
}

/// Signer chains by scope, applied in the order they were registered.
pub struct Authenticator {
    scopes: StrMap<Vec<SignerSlot>>,
}

impl Authenticator {
    /// The scopes that have a chain.
    pub closed spec fn scope_names(&self) -> Set<Seq<char>> {
        self.scopes@.dom()
    }

    /// The chain of `scope`.
    pub closed spec fn chain(&self, scope: Seq<char>) -> Seq<SignerSlot> {
        self.scopes@[scope]@
    }

    /// The number of signers in the chain of `scope`; zero for a scope without one.
    pub open spec fn chain_len(&self, scope: Seq<char>) -> nat {
        if self.scope_names().contains(scope) {
            self.chain(scope).len()
        } else {
            0
        }
    }

    /// No chains.
    pub fn new() -> (a: Authenticator)
        ensures
            a.scope_names() == Set::<Seq<char>>::empty(),
    {
        Authenticator { scopes: StrMap::new() }
    }

    /// This authenticator with `signer` appended to the chain of `scope`.
    pub fn register<S: Signer + 'static>(self, scope: &str, signer: S) -> (a: Authenticator)
        ensures
            a.scope_names() == self.scope_names().insert(scope@),
            a.chain_len(scope@) == self.chain_len(scope@) + 1,
            a.chain(scope@).drop_last() == (if self.scope_names().contains(scope@) { self.chain(scope@) } else { Seq::empty() }),
            forall|k: Seq<char>| k != scope@ && #[trigger] self.scope_names().contains(k) ==> a.chain(k) == self.chain(k),
    {
        let mut a = self;
        a.push(scope, signer);
        a
    }

    /// Appends `signer` to the chain of `scope`, creating the chain if needed.
    pub fn push<S: Signer + 'static>(&mut self, scope: &str, signer: S)
        ensures
            final(self).scope_names() == old(self).scope_names().insert(scope@),
            final(self).chain_len(scope@) == old(self).chain_len(scope@) + 1,
            final(self).chain(scope@).drop_last() == (if old(self).scope_names().contains(scope@) { old(self).chain(scope@) } else { Seq::empty() }),
            forall|k: Seq<char>| k != scope@ && #[trigger] old(self).scope_names().contains(k) ==> final(self).chain(k) == old(self).chain(k),
    {
        let slot = SignerSlot::new(signer);
        let ghost before = self.scopes@;
        let mut chain: Vec<SignerSlot> = match self.scopes.remove(scope) {
            Some(existing) => existing,
            None => Vec::new(),
        };
        chain.push(slot);
        let _ = self.scopes.insert(scope.to_owned(), chain);
        assert(self.scopes@.dom() =~= old(self).scopes@.dom().insert(scope@));
        assert(self.chain(scope@).drop_last() =~= (if old(self).scope_names().contains(scope@) { old(self).chain(scope@) } else { Seq::empty() }));
    }

    /// Signs `request` with the chain of `scope` (or `default`) and returns the
    /// names of the signers applied, in order. A scope without a chain is an
    /// error when signing is `required`, and leaves the request as it is
    /// otherwise; a signer's error stops the chain.
    pub fn sign(&self, request: &mut Request, context: &BusinessContext, scope: Option<&str>, required: bool)
        -> (r: Result<Vec<String>, NetError>)
        ensures
            !self.scope_names().contains(scope_or_default(scope)) ==> final(request)@ == old(request)@ && if required {
                r matches Err(e) && e matches NetError::Auth(m) && m@ == missing_chain_text(scope_or_default(scope))
            } else {
                r matches Ok(names) && names@.len() == 0
            },
            self.scope_names().contains(scope_or_default(scope)) ==> (r matches Ok(names) ==> texts(names@)
                == slot_names(self.chain(scope_or_default(scope)))),
            self.scope_names().contains(scope_or_default(scope)) && self.chain(scope_or_default(scope)).len() == 0
                ==> r is Ok && final(request)@ == old(request)@,
    {
        let name: &str = match scope {
            Some(s) => s,
            None => "default",
        };
        match self.scopes.get(name) {
            Some(chain) => {
                let mut names: Vec<String> = Vec::new();
                let mut i: usize = 0;
                while i < chain.len()
                    invariant
                        i <= chain@.len(),
                        texts(names@) == slot_names(chain@.take(i as int)),
                        i == 0 ==> request@ == old(request)@,
                        name@ == scope_or_default(scope),
                        self.scope_names().contains(name@),
                        chain@ == self.chain(name@),
                    decreases chain.len() - i,
                {
                    let slot = &chain[i];
                    slot.signer.sign(request, context)?;
                    let ghost before = names@;
                    let n = slot.name.clone();
                    assert(n@ == chain@[i as int].label());
                    names.push(n);
                    proof {
                        assert(chain@.take(i + 1) =~= chain@.take(i as int).push(chain@[i as int]));
                        assert(names@ == before.push(n));
                        assert(texts(names@) =~= texts(before).push(n@));
                        assert(slot_names(chain@.take(i + 1)) =~= slot_names(chain@.take(i as int)).push(chain@[i as int].label()));
                        assert(texts(names@) =~= slot_names(chain@.take(i + 1)));
                    }
                    i = i + 1;
                }
                proof {
                    assert(chain@.take(chain@.len() as int) =~= chain@);
                }
                Ok(names)
            },
            None => {
                if required {
                    let mut m = "missing auth chain for scope `".to_owned();
                    push_str(&mut m, name);
                    push_str(&mut m, "`");
                    Err(NetError::Auth(m))
                } else {
                    Ok(Vec::new())
                }
            },
        }
    }
}

impl Default for Authenticator {
    fn default() -> (a: Self)
        ensures
            a.scope_names() == Set::<Seq<char>>::empty(),
    {
        Authenticator::new()
    }
}

} // verus!
