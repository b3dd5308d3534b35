//! Identity validation: public paths, API-key authentication and role
//! checks.
use vstd::prelude::*;
use crate::text::{any_prefix_of, contains_text, is_prefix_of, same_text, starts_with, suffix_from, texts};

verus! {

/// An authenticated caller.
#[derive(Debug, Clone)]
pub struct AuthInfo {
    pub user_id: String,
    pub roles: Vec<String>,
}

/// The abstract content of an identity.
pub struct AuthInfoView {
    pub user_id: Seq<char>,
    pub roles: Seq<Seq<char>>,
}

impl View for AuthInfo {
    type V = AuthInfoView;

    open spec fn view(&self) -> AuthInfoView {
        AuthInfoView { user_id: self.user_id@, roles: texts(self.roles@) }
    }
}

impl AuthInfo {
    /// An identical copy.
    pub fn duplicate(&self) -> (r: Self)
        ensures
            r@ == self@,
    {
        let mut roles: Vec<String> = Vec::new();
        let mut i: usize = 0;
        while i < self.roles.len()
            invariant
                i <= self.roles@.len(),
                texts(roles@) == texts(self.roles@).take(i as int),
            decreases self.roles.len() - i,
        {
            let ghost before = roles@;
            let c = self.roles[i].clone();
            roles.push(c);
            assert(texts(roles@) =~= texts(before).push(self.roles@[i as int]@));
            assert(texts(roles@) =~= texts(self.roles@).take(i as int + 1));
            i += 1;
        }
        assert(texts(self.roles@).take(self.roles@.len() as int) =~= texts(self.roles@));
        AuthInfo { user_id: self.user_id.clone(), roles }
    }
}

/// Why a request could not be authenticated or authorized.
#[derive(Debug, Clone, Copy, PartialEq, Eq, Structural)]
pub enum AuthError {
    MissingToken,
    InvalidToken,
    InsufficientPermissions,
    /// Reserved: no token carries an expiry yet.
    ExpiredToken,
}

/// The human-readable text of each failure.
pub open spec fn auth_error_text(e: AuthError) -> Seq<char> {
    match e {
        AuthError::MissingToken => "Authentication token is required"@,
        AuthError::InvalidToken => "Invalid authentication token"@,
        AuthError::InsufficientPermissions => "Insufficient permissions"@,
        AuthError::ExpiredToken => "Authentication token has expired"@,
    }
}

impl AuthError {
    /// The human-readable text of this failure.
    pub fn message(&self) -> (r: String)
        ensures
            r@ == auth_error_text(*self),
    {
        match self {
            AuthError::MissingToken => String::from_str("Authentication token is required"),
            AuthError::InvalidToken => String::from_str("Invalid authentication token"),
            AuthError::InsufficientPermissions => String::from_str("Insufficient permissions"),
            AuthError::ExpiredToken => String::from_str("Authentication token has expired"),
        }
    }
}

/// One registered API key.
struct ApiKey {
    key: String,
    info: AuthInfo,
}

/// The identity registered last for `key` among `entries`.
spec fn lookup(entries: Seq<ApiKey>, key: Seq<char>) -> Option<AuthInfoView>
    decreases entries.len(),
{
    if entries.len() == 0 {
        None
    } else if entries.last().key@ == key {
        Some(entries.last().info@)
    } else {
        lookup(entries.drop_last(), key)
    }
}

/// The marker that may precede a token.
pub open spec fn bearer() -> Seq<char> {
    "Bearer "@
}

/// The token with one leading `"Bearer "` removed, if it has one.
pub open spec fn strip_bearer(t: Seq<char>) -> Seq<char> {
    if is_prefix_of(bearer(), t) {
        t.subrange(bearer().len() as int, t.len() as int)
    } else {
        t
    }
}

/// Role check: the role is held, or `"admin"` is, which overrides all.
pub open spec fn spec_authorized(info: AuthInfoView, role: Seq<char>) -> bool {
    info.roles.contains(role) || info.roles.contains("admin"@)
}

/// The abstract form of an authentication result.
pub open spec fn auth_view(r: Result<AuthInfo, AuthError>) -> Result<AuthInfoView, AuthError> {
    match r {
        Ok(i) => Ok(i@),
        Err(e) => Err(e),
    }
}

/// The abstract form of a request validation result.
pub open spec fn validation_view(r: Result<Option<AuthInfo>, AuthError>) -> Result<Option<AuthInfoView>, AuthError> {
    match r {
        Ok(Some(i)) => Ok(Some(i@)),
        Ok(None) => Ok(None),
        Err(e) => Err(e),
    }
}

/// The characters of an optional token.
pub open spec fn token_view(t: Option<&str>) -> Option<Seq<char>> {
    match t {
        Some(s) => Some(s@),
        None => None,
    }
}

/// API-key authentication with a set of public path prefixes.
pub struct AuthMiddleware {
    api_keys: Vec<ApiKey>,
    public_paths: Vec<String>,
}

impl AuthMiddleware {
    /// The identity registered for `key`, if any.
    pub closed spec fn credential(&self, key: Seq<char>) -> Option<AuthInfoView> {
        lookup(self.api_keys@, key)
    }

    /// The public path prefixes, in order of addition.
    pub closed spec fn public_prefixes(&self) -> Seq<Seq<char>> {
        texts(self.public_paths@)
    }

    /// `path` begins with some public prefix.
    pub open spec fn spec_is_public(&self, path: Seq<char>) -> bool {
        exists|i: int| 0 <= i < self.public_prefixes().len() && is_prefix_of(#[trigger] self.public_prefixes()[i], path)
    }

    /// Authentication of a presented token.
    pub open spec fn spec_authenticate(&self, token: Seq<char>) -> Result<AuthInfoView, AuthError> {
        if token.len() == 0 {
            Err(AuthError::MissingToken)
        } else {
            match self.credential(strip_bearer(token)) {
                Some(i) => Ok(i),
                None => Err(AuthError::InvalidToken),
            }
        }
    }

    /// Validation of a request for `path` carrying `token`.
    pub open spec fn spec_validate(&self, path: Seq<char>, token: Option<Seq<char>>) -> Result<Option<AuthInfoView>, AuthError> {
        if self.spec_is_public(path) {
            Ok(None)
        } else {
            match token {
                None => Err(AuthError::MissingToken),
                Some(t) => match self.spec_authenticate(t) {
                    Ok(i) => Ok(Some(i)),
                    Err(e) => Err(e),
                },
            }
        }
    }

    /// No key registered; `/health`, `/auth/login` and `/auth/register` public.
    pub fn new() -> (r: Self)
        ensures
            forall|k: Seq<char>| #[trigger] r.credential(k) is None,
            r.public_prefixes() == seq!["/health"@, "/auth/login"@, "/auth/register"@],
    {
        let mut public_paths: Vec<String> = Vec::new();
        public_paths.push(String::from_str("/health"));
        public_paths.push(String::from_str("/auth/login"));
        public_paths.push(String::from_str("/auth/register"));
        let r = AuthMiddleware { api_keys: Vec::new(), public_paths };
        assert(r.public_prefixes() =~= seq!["/health"@, "/auth/login"@, "/auth/register"@]);
        r
    }

    /// Register `key` for the given identity, replacing any earlier
    /// registration of the same key.
    pub fn register_api_key(&mut self, key: String, user_id: String, roles: Vec<String>)
        ensures
            forall|k: Seq<char>| #[trigger] final(self).credential(k) == if k == key@ {
                Some(AuthInfoView { user_id: user_id@, roles: texts(roles@) })
            } else {
                old(self).credential(k)
            },
            final(self).public_prefixes() == old(self).public_prefixes(),
    {
        let ghost before = self.api_keys@;
        self.api_keys.push(ApiKey { key, info: AuthInfo { user_id, roles } });
        assert(self.api_keys@.drop_last() =~= before);
    }

    /// Add a public path prefix.
    pub fn add_public_path(&mut self, path: String)
        ensures
            final(self).public_prefixes() == old(self).public_prefixes().push(path@),
            forall|k: Seq<char>| #[trigger] final(self).credential(k) == old(self).credential(k),
    {
        self.public_paths.push(path);
        assert(self.public_prefixes() =~= old(self).public_prefixes().push(path@));
    }

    fn find_key(&self, key: &str) -> (r: Option<usize>)
        ensures
            r is None ==> self.credential(key@) is None,
            r is Some ==> r->Some_0 < self.api_keys@.len() && self.credential(key@) == Some(self.api_keys@[r->Some_0 as int].info@),
    {
        let ghost s = self.api_keys@;
        let mut i: usize = self.api_keys.len();
        assert(s.take(i as int) =~= s);
        while i > 0
            invariant
                s == self.api_keys@,
                i <= s.len(),
                lookup(s, key@) == lookup(s.take(i as int), key@),
            decreases i,
        {
            assert(s.take(i as int).drop_last() =~= s.take(i as int - 1));
            if same_text(self.api_keys[i - 1].key.as_str(), key) {
                return Some(i - 1);
            }
            i -= 1;
        }
        None
    }

    /// The identity for `token`, after removing one leading `"Bearer "`.
    /// An empty token is missing; an unregistered one is invalid.
    pub fn authenticate(&self, token: &str) -> (r: Result<AuthInfo, AuthError>)
        ensures
            auth_view(r) == self.spec_authenticate(token@),
    {
        if token.unicode_len() == 0 {
            return Err(AuthError::MissingToken);
        }
        let marker = "Bearer ";
        proof {
            reveal_strlit("Bearer ");
        }
        let clean = if starts_with(token, marker) {
            suffix_from(token, marker.unicode_len())
        } else {
            String::from_str(token)
        };
        match self.find_key(clean.as_str()) {
            Some(i) => Ok(self.api_keys[i].info.duplicate()),
            None => Err(AuthError::InvalidToken),
        }
    }

    /// Succeeds when the identity holds `required_role` or `"admin"`.
    pub fn authorize(&self, auth_info: &AuthInfo, required_role: &str) -> (r: Result<(), AuthError>)
        ensures
            r is Ok <==> spec_authorized(auth_info@, required_role@),
            r is Err ==> r->Err_0 == AuthError::InsufficientPermissions,
    {
        if contains_text(&auth_info.roles, required_role) || contains_text(&auth_info.roles, "admin") {
            Ok(())
        } else {
            Err(AuthError::InsufficientPermissions)
        }
    }

    /// Whether `path` begins with a public prefix.
    pub fn is_public_path(&self, path: &str) -> (r: bool)
        ensures
            r == self.spec_is_public(path@),
    {
        let r = any_prefix_of(&self.public_paths, path);
        proof {
            if r {
                let j = choose|j: int| 0 <= j < self.public_paths@.len() && is_prefix_of((#[trigger] self.public_paths@[j])@, path@);
                assert(self.public_prefixes()[j] == self.public_paths@[j]@);
            } else {
                assert forall|j: int| 0 <= j < self.public_prefixes().len()
                    implies !is_prefix_of(#[trigger] self.public_prefixes()[j], path@) by {
                    assert(self.public_prefixes()[j] == self.public_paths@[j]@);
                }
            }
        }
        r
    }

    /// A public path passes with no identity, whatever the token; any other
    /// path needs a token that authenticates.
    pub fn validate_request(&self, path: &str, token: Option<&str>) -> (r: Result<Option<AuthInfo>, AuthError>)
        ensures
            validation_view(r) == self.spec_validate(path@, token_view(token)),
    {
        if self.is_public_path(path) {
            return Ok(None);
        }
        match token {
            Some(t) => match self.authenticate(t) {
                Ok(info) => Ok(Some(info)),
                Err(e) => Err(e),
            },
            None => Err(AuthError::MissingToken),
        }
    }
}

/// A registered token that does not itself begin with the marker
/// authenticates identically with and without a leading `"Bearer "`.
pub proof fn lemma_bearer_optional(a: AuthMiddleware, token: Seq<char>)
    requires
        token.len() > 0,
        !is_prefix_of(bearer(), token),
        a.credential(token) is Some,
    ensures
        a.spec_authenticate(bearer() + token) == a.spec_authenticate(token),
        a.spec_authenticate(token) == Ok::<AuthInfoView, AuthError>(a.credential(token)->Some_0),
{
    let full = bearer() + token;
    assert(full.subrange(0, bearer().len() as int) =~= bearer());
    assert(full.subrange(bearer().len() as int, full.len() as int) =~= token);
}

/// An identity holding `"admin"` is authorized for every role.
pub proof fn lemma_admin_authorized(info: AuthInfoView, role: Seq<char>)
    requires
        info.roles.contains("admin"@),
    ensures
        spec_authorized(info, role),
{
}

/// A request for a public path is admitted with no identity, whether the
/// token is absent, invalid or valid.
pub proof fn lemma_public_needs_no_token(a: AuthMiddleware, path: Seq<char>, token: Option<Seq<char>>)
    requires
        a.spec_is_public(path),
    ensures
        a.spec_validate(path, token) == Ok::<Option<AuthInfoView>, AuthError>(None),
{
}

} // verus!
