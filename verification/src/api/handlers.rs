//! API request handling: from a request and the stores to the stores'
//! new state and the response, with its HTTP status code.

use vstd::prelude::*;

use crate::auth::store::{
    keys_match, login_key, lookup, lists_exactly, spec_hash_password, spec_make_key, user_key,
    AuthError,
    AuthStore, ImapForwardConfig, ImapForwardConfigView, User, UserView,
};
use crate::auth::password::{max_password_len, spec_verify, PasswordErrorView};
use crate::text::{copy_strings, lemma_last_index, push_str, spec_to_lowercase, string_views};
use crate::vhost::domain::{
    DomainConfig, DomainConfigView, DomainInfo, DomainTlsConfig,
};
use crate::vhost::router::{domain_key, domain_lookup, VirtualHostRouter};
use crate::VERSION;

verus! {

/// `200 OK`.
pub const STATUS_OK: u16 = 200;

/// `201 Created`.
pub const STATUS_CREATED: u16 = 201;

/// `204 No Content`.
pub const STATUS_NO_CONTENT: u16 = 204;

/// `401 Unauthorized`.
pub const STATUS_UNAUTHORIZED: u16 = 401;

/// `404 Not Found`.
pub const STATUS_NOT_FOUND: u16 = 404;

/// `500 Internal Server Error`.
pub const STATUS_INTERNAL_SERVER_ERROR: u16 = 500;

/// The path that needs no API key.
pub open spec fn health_path() -> Seq<char> {
    "/api/v1/health"@
}

/// Health check response
#[derive(Debug)]
pub struct HealthResponse {
    pub status: String,
    pub version: String,
}

/// Domain response
#[derive(Debug)]
pub struct DomainResponse {
    pub name: String,
    pub enabled: bool,
    pub default_storage: String,
    pub maildir_base: String,
}

/// User response (without password hash)
#[derive(Debug)]
pub struct UserResponse {
    pub username: String,
    pub domain: String,
    pub storage: String,
    pub enabled: bool,
    pub webhook_url: String,
}

/// Create/Update domain request
#[derive(Debug)]
pub struct CreateDomainRequest {
    pub name: String,
    pub enabled: bool,
    pub default_storage: String,
    pub maildir_base: String,
    pub cert_path: String,
    pub key_path: String,
}

/// Create user request
#[derive(Debug)]
pub struct CreateUserRequest {
    pub username: String,
    pub password: String,
    pub storage: String,
    pub maildir: String,
    pub s3_bucket: String,
    pub s3_prefix: String,
    pub webhook_url: String,
    pub webhook_events: Vec<String>,
    pub enabled: bool,
}

/// Update user request
#[derive(Debug)]
pub struct UpdateUserRequest {
    pub password: Option<String>,
    pub storage: Option<String>,
    pub maildir: Option<String>,
    pub webhook_url: Option<String>,
    pub enabled: Option<bool>,
}

/// Error response
#[derive(Debug)]
pub struct ErrorResponse {
    pub error: String,
}

/// The mathematical value of a [`DomainResponse`].
pub struct DomainResponseView {
    pub name: Seq<char>,
    pub enabled: bool,
    pub default_storage: Seq<char>,
    pub maildir_base: Seq<char>,
}

impl View for DomainResponse {
    type V = DomainResponseView;

    open spec fn view(&self) -> DomainResponseView {
        DomainResponseView {
            name: self.name@,
            enabled: self.enabled,
            default_storage: self.default_storage@,
            maildir_base: self.maildir_base@,
        }
    }
}

/// The mathematical value of a [`UserResponse`].
pub struct UserResponseView {
    pub username: Seq<char>,
    pub domain: Seq<char>,
    pub storage: Seq<char>,
    pub enabled: bool,
    pub webhook_url: Seq<char>,
}

impl View for UserResponse {
    type V = UserResponseView;

    open spec fn view(&self) -> UserResponseView {
        UserResponseView {
            username: self.username@,
            domain: self.domain@,
            storage: self.storage@,
            enabled: self.enabled,
            webhook_url: self.webhook_url@,
        }
    }
}

/// An error answer: a status code and an error body.
pub type ApiError = (u16, ErrorResponse);

/// The status code and message of an error answer.
pub open spec fn error_view(e: ApiError) -> (u16, Seq<char>) {
    (e.0, e.1.error@)
}

/// What a domain configuration is shown as.
pub open spec fn domain_response_view(d: DomainConfigView) -> DomainResponseView {
    DomainResponseView {
        name: d.name,
        enabled: d.enabled,
        default_storage: d.default_storage,
        maildir_base: d.maildir_base,
    }
}

/// What a user is shown as.
pub open spec fn user_response_view(u: UserView) -> UserResponseView {
    UserResponseView {
        username: u.username,
        domain: u.domain,
        storage: u.storage,
        enabled: u.enabled,
        webhook_url: u.webhook_url,
    }
}

/// The domain configuration a create request describes.
pub open spec fn requested_domain(req: CreateDomainRequest) -> DomainConfigView {
    DomainConfigView {
        name: req.name@,
        enabled: req.enabled,
        default_storage: req.default_storage@,
        maildir_base: req.maildir_base@,
        cert_path: req.cert_path@,
        key_path: req.key_path@,
    }
}

/// The IMAP forwarding setting of a user created through the API.
pub open spec fn no_forwarding() -> ImapForwardConfigView {
    ImapForwardConfigView {
        enabled: false,
        host: Seq::empty(),
        port: 993,
        tls: true,
        username: Seq::empty(),
        password_env: Seq::empty(),
        target_folder: "INBOX"@,
        delete_after_forward: false,
    }
}

/// The user a create request describes, in `domain`, with password hash `hash`.
pub open spec fn requested_user(req: CreateUserRequest, domain: Seq<char>, hash: Seq<char>) -> UserView {
    UserView {
        username: req.username@,
        domain: domain,
        password_hash: hash,
        maildir: req.maildir@,
        storage: req.storage@,
        s3_bucket: req.s3_bucket@,
        s3_prefix: req.s3_prefix@,
        webhook_url: req.webhook_url@,
        webhook_events: string_views(req.webhook_events@),
        enabled: req.enabled,
        imap_forward: no_forwarding(),
    }
}

/// A value, or the old one when none is given.
pub open spec fn or_keep<T>(new: Option<T>, old: T) -> T {
    match new {
        Some(v) => v,
        None => old,
    }
}

/// The view of an optional string.
pub open spec fn opt_str(o: Option<String>) -> Option<Seq<char>> {
    match o {
        Some(s) => Some(s@),
        None => None,
    }
}

/// `u` with the fields an update request gives replaced, and the password
/// hash replaced by `hash` when there is one.
pub open spec fn updated_user(u: UserView, req: UpdateUserRequest, hash: Option<Seq<char>>) -> UserView {
    UserView {
        username: u.username,
        domain: u.domain,
        password_hash: or_keep(hash, u.password_hash),
        maildir: or_keep(opt_str(req.maildir), u.maildir),
        storage: or_keep(opt_str(req.storage), u.storage),
        s3_bucket: u.s3_bucket,
        s3_prefix: u.s3_prefix,
        webhook_url: or_keep(opt_str(req.webhook_url), u.webhook_url),
        webhook_events: u.webhook_events,
        enabled: or_keep(req.enabled, u.enabled),
        imap_forward: u.imap_forward,
    }
}

/// The login name the user routes address: `username@domain`.
pub open spec fn full_username(username: Seq<char>, domain: Seq<char>) -> Seq<char> {
    username + "@"@ + domain
}

/// The message of a failed hash.
pub open spec fn hash_failure_message(m: Seq<char>) -> Seq<char> {
    "Failed to hash password: Password verification error: "@ + m
}

/// Whether a request may go on: the health check always may; others only
/// with the API key in the `x-api-key` header (as text; a header that is not
/// visible ASCII reads as empty).
pub open spec fn spec_authorized(path: Seq<char>, header: Option<Seq<char>>, api_key: Seq<char>) -> bool {
    path == health_path() || header == Some(api_key)
}

/// The responses for the domains under `names` that are still found.
pub open spec fn listed_domains(m: Map<Seq<char>, DomainConfigView>, names: Seq<Seq<char>>) -> Seq<
    DomainResponseView,
>
    decreases names.len(),
{
    if names.len() == 0 {
        Seq::empty()
    } else {
        let rest = listed_domains(m, names.drop_last());
        match domain_lookup(m, domain_key(names.last())) {
            Some(d) => rest.push(domain_response_view(d)),
            None => rest,
        }
    }
}

/// The views of a sequence of domain responses.
pub open spec fn domain_response_views(v: Seq<DomainResponse>) -> Seq<DomainResponseView> {
    v.map_values(|d: DomainResponse| d@)
}

/// What each of a sequence of users is shown as.
pub open spec fn user_responses(us: Seq<UserView>) -> Seq<UserResponseView> {
    us.map_values(|u: UserView| user_response_view(u))
}

/// The views of a sequence of user responses.
pub open spec fn user_response_views(v: Seq<UserResponse>) -> Seq<UserResponseView> {
    v.map_values(|u: UserResponse| u@)
}

impl ErrorResponse {
    pub fn new(message: &str) -> (r: Self)
        ensures
            r.error@ == message@,
    {
        Self { error: message.to_owned() }
    }
}

fn error(status: u16, message: &str) -> (r: ApiError)
    ensures
        error_view(r) == (status, message@),
{
    (status, ErrorResponse::new(message))
}

fn domain_response(d: &DomainConfig) -> (r: DomainResponse)
    ensures
        r@ == domain_response_view(d@),
{
    DomainResponse {
        name: d.domain.name.clone(),
        enabled: d.domain.enabled,
        default_storage: d.domain.default_storage.clone(),
        maildir_base: d.domain.maildir_base.clone(),
    }
}

fn user_response(u: &User) -> (r: UserResponse)
    ensures
        r@ == user_response_view(u@),
{
    UserResponse {
        username: u.username.clone(),
        domain: u.domain.clone(),
        storage: u.storage.clone(),
        enabled: u.enabled,
        webhook_url: u.webhook_url.clone(),
    }
}

/// Health check: status `ok` and the server's version.
pub fn health() -> (r: HealthResponse)
    ensures
        r.status@ == "ok"@,
        r.version@ == VERSION@,
{
    HealthResponse { status: "ok".to_owned(), version: VERSION.to_owned() }
}

/// Whether a request to `path`, carrying `header` as its `x-api-key`, may
/// go on.
pub fn is_authorized(path: &str, header: Option<&str>, api_key: &str) -> (r: bool)
    ensures
        r == spec_authorized(
            path@,
            match header {
                Some(h) => Some(h@),
                None => None,
            },
            api_key@,
        ),
{
    proof {
        reveal_strlit("/api/v1/health");
    }
    if crate::text::str_eq(path, "/api/v1/health") {
        return true;
    }
    match header {
        Some(h) => crate::text::str_eq(h, api_key),
        None => false,
    }
}

/// List all domains: each name the router lists, with its configuration.
pub fn list_domains(router: &VirtualHostRouter) -> (r: Vec<DomainResponse>)
    ensures
        exists|names: Seq<Seq<char>>|
            names.no_duplicates() && names.to_set() == router@.dom() && domain_response_views(r@)
                == #[trigger] listed_domains(router@, names),
{
    let names = router.list_domains();
    let ghost ns = string_views(names@);
    let mut out: Vec<DomainResponse> = Vec::new();
    let mut i: usize = 0;
    while i < names.len()
        invariant
            i <= names@.len(),
            ns == string_views(names@),
            domain_response_views(out@) == listed_domains(router@, ns.take(i as int)),
        decreases names.len() - i,
    {
        let found = router.get_domain(names[i].as_str());
        proof {
            assert(ns.take(i + 1).drop_last() =~= ns.take(i as int));
            assert(ns.take(i + 1).last() == names@[i as int]@);
        }
        match found {
            Some(config) => {
                let ghost before = out@;
                out.push(domain_response(&config));
                assert(domain_response_views(out@) =~= domain_response_views(before).push(
                    domain_response_view(config@),
                ));
            },
            None => {},
        }
        i = i + 1;
    }
    assert(ns.take(ns.len() as int) =~= ns);
    out
}

/// Get a specific domain, or `404 Domain not found`.
pub fn get_domain(router: &VirtualHostRouter, domain: &str) -> (r: Result<DomainResponse, ApiError>)
    ensures
        match domain_lookup(router@, domain_key(domain@)) {
            Some(d) => r matches Ok(resp) && resp@ == domain_response_view(d),
            None => r matches Err(e) && error_view(e) == (STATUS_NOT_FOUND, "Domain not found"@),
        },
{
    match router.get_domain(domain) {
        Some(config) => Ok(domain_response(&config)),
        None => Err(error(STATUS_NOT_FOUND, "Domain not found")),
    }
}

/// Create a new domain (or replace the one with the same name, ignoring
/// case): `201` with the domain as given.
pub fn create_domain(router: &mut VirtualHostRouter, req: CreateDomainRequest) -> (r: Result<
    (u16, DomainResponse),
    ApiError,
>)
    ensures
        final(router)@ == old(router)@.insert(domain_key(req.name@), requested_domain(req)),
        r matches Ok((status, resp)) && status == STATUS_CREATED && resp@ == domain_response_view(
            requested_domain(req),
        ),
{
    let config = DomainConfig {
        domain: DomainInfo {
            name: req.name.clone(),
            enabled: req.enabled,
            default_storage: req.default_storage.clone(),
            maildir_base: req.maildir_base.clone(),
        },
        tls: DomainTlsConfig { cert_path: req.cert_path.clone(), key_path: req.key_path.clone() },
    };
    router.add_domain(config);
    Ok(
        (
            STATUS_CREATED,
            DomainResponse {
                name: req.name,
                enabled: req.enabled,
                default_storage: req.default_storage,
                maildir_base: req.maildir_base,
            },
        ),
    )
}

/// Delete a domain: `204`, or `404 Domain not found`.
pub fn delete_domain(router: &mut VirtualHostRouter, domain: &str) -> (r: Result<u16, ApiError>)
    ensures
        final(router)@ == old(router)@.remove(domain_key(domain@)),
        match domain_lookup(old(router)@, domain_key(domain@)) {
            Some(_) => r == Ok::<u16, ApiError>(STATUS_NO_CONTENT),
            None => r matches Err(e) && error_view(e) == (STATUS_NOT_FOUND, "Domain not found"@),
        },
{
    match router.remove_domain(domain) {
        Some(_) => Ok(STATUS_NO_CONTENT),
        None => Err(error(STATUS_NOT_FOUND, "Domain not found")),
    }
}

/// List the users of a domain (ignoring case), each once, in no particular
/// order.
pub fn list_users(store: &AuthStore, domain: &str) -> (r: Vec<UserResponse>)
    ensures
        exists|us: Seq<UserView>|
            lists_exactly(
                store@,
                us,
                |u: UserView| spec_to_lowercase(u.domain) == spec_to_lowercase(domain@),
            ) && user_response_views(r@) == #[trigger] user_responses(us),
{
    let users = store.list_users_by_domain(domain);
    let ghost us = crate::auth::store::user_views(users@);
    let mut out: Vec<UserResponse> = Vec::new();
    let mut i: usize = 0;
    while i < users.len()
        invariant
            i <= users@.len(),
            us == crate::auth::store::user_views(users@),
            user_response_views(out@) == user_responses(us.take(i as int)),
        decreases users.len() - i,
    {
        let ghost before = out@;
        out.push(user_response(&users[i]));
        proof {
            assert(us.take(i + 1) =~= us.take(i as int).push(us[i as int]));
            assert(user_response_views(out@) =~= user_response_views(before).push(
                user_response_view(us[i as int]),
            ));
            assert(user_responses(us.take(i + 1)) =~= user_responses(us.take(i as int)).push(
                user_response_view(us[i as int]),
            ));
        }
        i = i + 1;
    }
    assert(us.take(us.len() as int) =~= us);
    out
}

/// `username@domain`.
fn join_full_username(username: &str, domain: &str) -> (r: String)
    ensures
        r@ == full_username(username@, domain@),
{
    let mut s = username.to_owned();
    push_str(&mut s, "@");
    push_str(&mut s, domain);
    proof {
        reveal_strlit("@");
    }
    s
}

/// Get a specific user (`username@domain`), or `404 User not found`.
pub fn get_user(store: &AuthStore, domain: &str, username: &str) -> (r: Result<UserResponse, ApiError>)
    ensures
        match lookup(store@, login_key(full_username(username@, domain@))) {
            Some(u) => r matches Ok(resp) && resp@ == user_response_view(u),
            None => r matches Err(e) && error_view(e) == (STATUS_NOT_FOUND, "User not found"@),
        },
{
    let full = join_full_username(username, domain);
    match store.get_user(full.as_str()) {
        Some(user) => Ok(user_response(&user)),
        None => Err(error(STATUS_NOT_FOUND, "User not found")),
    }
}

/// The text of a failed hash, as the handlers report it.
fn hash_failure(e: AuthError) -> (r: ApiError)
    ensures
        e matches AuthError::PasswordError(m) ==> error_view(r) == (
            STATUS_INTERNAL_SERVER_ERROR,
            hash_failure_message(m@),
        ),
        error_view(r).0 == STATUS_INTERNAL_SERVER_ERROR,
{
    let mut msg = "Failed to hash password: Password verification error: ".to_owned();
    match e {
        AuthError::PasswordError(m) => {
            push_str(&mut msg, m.as_str());
        },
        _ => {},
    }
    (STATUS_INTERNAL_SERVER_ERROR, ErrorResponse { error: msg })
}

/// Create a user in `domain`, with the password hashed under a fresh random
/// salt: `201` with the user, or `500` with the hashing error (and the store
/// unchanged).
pub fn create_user(store: &mut AuthStore, domain: &str, req: CreateUserRequest) -> (r: Result<
    (u16, UserResponse),
    ApiError,
>)
    ensures
        exists|salt: Seq<char>|
            match #[trigger] spec_hash_password(req.password@, salt) {
                Ok(h) => {
                    let u = requested_user(req, domain@, h);
                    &&& final(store)@ == old(store)@.insert(user_key(u), u)
                    &&& r matches Ok((status, resp)) && status == STATUS_CREATED && resp@
                        == user_response_view(u)
                },
                Err(m) => {
                    &&& final(store)@ == old(store)@
                    &&& r matches Err(e) && error_view(e) == (
                        STATUS_INTERNAL_SERVER_ERROR,
                        hash_failure_message(m),
                    )
                },
            },
        vstd::utf8::encode_utf8(req.password@).len() <= max_password_len() ==> r is Ok,
{
    let hashed = store.hash_password(req.password.as_str());
    let ghost salt = choose|salt: Seq<char>|
        match #[trigger] spec_hash_password(req.password@, salt) {
            Ok(h) => hashed matches Ok(s) && s@ == h,
            Err(m) => hashed matches Err(AuthError::PasswordError(t)) && t@ == m,
        };
    let password_hash = match hashed {
        Ok(h) => h,
        Err(e) => {
            let r = hash_failure(e);
            assert(spec_hash_password(req.password@, salt) is Err);
            return Err(r);
        },
    };
    let ghost h = password_hash@;
    let user = User {
        username: req.username.clone(),
        domain: domain.to_owned(),
        password_hash,
        maildir: req.maildir.clone(),
        storage: req.storage.clone(),
        s3_bucket: req.s3_bucket.clone(),
        s3_prefix: req.s3_prefix.clone(),
        webhook_url: req.webhook_url.clone(),
        webhook_events: copy_strings(&req.webhook_events),
        enabled: req.enabled,
        imap_forward: ImapForwardConfig::default(),
    };
    assert(user@ == requested_user(req, domain@, h));
    store.upsert_user(user);
    let resp = UserResponse {
        username: req.username.clone(),
        domain: domain.to_owned(),
        storage: req.storage.clone(),
        enabled: req.enabled,
        webhook_url: req.webhook_url.clone(),
    };
    assert(spec_hash_password(req.password@, salt) == Ok::<Seq<char>, Seq<char>>(h));
    Ok((STATUS_CREATED, resp))
}

fn copy_opt(o: &Option<String>) -> (r: Option<String>)
    ensures
        opt_str(r) == opt_str(*o),
{
    match o {
        Some(s) => Some(s.clone()),
        None => None,
    }
}

/// Apply an update request to `user`, with `hash` as its new password hash
/// when there is one.
fn apply_update(user: &mut User, req: &UpdateUserRequest, hash: Option<String>)
    ensures
        final(user)@ == updated_user(old(user)@, *req, opt_str(hash)),
{
    match hash {
        Some(h) => {
            user.password_hash = h;
        },
        None => {},
    }
    match copy_opt(&req.storage) {
        Some(s) => {
            user.storage = s;
        },
        None => {},
    }
    match copy_opt(&req.maildir) {
        Some(m) => {
            user.maildir = m;
        },
        None => {},
    }
    match copy_opt(&req.webhook_url) {
        Some(w) => {
            user.webhook_url = w;
        },
        None => {},
    }
    match req.enabled {
        Some(e) => {
            user.enabled = e;
        },
        None => {},
    }
}

/// Update a user (`username@domain`): `404 User not found` when there is no
/// such user; with a new password, `500` when hashing fails; otherwise the
/// user with the given fields replaced is stored and shown. On an error the
/// store is unchanged.
pub fn update_user(store: &mut AuthStore, domain: &str, username: &str, req: UpdateUserRequest) -> (r:
    Result<UserResponse, ApiError>)
    ensures
        match lookup(old(store)@, login_key(full_username(username@, domain@))) {
            None => {
                &&& final(store)@ == old(store)@
                &&& r matches Err(e) && error_view(e) == (STATUS_NOT_FOUND, "User not found"@)
            },
            Some(u) => match req.password {
                None => {
                    let u2 = updated_user(u, req, None);
                    &&& final(store)@ == old(store)@.insert(user_key(u2), u2)
                    &&& r matches Ok(resp) && resp@ == user_response_view(u2)
                },
                Some(p) => exists|salt: Seq<char>|
                    match #[trigger] spec_hash_password(p@, salt) {
                        Ok(h) => {
                            let u2 = updated_user(u, req, Some(h));
                            &&& final(store)@ == old(store)@.insert(user_key(u2), u2)
                            &&& r matches Ok(resp) && resp@ == user_response_view(u2)
                        },
                        Err(m) => {
                            &&& final(store)@ == old(store)@
                            &&& r matches Err(e) && error_view(e) == (
                                STATUS_INTERNAL_SERVER_ERROR,
                                hash_failure_message(m),
                            )
                        },
                    },
            },
        },
        lookup(old(store)@, login_key(full_username(username@, domain@))) is Some && match req.password {
            Some(p) => vstd::utf8::encode_utf8(p@).len() <= max_password_len(),
            None => true,
        } ==> r is Ok,
        match lookup(old(store)@, login_key(full_username(username@, domain@))) {
            Some(u) => r is Ok ==> (lookup(
                final(store)@,
                login_key(full_username(username@, domain@)),
            ) matches Some(u2) && {
                &&& u2.username == u.username
                &&& u2.domain == u.domain
                &&& u2.maildir == match req.maildir {
                    Some(m) => m@,
                    None => u.maildir,
                }
                &&& u2.storage == match req.storage {
                    Some(x) => x@,
                    None => u.storage,
                }
                &&& u2.webhook_url == match req.webhook_url {
                    Some(w) => w@,
                    None => u.webhook_url,
                }
                &&& u2.enabled == match req.enabled {
                    Some(e) => e,
                    None => u.enabled,
                }
                &&& match req.password {
                    Some(p) => spec_verify(p@, u2.password_hash) == Ok::<bool, PasswordErrorView>(true),
                    None => u2.password_hash == u.password_hash,
                }
                &&& u2.s3_bucket == u.s3_bucket
                &&& u2.s3_prefix == u.s3_prefix
                &&& u2.webhook_events == u.webhook_events
                &&& u2.imap_forward == u.imap_forward
            }),
            None => true,
        },
{
    proof {
        use_type_invariant(&*store);
        store.lemma_stored_under_own_key();
    }
    let full = join_full_username(username, domain);
    let mut user = match store.get_user(full.as_str()) {
        Some(u) => u,
        None => {
            return Err(error(STATUS_NOT_FOUND, "User not found"));
        },
    };
    let ghost u = user@;
    let hash = match &req.password {
        Some(password) => {
            let hashed = store.hash_password(password.as_str());
            let ghost salt = choose|salt: Seq<char>|
                match #[trigger] spec_hash_password(password@, salt) {
                    Ok(h) => hashed matches Ok(s) && s@ == h,
                    Err(m) => hashed matches Err(AuthError::PasswordError(t)) && t@ == m,
                };
            match hashed {
                Ok(h) => {
                    assert(spec_hash_password(password@, salt) == Ok::<Seq<char>, Seq<char>>(h@));
                    Some(h)
                },
                Err(e) => {
                    let r = hash_failure(e);
                    assert(spec_hash_password(password@, salt) is Err);
                    return Err(r);
                },
            }
        },
        None => None,
    };
    let ghost hv = opt_str(hash);
    apply_update(&mut user, &req, hash);
    let resp = user_response(&user);
    store.upsert_user(user);
    Ok(resp)
}

/// Delete a user: `204`, or `404 User not found`.
pub fn delete_user(store: &mut AuthStore, domain: &str, username: &str) -> (r: Result<u16, ApiError>)
    ensures
        final(store)@ == old(store)@.remove(spec_make_key(username@, domain@)),
        match lookup(old(store)@, spec_make_key(username@, domain@)) {
            Some(_) => r == Ok::<u16, ApiError>(STATUS_NO_CONTENT),
            None => r matches Err(e) && error_view(e) == (STATUS_NOT_FOUND, "User not found"@),
        },
{
    match store.remove_user(username, domain) {
        Some(_) => Ok(STATUS_NO_CONTENT),
        None => Err(error(STATUS_NOT_FOUND, "User not found")),
    }
}

/// After an update of the user a login name finds, the same login name
/// finds the updated user.
pub proof fn lemma_get_after_update(
    m: Map<Seq<char>, UserView>,
    login: Seq<char>,
    req: UpdateUserRequest,
    hash: Option<Seq<char>>,
)
    requires
        keys_match(m),
        lookup(m, login_key(login)) is Some,
    ensures
        ({
            let u2 = updated_user(lookup(m, login_key(login))->0, req, hash);
            lookup(m.insert(user_key(u2), u2), login_key(login)) == Some(u2)
        }),
{
    let u = m[login_key(login)];
    assert(user_key(u) == login_key(login));
}

/// After a user is created in a domain whose name holds no `@`, the user's
/// routes (`username@domain`) find it.
pub proof fn lemma_get_after_create(
    m: Map<Seq<char>, UserView>,
    req: CreateUserRequest,
    domain: Seq<char>,
    hash: Seq<char>,
)
    requires
        !domain.contains('@'),
    ensures
        ({
            let u = requested_user(req, domain, hash);
            lookup(m.insert(user_key(u), u), login_key(full_username(req.username@, domain)))
                == Some(u)
        }),
{
    reveal_strlit("@");
    let full = full_username(req.username@, domain);
    let n = req.username@.len();
    assert(full[n as int] == '@');
    assert forall|j: int| full.len() - (domain.len() as int) <= j < full.len() implies #[trigger] full[j]
        != '@' by {
        assert(full[j] == domain[j - n - 1]);
    }
    lemma_last_index(full, '@', domain.len() as int);
    assert(full.take(n as int) =~= req.username@);
    assert(full.skip((n + 1) as int) =~= domain);
}

} // verus!
