//! The user store: users keyed by lower-cased `user@domain`.

use vstd::prelude::*;

use crate::auth::password::{
    is_salt_of_16_bytes, max_password_len, spec_argon2_hash, spec_password_error_message,
    spec_verify, verify_result_view, PasswordErrorView, PasswordHasher,
};
use crate::text::{
    copy_strings, find_string, is_ascii_text, last_index, lemma_ascii_case_parts,
    lemma_case_forms_ignore_ascii_case, lemma_last_index_bounds,
    lemma_last_index_ignores_ascii_case, lemma_text_le_antisymmetric, lemma_text_le_total,
    lemma_text_le_transitive, push_str, same_ignoring_ascii_case, rfind_char, spec_to_lowercase, str_chars, str_eq,
    string_from_range, string_views, text_le, text_le_exec, to_lowercase,
};

verus! {

/// Why a user could not be loaded or logged in.
#[derive(Debug)]
pub enum AuthError {
    ReadError(std::io::Error),
    ParseError(toml::de::Error),
    UserNotFound,
    InvalidPassword,
    UserDisabled,
    PasswordError(String),
}

/// The mathematical value of an [`AuthError`]; the I/O and parse errors
/// are only told apart.
pub enum AuthErrorView {
    ReadError,
    ParseError,
    UserNotFound,
    InvalidPassword,
    UserDisabled,
    PasswordError(Seq<char>),
}

impl View for AuthError {
    type V = AuthErrorView;

    open spec fn view(&self) -> AuthErrorView {
        match self {
            AuthError::ReadError(_) => AuthErrorView::ReadError,
            AuthError::ParseError(_) => AuthErrorView::ParseError,
            AuthError::UserNotFound => AuthErrorView::UserNotFound,
            AuthError::InvalidPassword => AuthErrorView::InvalidPassword,
            AuthError::UserDisabled => AuthErrorView::UserDisabled,
            AuthError::PasswordError(m) => AuthErrorView::PasswordError(m@),
        }
    }
}

/// IMAP forwarding configuration
#[derive(Debug)]
pub struct ImapForwardConfig {
    pub enabled: bool,
    pub host: String,
    pub port: u16,
    pub tls: bool,
    pub username: String,
    pub password_env: String,
    pub target_folder: String,
    pub delete_after_forward: bool,
}

/// The mathematical value of an [`ImapForwardConfig`].
pub struct ImapForwardConfigView {
    pub enabled: bool,
    pub host: Seq<char>,
    pub port: u16,
    pub tls: bool,
    pub username: Seq<char>,
    pub password_env: Seq<char>,
    pub target_folder: Seq<char>,
    pub delete_after_forward: bool,
}

impl View for ImapForwardConfig {
    type V = ImapForwardConfigView;

    open spec fn view(&self) -> ImapForwardConfigView {
        ImapForwardConfigView {
            enabled: self.enabled,
            host: self.host@,
            port: self.port,
            tls: self.tls,
            username: self.username@,
            password_env: self.password_env@,
            target_folder: self.target_folder@,
            delete_after_forward: self.delete_after_forward,
        }
    }
}

/// Default for `imap_forward.port`.
pub fn default_imap_port() -> (r: u16)
    ensures
        r == 993,
{
    993
}

/// Default for the flags that are on unless said otherwise.
pub fn default_true() -> (r: bool)
    ensures
        r,
{
    true
}

/// Default for `imap_forward.target_folder`.
pub fn default_folder() -> (r: String)
    ensures
        r@ == "INBOX"@,
{
    "INBOX".to_owned()
}

/// Default for `storage` of a user.
pub fn default_storage() -> (r: String)
    ensures
        r@ == "maildir"@,
{
    "maildir".to_owned()
}

impl Clone for ImapForwardConfig {
    fn clone(&self) -> (r: Self)
        ensures
            r@ == self@,
    {
        ImapForwardConfig {
            enabled: self.enabled,
            host: self.host.clone(),
            port: self.port,
            tls: self.tls,
            username: self.username.clone(),
            password_env: self.password_env.clone(),
            target_folder: self.target_folder.clone(),
            delete_after_forward: self.delete_after_forward,
        }
    }
}

impl Default for ImapForwardConfig {
    /// Forwarding off, port 993 over TLS, into INBOX.
    fn default() -> (c: Self)
        ensures
            c@ == (ImapForwardConfigView {
                enabled: false,
                host: Seq::empty(),
                port: 993,
                tls: true,
                username: Seq::empty(),
                password_env: Seq::empty(),
                target_folder: "INBOX"@,
                delete_after_forward: false,
            }),
    {
        Self {
            enabled: false,
            host: String::new(),
            port: 993,
            tls: true,
            username: String::new(),
            password_env: String::new(),
            target_folder: "INBOX".to_owned(),
            delete_after_forward: false,
        }
    }
}

/// User configuration
#[derive(Debug)]
pub struct User {
    pub username: String,
    pub domain: String,
    pub password_hash: String,
    pub maildir: String,
    pub storage: String,
    pub s3_bucket: String,
    pub s3_prefix: String,
    pub webhook_url: String,
    pub webhook_events: Vec<String>,
    pub enabled: bool,
    pub imap_forward: ImapForwardConfig,
}

/// The mathematical value of a [`User`].
pub struct UserView {
    pub username: Seq<char>,
    pub domain: Seq<char>,
    pub password_hash: Seq<char>,
    pub maildir: Seq<char>,
    pub storage: Seq<char>,
    pub s3_bucket: Seq<char>,
    pub s3_prefix: Seq<char>,
    pub webhook_url: Seq<char>,
    pub webhook_events: Seq<Seq<char>>,
    pub enabled: bool,
    pub imap_forward: ImapForwardConfigView,
}

impl View for User {
    type V = UserView;

    open spec fn view(&self) -> UserView {
        UserView {
            username: self.username@,
            domain: self.domain@,
            password_hash: self.password_hash@,
            maildir: self.maildir@,
            storage: self.storage@,
            s3_bucket: self.s3_bucket@,
            s3_prefix: self.s3_prefix@,
            webhook_url: self.webhook_url@,
            webhook_events: string_views(self.webhook_events@),
            enabled: self.enabled,
            imap_forward: self.imap_forward@,
        }
    }
}

impl Clone for User {
    fn clone(&self) -> (r: Self)
        ensures
            r@ == self@,
    {
        User {
            username: self.username.clone(),
            domain: self.domain.clone(),
            password_hash: self.password_hash.clone(),
            maildir: self.maildir.clone(),
            storage: self.storage.clone(),
            s3_bucket: self.s3_bucket.clone(),
            s3_prefix: self.s3_prefix.clone(),
            webhook_url: self.webhook_url.clone(),
            webhook_events: copy_strings(&self.webhook_events),
            enabled: self.enabled,
            imap_forward: self.imap_forward.clone(),
        }
    }
}


/// The lookup key of a user: the lower-cased name, and `@` and the
/// lower-cased domain when there is a domain.
pub open spec fn spec_make_key(username: Seq<char>, domain: Seq<char>) -> Seq<char> {
    if domain.len() == 0 {
        spec_to_lowercase(username)
    } else {
        spec_to_lowercase(username) + "@"@ + spec_to_lowercase(domain)
    }
}

/// A login name split at its last `@` into user and domain (no domain when
/// there is no `@`).
pub open spec fn spec_parse_username(full: Seq<char>) -> (Seq<char>, Seq<char>) {
    match last_index(full, '@') {
        Some(i) => (full.take(i as int), full.skip((i + 1) as int)),
        None => (full, Seq::empty()),
    }
}

/// The key a login name looks up.
pub open spec fn login_key(login: Seq<char>) -> Seq<char> {
    spec_make_key(spec_parse_username(login).0, spec_parse_username(login).1)
}

/// User names are looked up without regard to the case of ASCII letters:
/// two ASCII login names (`user` or `user@domain`) that differ only in the
/// case of their letters have the same key, so they find the same user.
pub proof fn lemma_login_ignores_ascii_case(m: Map<Seq<char>, UserView>, n1: Seq<char>, n2: Seq<char>)
    requires
        is_ascii_text(n1),
        same_ignoring_ascii_case(n1, n2),
    ensures
        login_key(n1) == login_key(n2),
        lookup(m, login_key(n1)) == lookup(m, login_key(n2)),
{
    lemma_last_index_ignores_ascii_case(n1, n2, '@');
    lemma_last_index_bounds(n1, '@');
    match last_index(n1, '@') {
        Some(i) => {
            let k = i as int;
            lemma_ascii_case_parts(n1, n2, 0, k);
            lemma_ascii_case_parts(n1, n2, k + 1, n1.len() as int);
            assert(n1.take(k) =~= n1.subrange(0, k));
            assert(n2.take(k) =~= n2.subrange(0, k));
            assert(n1.skip(k + 1) =~= n1.subrange(k + 1, n1.len() as int));
            assert(n2.skip(k + 1) =~= n2.subrange(k + 1, n1.len() as int));
            lemma_case_forms_ignore_ascii_case(n1.take(k), n2.take(k));
            lemma_case_forms_ignore_ascii_case(n1.skip(k + 1), n2.skip(k + 1));
        },
        None => {
            lemma_case_forms_ignore_ascii_case(n1, n2);
        },
    }
}

/// The key a user is stored under.
pub open spec fn user_key(u: UserView) -> Seq<char> {
    spec_make_key(u.username, u.domain)
}

/// The views of a sequence of users.
pub open spec fn user_views(v: Seq<User>) -> Seq<UserView> {
    v.map_values(|u: User| u@)
}

/// The view of an optional user.
pub open spec fn opt_user_view(u: Option<User>) -> Option<UserView> {
    match u {
        Some(u) => Some(u@),
        None => None,
    }
}

/// The user stored under `key`.
pub open spec fn lookup(m: Map<Seq<char>, UserView>, key: Seq<char>) -> Option<UserView> {
    if m.contains_key(key) {
        Some(m[key])
    } else {
        None
    }
}

/// The result of logging in as `login` with `password`: the user must
/// exist, be enabled, and the password must check against the stored hash.
pub open spec fn spec_authenticate(m: Map<Seq<char>, UserView>, login: Seq<char>, password: Seq<char>) -> Result<
    UserView,
    AuthErrorView,
> {
    let key = login_key(login);
    if !m.contains_key(key) {
        Err(AuthErrorView::UserNotFound)
    } else if !m[key].enabled {
        Err(AuthErrorView::UserDisabled)
    } else {
        match spec_verify(password, m[key].password_hash) {
            Err(e) => Err(AuthErrorView::PasswordError(spec_password_error_message(e))),
            Ok(true) => Ok(m[key]),
            Ok(false) => Err(AuthErrorView::InvalidPassword),
        }
    }
}

/// What hashing `password` with `salt` gives: the hash string, or the
/// message of the error.
pub open spec fn spec_hash_password(password: Seq<char>, salt: Seq<char>) -> Result<Seq<char>, Seq<char>> {
    match spec_argon2_hash(vstd::utf8::encode_utf8(password), salt) {
        Ok(h) => Ok(h),
        Err(m) => Err(spec_password_error_message(PasswordErrorView::HashError(m))),
    }
}

/// The view of a login result.
pub open spec fn auth_result_view(r: Result<User, AuthError>) -> Result<UserView, AuthErrorView> {
    match r {
        Ok(u) => Ok(u@),
        Err(e) => Err(e@),
    }
}

/// The users of a file, later entries replacing earlier ones with the same key.
pub open spec fn users_map(us: Seq<UserView>) -> Map<Seq<char>, UserView>
    decreases us.len(),
{
    if us.len() == 0 {
        Map::empty()
    } else {
        users_map(us.drop_last()).insert(user_key(us.last()), us.last())
    }
}

/// Whether `listed` holds the users of `m`, each once, in some order.
pub open spec fn lists_exactly(m: Map<Seq<char>, UserView>, listed: Seq<UserView>, keep: spec_fn(UserView) -> bool) -> bool {
    &&& listed.map_values(|u: UserView| user_key(u)).no_duplicates()
    &&& forall|i: int| 0 <= i < listed.len() ==> m.contains_key(user_key(#[trigger] listed[i]))
        && m[user_key(listed[i])] == listed[i] && keep(listed[i])
    &&& forall|k: Seq<char>| m.contains_key(k) && keep(m[k]) ==> exists|i: int|
        0 <= i < listed.len() && user_key(#[trigger] listed[i]) == k
}

/// Whether each user of `m` is stored under its own key.
pub open spec fn keys_match(m: Map<Seq<char>, UserView>) -> bool {
    forall|k: Seq<char>| m.contains_key(k) ==> user_key(#[trigger] m[k]) == k
}

/// How long after its own save the store ignores changes to its file, in
/// milliseconds.
pub open spec fn save_debounce_ms() -> u64 {
    500
}

/// Whether a change to the users file is reloaded, given how long ago the
/// store last saved the file itself (`None`: never): not when the change is
/// likely the store's own save, less than 500 ms ago.
pub fn reload_wanted(since_own_save_ms: Option<u64>) -> (r: bool)
    ensures
        r == match since_own_save_ms {
            Some(t) => t >= save_debounce_ms(),
            None => true,
        },
{
    match since_own_save_ms {
        Some(t) => t >= 500,
        None => true,
    }
}

/// The map a table of keys and users stands for.
spec fn table_view(keys: Seq<String>, users: Seq<User>) -> Map<Seq<char>, UserView> {
    Map::new(
        |k: Seq<char>| string_views(keys).contains(k),
        |k: Seq<char>| user_views(users)[string_views(keys).index_of(k)],
    )
}

/// Whether every user of a table is stored under its own key, each key once.
spec fn table_wf(keys: Seq<String>, users: Seq<User>) -> bool {
    &&& keys.len() == users.len()
    &&& string_views(keys).no_duplicates()
    &&& forall|i: int|
        0 <= i < keys.len() ==> #[trigger] string_views(keys)[i] == user_key(user_views(users)[i])
}

proof fn lemma_table_entry(keys: Seq<String>, users: Seq<User>, i: int)
    requires
        table_wf(keys, users),
        0 <= i < keys.len(),
    ensures
        table_view(keys, users).contains_key(string_views(keys)[i]),
        table_view(keys, users)[string_views(keys)[i]] == user_views(users)[i],
{
    let kv = string_views(keys);
    assert(kv.contains(kv[i]));
    let j = kv.index_of(kv[i]);
    assert(kv[j] == kv[i]);
}

/// Authentication store: users keyed by `make_key`.
pub struct AuthStore {
    keys: Vec<String>,
    users: Vec<User>,
    hasher: PasswordHasher,
}

impl View for AuthStore {
    type V = Map<Seq<char>, UserView>;

    closed spec fn view(&self) -> Map<Seq<char>, UserView> {
        table_view(self.keys@, self.users@)
    }
}

impl AuthStore {
    /// Whether every user is stored under its own key, each key once.
    #[verifier::type_invariant]
    pub closed spec fn wf(&self) -> bool {
        table_wf(self.keys@, self.users@)
    }

    /// Every user is stored under its own key.
    pub proof fn lemma_stored_under_own_key(&self)
        requires
            self.wf(),
        ensures
            keys_match(self@),
    {
        assert forall|k: Seq<char>| self@.contains_key(k) implies user_key(#[trigger] self@[k]) == k by {
            let kv = string_views(self.keys@);
            let j = kv.index_of(k);
            assert(kv[j] == k);
        }
    }

    proof fn lemma_entry(&self, i: int)
        requires
            self.wf(),
            0 <= i < self.keys@.len(),
        ensures
            self@.contains_key(string_views(self.keys@)[i]),
            self@[string_views(self.keys@)[i]] == user_views(self.users@)[i],
    {
        lemma_table_entry(self.keys@, self.users@, i);
    }

    /// Create a new empty auth store
    pub fn new() -> (s: Self)
        ensures
            s@ == Map::<Seq<char>, UserView>::empty(),
    {
        let s = Self { keys: Vec::new(), users: Vec::new(), hasher: PasswordHasher::new() };
        assert(string_views(s.keys@) =~= Seq::<Seq<char>>::empty());
        assert(s@ =~= Map::<Seq<char>, UserView>::empty());
        s
    }

    /// Make a lookup key from username and domain
    pub fn make_key(username: &str, domain: &str) -> (r: String)
        ensures
            r@ == spec_make_key(username@, domain@),
    {
        let user = to_lowercase(username);
        if domain.is_empty() {
            user
        } else {
            let d = to_lowercase(domain);
            Self::join_key(user, d.as_str())
        }
    }

    /// The key of a user in a domain, from the lower-cased user name and
    /// the lower-cased domain: the two joined by `@`.
    pub fn join_key(lower_user: String, lower_domain: &str) -> (r: String)
        ensures
            r@ == lower_user@ + "@"@ + lower_domain@,
    {
        let mut key = lower_user;
        push_str(&mut key, "@");
        push_str(&mut key, lower_domain);
        key
    }

    /// Parse a username that may include a domain
    pub fn parse_username(full_username: &str) -> (r: (String, String))
        ensures
            (r.0@, r.1@) == spec_parse_username(full_username@),
    {
        let v = str_chars(full_username);
        match rfind_char(&v, '@') {
            Some(i) => {
                let n = v.len();
                assert(i < n);
                assert(v@.take(i as int) == v@.subrange(0, i as int));
                assert(v@.skip(i + 1) == v@.subrange(i + 1, v@.len() as int));
                let user = string_from_range(&v, 0, i);
                let domain = string_from_range(&v, i + 1, n);
                (user, domain)
            },
            None => (full_username.to_owned(), String::new()),
        }
    }

    /// Add or update a user.
    pub fn upsert_user(&mut self, user: User)
        ensures
            final(self)@ == old(self)@.insert(user_key(user@), user@),
    {
        proof {
            use_type_invariant(&*self);
        }
        let key = Self::make_key(user.username.as_str(), user.domain.as_str());
        let ghost u = user@;
        let ghost kv = string_views(self.keys@);
        let ghost uv = user_views(self.users@);
        let ghost old_view = self@;
        let mut taken = Self::new();
        std::mem::swap(self, &mut taken);
        let AuthStore { mut keys, mut users, hasher } = taken;
        assert(old_view == table_view(keys@, users@));
        match find_string(&keys, key.as_str()) {
            Some(i) => {
                users.set(i, user);
                proof {
                    assert(user_views(users@) =~= uv.update(i as int, u));
                    assert(string_views(keys@) == kv);
                    assert(table_view(keys@, users@) =~= old_view.insert(user_key(u), u)) by {
                        assert forall|k: Seq<char>| table_view(keys@, users@).contains_key(k) implies table_view(keys@, users@)[k]
                            == old_view.insert(user_key(u), u)[k] by {
                            let j = kv.index_of(k);
                            assert(kv[j] == k);
                            if k == user_key(u) {
                                assert(j == i);
                            }
                        }
                        assert(kv.contains(key@));
                    }
                    assert forall|j: int| 0 <= j < keys@.len() implies #[trigger] string_views(keys@)[j]
                        == user_key(user_views(users@)[j]) by {
                        if j != i {
                            assert(user_views(users@)[j] == uv[j]);
                        }
                    }
                }
            },
            None => {
                keys.push(key);
                users.push(user);
                proof {
                    let kv2 = string_views(keys@);
                    let uv2 = user_views(users@);
                    assert(kv2 =~= kv.push(key@));
                    assert(uv2 =~= uv.push(u));
                    assert forall|a: int, b: int|
                        0 <= a < kv2.len() && 0 <= b < kv2.len() && a != b implies kv2[a] != kv2[b] by {
                        if a < kv.len() && b < kv.len() {
                            assert(kv2[a] == kv[a]);
                            assert(kv2[b] == kv[b]);
                        } else if a < kv.len() {
                            assert(kv2[a] == kv[a]);
                            assert(kv.contains(kv[a]));
                        } else if b < kv.len() {
                            assert(kv2[b] == kv[b]);
                            assert(kv.contains(kv[b]));
                        }
                    }
                    assert forall|j: int| 0 <= j < keys@.len() implies #[trigger] string_views(keys@)[j]
                        == user_key(user_views(users@)[j]) by {
                        if j < kv.len() {
                            assert(kv2[j] == kv[j]);
                            assert(uv2[j] == uv[j]);
                        }
                    }
                    assert(table_view(keys@, users@) =~= old_view.insert(user_key(u), u)) by {
                        assert forall|k: Seq<char>| #[trigger] table_view(keys@, users@).contains_key(k) <==> old_view.insert(
                            user_key(u),
                            u,
                        ).contains_key(k) by {
                            if kv.contains(k) {
                                let j = choose|j: int| 0 <= j < kv.len() && kv[j] == k;
                                assert(kv2[j] == k);
                            }
                            if kv2.contains(k) && k != key@ {
                                let j = choose|j: int| 0 <= j < kv2.len() && kv2[j] == k;
                                assert(kv[j] == k);
                            }
                            assert(kv2[kv.len() as int] == key@);
                        }
                        assert forall|k: Seq<char>| table_view(keys@, users@).contains_key(k) implies table_view(keys@, users@)[k]
                            == old_view.insert(user_key(u), u)[k] by {
                            let j2 = kv2.index_of(k);
                            assert(kv2[j2] == k);
                            if k == user_key(u) {
                                assert(kv2[kv.len() as int] == k);
                                assert(j2 == kv.len());
                            } else {
                                assert(j2 < kv.len());
                                assert(kv[j2] == k);
                                let j = kv.index_of(k);
                                assert(kv[j] == k);
                                assert(j == j2);
                            }
                        }
                    }
                }
            },
        }
        *self = AuthStore { keys, users, hasher };
    }

    /// Remove a user
    pub fn remove_user(&mut self, username: &str, domain: &str) -> (r: Option<User>)
        ensures
            final(self)@ == old(self)@.remove(spec_make_key(username@, domain@)),
            opt_user_view(r) == lookup(old(self)@, spec_make_key(username@, domain@)),
    {
        proof {
            use_type_invariant(&*self);
        }
        let key = Self::make_key(username, domain);
        let ghost kv = string_views(self.keys@);
        let ghost uv = user_views(self.users@);
        let ghost old_view = self@;
        let mut taken = Self::new();
        std::mem::swap(self, &mut taken);
        let AuthStore { mut keys, mut users, hasher } = taken;
        assert(old_view == table_view(keys@, users@));
        let r = match find_string(&keys, key.as_str()) {
            Some(i) => {
                proof {
                    lemma_table_entry(keys@, users@, i as int);
                }
                keys.remove(i);
                let u = users.remove(i);
                proof {
                    let kv2 = string_views(keys@);
                    let uv2 = user_views(users@);
                    assert(kv2 =~= kv.remove(i as int));
                    assert(uv2 =~= uv.remove(i as int));
                    assert forall|a: int, b: int|
                        0 <= a < kv2.len() && 0 <= b < kv2.len() && a != b implies kv2[a] != kv2[b] by {
                        let a1 = if a < i { a } else { a + 1 };
                        let b1 = if b < i { b } else { b + 1 };
                        assert(kv2[a] == kv[a1]);
                        assert(kv2[b] == kv[b1]);
                    }
                    assert forall|j: int| 0 <= j < kv2.len() implies #[trigger] kv2[j] == user_key(uv2[j]) by {
                        let j1 = if j < i { j } else { j + 1 };
                        assert(kv2[j] == kv[j1]);
                        assert(uv2[j] == uv[j1]);
                    }
                    assert(table_view(keys@, users@) =~= old_view.remove(key@)) by {
                        assert forall|k: Seq<char>| #[trigger] table_view(keys@, users@).contains_key(k) <==> old_view.remove(
                            key@,
                        ).contains_key(k) by {
                            if kv2.contains(k) {
                                let j = choose|j: int| 0 <= j < kv2.len() && kv2[j] == k;
                                let j1 = if j < i { j } else { j + 1 };
                                assert(kv[j1] == k);
                                assert(j1 != i);
                            }
                            if kv.contains(k) && k != key@ {
                                let j = choose|j: int| 0 <= j < kv.len() && kv[j] == k;
                                assert(j != i);
                                let j2 = if j < i { j } else { j - 1 };
                                assert(kv2[j2] == k);
                            }
                        }
                        assert forall|k: Seq<char>| table_view(keys@, users@).contains_key(k) implies table_view(keys@, users@)[k]
                            == old_view.remove(key@)[k] by {
                            let j2 = kv2.index_of(k);
                            assert(kv2[j2] == k);
                            let j1 = if j2 < i { j2 } else { j2 + 1 };
                            assert(kv[j1] == k);
                            let j = kv.index_of(k);
                            assert(kv[j] == k);
                            assert(j == j1);
                        }
                    }
                }
                Some(u)
            },
            None => {
                assert(table_view(keys@, users@) =~= old_view.remove(key@));
                None
            },
        };
        *self = AuthStore { keys, users, hasher };
        r
    }

    /// The user stored under `key`.
    fn get_by_key(&self, key: &str) -> (r: Option<&User>)
        requires
            self.wf(),
        ensures
            match r {
                Some(u) => lookup(self@, key@) == Some(u@),
                None => lookup(self@, key@) is None,
            },
    {
        match find_string(&self.keys, key) {
            Some(i) => {
                proof {
                    self.lemma_entry(i as int);
                }
                Some(&self.users[i])
            },
            None => None,
        }
    }

    /// Get a user by username (without authentication)
    pub fn get_user(&self, username: &str) -> (r: Option<User>)
        ensures
            opt_user_view(r) == lookup(self@, login_key(username@)),
    {
        proof {
            use_type_invariant(self);
        }
        let (user_part, domain_part) = Self::parse_username(username);
        let key = Self::make_key(user_part.as_str(), domain_part.as_str());
        match self.get_by_key(key.as_str()) {
            Some(u) => Some(u.clone()),
            None => None,
        }
    }

    /// Authenticate a user
    pub fn authenticate(&self, username: &str, password: &str) -> (r: Result<User, AuthError>)
        ensures
            auth_result_view(r) == spec_authenticate(self@, username@, password@),
    {
        proof {
            use_type_invariant(self);
        }
        let (user_part, domain_part) = Self::parse_username(username);
        let key = Self::make_key(user_part.as_str(), domain_part.as_str());
        let user = match self.get_by_key(key.as_str()) {
            Some(u) => u,
            None => {
                return Err(AuthError::UserNotFound);
            },
        };
        if !user.enabled {
            return Err(AuthError::UserDisabled);
        }
        let checked = self.hasher.verify(password, user.password_hash.as_str());
        assert(verify_result_view(checked) == spec_verify(password@, user.password_hash@));
        match checked {
            Err(e) => Err(AuthError::PasswordError(e.message())),
            Ok(true) => Ok(user.clone()),
            Ok(false) => Err(AuthError::InvalidPassword),
        }
    }

    /// Hash a password (for creating new users) with a fresh random salt of
    /// 16 bytes: whatever the salt, the result is the hash or the hashing
    /// error's message, the password checks against the hash, and a password
    /// within Argon2's length limit is always hashed.
    pub fn hash_password(&self, password: &str) -> (r: Result<String, AuthError>)
        ensures
            exists|salt: Seq<char>|
                is_salt_of_16_bytes(salt) && match #[trigger] spec_hash_password(password@, salt) {
                    Ok(h) => r matches Ok(s) && s@ == h,
                    Err(m) => r matches Err(AuthError::PasswordError(t)) && t@ == m,
                },
            r matches Ok(h) ==> spec_verify(password@, h@) == Ok::<bool, crate::auth::password::PasswordErrorView>(true),
            r matches Ok(h) ==> crate::auth::password::phc_prefix().is_prefix_of(h@),
            vstd::utf8::encode_utf8(password@).len() <= max_password_len() ==> r is Ok,
    {
        let r = self.hasher.hash(password);
        let ghost salt = choose|salt: Seq<char>|
            is_salt_of_16_bytes(salt) && match #[trigger] spec_argon2_hash(
                vstd::utf8::encode_utf8(password@),
                salt,
            ) {
                Ok(h) => r matches Ok(s) && s@ == h,
                Err(m) => r matches Err(e) && e@ == PasswordErrorView::HashError(m),
            };
        match r {
            Ok(h) => {
                assert(spec_hash_password(password@, salt) matches Ok(x) && x == h@);
                Ok(h)
            },
            Err(e) => {
                let t = e.message();
                assert(spec_hash_password(password@, salt) == Err::<Seq<char>, Seq<char>>(t@));
                Err(AuthError::PasswordError(t))
            },
        }
    }
}

impl AuthStore {
    /// A store holding `users`, a later user replacing an earlier one with
    /// the same key (the users of a users file).
    pub fn from_users(users: &Vec<User>) -> (s: Self)
        ensures
            s@ == users_map(user_views(users@)),
    {
        let mut store = Self::new();
        let mut i: usize = 0;
        while i < users.len()
            invariant
                i <= users@.len(),
                store@ == users_map(user_views(users@).take(i as int)),
            decreases users.len() - i,
        {
            let u = users[i].clone();
            store.upsert_user(u);
            proof {
                let uv = user_views(users@);
                assert(uv.take(i + 1).drop_last() =~= uv.take(i as int));
                assert(uv.take(i + 1).last() == uv[i as int]);
            }
            i = i + 1;
        }
        assert(user_views(users@).take(users@.len() as int) =~= user_views(users@));
        store
    }

    /// Number of users.
    pub fn len(&self) -> (n: usize)
        ensures
            n == self@.dom().len(),
    {
        proof {
            use_type_invariant(self);
        }
        proof {
            self.lemma_dom_len();
        }
        self.users.len()
    }

    proof fn lemma_dom_len(&self)
        requires
            self.wf(),
        ensures
            self@.dom().len() == self.keys@.len(),
            self@.dom() == string_views(self.keys@).to_set(),
    {
        let kv = string_views(self.keys@);
        assert(self@.dom() =~= kv.to_set());
        kv.unique_seq_to_set();
    }

    /// All users, each once, in no particular order.
    pub fn list_users(&self) -> (r: Vec<User>)
        ensures
            lists_exactly(self@, user_views(r@), |u: UserView| true),
    {
        proof {
            use_type_invariant(self);
        }
        self.select(None)
    }

    /// The users whose domain equals `domain`, ignoring case, each once, in
    /// no particular order.
    pub fn list_users_by_domain(&self, domain: &str) -> (r: Vec<User>)
        ensures
            lists_exactly(
                self@,
                user_views(r@),
                |u: UserView| spec_to_lowercase(u.domain) == spec_to_lowercase(domain@),
            ),
    {
        proof {
            use_type_invariant(self);
        }
        let lower = to_lowercase(domain);
        let r = self.select(Some(&lower));
        assert(forall|u: UserView| #![auto] (spec_to_lowercase(u.domain) == lower@) == (
        spec_to_lowercase(u.domain) == spec_to_lowercase(domain@)));
        r
    }

    /// The users whose lower-cased domain is `lower_domain`, or all users.
    fn select(&self, lower_domain: Option<&String>) -> (r: Vec<User>)
        requires
            self.wf(),
        ensures
            lists_exactly(
                self@,
                user_views(r@),
                |u: UserView|
                    match lower_domain {
                        Some(d) => spec_to_lowercase(u.domain) == d@,
                        None => true,
                    },
            ),
    {
        let ghost keep = |u: UserView|
            match lower_domain {
                Some(d) => spec_to_lowercase(u.domain) == d@,
                None => true,
            };
        let ghost kv = string_views(self.keys@);
        let ghost uv = user_views(self.users@);
        let mut out: Vec<User> = Vec::new();
        let ghost mut idx: Seq<int> = Seq::empty();
        let mut i: usize = 0;
        while i < self.users.len()
            invariant
                keep == (|u: UserView|
                    match lower_domain {
                        Some(d) => spec_to_lowercase(u.domain) == d@,
                        None => true,
                    }),
                i <= self.users@.len(),
                self.wf(),
                kv == string_views(self.keys@),
                uv == user_views(self.users@),
                idx.len() == out@.len(),
                forall|a: int, b: int| 0 <= a < b < idx.len() ==> idx[a] < idx[b],
                forall|a: int| 0 <= a < idx.len() ==> 0 <= #[trigger] idx[a] < i,
                forall|a: int|
                    0 <= a < idx.len() ==> user_views(out@)[a] == uv[#[trigger] idx[a]] && keep(
                        uv[idx[a]],
                    ),
                forall|j: int| 0 <= j < i && keep(#[trigger] uv[j]) ==> exists|a: int|
                    0 <= a < idx.len() && idx[a] == j,
            decreases self.users.len() - i,
        {
            let u = &self.users[i];
            let take = match lower_domain {
                Some(d) => {
                    let ud = to_lowercase(u.domain.as_str());
                    str_eq(ud.as_str(), d.as_str())
                },
                None => true,
            };
            assert(uv[i as int] == self.users@[i as int]@);
            assert(take == keep(uv[i as int]));
            if take {
                let c = u.clone();
                let ghost old_out = out@;
                out.push(c);
                proof {
                    assert(user_views(out@) =~= user_views(old_out).push(uv[i as int]));
                    let old_idx = idx;
                    idx = idx.push(i as int);
                    assert forall|j: int| 0 <= j < i + 1 && keep(#[trigger] uv[j]) implies exists|a: int|
                        0 <= a < idx.len() && idx[a] == j by {
                        if j == i {
                            assert(idx[idx.len() - 1] == j);
                        } else {
                            let a = choose|a: int| 0 <= a < old_idx.len() && old_idx[a] == j;
                            assert(idx[a] == j);
                        }
                    }
                }
            }
            i = i + 1;
        }
        proof {
            let rv = user_views(out@);
            let rk = rv.map_values(|u: UserView| user_key(u));
            assert forall|a: int| 0 <= a < rv.len() implies self@.contains_key(user_key(#[trigger] rv[a]))
                && self@[user_key(rv[a])] == rv[a] && keep(rv[a]) by {
                let j = idx[a];
                assert(kv[j] == user_key(uv[j]));
                self.lemma_entry(j);
            }
            assert forall|a: int, b: int| 0 <= a < rk.len() && 0 <= b < rk.len() && a != b implies rk[a]
                != rk[b] by {
                let ja = idx[a];
                let jb = idx[b];
                assert(kv[ja] == user_key(uv[ja]));
                assert(kv[jb] == user_key(uv[jb]));
                if a < b {
                    assert(ja < jb);
                } else {
                    assert(jb < ja);
                }
            }
            assert forall|k: Seq<char>| self@.contains_key(k) && keep(self@[k]) implies exists|a: int|
                0 <= a < rv.len() && user_key(#[trigger] rv[a]) == k by {
                let j = kv.index_of(k);
                assert(kv[j] == k);
                self.lemma_entry(j);
                let a = choose|a: int| 0 <= a < idx.len() && idx[a] == j;
                assert(rv[a] == uv[j]);
            }
        }
        out
    }
}

/// The order of a saved users file: by domain, then by user name.
pub open spec fn save_order_le(x: UserView, y: UserView) -> bool {
    if x.domain != y.domain {
        text_le(x.domain, y.domain)
    } else {
        text_le(x.username, y.username)
    }
}

/// Whether users are in the order of a saved users file.
pub open spec fn sorted_for_save(s: Seq<UserView>) -> bool {
    forall|a: int, b: int| 0 <= a < b < s.len() ==> save_order_le(#[trigger] s[a], #[trigger] s[b])
}

pub proof fn lemma_save_order_total(x: UserView, y: UserView)
    ensures
        save_order_le(x, y) || save_order_le(y, x),
{
    lemma_text_le_total(x.domain, y.domain);
    lemma_text_le_total(x.username, y.username);
}

pub proof fn lemma_save_order_transitive(x: UserView, y: UserView, z: UserView)
    requires
        save_order_le(x, y),
        save_order_le(y, z),
    ensures
        save_order_le(x, z),
{
    if x.domain == y.domain && y.domain == z.domain {
        lemma_text_le_transitive(x.username, y.username, z.username);
    } else if x.domain != y.domain && y.domain != z.domain {
        lemma_text_le_transitive(x.domain, y.domain, z.domain);
        if x.domain == z.domain {
            lemma_text_le_antisymmetric(x.domain, y.domain);
        }
    }
}

/// Whether `a` comes before `b` in a saved users file, or at the same place.
fn user_le(a: &User, b: &User) -> (r: bool)
    ensures
        r == save_order_le(a@, b@),
{
    let da = str_chars(a.domain.as_str());
    let db = str_chars(b.domain.as_str());
    if !crate::text::chars_eq(&da, &db) {
        text_le_exec(&da, &db)
    } else {
        let na = str_chars(a.username.as_str());
        let nb = str_chars(b.username.as_str());
        text_le_exec(&na, &nb)
    }
}

impl AuthStore {
    /// All users in the order of a saved users file: by domain, then by
    /// user name, each once.
    pub fn users_for_save(&self) -> (r: Vec<User>)
        ensures
            lists_exactly(self@, user_views(r@), |u: UserView| true),
            sorted_for_save(user_views(r@)),
    {
        proof {
            use_type_invariant(self);
        }
        let ghost kv = string_views(self.keys@);
        let ghost uv = user_views(self.users@);
        let n = self.users.len();
        let mut order: Vec<usize> = Vec::new();
        let mut i: usize = 0;
        while i < n
            invariant
                i <= n == self.users@.len(),
                uv == user_views(self.users@),
                order@.len() == i,
                order@.no_duplicates(),
                forall|a: int| 0 <= a < order@.len() ==> #[trigger] order@[a] < i,
                forall|j: int| 0 <= j < i ==> #[trigger] order@.contains(j as usize),
                forall|a: int, b: int|
                    0 <= a < b < order@.len() ==> save_order_le(
                        uv[#[trigger] order@[a] as int],
                        uv[#[trigger] order@[b] as int],
                    ),
            decreases n - i,
        {
            let mut p: usize = 0;
            let mut done = false;
            while p < order.len() && !done
                invariant
                    p <= order@.len(),
                    i < n == self.users@.len(),
                    uv == user_views(self.users@),
                    forall|a: int| 0 <= a < order@.len() ==> #[trigger] order@[a] < i,
                    forall|a: int| 0 <= a < p ==> save_order_le(uv[#[trigger] order@[a] as int], uv[i as int]),
                    done ==> p < order@.len() && !save_order_le(uv[order@[p as int] as int], uv[i as int]),
                decreases order.len() - p + if done { 0int } else { 1int },
            {
                let o = order[p];
                let le = user_le(&self.users[o], &self.users[i]);
                assert(uv[o as int] == self.users@[o as int]@);
                assert(uv[i as int] == self.users@[i as int]@);
                if le {
                    p = p + 1;
                } else {
                    done = true;
                }
            }
            let ghost old_order = order@;
            order.insert(p, i);
            proof {
                assert(order@ =~= old_order.insert(p as int, i));
                old_order.insert_ensures(p as int, i);
                assert forall|a: int| 0 <= a < order@.len() implies #[trigger] order@[a] < i + 1 by {
                    if a < p {
                        assert(order@[a] == old_order[a]);
                    } else if a > p {
                        assert(order@[a] == old_order[a - 1]);
                    }
                }
                assert forall|a: int, b: int|
                    0 <= a < order@.len() && 0 <= b < order@.len() && a != b implies order@[a]
                    != order@[b] by {
                    if a != p && b != p {
                        let a1 = if a < p { a } else { a - 1 };
                        let b1 = if b < p { b } else { b - 1 };
                        assert(order@[a] == old_order[a1]);
                        assert(order@[b] == old_order[b1]);
                    } else if a == p {
                        let b1 = if b < p { b } else { b - 1 };
                        assert(order@[b] == old_order[b1]);
                    } else {
                        let a1 = if a < p { a } else { a - 1 };
                        assert(order@[a] == old_order[a1]);
                    }
                }
                assert forall|j: int| 0 <= j < i + 1 implies #[trigger] order@.contains(j as usize) by {
                    if j == i {
                        assert(order@[p as int] == i);
                    } else {
                        assert(old_order.contains(j as usize));
                        let a = choose|a: int| 0 <= a < old_order.len() && old_order[a] == j as usize;
                        assert(old_order[a] == j as usize);
                        if a < p {
                            assert(order@[a] == j as usize);
                        } else {
                            assert(order@[a + 1] == j as usize);
                        }
                    }
                }
                if done {
                    lemma_save_order_total(uv[old_order[p as int] as int], uv[i as int]);
                }
                assert forall|c: int| p <= c < old_order.len() implies save_order_le(
                    uv[i as int],
                    uv[#[trigger] old_order[c] as int],
                ) by {
                    if c > p {
                        assert(save_order_le(uv[old_order[p as int] as int], uv[old_order[c] as int]));
                        lemma_save_order_transitive(
                            uv[i as int],
                            uv[old_order[p as int] as int],
                            uv[old_order[c] as int],
                        );
                    }
                }
                assert forall|a: int, b: int| 0 <= a < b < order@.len() implies save_order_le(
                    uv[#[trigger] order@[a] as int],
                    uv[#[trigger] order@[b] as int],
                ) by {
                    if b < p {
                        assert(order@[a] == old_order[a]);
                        assert(order@[b] == old_order[b]);
                    } else if b == p {
                        assert(order@[a] == old_order[a]);
                    } else if a < p {
                        assert(order@[a] == old_order[a]);
                        assert(order@[b] == old_order[b - 1]);
                        assert(save_order_le(uv[i as int], uv[old_order[b - 1] as int]));
                        lemma_save_order_transitive(
                            uv[old_order[a] as int],
                            uv[i as int],
                            uv[old_order[b - 1] as int],
                        );
                    } else if a == p {
                        assert(order@[b] == old_order[b - 1]);
                        assert(save_order_le(uv[i as int], uv[old_order[b - 1] as int]));
                    } else {
                        assert(order@[a] == old_order[a - 1]);
                        assert(order@[b] == old_order[b - 1]);
                    }
                }
            }
            i = i + 1;
        }
        let mut out: Vec<User> = Vec::new();
        let mut m: usize = 0;
        while m < n
            invariant
                m <= n == self.users@.len() == order@.len(),
                uv == user_views(self.users@),
                forall|a: int| 0 <= a < order@.len() ==> #[trigger] order@[a] < n,
                user_views(out@).len() == m,
                forall|a: int| 0 <= a < m ==> user_views(out@)[a] == uv[#[trigger] order@[a] as int],
            decreases n - m,
        {
            let o = order[m];
            let u = self.users[o].clone();
            let ghost old_out = out@;
            out.push(u);
            proof {
                assert(user_views(out@) =~= user_views(old_out).push(uv[o as int]));
            }
            m = m + 1;
        }
        proof {
            let rv = user_views(out@);
            let rk = rv.map_values(|u: UserView| user_key(u));
            assert forall|a: int| 0 <= a < rv.len() implies self@.contains_key(user_key(#[trigger] rv[a]))
                && self@[user_key(rv[a])] == rv[a] && true by {
                let j = order@[a] as int;
                assert(kv[j] == user_key(uv[j]));
                self.lemma_entry(j);
            }
            assert forall|a: int, b: int| 0 <= a < rk.len() && 0 <= b < rk.len() && a != b implies rk[a]
                != rk[b] by {
                let ja = order@[a] as int;
                let jb = order@[b] as int;
                assert(kv[ja] == user_key(uv[ja]));
                assert(kv[jb] == user_key(uv[jb]));
            }
            assert forall|key: Seq<char>| self@.contains_key(key) && true implies exists|a: int|
                0 <= a < rv.len() && user_key(#[trigger] rv[a]) == key by {
                let j = kv.index_of(key);
                assert(kv[j] == key);
                self.lemma_entry(j);
                assert(order@.contains(j as usize));
                let a = choose|a: int| 0 <= a < order@.len() && order@[a] == j as usize;
                assert(rv[a] == uv[j]);
            }
            assert forall|a: int, b: int| 0 <= a < b < rv.len() implies save_order_le(
                #[trigger] rv[a],
                #[trigger] rv[b],
            ) by {
                assert(rv[a] == uv[order@[a] as int]);
                assert(rv[b] == uv[order@[b] as int]);
            }
        }
        out
    }
}

impl Default for AuthStore {
    fn default() -> (s: Self)
        ensures
            s@ == Map::<Seq<char>, UserView>::empty(),
    {
        Self::new()
    }
}


proof fn lemma_users_map_distinct(us: Seq<UserView>)
    requires
        us.map_values(|u: UserView| user_key(u)).no_duplicates(),
    ensures
        forall|i: int|
            0 <= i < us.len() ==> users_map(us).contains_key(user_key(#[trigger] us[i]))
                && users_map(us)[user_key(us[i])] == us[i],
        forall|k: Seq<char>| #[trigger]
            users_map(us).contains_key(k) ==> exists|i: int| 0 <= i < us.len() && user_key(us[i]) == k,
    decreases us.len(),
{
    if us.len() > 0 {
        let t = us.drop_last();
        let ks = us.map_values(|u: UserView| user_key(u));
        let kt = t.map_values(|u: UserView| user_key(u));
        assert forall|a: int, b: int| 0 <= a < kt.len() && 0 <= b < kt.len() && a != b implies kt[a]
            != kt[b] by {
            assert(kt[a] == ks[a]);
            assert(kt[b] == ks[b]);
        }
        lemma_users_map_distinct(t);
        assert forall|i: int| 0 <= i < us.len() implies users_map(us).contains_key(
            user_key(#[trigger] us[i]),
        ) && users_map(us)[user_key(us[i])] == us[i] by {
            if i < us.len() - 1 {
                assert(us[i] == t[i]);
                assert(ks[i] != ks[us.len() - 1]);
            }
        }
        assert forall|k: Seq<char>| #[trigger] users_map(us).contains_key(k) implies exists|i: int|
            0 <= i < us.len() && user_key(us[i]) == k by {
            if k != user_key(us.last()) {
                assert(users_map(us) == users_map(t).insert(user_key(us.last()), us.last()));
                assert(users_map(t).contains_key(k));
                let i = choose|i: int| 0 <= i < t.len() && user_key(t[i]) == k;
                assert(us[i] == t[i]);
            } else {
                assert(user_key(us[us.len() - 1]) == k);
            }
        }
    }
}

/// Saving the users and reloading the saved file gives back the same
/// users: a file that lists every user once, under its own key, is read
/// back as the store it was saved from.
pub proof fn lemma_reload_after_save(m: Map<Seq<char>, UserView>, saved: Seq<UserView>)
    requires
        lists_exactly(m, saved, |u: UserView| true),
    ensures
        users_map(saved) == m,
{
    lemma_users_map_distinct(saved);
    assert forall|k: Seq<char>| #[trigger] m.contains_key(k) <==> users_map(saved).contains_key(k) by {
        if m.contains_key(k) {
            assert((|u: UserView| true)(m[k]));
            let i = choose|i: int| 0 <= i < saved.len() && user_key(#[trigger] saved[i]) == k;
        }
        if users_map(saved).contains_key(k) {
            let i = choose|i: int| 0 <= i < saved.len() && user_key(saved[i]) == k;
            assert(m.contains_key(user_key(saved[i])));
        }
    }
    assert forall|k: Seq<char>| m.contains_key(k) implies users_map(saved)[k] == m[k] by {
        assert((|u: UserView| true)(m[k]));
        let i = choose|i: int| 0 <= i < saved.len() && user_key(#[trigger] saved[i]) == k;
        assert(m[user_key(saved[i])] == saved[i]);
    }
    assert(users_map(saved) =~= m);
}

/// A user stored by `upsert_user` is what a lookup of its login name finds.
pub proof fn lemma_get_after_upsert(m: Map<Seq<char>, UserView>, u: UserView, login: Seq<char>)
    requires
        login_key(login) == user_key(u),
    ensures
        lookup(m.insert(user_key(u), u), login_key(login)) == Some(u),
{
}

/// A removed user is found no more, and the other users stay.
pub proof fn lemma_get_after_remove(m: Map<Seq<char>, UserView>, username: Seq<char>, domain: Seq<char>, other: Seq<char>)
    requires
        other != spec_make_key(username, domain),
    ensures
        lookup(m.remove(spec_make_key(username, domain)), spec_make_key(username, domain)) is None,
        lookup(m.remove(spec_make_key(username, domain)), other) == lookup(m, other),
{
}

/// A user stored with a hash of its password, and enabled, can log in with
/// that password under its login name.
pub proof fn lemma_login_after_upsert(m: Map<Seq<char>, UserView>, u: UserView, login: Seq<char>, password: Seq<char>)
    requires
        login_key(login) == user_key(u),
        u.enabled,
        spec_verify(password, u.password_hash) == Ok::<bool, crate::auth::password::PasswordErrorView>(true),
    ensures
        spec_authenticate(m.insert(user_key(u), u), login, password) == Ok::<UserView, AuthErrorView>(u),
{
}

/// A disabled user cannot log in, whatever the password.
pub proof fn lemma_disabled_user_refused(m: Map<Seq<char>, UserView>, login: Seq<char>, password: Seq<char>)
    requires
        m.contains_key(login_key(login)),
        !m[login_key(login)].enabled,
    ensures
        spec_authenticate(m, login, password) == Err::<UserView, AuthErrorView>(AuthErrorView::UserDisabled),
{
}

} // verus!
