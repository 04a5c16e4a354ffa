//! The management command line: names, API addresses, requests and the
//! tables it prints.

use vstd::prelude::*;

use crate::api::handlers::{CreateDomainRequest, UpdateUserRequest};
use crate::text::{
    last_index, push_str, rfind_char, str_chars, string_from_range, string_push, trim,
    trim_bounds,
};

verus! {

/// A `user@domain` name split at its last `@`, or `None` without one.
pub open spec fn spec_split_username(full: Seq<char>) -> Option<(Seq<char>, Seq<char>)> {
    match last_index(full, '@') {
        Some(i) => Some((full.take(i as int), full.skip((i + 1) as int))),
        None => None,
    }
}

/// `s` followed by spaces up to `width` characters (`{:<width}`).
pub open spec fn padded(s: Seq<char>, width: nat) -> Seq<char> {
    if s.len() >= width {
        s
    } else {
        s + Seq::new((width - s.len()) as nat, |i: int| ' ')
    }
}

/// How a flag is printed.
pub open spec fn bool_text(b: bool) -> Seq<char> {
    if b {
        "true"@
    } else {
        "false"@
    }
}

/// A row of the domain table: name, enabled, storage.
pub open spec fn spec_domain_row(name: Seq<char>, enabled: bool, storage: Seq<char>) -> Seq<char> {
    padded(name, 30) + " "@ + padded(bool_text(enabled), 10) + " "@ + padded(storage, 10)
}

/// A row of the user table: name, enabled, storage.
pub open spec fn spec_user_row(name: Seq<char>, enabled: bool, storage: Seq<char>) -> Seq<char> {
    padded(name, 20) + " "@ + padded(bool_text(enabled), 10) + " "@ + padded(storage, 10)
}

/// Split a `user@domain` name into user and domain, at the last `@`.
pub fn parse_username(username: &str) -> (r: Option<(String, String)>)
    ensures
        match spec_split_username(username@) {
            Some((u, d)) => r matches Some((ru, rd)) && ru@ == u && rd@ == d,
            None => r is None,
        },
{
    let v = str_chars(username);
    match rfind_char(&v, '@') {
        Some(i) => {
            let n = v.len();
            assert(v@.take(i as int) == v@.subrange(0, i as int));
            assert(v@.skip(i + 1) == v@.subrange(i + 1, n as int));
            Some((string_from_range(&v, 0, i), string_from_range(&v, i + 1, n)))
        },
        None => None,
    }
}

/// The password read from a line of input: the line without surrounding
/// white space.
pub fn password_from_line(line: &str) -> (r: String)
    ensures
        r@ == trim(line@),
{
    let v = str_chars(line);
    let (start, end) = trim_bounds(&v);
    string_from_range(&v, start, end)
}

/// The health check address.
pub fn health_url(endpoint: &str) -> (r: String)
    ensures
        r@ == endpoint@ + "/api/v1/health"@,
{
    let mut s = endpoint.to_owned();
    push_str(&mut s, "/api/v1/health");
    s
}

/// The address of the domain list.
pub fn domains_url(endpoint: &str) -> (r: String)
    ensures
        r@ == endpoint@ + "/api/v1/domains"@,
{
    let mut s = endpoint.to_owned();
    push_str(&mut s, "/api/v1/domains");
    s
}

/// The address of one domain.
pub fn domain_url(endpoint: &str, name: &str) -> (r: String)
    ensures
        r@ == endpoint@ + "/api/v1/domains/"@ + name@,
{
    let mut s = endpoint.to_owned();
    push_str(&mut s, "/api/v1/domains/");
    push_str(&mut s, name);
    s
}

/// The address of a domain's user list.
pub fn users_url(endpoint: &str, domain: &str) -> (r: String)
    ensures
        r@ == endpoint@ + "/api/v1/domains/"@ + domain@ + "/users"@,
{
    let mut s = domain_url(endpoint, domain);
    push_str(&mut s, "/users");
    s
}

/// The address of one user of a domain.
pub fn user_url(endpoint: &str, domain: &str, user: &str) -> (r: String)
    ensures
        r@ == endpoint@ + "/api/v1/domains/"@ + domain@ + "/users/"@ + user@,
{
    let mut s = domain_url(endpoint, domain);
    push_str(&mut s, "/users/");
    push_str(&mut s, user);
    s
}

fn or_empty(o: Option<String>) -> (r: String)
    ensures
        r@ == match o {
            Some(s) => s@,
            None => Seq::<char>::empty(),
        },
{
    match o {
        Some(s) => s,
        None => String::new(),
    }
}

/// The request that adds a domain: enabled, with the given storage, its
/// maildirs under `/var/mail/<name>` unless a base is given, and the given
/// certificate and key (none by default).
pub fn domain_add_request(
    name: &str,
    cert: Option<String>,
    key: Option<String>,
    storage: &str,
    maildir_base: Option<String>,
) -> (r: CreateDomainRequest)
    ensures
        r.name@ == name@,
        r.enabled,
        r.default_storage@ == storage@,
        r.maildir_base@ == match maildir_base {
            Some(b) => b@,
            None => "/var/mail/"@ + name@,
        },
        r.cert_path@ == match cert {
            Some(c) => c@,
            None => Seq::<char>::empty(),
        },
        r.key_path@ == match key {
            Some(k) => k@,
            None => Seq::<char>::empty(),
        },
{
    let base = match maildir_base {
        Some(b) => b,
        None => {
            let mut b = "/var/mail/".to_owned();
            push_str(&mut b, name);
            b
        },
    };
    CreateDomainRequest {
        name: name.to_owned(),
        enabled: true,
        default_storage: storage.to_owned(),
        maildir_base: base,
        cert_path: or_empty(cert),
        key_path: or_empty(key),
    }
}

/// The request that sets a user's webhook address.
pub fn webhook_update_request(url: &str) -> (r: UpdateUserRequest)
    ensures
        r.password is None,
        r.storage is None,
        r.maildir is None,
        r.enabled is None,
        r.webhook_url matches Some(u) && u@ == url@,
{
    UpdateUserRequest {
        password: None,
        storage: None,
        maildir: None,
        webhook_url: Some(url.to_owned()),
        enabled: None,
    }
}

/// The request that sets a user's password.
pub fn password_update_request(password: String) -> (r: UpdateUserRequest)
    ensures
        r.password matches Some(p) && p@ == password@,
        r.storage is None,
        r.maildir is None,
        r.enabled is None,
        r.webhook_url is None,
{
    UpdateUserRequest {
        password: Some(password),
        storage: None,
        maildir: None,
        webhook_url: None,
        enabled: None,
    }
}

/// `s` followed by spaces up to `width` characters.
pub fn pad(s: &str, width: usize) -> (r: String)
    ensures
        r@ == padded(s@, width as nat),
{
    let mut r = s.to_owned();
    let n = str_chars(s).len();
    if n >= width {
        return r;
    }
    let mut k = n;
    while k < width
        invariant
            n <= k <= width,
            n == s@.len(),
            r@ == s@ + Seq::new((k - n) as nat, |i: int| ' '),
        decreases width - k,
    {
        string_push(&mut r, ' ');
        assert(r@ =~= s@ + Seq::new((k + 1 - n) as nat, |i: int| ' '));
        k = k + 1;
    }
    r
}

fn bool_str(b: bool) -> (r: &'static str)
    ensures
        r@ == bool_text(b),
{
    if b {
        "true"
    } else {
        "false"
    }
}

fn row(a: &str, wa: usize, enabled: bool, storage: &str) -> (r: String)
    ensures
        r@ == padded(a@, wa as nat) + " "@ + padded(bool_text(enabled), 10) + " "@ + padded(
            storage@,
            10,
        ),
{
    let mut r = pad(a, wa);
    push_str(&mut r, " ");
    let e = pad(bool_str(enabled), 10);
    push_str(&mut r, e.as_str());
    push_str(&mut r, " ");
    let s = pad(storage, 10);
    push_str(&mut r, s.as_str());
    r
}

/// A row of the domain table.
pub fn domain_row(name: &str, enabled: bool, storage: &str) -> (r: String)
    ensures
        r@ == spec_domain_row(name@, enabled, storage@),
{
    row(name, 30, enabled, storage)
}

/// A row of the user table.
pub fn user_row(name: &str, enabled: bool, storage: &str) -> (r: String)
    ensures
        r@ == spec_user_row(name@, enabled, storage@),
{
    row(name, 20, enabled, storage)
}

} // verus!
