//! Naming in an S3 bucket: the object key of a message, the message id of an
//! object key, and a message's UIDL (its ETag, or the MD5 digest of its key).

use vstd::prelude::*;

use crate::storage::maildir::{hex_encode, md5_digest, spec_hex, spec_md5};
use crate::text::{push_str, str_chars, string_from_range};

verus! {

/// `s` without the copies of `c` at its end.
pub open spec fn trim_end_char(s: Seq<char>, c: char) -> Seq<char>
    decreases s.len(),
{
    if s.len() > 0 && s.last() == c {
        trim_end_char(s.drop_last(), c)
    } else {
        s
    }
}

/// `s` without the copies of `c` at its start.
pub open spec fn trim_start_char(s: Seq<char>, c: char) -> Seq<char>
    decreases s.len(),
{
    if s.len() > 0 && s[0] == c {
        trim_start_char(s.skip(1), c)
    } else {
        s
    }
}

/// The object key of message `id` under `prefix`: the id itself when there
/// is no prefix, else the prefix without its trailing `/`s, a `/`, and the
/// id.
pub open spec fn spec_message_key(prefix: Seq<char>, id: Seq<char>) -> Seq<char> {
    if prefix.len() == 0 {
        id
    } else {
        trim_end_char(prefix, '/') + "/"@ + id
    }
}

/// The message id of the object `key` listed under `prefix`: the key
/// without the prefix (its trailing `/`s replaced by one `/`) when it starts
/// with that, else the whole key.
pub open spec fn spec_message_id(prefix: Seq<char>, key: Seq<char>) -> Seq<char> {
    let p = trim_end_char(prefix, '/') + "/"@;
    if p.is_prefix_of(key) {
        key.skip(p.len() as int)
    } else {
        key
    }
}

/// The UIDL of an object: its ETag without the quotes around it, or, when
/// there is no ETag, the MD5 digest of its key in hexadecimal.
pub open spec fn spec_s3_uidl(key: Seq<char>, etag: Option<Seq<char>>) -> Seq<char> {
    match etag {
        Some(e) => trim_end_char(trim_start_char(e, '"'), '"'),
        None => spec_hex(spec_md5(vstd::utf8::encode_utf8(key))),
    }
}

/// Listing gives back the id a message was stored under: the message id of
/// the object key of `id` is `id` (except, with no prefix, for an id that
/// starts with `/`, whose first `/` the listing drops).
pub proof fn lemma_message_id_of_key(prefix: Seq<char>, id: Seq<char>)
    requires
        prefix.len() > 0 || id.len() == 0 || id[0] != '/',
    ensures
        spec_message_id(prefix, spec_message_key(prefix, id)) == id,
{
    reveal_strlit("/");
    let p = trim_end_char(prefix, '/') + "/"@;
    if prefix.len() > 0 {
        let key = p + id;
        assert(key.subrange(0, p.len() as int) =~= p);
        assert(key.skip(p.len() as int) =~= id);
    } else {
        assert(trim_end_char(prefix, '/') == prefix);
        assert(p =~= seq!['/']);
        if p.is_prefix_of(id) {
            assert(id.subrange(0, 1)[0] == id[0]);
        }
    }
}

/// The end of the characters `v[..to]` once the copies of `c` at its end are
/// left out.
fn trimmed_end(v: &Vec<char>, to: usize, c: char) -> (r: usize)
    requires
        to <= v@.len(),
    ensures
        r <= to,
        v@.take(r as int) == trim_end_char(v@.take(to as int), c),
    decreases to,
{
    if to > 0 && v[to - 1] == c {
        assert(v@.take(to as int).drop_last() =~= v@.take(to - 1));
        trimmed_end(v, to - 1, c)
    } else {
        to
    }
}

/// The start of the characters `v[from..]` once the copies of `c` at its
/// start are left out.
fn trimmed_start(v: &Vec<char>, from: usize, c: char) -> (r: usize)
    requires
        from <= v@.len(),
    ensures
        from <= r <= v@.len(),
        v@.skip(r as int) == trim_start_char(v@.skip(from as int), c),
    decreases v@.len() - from,
{
    if from < v.len() && v[from] == c {
        assert(v@.skip(from as int).skip(1) =~= v@.skip(from + 1));
        trimmed_start(v, from + 1, c)
    } else {
        from
    }
}

/// `s` without the copies of `c` at its end (`str::trim_end_matches` with
/// a character).
pub fn trim_end_matches(s: &str, c: char) -> (r: String)
    ensures
        r@ == trim_end_char(s@, c),
{
    let v = str_chars(s);
    let end = trimmed_end(&v, v.len(), c);
    assert(v@.take(v@.len() as int) =~= v@);
    assert(v@.subrange(0, end as int) =~= v@.take(end as int));
    string_from_range(&v, 0, end)
}

/// `s` without the copies of `c` at either end (`str::trim_matches` with a
/// character).
pub fn trim_matches(s: &str, c: char) -> (r: String)
    ensures
        r@ == trim_end_char(trim_start_char(s@, c), c),
{
    let v = str_chars(s);
    let start = trimmed_start(&v, 0, c);
    assert(v@.skip(0) =~= v@);
    let rest = string_from_range(&v, start, v.len());
    assert(v@.subrange(start as int, v@.len() as int) =~= v@.skip(start as int));
    trim_end_matches(rest.as_str(), c)
}

/// Get the full S3 key for a message
pub fn message_key(prefix: &str, id: &str) -> (r: String)
    ensures
        r@ == spec_message_key(prefix@, id@),
{
    if prefix.is_empty() {
        id.to_owned()
    } else {
        let mut key = trim_end_matches(prefix, '/');
        push_str(&mut key, "/");
        push_str(&mut key, id);
        key
    }
}

/// Extract the message ID (the key without the prefix) of a listed object.
pub fn message_id(prefix: &str, key: &str) -> (r: String)
    ensures
        r@ == spec_message_id(prefix@, key@),
{
    let mut p = trim_end_matches(prefix, '/');
    push_str(&mut p, "/");
    let pv = str_chars(p.as_str());
    let kv = str_chars(key);
    if pv.len() > kv.len() {
        return key.to_owned();
    }
    let mut i: usize = 0;
    while i < pv.len()
        invariant
            i <= pv@.len() <= kv@.len(),
            pv@ == trim_end_char(prefix@, '/') + "/"@,
            kv@ == key@,
            forall|j: int| 0 <= j < i ==> pv@[j] == kv@[j],
        decreases pv.len() - i,
    {
        if pv[i] != kv[i] {
            proof {
                if pv@.is_prefix_of(kv@) {
                    assert(kv@.subrange(0, pv@.len() as int)[i as int] == kv@[i as int]);
                }
            }
            return key.to_owned();
        }
        i = i + 1;
    }
    assert(pv@ =~= kv@.take(pv@.len() as int));
    assert(kv@.subrange(pv@.len() as int, kv@.len() as int) =~= kv@.skip(pv@.len() as int));
    string_from_range(&kv, pv.len(), kv.len())
}

/// Generate UIDL from S3 ETag or key
pub fn generate_uidl(key: &str, etag: Option<&str>) -> (r: String)
    ensures
        r@ == spec_s3_uidl(key@, match etag {
            Some(e) => Some(e@),
            None => None,
        }),
{
    match etag {
        Some(e) => trim_matches(e, '"'),
        None => {
            let digest = md5_digest(key.as_bytes());
            hex_encode(digest.as_slice())
        },
    }
}

} // verus!
