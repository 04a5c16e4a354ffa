//! Maildir naming: the directories of a maildir, where a message lives, its
//! UIDL, and a listing of the messages in `cur/`.

use vstd::prelude::*;

use crate::storage::adapter::{message_views, MessageInfo, MessageInfoView};
use crate::text::{
    find_char, first_index, lemma_text_le_total, lemma_text_le_transitive, push_str, str_chars,
    string_from_range, string_push, text_le, text_le_exec,
};

verus! {

/// `name` joined under the path `base` (`Path::join` on Unix): an absolute
/// `name` replaces `base`; otherwise a `/` goes between them unless `base`
/// is empty or already ends with one.
pub open spec fn join_path(base: Seq<char>, name: Seq<char>) -> Seq<char> {
    if name.len() > 0 && name[0] == '/' {
        name
    } else if base.len() == 0 || base.last() == '/' {
        base + name
    } else {
        base + "/"@ + name
    }
}

/// A hexadecimal digit, lower case.
pub open spec fn hex_digit(d: int) -> char {
    if d < 10 {
        (48 + d) as char
    } else {
        (87 + d) as char
    }
}

/// Bytes written as hexadecimal, two lower-case digits per byte, high digit
/// first.
pub open spec fn spec_hex(bytes: Seq<u8>) -> Seq<char>
    decreases bytes.len(),
{
    if bytes.len() == 0 {
        Seq::empty()
    } else {
        spec_hex(bytes.drop_last()) + seq![
            hex_digit(bytes.last() as int / 16),
            hex_digit(bytes.last() as int % 16),
        ]
    }
}

/// The MD5 digest of some bytes (16 bytes).
pub uninterp spec fn spec_md5(data: Seq<u8>) -> Seq<u8>;

/// `md5::compute` (md5 0.7): the digest's 16 bytes, named by `spec_md5`.
#[verifier::external_body]
pub(crate) fn md5_digest(data: &[u8]) -> (r: Vec<u8>)
    ensures
        r@ == spec_md5(data@),
        r@.len() == 16,
{
    md5::compute(data).0.to_vec()
}

/// The lower-case hexadecimal digit with value `d`.
fn hex_digit_char(d: u8) -> (c: char)
    requires
        d < 16,
    ensures
        c == hex_digit(d as int),
{
    if d < 10 {
        (48u8 + d) as char
    } else {
        (87u8 + d) as char
    }
}

/// Bytes in hexadecimal, two lower-case digits per byte, high digit first
/// (what `hex::encode` writes).
pub(crate) fn hex_encode(data: &[u8]) -> (r: String)
    ensures
        r@ == spec_hex(data@),
{
    let mut out = String::new();
    let mut i: usize = 0;
    while i < data.len()
        invariant
            i <= data@.len(),
            out@ == spec_hex(data@.take(i as int)),
        decreases data.len() - i,
    {
        let b = data[i];
        string_push(&mut out, hex_digit_char(b / 16));
        string_push(&mut out, hex_digit_char(b % 16));
        proof {
            assert(data@.take(i + 1).drop_last() =~= data@.take(i as int));
        }
        i = i + 1;
    }
    proof {
        assert(data@.take(data@.len() as int) =~= data@);
    }
    out
}

/// The part of a maildir file name before its flags (before the first `:`).
pub open spec fn spec_base_filename(filename: Seq<char>) -> Seq<char> {
    match first_index(filename, ':') {
        Some(i) => filename.take(i as int),
        None => filename,
    }
}

/// The UIDL of a message file: the MD5 digest of its base name, in hex.
pub open spec fn spec_uidl(filename: Seq<char>) -> Seq<char> {
    spec_hex(spec_md5(vstd::utf8::encode_utf8(spec_base_filename(filename))))
}

/// What the listing says of a file in `cur/` with `size` bytes.
pub open spec fn spec_message_info(filename: Seq<char>, size: usize) -> MessageInfoView {
    MessageInfoView { id: filename, size: size, uidl: spec_uidl(filename) }
}

/// Whether messages are in the order of their ids.
pub open spec fn sorted_by_id(s: Seq<MessageInfoView>) -> bool {
    forall|a: int, b: int| 0 <= a < b < s.len() ==> text_le((#[trigger] s[a]).id, (#[trigger] s[b]).id)
}

/// What the listing says of each directory entry (file name and size).
pub open spec fn entry_infos(entries: Seq<(String, usize)>) -> Seq<MessageInfoView> {
    entries.map_values(|e: (String, usize)| spec_message_info(e.0@, e.1))
}

/// Whether `r` holds the items of `s`, each once, in some order.
pub open spec fn is_reordering<A>(r: Seq<A>, s: Seq<A>) -> bool {
    exists|order: Seq<int>|
        #![trigger order.len()]
        order.len() == s.len() && r.len() == s.len() && order.no_duplicates() && (forall|a: int|
            0 <= a < order.len() ==> 0 <= #[trigger] order[a] < s.len() && r[a] == s[order[a]])
}

/// A message keeps its UIDL when its flags change: two file names with the
/// same base name (holding no `:`) and any flags after a `:` have the same
/// UIDL.
pub proof fn lemma_uidl_ignores_flags(base: Seq<char>, flags1: Seq<char>, flags2: Seq<char>)
    requires
        !base.contains(':'),
    ensures
        spec_uidl(base + ":"@ + flags1) == spec_uidl(base + ":"@ + flags2),
        spec_uidl(base + ":"@ + flags1) == spec_uidl(base),
{
    lemma_base_of_flagged(base, flags1);
    lemma_base_of_flagged(base, flags2);
    assert forall|j: int| 0 <= j < base.len() implies #[trigger] base[j] != ':' by {
        if base[j] == ':' {
            assert(base.contains(':'));
        }
    }
    crate::text::lemma_first_index(base, ':', base.len() as int);
}

proof fn lemma_base_of_flagged(base: Seq<char>, flags: Seq<char>)
    requires
        !base.contains(':'),
    ensures
        spec_base_filename(base + ":"@ + flags) == base,
{
    reveal_strlit(":");
    let f = base + ":"@ + flags;
    assert forall|j: int| 0 <= j < base.len() implies #[trigger] f[j] != ':' by {
        assert(f[j] == base[j]);
        if base[j] == ':' {
            assert(base.contains(':'));
        }
    }
    assert(f[base.len() as int] == ':');
    crate::text::lemma_first_index(f, ':', base.len() as int);
    assert(f.take(base.len() as int) =~= base);
}

/// `base` and `name` with a `/` between them, as the factory forms a user's
/// maildir.
pub fn maildir_base_join(base: &str, name: &str) -> (r: String)
    ensures
        r@ == base@ + "/"@ + name@,
{
    let mut s = base.to_owned();
    push_str(&mut s, "/");
    push_str(&mut s, name);
    s
}

/// `name` joined under the path `base`, as `Path::join` does on Unix.
pub fn join(base: &str, name: &str) -> (r: String)
    ensures
        r@ == join_path(base@, name@),
{
    let nv = str_chars(name);
    if nv.len() > 0 && nv[0] == '/' {
        return name.to_owned();
    }
    let bv = str_chars(base);
    let mut s = base.to_owned();
    if bv.len() > 0 && bv[bv.len() - 1] != '/' {
        push_str(&mut s, "/");
    }
    push_str(&mut s, name);
    proof {
        reveal_strlit("/");
    }
    s
}

/// Maildir storage adapter
pub struct MaildirAdapter {
    base_path: String,
}

impl MaildirAdapter {
    /// The maildir's path.
    pub closed spec fn base(&self) -> Seq<char> {
        self.base_path@
    }

    /// The adapter for the maildir at `path` (whose directories the caller
    /// makes sure exist, see [`MaildirAdapter::structure`]).
    pub fn new(path: &str) -> (r: Self)
        ensures
            r.base() == path@,
    {
        Self { base_path: path.to_owned() }
    }

    /// The maildir's path.
    pub fn base_path(&self) -> (r: &str)
        ensures
            r@ == self.base(),
    {
        self.base_path.as_str()
    }

    /// The directories a maildir consists of: `new`, `cur` and `tmp`.
    pub fn structure(&self) -> (r: Vec<String>)
        ensures
            r@.len() == 3,
            r@[0]@ == join_path(self.base(), "new"@),
            r@[1]@ == join_path(self.base(), "cur"@),
            r@[2]@ == join_path(self.base(), "tmp"@),
    {
        let mut r = Vec::new();
        r.push(self.new_dir());
        r.push(self.cur_dir());
        r.push(join(self.base_path.as_str(), "tmp"));
        r
    }

    /// Get the cur directory path
    pub fn cur_dir(&self) -> (r: String)
        ensures
            r@ == join_path(self.base(), "cur"@),
    {
        join(self.base_path.as_str(), "cur")
    }

    /// Get the new directory path
    pub fn new_dir(&self) -> (r: String)
        ensures
            r@ == join_path(self.base(), "new"@),
    {
        join(self.base_path.as_str(), "new")
    }

    /// Where the message `id` lives: in `cur/` (also where a file that
    /// arrives in `new/` is moved to).
    pub fn message_path(&self, id: &str) -> (r: String)
        ensures
            r@ == join_path(join_path(self.base(), "cur"@), id@),
    {
        let cur = self.cur_dir();
        join(cur.as_str(), id)
    }

    /// Generate a UIDL from a file name: the MD5 digest of its base name,
    /// in hex, so that a message keeps its UIDL when its flags change.
    pub fn generate_uidl(filename: &str) -> (r: String)
        ensures
            r@ == spec_hex(spec_md5(vstd::utf8::encode_utf8(filename@))),
    {
        let digest = md5_digest(filename.as_bytes());
        hex_encode(digest.as_slice())
    }

    /// Extract base filename (without flags)
    pub fn base_filename(filename: &str) -> (r: String)
        ensures
            r@ == spec_base_filename(filename@),
    {
        let v = str_chars(filename);
        match find_char(&v, 0, v.len(), ':') {
            Some(i) => {
                assert(v@.subrange(0, v@.len() as int) == v@);
                string_from_range(&v, 0, i)
            },
            None => {
                assert(v@.subrange(0, v@.len() as int) == v@);
                filename.to_owned()
            },
        }
    }

    /// What the listing says of a file in `cur/`.
    pub fn message_info(filename: &str, size: usize) -> (r: MessageInfo)
        ensures
            r@ == spec_message_info(filename@, size),
    {
        let base = Self::base_filename(filename);
        let uidl = Self::generate_uidl(base.as_str());
        MessageInfo { id: filename.to_owned(), size, uidl }
    }

    /// The listing of the files in `cur/` (name and size of each, in the
    /// order the directory gives them): each file once, sorted by name.
    pub fn listing(entries: &Vec<(String, usize)>) -> (r: Vec<MessageInfo>)
        ensures
            is_reordering(message_views(r@), entry_infos(entries@)),
            sorted_by_id(message_views(r@)),
    {
        let ghost ev = entry_infos(entries@);
        let mut infos: Vec<MessageInfo> = Vec::new();
        let mut k: usize = 0;
        while k < entries.len()
            invariant
                k <= entries@.len(),
                ev == entry_infos(entries@),
                message_views(infos@) == ev.take(k as int),
            decreases entries.len() - k,
        {
            let info = Self::message_info(entries[k].0.as_str(), entries[k].1);
            let ghost before = infos@;
            infos.push(info);
            proof {
                assert(message_views(infos@) =~= message_views(before).push(ev[k as int]));
                assert(ev.take(k + 1) =~= ev.take(k as int).push(ev[k as int]));
            }
            k = k + 1;
        }
        assert(ev.take(ev.len() as int) =~= ev);
        let ghost mv = message_views(infos@);
        let n = infos.len();
        let mut order: Vec<usize> = Vec::new();
        let mut i: usize = 0;
        while i < n
            invariant
                i <= n == infos@.len(),
                mv == message_views(infos@),
                order@.len() == i,
                order@.no_duplicates(),
                forall|a: int| 0 <= a < order@.len() ==> #[trigger] order@[a] < i,
                forall|j: int| 0 <= j < i ==> #[trigger] order@.contains(j as usize),
                forall|a: int, b: int|
                    0 <= a < b < order@.len() ==> text_le(
                        mv[#[trigger] order@[a] as int].id,
                        mv[#[trigger] order@[b] as int].id,
                    ),
            decreases n - i,
        {
            let mut p: usize = 0;
            let mut done = false;
            let vi = str_chars(infos[i].id.as_str());
            while p < order.len() && !done
                invariant
                    p <= order@.len(),
                    i < n == infos@.len(),
                    mv == message_views(infos@),
                    vi@ == mv[i as int].id,
                    forall|a: int| 0 <= a < order@.len() ==> #[trigger] order@[a] < i,
                    forall|a: int|
                        0 <= a < p ==> text_le(mv[#[trigger] order@[a] as int].id, mv[i as int].id),
                    done ==> p < order@.len() && !text_le(mv[order@[p as int] as int].id, mv[i as int].id),
                decreases order.len() - p + if done { 0int } else { 1int },
            {
                let o = order[p];
                let vo = str_chars(infos[o].id.as_str());
                let le = text_le_exec(&vo, &vi);
                assert(mv[o as int] == infos@[o as int]@);
                if le {
                    p = p + 1;
                } else {
                    done = true;
                }
            }
            let ghost old_order = order@;
            order.insert(p, i);
            proof {
                assert(order@ =~= old_order.insert(p as int, i));
                assert forall|a: int| 0 <= a < order@.len() implies #[trigger] order@[a] < i + 1 by {
                    if a < p {
                        assert(order@[a] == old_order[a]);
                    } else if a > p {
                        assert(order@[a] == old_order[a - 1]);
                    }
                }
                assert forall|a: int, b: int|
                    0 <= a < order@.len() && 0 <= b < order@.len() && a != b implies order@[a]
                    != order@[b] by {
                    if a != p && b != p {
                        let a1 = if a < p { a } else { a - 1 };
                        let b1 = if b < p { b } else { b - 1 };
                        assert(order@[a] == old_order[a1]);
                        assert(order@[b] == old_order[b1]);
                    } else if a == p {
                        let b1 = if b < p { b } else { b - 1 };
                        assert(order@[b] == old_order[b1]);
                    } else {
                        let a1 = if a < p { a } else { a - 1 };
                        assert(order@[a] == old_order[a1]);
                    }
                }
                assert forall|j: int| 0 <= j < i + 1 implies #[trigger] order@.contains(j as usize) by {
                    if j == i {
                        assert(order@[p as int] == i);
                    } else {
                        assert(old_order.contains(j as usize));
                        let a = choose|a: int| 0 <= a < old_order.len() && old_order[a] == j as usize;
                        if a < p {
                            assert(order@[a] == j as usize);
                        } else {
                            assert(order@[a + 1] == j as usize);
                        }
                    }
                }
                if done {
                    lemma_text_le_total(mv[old_order[p as int] as int].id, mv[i as int].id);
                }
                assert forall|c: int| p <= c < old_order.len() implies text_le(
                    mv[i as int].id,
                    mv[#[trigger] old_order[c] as int].id,
                ) by {
                    if c > p {
                        assert(text_le(mv[old_order[p as int] as int].id, mv[old_order[c] as int].id));
                        lemma_text_le_transitive(
                            mv[i as int].id,
                            mv[old_order[p as int] as int].id,
                            mv[old_order[c] as int].id,
                        );
                    }
                }
                assert forall|a: int, b: int| 0 <= a < b < order@.len() implies text_le(
                    mv[#[trigger] order@[a] as int].id,
                    mv[#[trigger] order@[b] as int].id,
                ) by {
                    if b < p {
                        assert(order@[a] == old_order[a]);
                        assert(order@[b] == old_order[b]);
                    } else if b == p {
                        assert(order@[a] == old_order[a]);
                    } else if a < p {
                        assert(order@[a] == old_order[a]);
                        assert(order@[b] == old_order[b - 1]);
                        assert(text_le(mv[i as int].id, mv[old_order[b - 1] as int].id));
                        lemma_text_le_transitive(
                            mv[old_order[a] as int].id,
                            mv[i as int].id,
                            mv[old_order[b - 1] as int].id,
                        );
                    } else if a == p {
                        assert(order@[b] == old_order[b - 1]);
                    } else {
                        assert(order@[a] == old_order[a - 1]);
                        assert(order@[b] == old_order[b - 1]);
                    }
                }
            }
            i = i + 1;
        }
        let mut out: Vec<MessageInfo> = Vec::new();
        let mut m: usize = 0;
        while m < n
            invariant
                m <= n == infos@.len() == order@.len(),
                mv == message_views(infos@),
                forall|a: int| 0 <= a < order@.len() ==> #[trigger] order@[a] < n,
                message_views(out@).len() == m,
                forall|a: int| 0 <= a < m ==> message_views(out@)[a] == mv[#[trigger] order@[a] as int],
            decreases n - m,
        {
            let o = order[m];
            let info = infos[o].clone_info();
            let ghost before = out@;
            out.push(info);
            proof {
                assert(message_views(out@) =~= message_views(before).push(mv[o as int]));
            }
            m = m + 1;
        }
        proof {
            let rv = message_views(out@);
            let ord = order@.map_values(|o: usize| o as int);
            assert(ord.len() == ev.len());
            assert forall|a: int, b: int| 0 <= a < ord.len() && 0 <= b < ord.len() && a != b implies ord[a]
                != ord[b] by {
                assert(order@[a] != order@[b]);
            }
            assert forall|a: int| 0 <= a < ord.len() implies 0 <= #[trigger] ord[a] < ev.len() && rv[a]
                == ev[ord[a]] by {
                assert(ord[a] == order@[a] as int);
            }
            assert(is_reordering(rv, ev));
            assert forall|a: int, b: int| 0 <= a < b < rv.len() implies text_le(
                (#[trigger] rv[a]).id,
                (#[trigger] rv[b]).id,
            ) by {
                assert(rv[a] == mv[order@[a] as int]);
                assert(rv[b] == mv[order@[b] as int]);
            }
        }
        out
    }
}

} // verus!
