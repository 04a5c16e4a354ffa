//! Character-level helpers shared by the protocol, store and storage modules.
//!
//! Strings are modelled by their `Seq<char>` views. Whitespace follows the
//! Unicode `White_Space` property, which is what `str::trim` and
//! `str::split_whitespace` use.

use vstd::prelude::*;
use vstd::std_specs::iter::IteratorSpec;

verus! {

/// The Unicode `White_Space` property (the characters `char::is_whitespace` accepts).
pub open spec fn is_white_space(c: char) -> bool {
    let n = c as u32;
    ||| 0x09 <= n <= 0x0d
    ||| n == 0x20
    ||| n == 0x85
    ||| n == 0xa0
    ||| n == 0x1680
    ||| 0x2000 <= n <= 0x200a
    ||| n == 0x2028
    ||| n == 0x2029
    ||| n == 0x202f
    ||| n == 0x205f
    ||| n == 0x3000
}

/// Number of whitespace characters at the start of `s`.
pub open spec fn leading_ws(s: Seq<char>) -> nat
    decreases s.len(),
{
    if s.len() > 0 && is_white_space(s[0]) {
        1 + leading_ws(s.drop_first())
    } else {
        0
    }
}

/// Number of whitespace characters at the end of `s`.
pub open spec fn trailing_ws(s: Seq<char>) -> nat
    decreases s.len(),
{
    if s.len() > 0 && is_white_space(s.last()) {
        1 + trailing_ws(s.drop_last())
    } else {
        0
    }
}

/// `s` without its leading and trailing whitespace (`str::trim`).
pub open spec fn trim(s: Seq<char>) -> Seq<char> {
    let t = s.skip(leading_ws(s) as int);
    t.take(t.len() - trailing_ws(t))
}

/// Index of the first occurrence of `c` in `s`.
pub open spec fn first_index(s: Seq<char>, c: char) -> Option<nat>
    decreases s.len(),
{
    if s.len() == 0 {
        None
    } else if s[0] == c {
        Some(0)
    } else {
        match first_index(s.drop_first(), c) {
            Some(i) => Some(i + 1),
            None => None,
        }
    }
}

/// Index of the last occurrence of `c` in `s`.
pub open spec fn last_index(s: Seq<char>, c: char) -> Option<nat>
    decreases s.len(),
{
    if s.len() == 0 {
        None
    } else if s.last() == c {
        Some((s.len() - 1) as nat)
    } else {
        last_index(s.drop_last(), c)
    }
}

/// `s` split at the first `c` (`str::splitn(2, c)`): the part before it and
/// the part after it, or all of `s` and nothing when `c` does not occur.
pub open spec fn split_once(s: Seq<char>, c: char) -> (Seq<char>, Seq<char>) {
    match first_index(s, c) {
        Some(i) => (s.take(i as int), s.skip((i + 1) as int)),
        None => (s, Seq::empty()),
    }
}

pub proof fn lemma_leading_ws(s: Seq<char>, k: int)
    requires
        0 <= k <= s.len(),
        forall|j: int| 0 <= j < k ==> is_white_space(#[trigger] s[j]),
        k == s.len() || !is_white_space(s[k]),
    ensures
        leading_ws(s) == k,
    decreases k,
{
    if k > 0 {
        assert(is_white_space(s[0]));
        assert forall|j: int| 0 <= j < k - 1 implies is_white_space(#[trigger] s.drop_first()[j]) by {
            assert(s.drop_first()[j] == s[j + 1]);
        }
        lemma_leading_ws(s.drop_first(), k - 1);
    }
}

pub proof fn lemma_trailing_ws(s: Seq<char>, k: int)
    requires
        0 <= k <= s.len(),
        forall|j: int| s.len() - k <= j < s.len() ==> is_white_space(#[trigger] s[j]),
        k == s.len() || !is_white_space(s[s.len() - k - 1]),
    ensures
        trailing_ws(s) == k,
    decreases k,
{
    if k > 0 {
        assert(is_white_space(s[s.len() - 1]));
        let t = s.drop_last();
        assert forall|j: int| t.len() - (k - 1) <= j < t.len() implies is_white_space(#[trigger] t[j]) by {
            assert(t[j] == s[j]);
        }
        if k - 1 < t.len() {
            assert(t[t.len() - (k - 1) - 1] == s[s.len() - k - 1]);
        }
        lemma_trailing_ws(t, k - 1);
    }
}

/// What `leading_ws` counts: that many white-space characters, then
/// none or a character that is not white space.
pub proof fn lemma_leading_ws_facts(s: Seq<char>)
    ensures
        leading_ws(s) <= s.len(),
        forall|j: int| 0 <= j < leading_ws(s) ==> is_white_space(#[trigger] s[j]),
        leading_ws(s) < s.len() ==> !is_white_space(s[leading_ws(s) as int]),
    decreases s.len(),
{
    if s.len() > 0 && is_white_space(s[0]) {
        let t = s.drop_first();
        lemma_leading_ws_facts(t);
        assert forall|j: int| 0 <= j < leading_ws(s) implies is_white_space(#[trigger] s[j]) by {
            if j > 0 {
                assert(s[j] == t[j - 1]);
            }
        }
        if leading_ws(s) < s.len() {
            assert(s[leading_ws(s) as int] == t[leading_ws(t) as int]);
        }
    }
}

/// What `trailing_ws` counts: that many white-space characters at the end,
/// before them none or a character that is not white space.
pub proof fn lemma_trailing_ws_facts(s: Seq<char>)
    ensures
        trailing_ws(s) <= s.len(),
        forall|j: int| s.len() - trailing_ws(s) <= j < s.len() ==> is_white_space(#[trigger] s[j]),
        trailing_ws(s) < s.len() ==> !is_white_space(s[s.len() - trailing_ws(s) - 1]),
    decreases s.len(),
{
    if s.len() > 0 && is_white_space(s.last()) {
        let t = s.drop_last();
        lemma_trailing_ws_facts(t);
        assert forall|j: int| s.len() - trailing_ws(s) <= j < s.len() implies is_white_space(
            #[trigger] s[j],
        ) by {
            if j < s.len() - 1 {
                assert(s[j] == t[j]);
            }
        }
        if trailing_ws(s) < s.len() {
            assert(s[s.len() - trailing_ws(s) - 1] == t[t.len() - trailing_ws(t) - 1]);
        }
    }
}

/// White space around a text does not change what `trim` gives.
pub proof fn lemma_trim_surrounded(a: Seq<char>, s: Seq<char>, b: Seq<char>)
    requires
        forall|j: int| 0 <= j < a.len() ==> is_white_space(#[trigger] a[j]),
        forall|j: int| 0 <= j < b.len() ==> is_white_space(#[trigger] b[j]),
    ensures
        trim(a + s + b) == trim(s),
{
    let x = a + s + b;
    lemma_leading_ws_facts(s);
    let p = leading_ws(s);
    if p == s.len() {
        assert forall|j: int| 0 <= j < x.len() implies is_white_space(#[trigger] x[j]) by {
            if j < a.len() {
                assert(x[j] == a[j]);
            } else if j < a.len() + s.len() {
                assert(x[j] == s[j - a.len()]);
            } else {
                assert(x[j] == b[j - a.len() - s.len()]);
            }
        }
        lemma_leading_ws(x, x.len() as int);
        lemma_trailing_ws(s.skip(p as int), 0);
        assert(trim(x) =~= Seq::<char>::empty());
        assert(trim(s) =~= Seq::<char>::empty());
    } else {
        assert forall|j: int| 0 <= j < a.len() + p implies is_white_space(#[trigger] x[j]) by {
            if j < a.len() {
                assert(x[j] == a[j]);
            } else {
                assert(x[j] == s[j - a.len()]);
            }
        }
        assert(x[(a.len() + p) as int] == s[p as int]);
        lemma_leading_ws(x, (a.len() + p) as int);
        let tx = x.skip((a.len() + p) as int);
        let ts = s.skip(p as int);
        assert(tx =~= ts + b);
        lemma_trailing_ws_facts(ts);
        let q = trailing_ws(ts);
        assert(ts[0] == s[p as int]);
        if q == ts.len() {
            assert(is_white_space(ts[0]));
        }
        assert forall|j: int| tx.len() - (b.len() + q) <= j < tx.len() implies is_white_space(
            #[trigger] tx[j],
        ) by {
            if j < ts.len() {
                assert(tx[j] == ts[j]);
            } else {
                assert(tx[j] == b[j - ts.len()]);
            }
        }
        assert(tx[tx.len() - (b.len() + q) - 1] == ts[ts.len() - q - 1]);
        lemma_trailing_ws(tx, (b.len() + q) as int);
        assert(trim(x) =~= trim(s));
    }
}

pub proof fn lemma_first_index(s: Seq<char>, c: char, k: int)
    requires
        0 <= k <= s.len(),
        forall|j: int| 0 <= j < k ==> #[trigger] s[j] != c,
    ensures
        k == s.len() ==> first_index(s, c) is None,
        k < s.len() && s[k] == c ==> first_index(s, c) == Some(k as nat),
    decreases k,
{
    if k > 0 {
        assert forall|j: int| 0 <= j < k - 1 implies #[trigger] s.drop_first()[j] != c by {
            assert(s.drop_first()[j] == s[j + 1]);
        }
        lemma_first_index(s.drop_first(), c, k - 1);
        if k < s.len() {
            assert(s.drop_first()[k - 1] == s[k]);
        }
    }
}

pub proof fn lemma_last_index(s: Seq<char>, c: char, k: int)
    requires
        0 <= k <= s.len(),
        forall|j: int| s.len() - k <= j < s.len() ==> #[trigger] s[j] != c,
    ensures
        k == s.len() ==> last_index(s, c) is None,
        k < s.len() && s[s.len() - k - 1] == c ==> last_index(s, c) == Some((s.len() - k - 1) as nat),
    decreases k,
{
    if k > 0 {
        let t = s.drop_last();
        assert forall|j: int| t.len() - (k - 1) <= j < t.len() implies #[trigger] t[j] != c by {
            assert(t[j] == s[j]);
        }
        lemma_last_index(t, c, k - 1);
        if k < s.len() {
            assert(t[t.len() - (k - 1) - 1] == s[s.len() - k - 1]);
        }
    }
}

/// Whether `c` has the Unicode `White_Space` property.
pub fn char_is_white_space(c: char) -> (b: bool)
    ensures
        b == is_white_space(c),
{
    let n = c as u32;
    (0x09 <= n && n <= 0x0d) || n == 0x20 || n == 0x85 || n == 0xa0 || n == 0x1680 || (0x2000
        <= n && n <= 0x200a) || n == 0x2028 || n == 0x2029 || n == 0x202f || n == 0x205f || n
        == 0x3000
}

/// Appends one character to a string (`String::push`).
#[verifier::external_body]
pub fn string_push(s: &mut String, c: char)
    ensures
        final(s)@ == old(s)@.push(c),
{
    s.push(c);
}

/// The characters of a string slice, in order.
pub fn str_chars(s: &str) -> (v: Vec<char>)
    ensures
        v@ == s@,
{
    let mut v: Vec<char> = Vec::new();
    for c in it: s.chars()
        invariant
            v@ == it.seq().take(it.index()),
    {
        v.push(c);
    }
    v
}

/// A string holding the characters `v[from..to]`.
pub fn string_from_range(v: &[char], from: usize, to: usize) -> (s: String)
    requires
        from <= to <= v@.len(),
    ensures
        s@ == v@.subrange(from as int, to as int),
{
    let mut s = String::new();
    let mut i = from;
    while i < to
        invariant
            from <= i <= to <= v@.len(),
            s@ == v@.subrange(from as int, i as int),
        decreases to - i,
    {
        string_push(&mut s, v[i]);
        assert(v@.subrange(from as int, i + 1) == v@.subrange(from as int, i as int).push(v@[i as int]));
        i = i + 1;
    }
    s
}

/// Whether two string slices hold the same characters.
pub fn str_eq(a: &str, b: &str) -> (r: bool)
    ensures
        r == (a@ == b@),
{
    let va = str_chars(a);
    let vb = str_chars(b);
    chars_eq(&va, &vb)
}

/// The position of `key` among `keys`.
pub fn find_string(keys: &Vec<String>, key: &str) -> (r: Option<usize>)
    ensures
        match r {
            Some(i) => i < keys@.len() && string_views(keys@)[i as int] == key@,
            None => !string_views(keys@).contains(key@),
        },
{
    let mut i: usize = 0;
    while i < keys.len()
        invariant
            i <= keys@.len(),
            forall|j: int| 0 <= j < i ==> string_views(keys@)[j] != key@,
        decreases keys.len() - i,
    {
        if str_eq(keys[i].as_str(), key) {
            return Some(i);
        }
        i = i + 1;
    }
    None
}

/// Whether two character slices are equal.
pub fn chars_eq(a: &[char], b: &[char]) -> (r: bool)
    ensures
        r == (a@ == b@),
{
    if a.len() != b.len() {
        return false;
    }
    let mut i: usize = 0;
    while i < a.len()
        invariant
            a@.len() == b@.len(),
            i <= a@.len(),
            forall|j: int| 0 <= j < i ==> a@[j] == b@[j],
        decreases a.len() - i,
    {
        if a[i] != b[i] {
            return false;
        }
        i = i + 1;
    }
    assert(a@ =~= b@);
    true
}

/// Appends all characters of `t` to `s`.
pub fn push_str(s: &mut String, t: &str)
    ensures
        final(s)@ == old(s)@ + t@,
{
    let v = str_chars(t);
    let mut i: usize = 0;
    while i < v.len()
        invariant
            i <= v@.len(),
            v@ == t@,
            s@ == old(s)@ + v@.take(i as int),
        decreases v.len() - i,
    {
        string_push(s, v[i]);
        assert(v@.take(i + 1) == v@.take(i as int).push(v@[i as int]));
        i = i + 1;
    }
    assert(v@.take(v@.len() as int) == v@);
}

/// Bounds `(start, end)` of `trim(v)` inside `v`.
pub fn trim_bounds(v: &[char]) -> (r: (usize, usize))
    ensures
        r.0 <= r.1 <= v@.len(),
        v@.subrange(r.0 as int, r.1 as int) == trim(v@),
{
    let mut start: usize = 0;
    while start < v.len() && char_is_white_space(v[start])
        invariant
            start <= v@.len(),
            forall|j: int| 0 <= j < start ==> is_white_space(#[trigger] v@[j]),
        decreases v.len() - start,
    {
        start = start + 1;
    }
    proof {
        lemma_leading_ws(v@, start as int);
    }
    let mut end: usize = v.len();
    while end > start && char_is_white_space(v[end - 1])
        invariant
            start <= end <= v@.len(),
            forall|j: int| end <= j < v@.len() ==> is_white_space(#[trigger] v@[j]),
        decreases end,
    {
        end = end - 1;
    }
    proof {
        let t = v@.skip(start as int);
        let k = (v@.len() - end) as int;
        assert forall|j: int| t.len() - k <= j < t.len() implies is_white_space(#[trigger] t[j]) by {
            assert(t[j] == v@[j + start]);
        }
        if k < t.len() {
            assert(t[t.len() - k - 1] == v@[end - 1]);
        }
        lemma_trailing_ws(t, k);
        assert(t.take(t.len() - k) == v@.subrange(start as int, end as int));
    }
    (start, end)
}

/// Index of the first `c` in `v[from..to]`, counted from the start of `v`.
pub fn find_char(v: &[char], from: usize, to: usize, c: char) -> (r: Option<usize>)
    requires
        from <= to <= v@.len(),
    ensures
        match r {
            Some(i) => from <= i < to && first_index(v@.subrange(from as int, to as int), c) == Some(
                (i - from) as nat,
            ),
            None => first_index(v@.subrange(from as int, to as int), c) is None,
        },
{
    let ghost t = v@.subrange(from as int, to as int);
    let mut i = from;
    while i < to
        invariant
            from <= i <= to <= v@.len(),
            t == v@.subrange(from as int, to as int),
            forall|j: int| from <= j < i ==> #[trigger] v@[j] != c,
        decreases to - i,
    {
        if v[i] == c {
            proof {
                assert forall|j: int| 0 <= j < i - from implies #[trigger] t[j] != c by {
                    assert(t[j] == v@[j + from]);
                }
                assert(t[i - from] == v@[i as int]);
                lemma_first_index(t, c, (i - from) as int);
            }
            return Some(i);
        }
        i = i + 1;
    }
    proof {
        assert forall|j: int| 0 <= j < t.len() implies #[trigger] t[j] != c by {
            assert(t[j] == v@[j + from]);
        }
        lemma_first_index(t, c, t.len() as int);
    }
    None
}

/// Index of the last `c` in `v`.
pub fn rfind_char(v: &[char], c: char) -> (r: Option<usize>)
    ensures
        match r {
            Some(i) => i < v@.len() && last_index(v@, c) == Some(i as nat),
            None => last_index(v@, c) is None,
        },
{
    let mut k: usize = 0;
    while k < v.len()
        invariant
            k <= v@.len(),
            forall|j: int| v@.len() - k <= j < v@.len() ==> #[trigger] v@[j] != c,
        decreases v.len() - k,
    {
        if v[v.len() - k - 1] == c {
            proof {
                lemma_last_index(v@, c, k as int);
            }
            return Some(v.len() - k - 1);
        }
        k = k + 1;
    }
    proof {
        lemma_last_index(v@, c, k as int);
    }
    None
}


/// Whether `c` is one of the ASCII digits `0`..`9`.
pub open spec fn is_ascii_digit(c: char) -> bool {
    48 <= (c as u32) <= 57
}

/// The value of the ASCII digit `c`.
pub open spec fn digit_value(c: char) -> nat {
    ((c as u32) - 48) as nat
}

/// Whether every character of `s` is an ASCII digit.
pub open spec fn all_digits(s: Seq<char>) -> bool {
    forall|i: int| 0 <= i < s.len() ==> is_ascii_digit(#[trigger] s[i])
}

/// The number written by the decimal digits `s`.
pub open spec fn decimal_value(s: Seq<char>) -> nat
    decreases s.len(),
{
    if s.len() == 0 {
        0
    } else {
        decimal_value(s.drop_last()) * 10 + digit_value(s.last())
    }
}

/// What `str::parse::<u32>` accepts: an optional `+` followed by at least one
/// ASCII digit, with a value that fits in a `u32`.
pub open spec fn parse_u32(s: Seq<char>) -> Option<u32> {
    let digits = if s.len() > 0 && s[0] == '+' {
        s.drop_first()
    } else {
        s
    };
    if digits.len() > 0 && all_digits(digits) && decimal_value(digits) <= u32::MAX {
        Some(decimal_value(digits) as u32)
    } else {
        None
    }
}

/// The ASCII digit for `d < 10`.
pub open spec fn digit_char(d: nat) -> char {
    seq!['0', '1', '2', '3', '4', '5', '6', '7', '8', '9'][d as int]
}

/// The decimal representation of `n`, without sign or leading zeros.
pub open spec fn decimal(n: nat) -> Seq<char>
    decreases n,
{
    if n < 10 {
        seq![digit_char(n)]
    } else {
        decimal(n / 10).push(digit_char(n % 10))
    }
}

pub proof fn lemma_decimal_value_prefix(s: Seq<char>, k: int)
    requires
        0 <= k <= s.len(),
    ensures
        decimal_value(s.take(k)) <= decimal_value(s),
    decreases s.len() - k,
{
    if k < s.len() {
        lemma_decimal_value_prefix(s.drop_last(), k);
        assert(s.drop_last().take(k) == s.take(k));
    } else {
        assert(s.take(k) == s);
    }
}

pub proof fn lemma_digit_chars()
    ensures
        forall|d: nat| d < 10 ==> is_ascii_digit(#[trigger] digit_char(d)) && digit_value(
            digit_char(d),
        ) == d && digit_char(d) != '+',
{
    assert forall|d: nat| d < 10 implies is_ascii_digit(#[trigger] digit_char(d)) && digit_value(
        digit_char(d),
    ) == d && digit_char(d) != '+' by {
        assert(('0' as u32) == 48);
        assert(('9' as u32) == 57);
        if d == 0 { assert(digit_char(d) == '0'); }
        else if d == 1 { assert(digit_char(d) == '1'); assert(('1' as u32) == 49); }
        else if d == 2 { assert(digit_char(d) == '2'); assert(('2' as u32) == 50); }
        else if d == 3 { assert(digit_char(d) == '3'); assert(('3' as u32) == 51); }
        else if d == 4 { assert(digit_char(d) == '4'); assert(('4' as u32) == 52); }
        else if d == 5 { assert(digit_char(d) == '5'); assert(('5' as u32) == 53); }
        else if d == 6 { assert(digit_char(d) == '6'); assert(('6' as u32) == 54); }
        else if d == 7 { assert(digit_char(d) == '7'); assert(('7' as u32) == 55); }
        else if d == 8 { assert(digit_char(d) == '8'); assert(('8' as u32) == 56); }
        else { assert(digit_char(d) == '9'); }
    }
}

pub proof fn lemma_decimal_roundtrip(n: nat)
    ensures
        decimal(n).len() > 0,
        all_digits(decimal(n)),
        decimal_value(decimal(n)) == n,
        decimal(n)[0] != '+',
    decreases n,
{
    lemma_digit_chars();
    if n < 10 {
        assert(decimal(n) == seq![digit_char(n)]);
        assert(decimal(n).drop_last() =~= Seq::<char>::empty());
        assert(decimal_value(Seq::<char>::empty()) == 0);
        assert(decimal(n).last() == digit_char(n));
    } else {
        lemma_decimal_roundtrip(n / 10);
        let s = decimal(n);
        assert(s.drop_last() == decimal(n / 10));
        assert forall|i: int| 0 <= i < s.len() implies is_ascii_digit(#[trigger] s[i]) by {
            if i < s.len() - 1 {
                assert(s[i] == decimal(n / 10)[i]);
            }
        }
        assert(s[0] == decimal(n / 10)[0]);
        assert(s.last() == digit_char(n % 10));
        assert(decimal_value(s) == decimal_value(s.drop_last()) * 10 + digit_value(s.last()));
        assert(n == (n / 10) * 10 + n % 10);
    }
}

/// Decimal numbers read back as the number that was written.
pub proof fn lemma_parse_decimal(n: u32)
    ensures
        parse_u32(decimal(n as nat)) == Some(n),
{
    lemma_decimal_roundtrip(n as nat);
}

/// The digit character for `d < 10`.
pub fn digit_to_char(d: u64) -> (c: char)
    requires
        d < 10,
    ensures
        c == digit_char(d as nat),
{
    let table: [char; 10] = ['0', '1', '2', '3', '4', '5', '6', '7', '8', '9'];
    assert(table@ == seq!['0', '1', '2', '3', '4', '5', '6', '7', '8', '9']);
    table[d as usize]
}

/// The decimal representation of `n` (`n.to_string()`).
pub fn decimal_string(n: u64) -> (s: String)
    ensures
        s@ == decimal(n as nat),
    decreases n,
{
    if n < 10 {
        let mut s = String::new();
        string_push(&mut s, digit_to_char(n));
        assert(s@ =~= seq![digit_char(n as nat)]);
        s
    } else {
        let mut s = decimal_string(n / 10);
        string_push(&mut s, digit_to_char(n % 10));
        s
    }
}

/// Reads `v[from..to]` as a `u32` (`str::parse::<u32>`).
pub fn parse_u32_range(v: &[char], from: usize, to: usize) -> (r: Option<u32>)
    requires
        from <= to <= v@.len(),
    ensures
        r == parse_u32(v@.subrange(from as int, to as int)),
{
    let ghost s = v@.subrange(from as int, to as int);
    let mut start = from;
    if from < to && v[from] == '+' {
        start = from + 1;
    }
    let ghost digits = v@.subrange(start as int, to as int);
    assert(digits == if s.len() > 0 && s[0] == '+' {
        s.drop_first()
    } else {
        s
    });
    if start == to {
        return None;
    }
    let mut acc: u64 = 0;
    let mut i = start;
    while i < to
        invariant
            from <= start <= i <= to <= v@.len(),
            digits == v@.subrange(start as int, to as int),
            s == v@.subrange(from as int, to as int),
            digits == if s.len() > 0 && s[0] == '+' {
                s.drop_first()
            } else {
                s
            },
            all_digits(digits.take(i - start)),
            acc == decimal_value(digits.take(i - start)),
            acc <= u32::MAX,
        decreases to - i,
    {
        let c = v[i];
        let n = c as u32;
        assert(digits[i - start] == c);
        if n < 48 || n > 57 {
            assert(!is_ascii_digit(digits[i - start]));
            return None;
        }
        let ghost pre = digits.take(i - start);
        let ghost next = digits.take(i - start + 1);
        assert(next.drop_last() == pre);
        assert(next.last() == c);
        acc = acc * 10 + (n as u64 - 48);
        assert forall|j: int| 0 <= j < next.len() implies is_ascii_digit(#[trigger] next[j]) by {
            if j < pre.len() {
                assert(next[j] == pre[j]);
            }
        }
        if acc > 4294967295 {
            proof {
                lemma_decimal_value_prefix(digits, i - start + 1);
                assert(decimal_value(digits) > u32::MAX);
            }
            return None;
        }
        i = i + 1;
    }
    assert(digits.take(to - start) == digits);
    Some(acc as u32)
}


/// Number of non-whitespace characters at the start of `s`.
pub open spec fn leading_non_ws(s: Seq<char>) -> nat
    decreases s.len(),
{
    if s.len() > 0 && !is_white_space(s[0]) {
        1 + leading_non_ws(s.drop_first())
    } else {
        0
    }
}

/// The first whitespace-separated token of `s` and what follows it
/// (one step of `str::split_whitespace`).
pub open spec fn next_token(s: Seq<char>) -> Option<(Seq<char>, Seq<char>)> {
    let t = s.skip(leading_ws(s) as int);
    if t.len() == 0 {
        None
    } else {
        let k = leading_non_ws(t) as int;
        Some((t.take(k), t.skip(k)))
    }
}

pub proof fn lemma_leading_non_ws(s: Seq<char>, k: int)
    requires
        0 <= k <= s.len(),
        forall|j: int| 0 <= j < k ==> !is_white_space(#[trigger] s[j]),
        k == s.len() || is_white_space(s[k]),
    ensures
        leading_non_ws(s) == k,
    decreases k,
{
    if k > 0 {
        assert(!is_white_space(s[0]));
        assert forall|j: int| 0 <= j < k - 1 implies !is_white_space(#[trigger] s.drop_first()[j]) by {
            assert(s.drop_first()[j] == s[j + 1]);
        }
        lemma_leading_non_ws(s.drop_first(), k - 1);
    }
}

/// Bounds of the first whitespace-separated token of `v[from..]`.
pub fn next_token_bounds(v: &[char], from: usize) -> (r: Option<(usize, usize)>)
    requires
        from <= v@.len(),
    ensures
        match r {
            Some((a, b)) => from <= a < b <= v@.len() && next_token(v@.skip(from as int)) == Some(
                (v@.subrange(a as int, b as int), v@.skip(b as int)),
            ),
            None => next_token(v@.skip(from as int)) is None,
        },
{
    let ghost s = v@.skip(from as int);
    let mut a = from;
    while a < v.len() && char_is_white_space(v[a])
        invariant
            from <= a <= v@.len(),
            forall|j: int| from <= j < a ==> is_white_space(#[trigger] v@[j]),
        decreases v.len() - a,
    {
        a = a + 1;
    }
    proof {
        assert forall|j: int| 0 <= j < a - from implies is_white_space(#[trigger] s[j]) by {
            assert(s[j] == v@[j + from]);
        }
        if a < v.len() {
            assert(s[a - from] == v@[a as int]);
        }
        lemma_leading_ws(s, a - from);
        assert(s.skip(a - from) == v@.skip(a as int));
    }
    if a == v.len() {
        return None;
    }
    let mut b = a;
    while b < v.len() && !char_is_white_space(v[b])
        invariant
            a <= b <= v@.len(),
            forall|j: int| a <= j < b ==> !is_white_space(#[trigger] v@[j]),
        decreases v.len() - b,
    {
        b = b + 1;
    }
    proof {
        let t = v@.skip(a as int);
        assert forall|j: int| 0 <= j < b - a implies !is_white_space(#[trigger] t[j]) by {
            assert(t[j] == v@[j + a]);
        }
        if b < v.len() {
            assert(t[b - a] == v@[b as int]);
        }
        lemma_leading_non_ws(t, b - a);
        assert(t.take(b - a) == v@.subrange(a as int, b as int));
        assert(t.skip(b - a) == v@.skip(b as int));
    }
    Some((a, b))
}

/// `l` without one trailing carriage return.
pub open spec fn strip_cr(l: Seq<char>) -> Seq<char> {
    if l.len() > 0 && l.last() == '\r' {
        l.drop_last()
    } else {
        l
    }
}

/// The lines of `s` (`str::lines`): split at `\n`, a `\r` just before a `\n`
/// dropped, and no empty line after a final line ending.
pub open spec fn lines(s: Seq<char>) -> Seq<Seq<char>>
    decreases s.len(),
{
    if s.len() == 0 {
        Seq::empty()
    } else {
        match first_index(s, '\n') {
            None => seq![s],
            Some(i) => if i < s.len() {
                seq![strip_cr(s.take(i as int))] + lines(s.skip((i + 1) as int))
            } else {
                Seq::empty()
            },
        }
    }
}

/// The character views of a sequence of strings.
pub open spec fn string_views(v: Seq<String>) -> Seq<Seq<char>> {
    v.map_values(|l: String| l@)
}

/// Splits `v` into its lines (`str::lines`).
pub fn split_lines(v: &[char]) -> (r: Vec<String>)
    ensures
        string_views(r@) == lines(v@),
{
    let mut out: Vec<String> = Vec::new();
    let mut pos: usize = 0;
    assert(v@.skip(0) == v@);
    assert(string_views(out@) =~= Seq::<Seq<char>>::empty());
    while pos < v.len()
        invariant
            pos <= v@.len(),
            lines(v@) == string_views(out@) + lines(v@.skip(pos as int)),
        decreases v.len() - pos,
    {
        let ghost t = v@.skip(pos as int);
        assert(t == v@.subrange(pos as int, v@.len() as int));
        let ghost before = string_views(out@);
        match find_char(v, pos, v.len(), '\n') {
            Some(j) => {
                let mut end = j;
                if end > pos && v[end - 1] == '\r' {
                    end = end - 1;
                }
                let line = string_from_range(v, pos, end);
                proof {
                    assert(t.take(j - pos) == v@.subrange(pos as int, j as int));
                    assert(strip_cr(t.take(j - pos)) == v@.subrange(pos as int, end as int));
                    assert(t.skip(j - pos + 1) == v@.skip(j + 1));
                    assert(lines(t) == seq![strip_cr(t.take(j - pos))] + lines(v@.skip(j + 1)));
                }
                out.push(line);
                proof {
                    assert(string_views(out@) =~= before.push(line@));
                    assert(before + lines(t) =~= before.push(line@) + lines(v@.skip(j + 1)));
                }
                pos = j + 1;
            },
            None => {
                let line = string_from_range(v, pos, v.len());
                proof {
                    assert(v@.subrange(pos as int, v@.len() as int) == t);
                    assert(lines(t) == seq![t]);
                    assert(v@.skip(v@.len() as int) =~= Seq::<char>::empty());
                    assert(lines(v@.skip(v@.len() as int)) =~= Seq::<Seq<char>>::empty());
                }
                out.push(line);
                proof {
                    assert(string_views(out@) =~= before.push(line@));
                    assert(before + lines(t) =~= before.push(line@) + lines(v@.skip(v@.len() as int)));
                }
                pos = v.len();
            },
        }
    }
    proof {
        assert(v@.skip(pos as int) =~= Seq::<char>::empty());
        assert(lines(v@.skip(pos as int)) =~= Seq::<Seq<char>>::empty());
        assert(string_views(out@) + Seq::<Seq<char>>::empty() =~= string_views(out@));
    }
    out
}


/// Whether every character of `s` is ASCII.
pub open spec fn is_ascii_text(s: Seq<char>) -> bool {
    forall|i: int| 0 <= i < s.len() ==> (#[trigger] s[i] as u32) < 128
}

/// An ASCII lower-case letter turned upper-case; any other character as it is.
pub open spec fn ascii_upper_char(c: char) -> char {
    if 97 <= (c as u32) <= 122 {
        ((c as u32) - 32) as char
    } else {
        c
    }
}

/// An ASCII upper-case letter turned lower-case; any other character as it is.
pub open spec fn ascii_lower_char(c: char) -> char {
    if 65 <= (c as u32) <= 90 {
        ((c as u32) + 32) as char
    } else {
        c
    }
}

/// `s` with its ASCII letters upper-cased.
pub open spec fn ascii_upper(s: Seq<char>) -> Seq<char> {
    s.map_values(|c: char| ascii_upper_char(c))
}

/// `s` with its ASCII letters lower-cased.
pub open spec fn ascii_lower(s: Seq<char>) -> Seq<char> {
    s.map_values(|c: char| ascii_lower_char(c))
}

/// Whether `a` and `b` differ at most in the case of ASCII letters.
pub open spec fn same_ignoring_ascii_case(a: Seq<char>, b: Seq<char>) -> bool {
    &&& a.len() == b.len()
    &&& forall|i: int| 0 <= i < a.len() ==> ascii_lower_char(#[trigger] a[i]) == ascii_lower_char(b[i])
}

/// The last occurrence of a character lies inside the text and holds it.
pub proof fn lemma_last_index_bounds(s: Seq<char>, c: char)
    ensures
        last_index(s, c) matches Some(i) ==> i < s.len() && s[i as int] == c,
    decreases s.len(),
{
    if s.len() > 0 && s.last() != c {
        lemma_last_index_bounds(s.drop_last(), c);
    }
}

/// A character that is no ASCII letter occurs last at the same place in two
/// texts that differ only in the case of ASCII letters.
pub proof fn lemma_last_index_ignores_ascii_case(a: Seq<char>, b: Seq<char>, c: char)
    requires
        same_ignoring_ascii_case(a, b),
        !(65 <= (c as u32) <= 90),
        !(97 <= (c as u32) <= 122),
    ensures
        last_index(a, c) == last_index(b, c),
    decreases a.len(),
{
    if a.len() > 0 {
        let x = a.last();
        let y = b.last();
        assert(ascii_lower_char(a[a.len() - 1]) == ascii_lower_char(b[a.len() - 1]));
        assert(x == c <==> y == c) by {
            if x == c {
                assert(ascii_lower_char(x) == c);
                if 65 <= (y as u32) <= 90 {
                    assert(ascii_lower_char(y) as u32 == (y as u32) + 32);
                }
            }
            if y == c {
                assert(ascii_lower_char(y) == c);
                if 65 <= (x as u32) <= 90 {
                    assert(ascii_lower_char(x) as u32 == (x as u32) + 32);
                }
            }
        }
        let a2 = a.drop_last();
        let b2 = b.drop_last();
        assert forall|i: int| 0 <= i < a2.len() implies ascii_lower_char(#[trigger] a2[i])
            == ascii_lower_char(b2[i]) by {
            assert(a2[i] == a[i]);
            assert(b2[i] == b[i]);
        }
        lemma_last_index_ignores_ascii_case(a2, b2, c);
    }
}

/// Parts of two texts that differ only in the case of ASCII letters differ
/// only in that way too; parts of an ASCII text are ASCII.
pub proof fn lemma_ascii_case_parts(a: Seq<char>, b: Seq<char>, from: int, to: int)
    requires
        same_ignoring_ascii_case(a, b),
        0 <= from <= to <= a.len(),
    ensures
        same_ignoring_ascii_case(a.subrange(from, to), b.subrange(from, to)),
        is_ascii_text(a) ==> is_ascii_text(a.subrange(from, to)),
{
    assert forall|i: int| 0 <= i < to - from implies ascii_lower_char(
        #[trigger] a.subrange(from, to)[i],
    ) == ascii_lower_char(b.subrange(from, to)[i]) by {
        assert(ascii_lower_char(a[from + i]) == ascii_lower_char(b[from + i]));
    }
    if is_ascii_text(a) {
        assert forall|i: int| 0 <= i < to - from implies (#[trigger] a.subrange(from, to)[i] as u32)
            < 128 by {
            assert((a[from + i] as u32) < 128);
        }
    }
}

/// Names what `str::to_uppercase` returns on text that is not all ASCII:
/// the Unicode uppercase mapping of every character, which may change the
/// length of the text.
pub uninterp spec fn unicode_uppercase(s: Seq<char>) -> Seq<char>;

/// Names what `str::to_lowercase` returns on text that is not all ASCII: the
/// Unicode lowercase mapping of every character.
pub uninterp spec fn unicode_lowercase(s: Seq<char>) -> Seq<char>;

/// What `str::to_uppercase` returns: on ASCII text, the text with its ASCII
/// letters upper-cased (their Unicode mapping); otherwise named.
pub open spec fn spec_to_uppercase(s: Seq<char>) -> Seq<char> {
    if is_ascii_text(s) {
        ascii_upper(s)
    } else {
        unicode_uppercase(s)
    }
}

/// What `str::to_lowercase` returns: on ASCII text, the text with its ASCII
/// letters lower-cased (their Unicode mapping); otherwise named.
pub open spec fn spec_to_lowercase(s: Seq<char>) -> Seq<char> {
    if is_ascii_text(s) {
        ascii_lower(s)
    } else {
        unicode_lowercase(s)
    }
}

proof fn lemma_ascii_chars(x: char, y: char)
    requires
        (x as u32) < 128,
        ascii_lower_char(x) == ascii_lower_char(y),
    ensures
        (y as u32) < 128,
        ascii_upper_char(x) == ascii_upper_char(y),
{
    let xv = x as u32;
    let yv = y as u32;
    let lx = ascii_lower_char(x) as u32;
    let ly = ascii_lower_char(y) as u32;
    assert(lx == ly);
    assert(65 <= xv <= 90 ==> lx == xv + 32);
    assert(!(65 <= xv <= 90) ==> lx == xv);
    assert(65 <= yv <= 90 ==> ly == yv + 32);
    assert(!(65 <= yv <= 90) ==> ly == yv);
    assert(97 <= xv <= 122 ==> ascii_upper_char(x) as u32 == xv - 32);
    assert(97 <= yv <= 122 ==> ascii_upper_char(y) as u32 == yv - 32);
}

/// Text that is ASCII and differs from another only in the case of its
/// letters has the same upper-case and the same lower-case form as it.
pub proof fn lemma_case_forms_ignore_ascii_case(a: Seq<char>, b: Seq<char>)
    requires
        is_ascii_text(a),
        same_ignoring_ascii_case(a, b),
    ensures
        is_ascii_text(b),
        spec_to_uppercase(a) == spec_to_uppercase(b),
        spec_to_lowercase(a) == spec_to_lowercase(b),
{
    assert forall|i: int| 0 <= i < b.len() implies (#[trigger] b[i] as u32) < 128
        && ascii_upper_char(a[i]) == ascii_upper_char(b[i]) by {
        assert((a[i] as u32) < 128);
        assert(ascii_lower_char(a[i]) == ascii_lower_char(b[i]));
        lemma_ascii_chars(a[i], b[i]);
    }
    assert(ascii_upper(a) =~= ascii_upper(b));
    assert(ascii_lower(a) =~= ascii_lower(b));
}

/// Names what `String::from_utf8_lossy` returns: the text of the bytes, with
/// every invalid UTF-8 sequence replaced by U+FFFD.
pub uninterp spec fn spec_utf8_lossy(bytes: Seq<u8>) -> Seq<char>;

/// `str::to_uppercase`. On ASCII text each ASCII letter becomes upper-case
/// and every other character stays as it is (the Unicode mapping of ASCII);
/// on other text the result is named by `unicode_uppercase`.
#[verifier::external_body]
pub(crate) fn to_uppercase(s: &str) -> (r: String)
    ensures
        r@ == (if is_ascii_text(s@) {
            ascii_upper(s@)
        } else {
            unicode_uppercase(s@)
        }),
{
    s.to_uppercase()
}

/// `str::to_lowercase`. On ASCII text each ASCII letter becomes lower-case
/// and every other character stays as it is (the Unicode mapping of ASCII);
/// on other text the result is named by `unicode_lowercase`.
#[verifier::external_body]
pub(crate) fn to_lowercase(s: &str) -> (r: String)
    ensures
        r@ == (if is_ascii_text(s@) {
            ascii_lower(s@)
        } else {
            unicode_lowercase(s@)
        }),
{
    s.to_lowercase()
}

/// `String::from_utf8_lossy`; the result is named by `spec_utf8_lossy`, and on
/// valid UTF-8 it is the decoded text, as the documentation of the function says.
#[verifier::external_body]
pub(crate) fn utf8_lossy(bytes: &[u8]) -> (r: String)
    ensures
        r@ == spec_utf8_lossy(bytes@),
        vstd::utf8::valid_utf8(bytes@) ==> r@ == vstd::utf8::decode_utf8(bytes@),
{
    String::from_utf8_lossy(bytes).into_owned()
}


/// A copy of a vector of strings.
pub fn copy_strings(v: &Vec<String>) -> (r: Vec<String>)
    ensures
        string_views(r@) == string_views(v@),
{
    let mut out: Vec<String> = Vec::new();
    let mut i: usize = 0;
    while i < v.len()
        invariant
            i <= v@.len(),
            string_views(out@) == string_views(v@.take(i as int)),
        decreases v.len() - i,
    {
        let s = v[i].clone();
        let ghost old_out = out@;
        out.push(s);
        proof {
            assert(v@.take(i + 1) =~= v@.take(i as int).push(v@[i as int]));
            assert(string_views(out@) =~= string_views(old_out).push(v@[i as int]@));
            assert(string_views(v@.take(i + 1)) =~= string_views(v@.take(i as int)).push(
                v@[i as int]@,
            ));
        }
        i = i + 1;
    }
    assert(v@.take(v@.len() as int) == v@);
    out
}

/// Text order: by character code, a proper prefix first (the order of
/// `String`, as UTF-8 keeps the order of code points).
pub open spec fn text_le(a: Seq<char>, b: Seq<char>) -> bool
    decreases a.len(),
{
    if a.len() == 0 {
        true
    } else if b.len() == 0 {
        false
    } else if a[0] != b[0] {
        (a[0] as u32) < (b[0] as u32)
    } else {
        text_le(a.drop_first(), b.drop_first())
    }
}

pub proof fn lemma_text_le_total(a: Seq<char>, b: Seq<char>)
    ensures
        text_le(a, b) || text_le(b, a),
    decreases a.len(),
{
    if a.len() > 0 && b.len() > 0 {
        if a[0] == b[0] {
            lemma_text_le_total(a.drop_first(), b.drop_first());
        } else {
            vstd::utf8::char_u32_cast(a[0], a[0] as u32);
            vstd::utf8::char_u32_cast(b[0], b[0] as u32);
        }
    }
}

pub proof fn lemma_text_le_antisymmetric(a: Seq<char>, b: Seq<char>)
    requires
        text_le(a, b),
        text_le(b, a),
    ensures
        a == b,
    decreases a.len(),
{
    if a.len() == 0 {
        assert(b.len() == 0);
        assert(a =~= b);
    } else {
        assert(b.len() > 0);
        assert(a[0] == b[0]);
        lemma_text_le_antisymmetric(a.drop_first(), b.drop_first());
        assert(a =~= seq![a[0]] + a.drop_first());
        assert(b =~= seq![b[0]] + b.drop_first());
    }
}

pub proof fn lemma_text_le_transitive(a: Seq<char>, b: Seq<char>, c: Seq<char>)
    requires
        text_le(a, b),
        text_le(b, c),
    ensures
        text_le(a, c),
    decreases a.len(),
{
    if a.len() > 0 && b.len() > 0 && c.len() > 0 && a[0] == b[0] && b[0] == c[0] {
        lemma_text_le_transitive(a.drop_first(), b.drop_first(), c.drop_first());
    }
}

/// Whether `a` comes before `b` in text order, or equals it.
pub fn text_le_exec(a: &[char], b: &[char]) -> (r: bool)
    ensures
        r == text_le(a@, b@),
{
    let mut i: usize = 0;
    assert(a@.skip(0) == a@);
    assert(b@.skip(0) == b@);
    while i < a.len() && i < b.len() && a[i] == b[i]
        invariant
            i <= a@.len(),
            i <= b@.len(),
            text_le(a@, b@) == text_le(a@.skip(i as int), b@.skip(i as int)),
        decreases a.len() - i,
    {
        assert(a@.skip(i as int).drop_first() =~= a@.skip(i + 1));
        assert(b@.skip(i as int).drop_first() =~= b@.skip(i + 1));
        assert(a@.skip(i as int)[0] == a@[i as int]);
        assert(b@.skip(i as int)[0] == b@[i as int]);
        i = i + 1;
    }
    if i == a.len() {
        true
    } else if i == b.len() {
        false
    } else {
        assert(a@.skip(i as int)[0] == a@[i as int]);
        assert(b@.skip(i as int)[0] == b@[i as int]);
        (a[i] as u32) < (b[i] as u32)
    }
}

} // verus!
