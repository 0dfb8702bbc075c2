//! Character-sequence helpers used by the path and naming logic.
//!
//! Game paths are handled as sequences of `char`; the spec functions here
//! say what each transformation does to such a sequence, and the executable
//! functions compute it on `Vec<char>` / `&[char]`.
use vstd::prelude::*;

verus! {

// ── Spec vocabulary ─────────────────────────────────────────────────────

/// ASCII lowercase of one character (non-ASCII characters are unchanged).
pub open spec fn lower_ascii_char(c: char) -> char {
    if 'A' <= c && c <= 'Z' {
        ((c as u32) + 32) as char
    } else {
        c
    }
}

/// ASCII lowercase of a whole sequence.
pub open spec fn lower_ascii(s: Seq<char>) -> Seq<char> {
    s.map_values(|c: char| lower_ascii_char(c))
}

/// `s` with every occurrence of `from` replaced by `to`.
pub open spec fn replace_char(s: Seq<char>, from: char, to: char) -> Seq<char> {
    s.map_values(|c: char| if c == from { to } else { c })
}

/// `pre` is a prefix of `s`.
pub open spec fn has_prefix(s: Seq<char>, pre: Seq<char>) -> bool {
    pre.len() <= s.len() && s.subrange(0, pre.len() as int) == pre
}

/// `suf` is a suffix of `s`.
pub open spec fn has_suffix(s: Seq<char>, suf: Seq<char>) -> bool {
    suf.len() <= s.len() && s.subrange(s.len() - suf.len(), s.len() as int) == suf
}

/// `s` without the suffix `suf`, or `s` unchanged when `suf` is not a suffix.
pub open spec fn strip_suffix_or_self(s: Seq<char>, suf: Seq<char>) -> Seq<char> {
    if has_suffix(s, suf) {
        s.subrange(0, s.len() - suf.len())
    } else {
        s
    }
}

/// `needle` occurs somewhere in `hay` as a contiguous run.
pub open spec fn contains_run(hay: Seq<char>, needle: Seq<char>) -> bool {
    exists|i: int|
        0 <= i && i + needle.len() <= hay.len() && #[trigger] hay.subrange(i, i + needle.len())
            == needle
}

/// `s` with every leading character that belongs to `set` removed.
pub open spec fn trim_start_set(s: Seq<char>, set: Seq<char>) -> Seq<char>
    decreases s.len(),
{
    if s.len() > 0 && set.contains(s[0]) {
        trim_start_set(s.drop_first(), set)
    } else {
        s
    }
}

/// Lexicographic order on character sequences by code point: the order of
/// `String`'s `Ord` (UTF-8 byte order agrees with code point order).
pub open spec fn seq_lt(a: Seq<char>, b: Seq<char>) -> bool
    decreases a.len(),
{
    if b.len() == 0 {
        false
    } else if a.len() == 0 {
        true
    } else if (a[0] as int) < (b[0] as int) {
        true
    } else if a[0] == b[0] {
        seq_lt(a.drop_first(), b.drop_first())
    } else {
        false
    }
}

// ── Lemmas about the order ──────────────────────────────────────────────

pub proof fn lemma_seq_lt_irreflexive(a: Seq<char>)
    ensures
        !seq_lt(a, a),
    decreases a.len(),
{
    if a.len() > 0 {
        lemma_seq_lt_irreflexive(a.drop_first());
    }
}

pub proof fn lemma_seq_lt_transitive(a: Seq<char>, b: Seq<char>, c: Seq<char>)
    requires
        seq_lt(a, b),
        seq_lt(b, c),
    ensures
        seq_lt(a, c),
    decreases a.len(),
{
    if a.len() > 0 && b.len() > 0 && c.len() > 0 {
        if a[0] == b[0] && b[0] == c[0] {
            lemma_seq_lt_transitive(a.drop_first(), b.drop_first(), c.drop_first());
        }
    }
}

pub proof fn lemma_seq_lt_total(a: Seq<char>, b: Seq<char>)
    ensures
        a == b || seq_lt(a, b) || seq_lt(b, a),
    decreases a.len(),
{
    if a.len() > 0 && b.len() > 0 {
        if a[0] == b[0] {
            lemma_seq_lt_total(a.drop_first(), b.drop_first());
            if a.drop_first() == b.drop_first() {
                assert(a =~= seq![a[0]] + a.drop_first());
                assert(b =~= seq![b[0]] + b.drop_first());
            }
        }
    } else if a.len() == 0 && b.len() == 0 {
        assert(a =~= b);
    }
}

pub proof fn lemma_seq_lt_asymmetric(a: Seq<char>, b: Seq<char>)
    requires
        seq_lt(a, b),
    ensures
        !seq_lt(b, a),
{
    if seq_lt(b, a) {
        lemma_seq_lt_transitive(a, b, a);
        lemma_seq_lt_irreflexive(a);
    }
}

// ── Conversions ─────────────────────────────────────────────────────────

/// The characters of a string slice.
pub fn chars_of(s: &str) -> (v: Vec<char>)
    ensures
        v@ == s@,
{
    let mut v: Vec<char> = Vec::new();
    for c in it: s.chars()
        invariant
            v@ == it.seq().take(it.index() as int),
            it.seq() == s@,
    {
        v.push(c);
    }
    v
}

/// `String::push`: appends one character.
#[verifier::external_body]
fn push_char(s: &mut String, c: char)
    ensures
        final(s)@ == old(s)@.push(c),
{
    s.push(c);
}

/// Builds a `String` holding exactly the given characters.
pub fn string_from_chars(v: &[char]) -> (s: String)
    ensures
        s@ == v@,
{
    let mut s = String::new();
    let mut i: usize = 0;
    while i < v.len()
        invariant
            i <= v.len(),
            s@ == v@.take(i as int),
        decreases v.len() - i,
    {
        push_char(&mut s, v[i]);
        i = i + 1;
        assert(s@ =~= v@.take(i as int));
    }
    assert(v@.take(v@.len() as int) =~= v@);
    s
}

/// A copy of a string.
pub fn copy_string(s: &str) -> (r: String)
    ensures
        r@ == s@,
{
    String::from_str(s)
}

// ── Transformations ─────────────────────────────────────────────────────

/// ASCII lowercase of one character.
pub fn to_lower_ascii_char(c: char) -> (r: char)
    ensures
        r == lower_ascii_char(c),
{
    if 'A' <= c && c <= 'Z' {
        let b: u8 = c as u8;
        let l: u8 = b + 32;
        l as char
    } else {
        c
    }
}

/// ASCII lowercase of a character sequence.
pub fn lower_ascii_chars(v: &[char]) -> (r: Vec<char>)
    ensures
        r@ == lower_ascii(v@),
{
    let mut r: Vec<char> = Vec::new();
    let mut i: usize = 0;
    while i < v.len()
        invariant
            i <= v.len(),
            r@ == lower_ascii(v@.take(i as int)),
        decreases v.len() - i,
    {
        r.push(to_lower_ascii_char(v[i]));
        i = i + 1;
        assert(r@ =~= lower_ascii(v@.take(i as int)));
    }
    assert(v@.take(v@.len() as int) =~= v@);
    r
}

/// Replaces every `from` by `to`.
pub fn replace_chars(v: &[char], from: char, to: char) -> (r: Vec<char>)
    ensures
        r@ == replace_char(v@, from, to),
{
    let mut r: Vec<char> = Vec::new();
    let mut i: usize = 0;
    while i < v.len()
        invariant
            i <= v.len(),
            r@ == replace_char(v@.take(i as int), from, to),
        decreases v.len() - i,
    {
        if v[i] == from {
            r.push(to);
        } else {
            r.push(v[i]);
        }
        i = i + 1;
        assert(r@ =~= replace_char(v@.take(i as int), from, to));
    }
    assert(v@.take(v@.len() as int) =~= v@);
    r
}

/// Element-wise equality of two character sequences.
pub fn chars_eq(a: &[char], b: &[char]) -> (r: bool)
    ensures
        r == (a@ == b@),
{
    if a.len() != b.len() {
        return false;
    }
    let mut i: usize = 0;
    while i < a.len()
        invariant
            a.len() == b.len(),
            i <= a.len(),
            a@.take(i as int) == b@.take(i as int),
        decreases a.len() - i,
    {
        if a[i] != b[i] {
            assert(a@[i as int] != b@[i as int]);
            return false;
        }
        i = i + 1;
        assert(a@.take(i as int) =~= b@.take(i as int));
    }
    assert(a@ =~= a@.take(a@.len() as int));
    assert(b@ =~= b@.take(b@.len() as int));
    true
}

/// Whether the character sequence spells out the given string.
pub fn chars_eq_str(a: &[char], s: &str) -> (r: bool)
    ensures
        r == (a@ == s@),
{
    let b = chars_of(s);
    chars_eq(a, b.as_slice())
}

/// Whether `pre` is a prefix of `v`.
pub fn starts_with_chars(v: &[char], pre: &[char]) -> (r: bool)
    ensures
        r == has_prefix(v@, pre@),
{
    if pre.len() > v.len() {
        return false;
    }
    let mut i: usize = 0;
    while i < pre.len()
        invariant
            pre.len() <= v.len(),
            i <= pre.len(),
            v@.take(i as int) == pre@.take(i as int),
        decreases pre.len() - i,
    {
        if v[i] != pre[i] {
            assert(v@.subrange(0, pre.len() as int)[i as int] != pre@[i as int]);
            return false;
        }
        i = i + 1;
        assert(v@.take(i as int) =~= pre@.take(i as int));
    }
    assert(v@.subrange(0, pre.len() as int) =~= v@.take(pre.len() as int));
    assert(pre@ =~= pre@.take(pre.len() as int));
    true
}

/// Whether `suf` is a suffix of `v`.
pub fn ends_with_chars(v: &[char], suf: &[char]) -> (r: bool)
    ensures
        r == has_suffix(v@, suf@),
{
    if suf.len() > v.len() {
        return false;
    }
    let off: usize = v.len() - suf.len();
    let mut i: usize = 0;
    while i < suf.len()
        invariant
            suf.len() <= v.len(),
            off == v.len() - suf.len(),
            i <= suf.len(),
            v@.subrange(off as int, off + i) == suf@.take(i as int),
        decreases suf.len() - i,
    {
        if v[off + i] != suf[i] {
            assert(v@.subrange(off as int, v.len() as int)[i as int] != suf@[i as int]);
            return false;
        }
        i = i + 1;
        assert(v@.subrange(off as int, off + i) =~= suf@.take(i as int));
    }
    assert(suf@ =~= suf@.take(suf.len() as int));
    true
}

/// Whether `v` starts with the given string.
pub fn starts_with_str(v: &[char], pre: &str) -> (r: bool)
    ensures
        r == has_prefix(v@, pre@),
{
    let p = chars_of(pre);
    starts_with_chars(v, p.as_slice())
}

/// Whether `v` ends with the given string.
pub fn ends_with_str(v: &[char], suf: &str) -> (r: bool)
    ensures
        r == has_suffix(v@, suf@),
{
    let p = chars_of(suf);
    ends_with_chars(v, p.as_slice())
}

/// A copy of `v[lo..hi]`.
pub fn sub_chars(v: &[char], lo: usize, hi: usize) -> (r: Vec<char>)
    requires
        lo <= hi <= v.len(),
    ensures
        r@ == v@.subrange(lo as int, hi as int),
{
    let mut r: Vec<char> = Vec::new();
    let mut i: usize = lo;
    while i < hi
        invariant
            lo <= i <= hi,
            hi <= v.len(),
            r@ == v@.subrange(lo as int, i as int),
        decreases hi - i,
    {
        r.push(v[i]);
        i = i + 1;
        assert(r@ =~= v@.subrange(lo as int, i as int));
    }
    r
}

/// `v` without the suffix `suf` when it has it, else `v` unchanged.
pub fn strip_suffix_str(v: &[char], suf: &str) -> (r: Vec<char>)
    ensures
        r@ == strip_suffix_or_self(v@, suf@),
{
    let s = chars_of(suf);
    if ends_with_chars(v, s.as_slice()) {
        sub_chars(v, 0, v.len() - s.len())
    } else {
        sub_chars(v, 0, v.len())
    }
}

/// `a` followed by `b`.
pub fn concat_chars(a: &[char], b: &[char]) -> (r: Vec<char>)
    ensures
        r@ == a@ + b@,
{
    let mut r = sub_chars(a, 0, a.len());
    assert(r@ =~= a@);
    let mut i: usize = 0;
    while i < b.len()
        invariant
            i <= b.len(),
            r@ == a@ + b@.take(i as int),
        decreases b.len() - i,
    {
        r.push(b[i]);
        i = i + 1;
        assert(r@ =~= a@ + b@.take(i as int));
    }
    assert(b@.take(b@.len() as int) =~= b@);
    r
}

/// `a` followed by the characters of the string `s`.
pub fn concat_str(a: &[char], s: &str) -> (r: Vec<char>)
    ensures
        r@ == a@ + s@,
{
    let b = chars_of(s);
    concat_chars(a, b.as_slice())
}

/// Removes every leading character that belongs to `set`.
pub fn trim_start_chars(v: &[char], set: &[char]) -> (r: Vec<char>)
    ensures
        r@ == trim_start_set(v@, set@),
{
    let mut i: usize = 0;
    assert(v@.subrange(0, v.len() as int) =~= v@);
    while i < v.len() && contains_char(set, v[i])
        invariant
            i <= v.len(),
            trim_start_set(v@, set@) == trim_start_set(v@.subrange(i as int, v.len() as int), set@),
        decreases v.len() - i,
    {
        let ghost rest = v@.subrange(i as int, v.len() as int);
        assert(rest.drop_first() =~= v@.subrange(i + 1, v.len() as int));
        i = i + 1;
    }
    sub_chars(v, i, v.len())
}

/// Whether `c` occurs in `set`.
pub fn contains_char(set: &[char], c: char) -> (r: bool)
    ensures
        r == set@.contains(c),
{
    let mut i: usize = 0;
    while i < set.len()
        invariant
            i <= set.len(),
            forall|j: int| 0 <= j < i ==> set@[j] != c,
        decreases set.len() - i,
    {
        if set[i] == c {
            return true;
        }
        i = i + 1;
    }
    false
}

/// Whether `needle` occurs in `hay` as a contiguous run.
pub fn contains_chars(hay: &[char], needle: &[char]) -> (r: bool)
    ensures
        r == contains_run(hay@, needle@),
{
    if needle.len() > hay.len() {
        return false;
    }
    let last: usize = hay.len() - needle.len();
    let mut i: usize = 0;
    loop
        invariant
            needle.len() <= hay.len(),
            last == hay.len() - needle.len(),
            i <= last,
            forall|k: int|
                0 <= k < i ==> #[trigger] hay@.subrange(k, k + needle.len()) != needle@,
        decreases last - i,
    {
        let window = sub_chars(hay, i, i + needle.len());
        if chars_eq(window.as_slice(), needle) {
            return true;
        }
        if i == last {
            return false;
        }
        i = i + 1;
    }
}

/// `a` comes strictly before `b` in the order of `String`.
pub fn chars_lt(a: &[char], b: &[char]) -> (r: bool)
    ensures
        r == seq_lt(a@, b@),
{
    let mut i: usize = 0;
    assert(a@.subrange(0, a.len() as int) =~= a@);
    assert(b@.subrange(0, b.len() as int) =~= b@);
    while i < a.len() && i < b.len() && a[i] == b[i]
        invariant
            i <= a.len(),
            i <= b.len(),
            seq_lt(a@, b@) == seq_lt(a@.subrange(i as int, a.len() as int), b@.subrange(i as int, b.len() as int)),
        decreases a.len() - i,
    {
        let ghost ra = a@.subrange(i as int, a.len() as int);
        let ghost rb = b@.subrange(i as int, b.len() as int);
        assert(ra.drop_first() =~= a@.subrange(i + 1, a.len() as int));
        assert(rb.drop_first() =~= b@.subrange(i + 1, b.len() as int));
        i = i + 1;
    }
    let ghost ra = a@.subrange(i as int, a.len() as int);
    let ghost rb = b@.subrange(i as int, b.len() as int);
    if i == b.len() {
        false
    } else if i == a.len() {
        true
    } else {
        assert(ra[0] == a@[i as int]);
        assert(rb[0] == b@[i as int]);
        a[i] < b[i]
    }
}


// ── Lists of strings ────────────────────────────────────────────────────

/// The views of a list of strings.
pub open spec fn string_views(v: Seq<String>) -> Seq<Seq<char>> {
    v.map_values(|s: String| s@)
}

/// Whether `key` is in the list.
pub fn list_contains(list: &Vec<String>, key: &str) -> (r: bool)
    ensures
        r == string_views(list@).contains(key@),
{
    let mut i: usize = 0;
    while i < list.len()
        invariant
            i <= list.len(),
            forall|j: int| 0 <= j < i ==> list@[j]@ != key@,
        decreases list.len() - i,
    {
        if chars_eq_str(chars_of(list[i].as_str()).as_slice(), key) {
            assert(string_views(list@)[i as int] == key@);
            return true;
        }
        i = i + 1;
    }
    assert(!string_views(list@).contains(key@)) by {
        if string_views(list@).contains(key@) {
            let j = choose|j: int| 0 <= j < list@.len() && string_views(list@)[j] == key@;
            assert(list@[j]@ == key@);
        }
    }
    false
}

/// Whether `key` is in the list.
pub fn contains_string(list: &Vec<String>, key: &String) -> (r: bool)
    ensures
        r == string_views(list@).contains(key@),
{
    let mut i: usize = 0;
    while i < list.len()
        invariant
            i <= list.len(),
            forall|j: int| 0 <= j < i ==> list@[j]@ != key@,
        decreases list.len() - i,
    {
        if list[i] == *key {
            assert(string_views(list@)[i as int] == key@);
            return true;
        }
        i = i + 1;
    }
    assert(!string_views(list@).contains(key@)) by {
        if string_views(list@).contains(key@) {
            let j = choose|j: int| 0 <= j < list@.len() && string_views(list@)[j] == key@;
            assert(list@[j]@ == key@);
        }
    }
    false
}

// ── Splitting ───────────────────────────────────────────────────────────

/// The parts of `s` between occurrences of `sep`, as `str::split` gives
/// them.
pub open spec fn split_on(s: Seq<char>, sep: char) -> Seq<Seq<char>>
    decreases s.len(),
{
    if s.len() == 0 {
        seq![Seq::empty()]
    } else {
        let prev = split_on(s.drop_last(), sep);
        if s.last() == sep {
            prev.push(Seq::empty())
        } else {
            prev.update(prev.len() - 1, prev.last().push(s.last()))
        }
    }
}

pub proof fn lemma_split_nonempty(s: Seq<char>, sep: char)
    ensures
        split_on(s, sep).len() > 0,
    decreases s.len(),
{
    if s.len() > 0 {
        lemma_split_nonempty(s.drop_last(), sep);
    }
}

/// Splits `s` at every `sep`, as `str::split` does.
pub fn split_string(s: &str, sep: char) -> (r: Vec<String>)
    ensures
        string_views(r@) == split_on(s@, sep),
{
    let chars = chars_of(s);
    let mut parts: Vec<String> = Vec::new();
    let mut cur: Vec<char> = Vec::new();
    let mut i: usize = 0;
    while i < chars.len()
        invariant
            i <= chars@.len(),
            chars@ == s@,
            string_views(parts@).push(cur@) == split_on(chars@.take(i as int), sep),
        decreases chars@.len() - i,
    {
        let ghost t = chars@.take(i + 1);
        assert(t.drop_last() =~= chars@.take(i as int));
        assert(t.last() == chars@[i as int]);
        proof {
            lemma_split_nonempty(chars@.take(i as int), sep);
        }
        if chars[i] == sep {
            let ghost before = string_views(parts@);
            parts.push(string_from_chars(cur.as_slice()));
            cur = Vec::new();
            assert(string_views(parts@).push(cur@) =~= before.push(string_views(parts@).last()).push(Seq::empty()));
        } else {
            cur.push(chars[i]);
            assert(string_views(parts@).push(cur@) =~= split_on(t, sep));
        }
        i = i + 1;
    }
    assert(chars@.take(chars@.len() as int) =~= chars@);
    parts.push(string_from_chars(cur.as_slice()));
    parts
}

// ── Whitespace and lines ────────────────────────────────────────────────

/// The characters with the Unicode `White_Space` property, which
/// `char::is_whitespace` tests.
pub open spec fn is_white_space(c: char) -> bool {
    let n = c as int;
    (0x09 <= n <= 0x0D) || n == 0x20 || n == 0x85 || n == 0xA0 || n == 0x1680 || (0x2000 <= n <= 0x200A)
        || n == 0x2028 || n == 0x2029 || n == 0x202F || n == 0x205F || n == 0x3000
}

/// `s` without its leading white space.
pub open spec fn trim_start_ws(s: Seq<char>) -> Seq<char>
    decreases s.len(),
{
    if s.len() > 0 && is_white_space(s[0]) {
        trim_start_ws(s.drop_first())
    } else {
        s
    }
}

/// `s` without its trailing white space.
pub open spec fn trim_end_ws(s: Seq<char>) -> Seq<char>
    decreases s.len(),
{
    if s.len() > 0 && is_white_space(s.last()) {
        trim_end_ws(s.drop_last())
    } else {
        s
    }
}

/// `s` without leading and trailing white space, as `str::trim` gives it.
pub open spec fn trim_ws(s: Seq<char>) -> Seq<char> {
    trim_end_ws(trim_start_ws(s))
}

/// Whether `c` has the Unicode `White_Space` property.
pub fn white_space(c: char) -> (r: bool)
    ensures
        r == is_white_space(c),
{
    let n = c as u32;
    (0x09 <= n && n <= 0x0D) || n == 0x20 || n == 0x85 || n == 0xA0 || n == 0x1680 || (0x2000 <= n && n
        <= 0x200A) || n == 0x2028 || n == 0x2029 || n == 0x202F || n == 0x205F || n == 0x3000
}

/// The characters without leading and trailing white space.
pub fn trim_chars(v: &[char]) -> (r: Vec<char>)
    ensures
        r@ == trim_ws(v@),
{
    let mut lo: usize = 0;
    assert(v@.subrange(0, v.len() as int) =~= v@);
    while lo < v.len() && white_space(v[lo])
        invariant
            lo <= v.len(),
            trim_start_ws(v@) == trim_start_ws(v@.subrange(lo as int, v.len() as int)),
        decreases v.len() - lo,
    {
        let ghost rest = v@.subrange(lo as int, v.len() as int);
        assert(rest.drop_first() =~= v@.subrange(lo + 1, v.len() as int));
        lo = lo + 1;
    }
    let ghost start = v@.subrange(lo as int, v.len() as int);
    assert(trim_start_ws(start) == start);
    let mut hi: usize = v.len();
    while hi > lo && white_space(v[hi - 1])
        invariant
            lo <= hi <= v.len(),
            start == v@.subrange(lo as int, v.len() as int),
            trim_end_ws(start) == trim_end_ws(v@.subrange(lo as int, hi as int)),
        decreases hi - lo,
    {
        let ghost cur = v@.subrange(lo as int, hi as int);
        assert(cur.drop_last() =~= v@.subrange(lo as int, hi - 1));
        assert(cur.last() == v@[hi - 1]);
        hi = hi - 1;
    }
    let r = sub_chars(v, lo, hi);
    r
}

/// `p` without one trailing carriage return.
pub open spec fn strip_cr(p: Seq<char>) -> Seq<char> {
    if p.len() > 0 && p.last() == '\r' {
        p.drop_last()
    } else {
        p
    }
}

/// Each part without one trailing carriage return.
pub open spec fn strip_crs(ps: Seq<Seq<char>>) -> Seq<Seq<char>> {
    ps.map_values(|p: Seq<char>| strip_cr(p))
}

/// The lines of `s`, as `str::lines` gives them: split at each `\n`, a `\r`
/// just before it dropped, and no final empty line after a last `\n`.
pub open spec fn lines_spec(s: Seq<char>) -> Seq<Seq<char>> {
    let parts = split_on(s, '\n');
    let full = strip_crs(parts.drop_last());
    if parts.last().len() > 0 {
        full.push(parts.last())
    } else {
        full
    }
}

/// The lines of a string.
pub fn lines_of(s: &str) -> (r: Vec<String>)
    ensures
        string_views(r@) == lines_spec(s@),
{
    let parts = split_string(s, '\n');
    let ghost ps = split_on(s@, '\n');
    proof {
        lemma_split_nonempty(s@, '\n');
    }
    let n = parts.len();
    let mut r: Vec<String> = Vec::new();
    let mut i: usize = 0;
    while i + 1 < n
        invariant
            n == parts@.len(),
            n > 0,
            i + 1 <= n,
            string_views(parts@) == ps,
            string_views(r@) == strip_crs(ps.drop_last()).take(i as int),
        decreases n - i,
    {
        let chars = chars_of(parts[i].as_str());
        assert(chars@ == ps[i as int]);
        let line = if chars.len() > 0 && chars[chars.len() - 1] == '\r' {
            sub_chars(chars.as_slice(), 0, chars.len() - 1)
        } else {
            chars
        };
        proof {
            if ps[i as int].len() > 0 && ps[i as int].last() == '\r' {
                assert(line@ =~= ps[i as int].drop_last());
            }
        }
        let ghost before = string_views(r@);
        assert(line@ == strip_cr(ps[i as int]));
        assert(strip_crs(ps.drop_last())[i as int] == strip_cr(ps[i as int]));
        r.push(string_from_chars(line.as_slice()));
        assert(string_views(r@) =~= before.push(line@));
        assert(strip_crs(ps.drop_last()).take(i + 1) =~= strip_crs(ps.drop_last()).take(i as int).push(
            strip_cr(ps[i as int]),
        ));
        i = i + 1;
    }
    assert(strip_crs(ps.drop_last()).take(i as int) =~= strip_crs(ps.drop_last()));
    let last = &parts[n - 1];
    assert(last@ == ps.last());
    if last.as_str().unicode_len() > 0 {
        let ghost before = string_views(r@);
        r.push(last.clone());
        assert(string_views(r@) =~= before.push(ps.last()));
    }
    r
}

} // verus!
