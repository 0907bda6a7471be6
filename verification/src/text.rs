//! Text as sequences of characters: the handful of string operations the
//! screenplay formats are built from, each with its meaning stated over
//! `Seq<char>`.
//!
//! Text is carried as `Vec<char>` while it is being taken apart, so that
//! every index is a character index, and turned back into a `String` once.
//! Where the meaning of an operation is Unicode's own (case mapping, what
//! counts as a letter) the result is named rather than written out here.

use vstd::prelude::*;

verus! {

// ------------------------------------------------------------ conversions --

/// `String::push`: one character onto the end.
#[verifier::external_body]
fn push_char(s: &mut String, c: char)
    ensures
        final(s)@ == old(s)@.push(c),
{
    s.push(c);
}

/// The characters of a string, in order.
pub fn chars_of(s: &str) -> (r: Vec<char>)
    ensures
        r@ == s@,
{
    let mut out: Vec<char> = Vec::new();
    for c in it: s.chars()
        invariant
            out@ == it.seq().take(it.index() as int),
            it.seq() == s@,
    {
        out.push(c);
    }
    out
}

/// A string made of the given characters.
pub fn string_of(v: &[char]) -> (r: String)
    ensures
        r@ == v@,
{
    let mut s = String::new();
    let mut i: usize = 0;
    while i < v.len()
        invariant
            i <= v@.len(),
            s@ == v@.take(i as int),
        decreases v@.len() - i,
    {
        push_char(&mut s, v[i]);
        assert(v@.take(i as int).push(v@[i as int]) == v@.take(i + 1));
        i = i + 1;
    }
    assert(v@.take(v@.len() as int) == v@);
    s
}

/// Append every character of `src` to `dst`.
pub fn push_all(dst: &mut Vec<char>, src: &[char])
    ensures
        final(dst)@ == old(dst)@ + src@,
{
    let mut i: usize = 0;
    while i < src.len()
        invariant
            i <= src@.len(),
            dst@ == old(dst)@ + src@.take(i as int),
        decreases src@.len() - i,
    {
        dst.push(src[i]);
        assert(src@.take(i as int).push(src@[i as int]) == src@.take(i + 1));
        i = i + 1;
    }
    assert(src@.take(src@.len() as int) == src@);
}

/// Append the characters of a string literal (or any `&str`).
pub fn push_str(dst: &mut Vec<char>, src: &str)
    ensures
        final(dst)@ == old(dst)@ + src@,
{
    let cs = chars_of(src);
    push_all(dst, cs.as_slice());
}

/// The characters `lo..hi` of `s`, copied.
pub fn slice_of(s: &[char], lo: usize, hi: usize) -> (r: Vec<char>)
    requires
        lo <= hi <= s@.len(),
    ensures
        r@ == s@.subrange(lo as int, hi as int),
{
    let mut out: Vec<char> = Vec::new();
    let mut i = lo;
    while i < hi
        invariant
            lo <= i <= hi <= s@.len(),
            out@ == s@.subrange(lo as int, i as int),
        decreases hi - i,
    {
        out.push(s[i]);
        assert(s@.subrange(lo as int, i as int).push(s@[i as int]) == s@.subrange(
            lo as int,
            i + 1,
        ));
        i = i + 1;
    }
    out
}

/// Whether two runs of characters are the same.
pub fn same(a: &[char], b: &[char]) -> (r: bool)
    ensures
        r == (a@ == b@),
{
    if a.len() != b.len() {
        return false;
    }
    let mut i: usize = 0;
    while i < a.len()
        invariant
            a@.len() == b@.len(),
            i <= a@.len(),
            forall|j: int| 0 <= j < i ==> a@[j] == b@[j],
        decreases a@.len() - i,
    {
        if a[i] != b[i] {
            return false;
        }
        i = i + 1;
    }
    assert(a@ =~= b@);
    true
}

// ------------------------------------------------------------ whitespace --

/// Unicode's White_Space property, which is what `char::is_whitespace`,
/// `str::trim` and `str::split_whitespace` go by.
pub open spec fn is_ws(c: char) -> bool {
    let n = c as u32;
    (9 <= n && n <= 13) || n == 32 || n == 0x85 || n == 0xa0 || n == 0x1680 || (0x2000 <= n && n
        <= 0x200a) || n == 0x2028 || n == 0x2029 || n == 0x202f || n == 0x205f || n == 0x3000
}

pub fn is_whitespace(c: char) -> (r: bool)
    ensures
        r == is_ws(c),
{
    let n = c as u32;
    (9 <= n && n <= 13) || n == 32 || n == 0x85 || n == 0xa0 || n == 0x1680 || (0x2000 <= n && n
        <= 0x200a) || n == 0x2028 || n == 0x2029 || n == 0x202f || n == 0x205f || n == 0x3000
}

/// The kinds of character a trim can strip.
#[derive(Clone, Copy, PartialEq, Eq, Debug)]
pub enum Strip {
    /// Unicode white space.
    Space,
    /// `(` and `)`.
    Parens,
    /// `-`.
    Dash,
    /// `*` and `_`, markdown emphasis.
    Emphasis,
    /// `^`, Fountain's dual-dialogue mark.
    Caret,
    /// `~`, Fountain's lyric mark.
    Tilde,
    /// The marks a markdown line opens with: `#`, `*`, `>`, a backtick, a
    /// space.
    Markup,
}

pub open spec fn strips(k: Strip, c: char) -> bool {
    match k {
        Strip::Space => is_ws(c),
        Strip::Parens => c == '(' || c == ')',
        Strip::Dash => c == '-',
        Strip::Emphasis => c == '*' || c == '_',
        Strip::Caret => c == '^',
        Strip::Tilde => c == '~',
        Strip::Markup => c == '#' || c == '*' || c == '>' || c == '`' || c == ' ',
    }
}

pub fn is_stripped(k: Strip, c: char) -> (r: bool)
    ensures
        r == strips(k, c),
{
    match k {
        Strip::Space => is_whitespace(c),
        Strip::Parens => c == '(' || c == ')',
        Strip::Dash => c == '-',
        Strip::Emphasis => c == '*' || c == '_',
        Strip::Caret => c == '^',
        Strip::Tilde => c == '~',
        Strip::Markup => c == '#' || c == '*' || c == '>' || c == '`' || c == ' ',
    }
}

/// `s` without the characters of kind `k` at its head.
pub open spec fn trim_start_by(s: Seq<char>, k: Strip) -> Seq<char>
    decreases s.len(),
{
    if s.len() > 0 && strips(k, s[0]) {
        trim_start_by(s.drop_first(), k)
    } else {
        s
    }
}

/// `s` without the characters of kind `k` at its end.
pub open spec fn trim_end_by(s: Seq<char>, k: Strip) -> Seq<char>
    decreases s.len(),
{
    if s.len() > 0 && strips(k, s.last()) {
        trim_end_by(s.drop_last(), k)
    } else {
        s
    }
}

pub open spec fn trim_by(s: Seq<char>, k: Strip) -> Seq<char> {
    trim_end_by(trim_start_by(s, k), k)
}

/// `str::trim`.
pub open spec fn trim(s: Seq<char>) -> Seq<char> {
    trim_by(s, Strip::Space)
}

/// `str::trim_end`.
pub open spec fn trim_end(s: Seq<char>) -> Seq<char> {
    trim_end_by(s, Strip::Space)
}

proof fn lemma_trim_start_skip(s: Seq<char>, k: Strip, n: int)
    requires
        0 <= n <= s.len(),
        forall|j: int| 0 <= j < n ==> strips(k, #[trigger] s[j]),
    ensures
        trim_start_by(s, k) == trim_start_by(s.skip(n), k),
    decreases n,
{
    if n > 0 {
        assert(s.drop_first().skip(n - 1) =~= s.skip(n));
        lemma_trim_start_skip(s.drop_first(), k, n - 1);
    } else {
        assert(s.skip(0) =~= s);
    }
}

proof fn lemma_trim_end_take(s: Seq<char>, k: Strip, n: int)
    requires
        0 <= n <= s.len(),
        forall|j: int| n <= j < s.len() ==> strips(k, #[trigger] s[j]),
    ensures
        trim_end_by(s, k) == trim_end_by(s.take(n), k),
    decreases s.len() - n,
{
    if n < s.len() {
        assert(s.drop_last().take(n) =~= s.take(n));
        lemma_trim_end_take(s.drop_last(), k, n);
    } else {
        assert(s.take(n) =~= s);
    }
}

/// The bounds `lo..hi` of `s` with kind `k` stripped from both ends.
pub fn trim_bounds(s: &[char], k: Strip) -> (r: (usize, usize))
    ensures
        r.0 <= r.1 <= s@.len(),
        trim_start_by(s@, k) == s@.skip(r.0 as int),
        trim_by(s@, k) == s@.subrange(r.0 as int, r.1 as int),
{
    let mut lo: usize = 0;
    while lo < s.len() && is_stripped(k, s[lo])
        invariant
            lo <= s@.len(),
            forall|j: int| 0 <= j < lo ==> strips(k, #[trigger] s@[j]),
        decreases s@.len() - lo,
    {
        lo = lo + 1;
    }
    proof {
        lemma_trim_start_skip(s@, k, lo as int);
    }
    let mut hi: usize = s.len();
    while hi > lo && is_stripped(k, s[hi - 1])
        invariant
            lo <= hi <= s@.len(),
            forall|j: int| hi <= j < s@.len() ==> strips(k, #[trigger] s@[j]),
        decreases hi,
    {
        hi = hi - 1;
    }
    proof {
        let t = s@.skip(lo as int);
        assert(trim_start_by(t, k) == t);
        lemma_trim_end_take(t, k, hi - lo);
        assert(t.take(hi - lo) =~= s@.subrange(lo as int, hi as int));
        let u = s@.subrange(lo as int, hi as int);
        assert(u.len() == 0 || !strips(k, u.last()));
    }
    (lo, hi)
}

/// `s` with kind `k` stripped from both ends.
pub fn trim_chars_by(s: &[char], k: Strip) -> (r: Vec<char>)
    ensures
        r@ == trim_by(s@, k),
{
    let (lo, hi) = trim_bounds(s, k);
    slice_of(s, lo, hi)
}

/// `str::trim`.
pub fn trim_chars(s: &[char]) -> (r: Vec<char>)
    ensures
        r@ == trim(s@),
{
    trim_chars_by(s, Strip::Space)
}

/// `s` with kind `k` stripped from its head.
pub fn trim_start_chars_by(s: &[char], k: Strip) -> (r: Vec<char>)
    ensures
        r@ == trim_start_by(s@, k),
{
    let (lo, _hi) = trim_bounds(s, k);
    slice_of(s, lo, s.len())
}

/// `s` with kind `k` stripped from its end.
pub fn trim_end_chars_by(s: &[char], k: Strip) -> (r: Vec<char>)
    ensures
        r@ == trim_end_by(s@, k),
{
    let mut hi: usize = s.len();
    while hi > 0 && is_stripped(k, s[hi - 1])
        invariant
            hi <= s@.len(),
            forall|j: int| hi <= j < s@.len() ==> strips(k, #[trigger] s@[j]),
        decreases hi,
    {
        hi = hi - 1;
    }
    proof {
        lemma_trim_end_take(s@, k, hi as int);
    }
    slice_of(s, 0, hi)
}

/// Whether `s` is empty once trimmed, i.e. all white space.
pub fn is_blank(s: &[char]) -> (r: bool)
    ensures
        r == (trim(s@).len() == 0),
{
    let (lo, hi) = trim_bounds(s, Strip::Space);
    lo == hi
}

// -------------------------------------------------- prefixes and searching --

pub open spec fn has_prefix(s: Seq<char>, p: Seq<char>) -> bool {
    p.len() <= s.len() && s.take(p.len() as int) == p
}

pub open spec fn has_suffix(s: Seq<char>, p: Seq<char>) -> bool {
    p.len() <= s.len() && s.skip(s.len() - p.len()) == p
}

pub fn starts_with(s: &[char], p: &[char]) -> (r: bool)
    ensures
        r == has_prefix(s@, p@),
{
    if p.len() > s.len() {
        return false;
    }
    let mut i: usize = 0;
    while i < p.len()
        invariant
            p@.len() <= s@.len(),
            i <= p@.len(),
            forall|j: int| 0 <= j < i ==> s@[j] == p@[j],
        decreases p@.len() - i,
    {
        if s[i] != p[i] {
            assert(s@.take(p@.len() as int)[i as int] != p@[i as int]);
            return false;
        }
        i = i + 1;
    }
    assert(s@.take(p@.len() as int) =~= p@);
    true
}

pub fn ends_with(s: &[char], p: &[char]) -> (r: bool)
    ensures
        r == has_suffix(s@, p@),
{
    if p.len() > s.len() {
        return false;
    }
    let off = s.len() - p.len();
    let mut i: usize = 0;
    while i < p.len()
        invariant
            p@.len() <= s@.len(),
            off == s@.len() - p@.len(),
            off + p@.len() == s@.len(),
            s@.len() <= usize::MAX,
            i <= p@.len(),
            forall|j: int| 0 <= j < i ==> s@[off + j] == p@[j],
        decreases p@.len() - i,
    {
        if s[off + i] != p[i] {
            assert(s@.skip(off as int)[i as int] != p@[i as int]);
            return false;
        }
        i = i + 1;
    }
    assert(s@.skip(off as int) =~= p@);
    true
}

/// `str::starts_with` against a literal.
pub fn starts_with_str(s: &[char], p: &str) -> (r: bool)
    ensures
        r == has_prefix(s@, p@),
{
    let pc = chars_of(p);
    starts_with(s, pc.as_slice())
}

/// `str::ends_with` against a literal.
pub fn ends_with_str(s: &[char], p: &str) -> (r: bool)
    ensures
        r == has_suffix(s@, p@),
{
    let pc = chars_of(p);
    ends_with(s, pc.as_slice())
}

/// Whether `s` is exactly the literal `p`.
pub fn is_str(s: &[char], p: &str) -> (r: bool)
    ensures
        r == (s@ == p@),
{
    let pc = chars_of(p);
    same(s, pc.as_slice())
}

/// `p` occurs in `s` starting at `i`.
pub open spec fn occurs_at(s: Seq<char>, p: Seq<char>, i: int) -> bool {
    0 <= i && i + p.len() <= s.len() && s.subrange(i, i + p.len()) == p
}

/// The first place at or after `i` where `p` occurs in `s`.
pub open spec fn find_from(s: Seq<char>, p: Seq<char>, i: int) -> Option<int>
    decreases s.len() + 1 - i,
{
    if i < 0 || i + p.len() > s.len() {
        None
    } else if occurs_at(s, p, i) {
        Some(i)
    } else {
        find_from(s, p, i + 1)
    }
}

/// `str::find`: where `p` first occurs in `s`.
pub open spec fn find(s: Seq<char>, p: Seq<char>) -> Option<int> {
    find_from(s, p, 0)
}

pub proof fn lemma_find_from_bounds(s: Seq<char>, p: Seq<char>, i: int)
    ensures
        find_from(s, p, i) matches Some(k) ==> i <= k && k + p.len() <= s.len() && occurs_at(
            s,
            p,
            k,
        ) && (forall|j: int| i <= j < k ==> !occurs_at(s, p, j)),
        i >= 0 && find_from(s, p, i) is None ==> (forall|j: int| i <= j ==> !occurs_at(s, p, j)),
    decreases s.len() + 1 - i,
{
    if i < 0 || i + p.len() > s.len() {
    } else if occurs_at(s, p, i) {
    } else {
        lemma_find_from_bounds(s, p, i + 1);
    }
}

/// Where `p` first occurs in `s`, searching from `from`.
pub fn find_chars_from(s: &[char], p: &[char], from: usize) -> (r: Option<usize>)
    requires
        from <= s@.len(),
    ensures
        r matches Some(k) ==> find_from(s@, p@, from as int) == Some(k as int),
        r is None ==> find_from(s@, p@, from as int) is None,
{
    let mut i = from;
    if p.len() > s.len() {
        return None;
    }
    while i <= s.len() - p.len()
        invariant
            p@.len() <= s@.len(),
            s@.len() <= usize::MAX,
            from <= i <= s@.len() + 1,
            find_from(s@, p@, from as int) == find_from(s@, p@, i as int),
        decreases s@.len() + 1 - i,
    {
        let mut j: usize = 0;
        let mut ok = true;
        while j < p.len()
            invariant
                i + p@.len() <= s@.len(),
                s@.len() <= usize::MAX,
                j <= p@.len(),
                ok ==> forall|m: int| 0 <= m < j ==> s@[i + m] == p@[m],
                !ok ==> p@.len() > 0,
                !ok ==> !occurs_at(s@, p@, i as int),
            decreases p@.len() - j,
        {
            if s[i + j] != p[j] {
                ok = false;
                assert(s@.subrange(i as int, i + p@.len())[j as int] != p@[j as int]);
            }
            j = j + 1;
        }
        if ok {
            assert(s@.subrange(i as int, i + p@.len()) =~= p@);
            return Some(i);
        }
        i = i + 1;
    }
    None
}

pub fn find_chars(s: &[char], p: &[char]) -> (r: Option<usize>)
    ensures
        r matches Some(k) ==> find(s@, p@) == Some(k as int),
        r is None ==> find(s@, p@) is None,
{
    find_chars_from(s, p, 0)
}

/// `str::find` against a literal.
pub fn find_str(s: &[char], p: &str) -> (r: Option<usize>)
    ensures
        r matches Some(k) ==> find(s@, p@) == Some(k as int),
        r is None ==> find(s@, p@) is None,
{
    let pc = chars_of(p);
    find_chars(s, pc.as_slice())
}

/// The first index of `c` in `s`.
pub open spec fn index_of_char(s: Seq<char>, c: char) -> Option<int>
    decreases s.len(),
{
    if s.len() == 0 {
        None
    } else if s[0] == c {
        Some(0)
    } else {
        match index_of_char(s.drop_first(), c) {
            Some(k) => Some(k + 1),
            None => None,
        }
    }
}

pub proof fn lemma_index_of_char(s: Seq<char>, c: char)
    ensures
        index_of_char(s, c) matches Some(k) ==> 0 <= k < s.len() && s[k] == c && (forall|j: int|
            0 <= j < k ==> s[j] != c),
        index_of_char(s, c) is None ==> (forall|j: int| 0 <= j < s.len() ==> s[j] != c),
    decreases s.len(),
{
    if s.len() > 0 && s[0] != c {
        lemma_index_of_char(s.drop_first(), c);
        if index_of_char(s, c) is None {
            assert forall|j: int| 0 <= j < s.len() implies s[j] != c by {
                if j > 0 {
                    assert(s.drop_first()[j - 1] == s[j]);
                }
            }
        } else {
            let k = index_of_char(s, c)->0;
            assert forall|j: int| 0 <= j < k implies s[j] != c by {
                if j > 0 {
                    assert(s.drop_first()[j - 1] == s[j]);
                }
            }
        }
    }
}

pub proof fn lemma_index_of_char_is(s: Seq<char>, c: char, k: int)
    requires
        0 <= k < s.len(),
        s[k] == c,
        forall|j: int| 0 <= j < k ==> s[j] != c,
    ensures
        index_of_char(s, c) == Some(k),
    decreases k,
{
    if k > 0 {
        assert forall|j: int| 0 <= j < k - 1 implies s.drop_first()[j] != c by {
            assert(s.drop_first()[j] == s[j + 1]);
        }
        lemma_index_of_char_is(s.drop_first(), c, k - 1);
    }
}

pub proof fn lemma_index_of_char_none(s: Seq<char>, c: char)
    requires
        forall|j: int| 0 <= j < s.len() ==> s[j] != c,
    ensures
        index_of_char(s, c) is None,
    decreases s.len(),
{
    if s.len() > 0 {
        assert forall|j: int| 0 <= j < s.len() - 1 implies s.drop_first()[j] != c by {
            assert(s.drop_first()[j] == s[j + 1]);
        }
        lemma_index_of_char_none(s.drop_first(), c);
    }
}

/// Where `c` first occurs in `s`.
pub fn index_of(s: &[char], c: char) -> (r: Option<usize>)
    ensures
        r matches Some(k) ==> index_of_char(s@, c) == Some(k as int),
        r is None ==> index_of_char(s@, c) is None,
{
    let mut i: usize = 0;
    while i < s.len()
        invariant
            i <= s@.len(),
            forall|j: int| 0 <= j < i ==> s@[j] != c,
        decreases s@.len() - i,
    {
        if s[i] == c {
            proof {
                lemma_index_of_char(s@, c);
                if index_of_char(s@, c) != Some(i as int) {
                    let k = index_of_char(s@, c)->0;
                    assert(k < i || k > i);
                }
            }
            return Some(i);
        }
        i = i + 1;
    }
    proof {
        lemma_index_of_char(s@, c);
        if index_of_char(s@, c) is Some {
            let k = index_of_char(s@, c)->0;
            assert(s@[k] == c);
        }
    }
    None
}

pub fn contains_char(s: &[char], c: char) -> (r: bool)
    ensures
        r == s@.contains(c),
{
    proof {
        lemma_index_of_char(s@, c);
    }
    match index_of(s, c) {
        Some(k) => true,
        None => false,
    }
}

// ------------------------------------------------------------ case, class --

/// What `str::to_uppercase` gives for a string: Unicode's full upper-case
/// mapping, which may change the number of characters.
pub uninterp spec fn upper(s: Seq<char>) -> Seq<char>;

/// What `str::to_lowercase` gives for a string.
pub uninterp spec fn lower(s: Seq<char>) -> Seq<char>;

/// What `char::to_lowercase` yields for one character, in order.
pub uninterp spec fn char_lower(c: char) -> Seq<char>;

/// What `char::to_uppercase` yields for one character, in order.
pub uninterp spec fn char_upper(c: char) -> Seq<char>;

/// `char::is_alphanumeric`.
pub uninterp spec fn alphanumeric(c: char) -> bool;

/// `char::is_alphabetic`.
pub uninterp spec fn alphabetic(c: char) -> bool;

/// `str::to_uppercase`, on characters. The result is named, not spelled
/// out: it is Unicode's case table. Nothing is claimed of it beyond its
/// being that function of the input.
#[verifier::external_body]
pub(crate) fn to_upper(s: &[char]) -> (r: Vec<char>)
    ensures
        r@ == upper(s@),
{
    s.iter().collect::<String>().to_uppercase().chars().collect()
}

/// `str::to_lowercase`, on characters; the result is named as for
/// `to_upper`.
#[verifier::external_body]
pub(crate) fn to_lower(s: &[char]) -> (r: Vec<char>)
    ensures
        r@ == lower(s@),
{
    s.iter().collect::<String>().to_lowercase().chars().collect()
}

/// `char::to_lowercase`, collected; the result is named.
#[verifier::external_body]
pub(crate) fn lower_of_char(c: char) -> (r: Vec<char>)
    ensures
        r@ == char_lower(c),
{
    c.to_lowercase().collect()
}

/// `char::to_uppercase`, collected; the result is named.
#[verifier::external_body]
pub(crate) fn upper_of_char(c: char) -> (r: Vec<char>)
    ensures
        r@ == char_upper(c),
{
    c.to_uppercase().collect()
}

/// `char::is_alphanumeric`; the answer is Unicode's and is named.
#[verifier::external_body]
pub(crate) fn is_alphanumeric(c: char) -> (r: bool)
    ensures
        r == alphanumeric(c),
{
    c.is_alphanumeric()
}

/// `char::is_alphabetic`; the answer is Unicode's and is named.
#[verifier::external_body]
pub(crate) fn is_alphabetic(c: char) -> (r: bool)
    ensures
        r == alphabetic(c),
{
    c.is_alphabetic()
}

/// Whether `s` is left alone by upper-casing.
pub fn is_upper_already(s: &[char]) -> (r: bool)
    ensures
        r == (upper(s@) == s@),
{
    let u = to_upper(s);
    same(u.as_slice(), s)
}

// ---------------------------------------------------------------- numbers --

pub open spec fn digit_char(d: nat) -> char {
    if d == 0 {
        '0'
    } else if d == 1 {
        '1'
    } else if d == 2 {
        '2'
    } else if d == 3 {
        '3'
    } else if d == 4 {
        '4'
    } else if d == 5 {
        '5'
    } else if d == 6 {
        '6'
    } else if d == 7 {
        '7'
    } else if d == 8 {
        '8'
    } else {
        '9'
    }
}

pub open spec fn is_digit(c: char) -> bool {
    '0' <= c && c <= '9'
}

pub open spec fn digit_value(c: char) -> nat {
    (c as u32 - '0' as u32) as nat
}

/// A number written in decimal, as `Display` writes it.
pub open spec fn dec(n: nat) -> Seq<char>
    decreases n,
{
    if n < 10 {
        seq![digit_char(n)]
    } else {
        dec(n / 10).push(digit_char(n % 10))
    }
}

/// The value of a run of decimal digits.
pub open spec fn digits_value(s: Seq<char>) -> nat
    decreases s.len(),
{
    if s.len() == 0 {
        0
    } else {
        digits_value(s.drop_last()) * 10 + digit_value(s.last())
    }
}

pub open spec fn all_digits(s: Seq<char>) -> bool {
    forall|i: int| 0 <= i < s.len() ==> is_digit(#[trigger] s[i])
}

/// What `str::parse::<usize>` accepts: an optional `+`, then at least one
/// digit, and a value that fits.
pub open spec fn parse_usize_spec(s: Seq<char>) -> Option<usize> {
    let d = if s.len() > 0 && s[0] == '+' {
        s.drop_first()
    } else {
        s
    };
    if d.len() > 0 && all_digits(d) && digits_value(d) <= usize::MAX {
        Some(digits_value(d) as usize)
    } else {
        None
    }
}

fn digit_of(d: usize) -> (c: char)
    requires
        d < 10,
    ensures
        c == digit_char(d as nat),
{
    if d == 0 {
        '0'
    } else if d == 1 {
        '1'
    } else if d == 2 {
        '2'
    } else if d == 3 {
        '3'
    } else if d == 4 {
        '4'
    } else if d == 5 {
        '5'
    } else if d == 6 {
        '6'
    } else if d == 7 {
        '7'
    } else if d == 8 {
        '8'
    } else {
        '9'
    }
}

/// `n` in decimal.
pub fn decimal(n: usize) -> (r: Vec<char>)
    ensures
        r@ == dec(n as nat),
    decreases n,
{
    if n < 10 {
        let mut v: Vec<char> = Vec::new();
        v.push(digit_of(n));
        proof {
            assert(v@ =~= seq![digit_char(n as nat)]);
        }
        v
    } else {
        let mut v = decimal(n / 10);
        v.push(digit_of(n % 10));
        v
    }
}

/// `n` in decimal, for a 64-bit count.
pub fn decimal_u64(n: u64) -> (r: Vec<char>)
    ensures
        r@ == dec(n as nat),
    decreases n,
{
    if n < 10 {
        let mut v: Vec<char> = Vec::new();
        v.push(digit_of(n as usize));
        proof {
            assert(v@ =~= seq![digit_char(n as nat)]);
        }
        v
    } else {
        let mut v = decimal_u64(n / 10);
        v.push(digit_of((n % 10) as usize));
        v
    }
}

/// Append `n` in decimal.
pub fn push_decimal(dst: &mut Vec<char>, n: usize)
    ensures
        final(dst)@ == old(dst)@ + dec(n as nat),
{
    let d = decimal(n);
    push_all(dst, d.as_slice());
}

proof fn lemma_digit(d: nat)
    requires
        d < 10,
    ensures
        is_digit(digit_char(d)),
        digit_value(digit_char(d)) == d,
{
}

pub proof fn lemma_dec_digits(n: nat)
    ensures
        all_digits(dec(n)),
        dec(n).len() > 0,
        digits_value(dec(n)) == n,
        dec(n)[0] != '+',
    decreases n,
{
    lemma_digit(n % 10);
    let s = dec(n);
    if n < 10 {
        assert(s.drop_last() =~= Seq::<char>::empty());
        assert(digits_value(s) == digits_value(s.drop_last()) * 10 + digit_value(s.last()));
        assert(n % 10 == n);
    } else {
        lemma_dec_digits(n / 10);
        assert(s.last() == digit_char(n % 10));
        assert(s.drop_last() =~= dec(n / 10));
        assert(digits_value(s) == digits_value(s.drop_last()) * 10 + digit_value(s.last()));
        vstd::arithmetic::div_mod::lemma_fundamental_div_mod(n as int, 10);
        assert forall|i: int| 0 <= i < s.len() implies is_digit(#[trigger] s[i]) by {
            if i < s.len() - 1 {
                assert(s[i] == dec(n / 10)[i]);
            }
        }
        assert(s[0] == dec(n / 10)[0]);
    }
}

/// `str::parse::<usize>` on characters.
pub fn parse_usize(s: &[char]) -> (r: Option<usize>)
    ensures
        r == parse_usize_spec(s@),
{
    let start: usize = if s.len() > 0 && s[0] == '+' {
        1
    } else {
        0
    };
    let ghost d = s@.skip(start as int);
    proof {
        if s@.len() > 0 && s@[0] == '+' {
            assert(d =~= s@.drop_first());
        } else {
            assert(d =~= s@);
        }
    }
    if start >= s.len() {
        return None;
    }
    let mut v: usize = 0;
    let mut i = start;
    while i < s.len()
        invariant
            start <= i <= s@.len(),
            start < s@.len(),
            d == s@.skip(start as int),
            d == (if s@.len() > 0 && s@[0] == '+' {
                s@.drop_first()
            } else {
                s@
            }),
            all_digits(d.take(i - start)),
            v as nat == digits_value(d.take(i - start)),
        decreases s@.len() - i,
    {
        let c = s[i];
        if !('0' <= c && c <= '9') {
            proof {
                assert(d[i - start] == c);
            }
            return None;
        }
        let dv = (c as u32 - '0' as u32) as usize;
        proof {
            assert(d.take(i - start + 1).drop_last() =~= d.take(i - start));
            assert(d.take(i - start + 1).last() == c);
            assert forall|j: int| 0 <= j < i - start + 1 implies is_digit(
                #[trigger] d.take(i - start + 1)[j],
            ) by {
                if j < i - start {
                    assert(d.take(i - start + 1)[j] == d.take(i - start)[j]);
                }
            }
        }
        if v > (usize::MAX - dv) / 10 {
            proof {
                assert(v * 10 + dv > usize::MAX) by (nonlinear_arith)
                    requires
                        v > (usize::MAX - dv) / 10,
                        dv < 10,
                ;
                // every later digit only makes it larger
                lemma_digits_value_grows(d, i - start + 1);
            }
            return None;
        }
        proof {
            assert(v * 10 + dv <= usize::MAX) by (nonlinear_arith)
                requires
                    v <= (usize::MAX - dv) / 10,
                    dv < 10,
            ;
        }
        v = v * 10 + dv;
        i = i + 1;
    }
    proof {
        assert(d.take(i - start) =~= d);
    }
    Some(v)
}

/// The number `str::parse` reads from `s` for an unsigned type big enough to
/// hold it: an optional `+`, then at least one digit and nothing else.
pub open spec fn parsed_number(s: Seq<char>) -> Option<nat> {
    let d = if s.len() > 0 && s[0] == '+' {
        s.drop_first()
    } else {
        s
    };
    if d.len() > 0 && all_digits(d) {
        Some(digits_value(d))
    } else {
        None
    }
}

/// `str::parse` for an unsigned type whose largest value is `max`: the
/// number, where it is one and fits.
pub open spec fn parse_up_to(s: Seq<char>, max: nat) -> Option<nat> {
    match parsed_number(s) {
        Some(v) => if v <= max {
            Some(v)
        } else {
            None
        },
        None => None,
    }
}

/// `str::parse::<u64>`, `str::parse::<u32>` ..., for the type whose largest
/// value is `max`.
pub fn parse_bounded(s: &[char], max: u64) -> (r: Option<u64>)
    ensures
        match parse_up_to(s@, max as nat) {
            Some(v) => r == Some(v as u64),
            None => r is None,
        },
{
    let start: usize = if s.len() > 0 && s[0] == '+' {
        1
    } else {
        0
    };
    let ghost d = s@.skip(start as int);
    proof {
        if s@.len() > 0 && s@[0] == '+' {
            assert(d =~= s@.drop_first());
        } else {
            assert(d =~= s@);
        }
    }
    if start >= s.len() {
        return None;
    }
    let mut v: u64 = 0;
    let mut i = start;
    while i < s.len()
        invariant
            start <= i <= s@.len(),
            start < s@.len(),
            d == s@.skip(start as int),
            d == (if s@.len() > 0 && s@[0] == '+' {
                s@.drop_first()
            } else {
                s@
            }),
            all_digits(d.take(i - start)),
            v as nat == digits_value(d.take(i - start)),
            v <= max,
        decreases s@.len() - i,
    {
        let c = s[i];
        if !('0' <= c && c <= '9') {
            proof {
                assert(d[i - start] == c);
            }
            return None;
        }
        let dv = (c as u32 - '0' as u32) as u64;
        proof {
            assert(d.take(i - start + 1).drop_last() =~= d.take(i - start));
            assert(d.take(i - start + 1).last() == c);
            assert forall|j: int| 0 <= j < i - start + 1 implies is_digit(
                #[trigger] d.take(i - start + 1)[j],
            ) by {
                if j < i - start {
                    assert(d.take(i - start + 1)[j] == d.take(i - start)[j]);
                }
            }
        }
        if dv > max || v > (max - dv) / 10 {
            proof {
                assert(v * 10 + dv > max) by (nonlinear_arith)
                    requires
                        dv > max || v > (max - dv) / 10,
                        dv < 10,
                ;
                if all_digits(d) {
                    lemma_digits_value_grows(d, i - start + 1);
                }
            }
            return None;
        }
        proof {
            assert(v * 10 + dv <= max) by (nonlinear_arith)
                requires
                    dv <= max,
                    v <= (max - dv) / 10,
                    dv < 10,
            ;
        }
        v = v * 10 + dv;
        i = i + 1;
    }
    proof {
        assert(d.take(i - start) =~= d);
    }
    Some(v)
}

proof fn lemma_digits_value_grows(d: Seq<char>, n: int)
    requires
        0 <= n <= d.len(),
    ensures
        all_digits(d) ==> digits_value(d.take(n)) <= digits_value(d),
    decreases d.len() - n,
{
    if n < d.len() {
        lemma_digits_value_grows(d, n + 1);
        assert(d.take(n + 1).drop_last() =~= d.take(n));
    } else {
        assert(d.take(n) =~= d);
    }
}

// ------------------------------------------------------------------ lines --

/// A line as `str::lines` yields it: without its `\n`, and without a `\r`
/// that stood just before that `\n`.
pub open spec fn strip_cr(raw: Seq<char>) -> Seq<char> {
    if raw.len() > 0 && raw.last() == '\r' {
        raw.drop_last()
    } else {
        raw
    }
}

/// `str::lines`: split at each `\n`; the last line's ending is optional.
pub open spec fn lines(s: Seq<char>) -> Seq<Seq<char>>
    decreases s.len(),
{
    if s.len() == 0 {
        seq![]
    } else {
        proof {
            lemma_index_of_char(s, '\n');
        }
        match index_of_char(s, '\n') {
            Some(k) => seq![strip_cr(s.take(k))] + lines(s.skip(k + 1)),
            None => seq![s],
        }
    }
}

pub proof fn lemma_lines_len(s: Seq<char>)
    ensures
        lines(s).len() <= s.len(),
    decreases s.len(),
{
    if s.len() > 0 {
        lemma_index_of_char(s, '\n');
        if let Some(k) = index_of_char(s, '\n') {
            lemma_lines_len(s.skip(k + 1));
        }
    }
}

/// `str::lines`, each line copied out.
pub fn split_lines(s: &[char]) -> (r: Vec<Vec<char>>)
    ensures
        r@.map_values(|l: Vec<char>| l@) == lines(s@),
{
    let mut out: Vec<Vec<char>> = Vec::new();
    let mut start: usize = 0;
    let ghost whole = s@;
    proof {
        assert(s@.skip(0) =~= s@);
        assert(out@.map_values(|l: Vec<char>| l@) + lines(s@) =~= lines(s@));
    }
    while start < s.len()
        invariant
            start <= s@.len(),
            whole == s@,
            out@.map_values(|l: Vec<char>| l@) + lines(s@.skip(start as int)) == lines(s@),
        decreases s@.len() - start,
    {
        let ghost rest = s@.skip(start as int);
        let mut end = start;
        while end < s.len() && s[end] != '\n'
            invariant
                start <= end <= s@.len(),
                forall|j: int| start <= j < end ==> s@[j] != '\n',
            decreases s@.len() - end,
        {
            end = end + 1;
        }
        proof {
            assert forall|j: int| 0 <= j < end - start implies rest[j] != '\n' by {
                assert(rest[j] == s@[start + j]);
            }
            if end < s@.len() {
                assert(rest[end - start] == s@[end as int]);
                lemma_index_of_char_is(rest, '\n', end - start);
            } else {
                lemma_index_of_char_none(rest, '\n');
            }
        }
        if end < s.len() {
            // a line ended by `\n`
            let mut stop = end;
            if stop > start && s[stop - 1] == '\r' {
                stop = stop - 1;
            }
            let line = slice_of(s, start, stop);
            proof {
                assert(rest.take(end - start) =~= s@.subrange(start as int, end as int));
                assert(rest.skip(end - start + 1) =~= s@.skip(end + 1));
                let raw = rest.take(end - start);
                if raw.len() > 0 && raw.last() == '\r' {
                    assert(raw.drop_last() =~= s@.subrange(start as int, stop as int));
                } else {
                    assert(raw =~= s@.subrange(start as int, stop as int));
                }
                assert(lines(rest) == seq![line@] + lines(s@.skip(end + 1)));
            }
            let ghost before = out@.map_values(|l: Vec<char>| l@);
            out.push(line);
            proof {
                assert(out@.map_values(|l: Vec<char>| l@) =~= before.push(line@));
                assert(before.push(line@) + lines(s@.skip(end + 1)) =~= before + (seq![line@]
                    + lines(s@.skip(end + 1))));
            }
            start = end + 1;
        } else {
            let line = slice_of(s, start, end);
            proof {
                assert(rest =~= s@.subrange(start as int, end as int));
                assert(lines(rest) == seq![line@]);
            }
            let ghost before = out@.map_values(|l: Vec<char>| l@);
            out.push(line);
            proof {
                assert(out@.map_values(|l: Vec<char>| l@) =~= before.push(line@));
                assert(s@.skip(end as int).len() == 0);
                assert(lines(s@.skip(end as int)) =~= seq![]);
                assert(before.push(line@) + lines(s@.skip(end as int)) =~= before + seq![line@]);
            }
            start = end;
        }
    }
    proof {
        assert(s@.skip(start as int).len() == 0);
        assert(lines(s@.skip(start as int)) =~= seq![]);
        assert(out@.map_values(|l: Vec<char>| l@) + seq![] =~= out@.map_values(
            |l: Vec<char>| l@,
        ));
    }
    out
}

// ------------------------------------------------------------------ words --

/// Splitting `s` at white space, character by character: the words
/// finished so far and the one being read.
pub open spec fn split_state(s: Seq<char>) -> (Seq<Seq<char>>, Seq<char>)
    decreases s.len(),
{
    if s.len() == 0 {
        (seq![], seq![])
    } else {
        let (ws, cur) = split_state(s.drop_last());
        if is_ws(s.last()) {
            if cur.len() > 0 {
                (ws.push(cur), seq![])
            } else {
                (ws, seq![])
            }
        } else {
            (ws, cur.push(s.last()))
        }
    }
}

/// `str::split_whitespace`: the maximal runs of characters that are not
/// white space.
pub open spec fn words(s: Seq<char>) -> Seq<Seq<char>> {
    let (ws, cur) = split_state(s);
    if cur.len() > 0 {
        ws.push(cur)
    } else {
        ws
    }
}

/// `str::split_whitespace`, each word copied out.
pub fn split_words(s: &[char]) -> (r: Vec<Vec<char>>)
    ensures
        r@.map_values(|w: Vec<char>| w@) == words(s@),
{
    let mut out: Vec<Vec<char>> = Vec::new();
    let mut cur: Vec<char> = Vec::new();
    let mut i: usize = 0;
    while i < s.len()
        invariant
            i <= s@.len(),
            (out@.map_values(|w: Vec<char>| w@), cur@) == split_state(s@.take(i as int)),
        decreases s@.len() - i,
    {
        proof {
            assert(s@.take(i + 1).drop_last() =~= s@.take(i as int));
            assert(s@.take(i + 1).last() == s@[i as int]);
        }
        let c = s[i];
        if is_whitespace(c) {
            if cur.len() > 0 {
                let ghost before = out@.map_values(|w: Vec<char>| w@);
                let done = cur;
                cur = Vec::new();
                out.push(done);
                proof {
                    assert(out@.map_values(|w: Vec<char>| w@) =~= before.push(done@));
                    assert(cur@ =~= Seq::<char>::empty());
                }
            } else {
                cur = Vec::new();
                proof {
                    assert(cur@ =~= Seq::<char>::empty());
                }
            }
        } else {
            cur.push(c);
        }
        i = i + 1;
    }
    proof {
        assert(s@.take(i as int) =~= s@);
    }
    if cur.len() > 0 {
        let ghost before = out@.map_values(|w: Vec<char>| w@);
        out.push(cur);
        proof {
            assert(out@.map_values(|w: Vec<char>| w@) =~= before.push(split_state(s@).1));
        }
    }
    out
}

// ------------------------------------------------------------ trim facts --

pub proof fn lemma_trim_start_suffix(s: Seq<char>, k: Strip)
    ensures
        trim_start_by(s, k).len() <= s.len(),
        trim_start_by(s, k) == s.skip(s.len() - trim_start_by(s, k).len()),
        s.len() > 0 && strips(k, s[0]) ==> trim_start_by(s, k).len() < s.len(),
        trim_start_by(s, k).len() > 0 ==> !strips(k, trim_start_by(s, k)[0]),
    decreases s.len(),
{
    if s.len() > 0 && strips(k, s[0]) {
        lemma_trim_start_suffix(s.drop_first(), k);
        let t = trim_start_by(s.drop_first(), k);
        assert(s.drop_first().skip(s.drop_first().len() - t.len()) =~= s.skip(s.len() - t.len()));
    } else {
        assert(s.skip(0) =~= s);
    }
}

pub proof fn lemma_trim_end_prefix(s: Seq<char>, k: Strip)
    ensures
        trim_end_by(s, k).len() <= s.len(),
        trim_end_by(s, k) == s.take(trim_end_by(s, k).len() as int),
        s.len() > 0 && strips(k, s.last()) ==> trim_end_by(s, k).len() < s.len(),
        trim_end_by(s, k).len() > 0 ==> !strips(k, trim_end_by(s, k).last()),
    decreases s.len(),
{
    if s.len() > 0 && strips(k, s.last()) {
        lemma_trim_end_prefix(s.drop_last(), k);
        let t = trim_end_by(s.drop_last(), k);
        assert(s.drop_last().take(t.len() as int) =~= s.take(t.len() as int));
    } else {
        assert(s.take(s.len() as int) =~= s);
    }
}

/// A trimmed text that says something starts and ends with something that is
/// not white space.
pub proof fn lemma_trimmed_ends(v: Seq<char>)
    requires
        v == trim(v),
        v.len() > 0,
    ensures
        !is_ws(v[0]),
        !is_ws(v.last()),
{
    lemma_trim_start_suffix(v, Strip::Space);
    let a = trim_start_by(v, Strip::Space);
    lemma_trim_end_prefix(a, Strip::Space);
    if is_ws(v[0]) {
        assert(a.len() < v.len());
    }
    if is_ws(v.last()) {
        if a.len() == v.len() {
            assert(a =~= v);
        }
    }
}

/// Trimming a text that starts and ends with something other than white
/// space leaves it as it is.
pub proof fn lemma_trim_fixed(v: Seq<char>)
    requires
        v.len() > 0,
        !is_ws(v[0]),
        !is_ws(v.last()),
    ensures
        trim(v) == v,
{
}

/// White space on the end makes no difference to `trim_end`.
pub proof fn lemma_trim_end_ws_tail(s: Seq<char>, w: Seq<char>)
    requires
        forall|i: int| 0 <= i < w.len() ==> is_ws(#[trigger] w[i]),
    ensures
        trim_end(s + w) == trim_end(s),
    decreases w.len(),
{
    if w.len() > 0 {
        assert((s + w).drop_last() =~= s + w.drop_last());
        assert((s + w).last() == w.last());
        lemma_trim_end_ws_tail(s, w.drop_last());
    } else {
        assert(s + w =~= s);
    }
}

/// White space at the head makes no difference to `trim_start`.
pub proof fn lemma_trim_start_ws_head(w: Seq<char>, s: Seq<char>)
    requires
        forall|i: int| 0 <= i < w.len() ==> is_ws(#[trigger] w[i]),
    ensures
        trim_start_by(w + s, Strip::Space) == trim_start_by(s, Strip::Space),
    decreases w.len(),
{
    if w.len() > 0 {
        assert((w + s).drop_first() =~= w.drop_first() + s);
        assert((w + s)[0] == w[0]);
        lemma_trim_start_ws_head(w.drop_first(), s);
    } else {
        assert(w + s =~= s);
    }
}

/// `trim_end` of a text whose last character is not white space.
pub proof fn lemma_trim_end_fixed(s: Seq<char>)
    requires
        s.len() > 0,
        !is_ws(s.last()),
    ensures
        trim_end(s) == s,
{
}

// ------------------------------------------------------------ line facts --

/// A line without a newline, then a newline: the first of the lines.
pub proof fn lemma_lines_cons(a: Seq<char>, rest: Seq<char>)
    requires
        !a.contains('\n'),
    ensures
        lines(a + seq!['\n'] + rest) == seq![strip_cr(a)] + lines(rest),
{
    let s = a + seq!['\n'] + rest;
    assert forall|j: int| 0 <= j < a.len() implies s[j] != '\n' by {
        assert(s[j] == a[j]);
    }
    assert(s[a.len() as int] == '\n');
    lemma_index_of_char_is(s, '\n', a.len() as int);
    assert(s.take(a.len() as int) =~= a);
    assert(s.skip(a.len() as int + 1) =~= rest);
}

/// Lines of two texts, the first ending in a newline, are the lines of each.
pub proof fn lemma_lines_append(a: Seq<char>, b: Seq<char>)
    requires
        a.len() == 0 || a.last() == '\n',
    ensures
        lines(a + b) == lines(a) + lines(b),
    decreases a.len(),
{
    if a.len() == 0 {
        assert(a + b =~= b);
        assert(lines(a) =~= Seq::<Seq<char>>::empty());
        assert(lines(a) + lines(b) =~= lines(b));
    } else {
        lemma_index_of_char(a, '\n');
        let k = index_of_char(a, '\n')->0;
        let head = a.take(k);
        let tail = a.skip(k + 1);
        assert(a =~= head + seq!['\n'] + tail);
        assert(!head.contains('\n')) by {
            assert forall|j: int| 0 <= j < head.len() implies head[j] != '\n' by {
                assert(head[j] == a[j]);
            }
        }
        assert(tail.len() == 0 || tail.last() == '\n') by {
            if tail.len() > 0 {
                assert(tail.last() == a.last());
            }
        }
        lemma_lines_append(tail, b);
        lemma_lines_cons(head, tail + b);
        lemma_lines_cons(head, tail);
        assert(a + b =~= head + seq!['\n'] + (tail + b));
    }
}


// ------------------------------------------------- searching a remainder --

/// Where `p` occurs in `s` at or after `i`, by where it occurs in what is
/// left of `s` from `i`.
pub proof fn lemma_find_from_skip(s: Seq<char>, p: Seq<char>, i: int, j: int)
    requires
        0 <= i <= j,
        i <= s.len(),
    ensures
        find_from(s, p, j) == (match find_from(s.skip(i), p, j - i) {
            Some(k) => Some(k + i),
            None => None,
        }),
    decreases s.len() + 1 - j,
{
    let t = s.skip(i);
    if j + p.len() > s.len() {
    } else {
        assert(occurs_at(s, p, j) == occurs_at(t, p, j - i)) by {
            assert(s.subrange(j, j + p.len()) =~= t.subrange(j - i, j - i + p.len()));
        }
        if !occurs_at(s, p, j) {
            lemma_find_from_skip(s, p, i, j + 1);
        }
    }
}

/// `find` on what is left of `s` from `i`, by `find_from` on `s`.
pub proof fn lemma_find_skip(s: Seq<char>, p: Seq<char>, i: int)
    requires
        0 <= i <= s.len(),
    ensures
        find_from(s, p, i) == (match find(s.skip(i), p) {
            Some(k) => Some(k + i),
            None => None,
        }),
        find(s.skip(i), p) matches Some(k) ==> 0 <= k && i + k + p.len() <= s.len(),
{
    lemma_find_from_skip(s, p, i, i);
    lemma_find_from_bounds(s.skip(i), p, 0);
}

/// Where `p` occurs in `s` from `pos` on, if it does.
pub fn find_in_rest(s: &[char], p: &[char], pos: usize) -> (r: Option<usize>)
    requires
        pos <= s@.len(),
    ensures
        r matches Some(k) ==> pos <= k && k + p@.len() <= s@.len() && find(s@.skip(pos as int), p@)
            == Some(k - pos),
        r is None ==> find(s@.skip(pos as int), p@) is None,
{
    proof {
        lemma_find_skip(s@, p@, pos as int);
    }
    find_chars_from(s, p, pos)
}

// ------------------------------------------------------ replace and split --

/// `str::replace` for a pattern that is not empty: every occurrence, left
/// to right, without overlaps.
pub open spec fn replace(s: Seq<char>, p: Seq<char>, r: Seq<char>) -> Seq<char>
    decreases s.len(),
{
    if p.len() == 0 {
        s
    } else {
        match find(s, p) {
            Some(k) => if 0 <= k && k + p.len() <= s.len() {
                s.take(k) + r + replace(s.skip(k + p.len()), p, r)
            } else {
                s
            },
            None => s,
        }
    }
}

/// `str::replace`.
pub fn replace_chars(s: &[char], p: &str, r: &str) -> (out: Vec<char>)
    requires
        p@.len() > 0,
    ensures
        out@ == replace(s@, p@, r@),
{
    let pc = chars_of(p);
    let rc = chars_of(r);
    let mut out: Vec<char> = Vec::new();
    let mut pos: usize = 0;
    let n = s.len();
    proof {
        assert(s@.skip(0) =~= s@);
    }
    loop
        invariant
            pos <= s@.len(),
            n == s@.len(),
            pc@ == p@,
            rc@ == r@,
            p@.len() > 0,
            out@ + replace(s@.skip(pos as int), p@, r@) == replace(s@, p@, r@),
        decreases s@.len() - pos,
    {
        let ghost rest = s@.skip(pos as int);
        match find_in_rest(s, pc.as_slice(), pos) {
            Some(k) => {
                let ghost before = out@;
                let piece = slice_of(s, pos, k);
                push_all(&mut out, piece.as_slice());
                push_all(&mut out, rc.as_slice());
                proof {
                    assert(rest.take(k - pos) =~= piece@);
                    assert(rest.skip(k - pos + p@.len()) =~= s@.skip(k + p@.len()));
                    assert(out@ + replace(s@.skip(k + p@.len()), p@, r@) =~= before + (piece@ + r@
                        + replace(s@.skip(k + p@.len()), p@, r@)));
                }
                pos = k + pc.len();
            },
            None => {
                let piece = slice_of(s, pos, s.len());
                push_all(&mut out, piece.as_slice());
                proof {
                    assert(rest =~= piece@);
                }
                return out;
            },
        }
    }
}

/// `str::split` for a pattern that is not empty: the pieces between the
/// occurrences, the empty ones included.
pub open spec fn split_on(s: Seq<char>, p: Seq<char>) -> Seq<Seq<char>>
    decreases s.len(),
{
    if p.len() == 0 {
        seq![s]
    } else {
        match find(s, p) {
            Some(k) => if 0 <= k && k + p.len() <= s.len() {
                seq![s.take(k)] + split_on(s.skip(k + p.len()), p)
            } else {
                seq![s]
            },
            None => seq![s],
        }
    }
}

/// `str::split`, each piece copied out.
pub fn split_on_chars(s: &[char], p: &str) -> (r: Vec<Vec<char>>)
    requires
        p@.len() > 0,
    ensures
        r@.map_values(|l: Vec<char>| l@) == split_on(s@, p@),
{
    let pc = chars_of(p);
    let n = s.len();
    let mut out: Vec<Vec<char>> = Vec::new();
    let mut pos: usize = 0;
    proof {
        assert(s@.skip(0) =~= s@);
        assert(out@.map_values(|l: Vec<char>| l@) =~= Seq::<Seq<char>>::empty());
    }
    loop
        invariant
            pos <= s@.len(),
            n == s@.len(),
            pc@ == p@,
            p@.len() > 0,
            out@.map_values(|l: Vec<char>| l@) + split_on(s@.skip(pos as int), p@) == split_on(
                s@,
                p@,
            ),
        decreases s@.len() - pos,
    {
        let ghost rest = s@.skip(pos as int);
        let ghost before = out@.map_values(|l: Vec<char>| l@);
        match find_in_rest(s, pc.as_slice(), pos) {
            Some(k) => {
                let piece = slice_of(s, pos, k);
                out.push(piece);
                proof {
                    assert(rest.take(k - pos) =~= piece@);
                    assert(rest.skip(k - pos + p@.len()) =~= s@.skip(k + p@.len()));
                    assert(out@.map_values(|l: Vec<char>| l@) =~= before.push(piece@));
                    assert(before.push(piece@) + split_on(s@.skip(k + p@.len()), p@) =~= before + (
                    seq![piece@] + split_on(s@.skip(k + p@.len()), p@)));
                }
                pos = k + pc.len();
            },
            None => {
                let piece = slice_of(s, pos, n);
                out.push(piece);
                proof {
                    assert(rest =~= piece@);
                    assert(out@.map_values(|l: Vec<char>| l@) =~= before.push(piece@));
                    assert(before.push(piece@) =~= before + seq![piece@]);
                }
                return out;
            },
        }
    }
}

} // verus!
