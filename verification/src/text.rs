//! Character-level text operations shared by the configuration and
//! translation code: whitespace trimming, searching and escape replacement,
//! each with a specification over `Seq<char>`.
use vstd::prelude::*;

verus! {

/// `char::is_whitespace`: the Unicode `White_Space` property.
pub open spec fn is_white_space(c: char) -> bool {
    let u = c as u32;
    ||| 0x09 <= u <= 0x0d
    ||| u == 0x20
    ||| u == 0x85
    ||| u == 0xa0
    ||| u == 0x1680
    ||| 0x2000 <= u <= 0x200a
    ||| u == 0x2028
    ||| u == 0x2029
    ||| u == 0x202f
    ||| u == 0x205f
    ||| u == 0x3000
}

/// The text with its leading whitespace removed.
pub open spec fn trim_start(s: Seq<char>) -> Seq<char>
    decreases s.len(),
{
    if s.len() > 0 && is_white_space(s[0]) {
        trim_start(s.drop_first())
    } else {
        s
    }
}

/// The text with its trailing whitespace removed.
pub open spec fn trim_end(s: Seq<char>) -> Seq<char>
    decreases s.len(),
{
    if s.len() > 0 && is_white_space(s.last()) {
        trim_end(s.drop_last())
    } else {
        s
    }
}

/// `str::trim`: the text without leading and trailing whitespace.
pub open spec fn trim(s: Seq<char>) -> Seq<char> {
    trim_end(trim_start(s))
}

/// `s` begins with `prefix`.
pub open spec fn has_prefix(s: Seq<char>, prefix: Seq<char>) -> bool {
    prefix.len() <= s.len() && s.subrange(0, prefix.len() as int) == prefix
}

/// `needle` occurs in `haystack` starting at position `i`.
pub open spec fn occurs_at(haystack: Seq<char>, needle: Seq<char>, i: int) -> bool {
    0 <= i && i + needle.len() <= haystack.len() && haystack.subrange(i, i + needle.len())
        == needle
}

/// `str::contains`: `needle` occurs somewhere in `haystack`.
pub open spec fn contains_text(haystack: Seq<char>, needle: Seq<char>) -> bool {
    exists|i: int| occurs_at(haystack, needle, i)
}

/// The index of the first occurrence of `c` in `s`, if any.
pub open spec fn first_index_of(s: Seq<char>, c: char) -> Option<int>
    decreases s.len(),
{
    if s.len() == 0 {
        None
    } else if s[0] == c {
        Some(0)
    } else {
        match first_index_of(s.drop_first(), c) {
            Some(i) => Some(i + 1),
            None => None,
        }
    }
}

/// `str::replace` of the two-character pattern `\` `marker` by `replacement`:
/// matches are taken from left to right and do not overlap.
pub open spec fn replace_escape(s: Seq<char>, marker: char, replacement: char) -> Seq<char>
    decreases s.len(),
{
    if s.len() < 2 {
        s
    } else if s[0] == '\\' && s[1] == marker {
        seq![replacement] + replace_escape(s.skip(2), marker, replacement)
    } else {
        seq![s[0]] + replace_escape(s.drop_first(), marker, replacement)
    }
}

/// The characters of a string slice, in order.
pub fn chars_of(s: &str) -> (res: Vec<char>)
    ensures
        res@ == s@,
{
    broadcast use vstd::string::group_string_axioms;
    let mut res: Vec<char> = Vec::new();
    for c in it: s.chars()
        invariant
            it.seq() == s@,
            res@ == it.seq().take(it.index() as int),
    {
        res.push(c);
    }
    assert(s@.take(s@.len() as int) == s@);
    res
}

/// A string made of the given characters, in order.
///
/// Trusted: collects the characters with `String: FromIterator<&char>`; std
/// documents that this appends each character in turn.
#[verifier::external_body]
pub fn string_of(chars: &[char]) -> (res: String)
    ensures
        res@ == chars@,
{
    chars.iter().collect()
}

/// What `str::to_lowercase` returns: the Unicode lowercase mapping of the
/// text, a function of the text alone.
pub uninterp spec fn unicode_lowercase(s: Seq<char>) -> Seq<char>;

/// `str::to_lowercase`.
///
/// Trusted: the result is the Unicode lowercase mapping of the argument, named
/// `unicode_lowercase`; the mapping itself is not stated.
#[verifier::external_body]
pub fn to_lowercase(s: &str) -> (res: String)
    ensures
        res@ == unicode_lowercase(s@),
{
    s.to_lowercase()
}

/// `char::is_whitespace`.
pub fn is_whitespace(c: char) -> (res: bool)
    ensures
        res == is_white_space(c),
{
    let u = c as u32;
    (0x09 <= u && u <= 0x0d) || u == 0x20 || u == 0x85 || u == 0xa0 || u == 0x1680 || (0x2000
        <= u && u <= 0x200a) || u == 0x2028 || u == 0x2029 || u == 0x202f || u == 0x205f || u
        == 0x3000
}

/// The bounds of the trimmed text inside `s`.
pub fn trim_bounds(s: &[char]) -> (res: (usize, usize))
    ensures
        res.0 <= res.1 <= s@.len(),
        s@.subrange(res.0 as int, res.1 as int) == trim(s@),
        trim_start(s@) == s@.skip(res.0 as int),
{
    let n = s.len();
    let mut i: usize = 0;
    assert(s@.skip(0) == s@);
    while i < n && is_whitespace(s[i])
        invariant
            i <= n,
            n == s@.len(),
            trim_start(s@.skip(i as int)) == trim_start(s@),
        decreases n - i,
    {
        assert(s@.skip(i as int).drop_first() == s@.skip(i + 1));
        i = i + 1;
    }
    assert(trim_start(s@.skip(i as int)) == s@.skip(i as int));
    let mut j: usize = n;
    assert(s@.subrange(i as int, n as int) == s@.skip(i as int));
    while j > i && is_whitespace(s[j - 1])
        invariant
            i <= j <= n,
            n == s@.len(),
            trim_end(s@.subrange(i as int, j as int)) == trim(s@),
            trim_start(s@) == s@.skip(i as int),
        decreases j,
    {
        assert(s@.subrange(i as int, j as int).drop_last() == s@.subrange(i as int, j - 1));
        j = j - 1;
    }
    (i, j)
}

/// A copy of `s[from..to]`.
pub fn copy_range(s: &[char], from: usize, to: usize) -> (res: Vec<char>)
    requires
        from <= to <= s@.len(),
    ensures
        res@ == s@.subrange(from as int, to as int),
{
    let mut res: Vec<char> = Vec::new();
    let mut k: usize = from;
    while k < to
        invariant
            from <= k <= to <= s@.len(),
            res@ == s@.subrange(from as int, k as int),
        decreases to - k,
    {
        res.push(s[k]);
        assert(res@ == s@.subrange(from as int, k + 1));
        k = k + 1;
    }
    res
}

/// `str::trim` on characters.
pub fn trim_chars(s: &[char]) -> (res: Vec<char>)
    ensures
        res@ == trim(s@),
{
    let (a, b) = trim_bounds(s);
    copy_range(s, a, b)
}

/// The index of the first occurrence of `c` in `s`, if any.
pub fn find_char(s: &[char], c: char) -> (res: Option<usize>)
    ensures
        first_index_of(s@, c) == match res {
            Some(i) => Some(i as int),
            None => None,
        },
        res matches Some(i) ==> i < s@.len() && s@[i as int] == c && forall|k: int|
            0 <= k < i ==> s@[k] != c,
        res is None ==> forall|k: int| 0 <= k < s@.len() ==> s@[k] != c,
{
    let n = s.len();
    let mut i: usize = 0;
    assert(s@.skip(0) == s@);
    while i < n
        invariant
            i <= n == s@.len(),
            forall|k: int| 0 <= k < i ==> s@[k] != c,
            first_index_of(s@, c) == match first_index_of(s@.skip(i as int), c) {
                Some(j) => Some(j + i),
                None => None,
            },
        decreases n - i,
    {
        if s[i] == c {
            return Some(i);
        }
        assert(s@.skip(i as int).drop_first() == s@.skip(i + 1));
        i = i + 1;
    }
    None
}

/// Element-wise equality of two character sequences.
pub fn chars_equal(a: &[char], b: &[char]) -> (res: bool)
    ensures
        res == (a@ == b@),
{
    if a.len() != b.len() {
        return false;
    }
    let n = a.len();
    let mut i: usize = 0;
    while i < n
        invariant
            i <= n == a@.len() == b@.len(),
            forall|k: int| 0 <= k < i ==> a@[k] == b@[k],
        decreases n - i,
    {
        if a[i] != b[i] {
            return false;
        }
        i = i + 1;
    }
    assert(a@ =~= b@);
    true
}

/// `s` begins with `prefix`.
pub fn starts_with(s: &[char], prefix: &[char]) -> (res: bool)
    ensures
        res == has_prefix(s@, prefix@),
{
    if prefix.len() > s.len() {
        return false;
    }
    chars_equal(&s[0..prefix.len()], prefix)
}

/// `str::contains` on characters: a left-to-right search for `needle`.
pub fn contains(haystack: &[char], needle: &[char]) -> (res: bool)
    ensures
        res == contains_text(haystack@, needle@),
{
    let n = haystack.len();
    let m = needle.len();
    if m > n {
        assert forall|i: int| !occurs_at(haystack@, needle@, i) by {}
        return false;
    }
    if m == 0 {
        assert(haystack@.subrange(0, 0) =~= needle@);
        assert(occurs_at(haystack@, needle@, 0));
        return true;
    }
    let mut i: usize = 0;
    while i <= n - m
        invariant
            1 <= m <= n,
            n == haystack@.len(),
            m == needle@.len(),
            forall|k: int| 0 <= k < i ==> !occurs_at(haystack@, needle@, k),
        decreases n - m + 1 - i,
    {
        if chars_equal(&haystack[i..i + m], needle) {
            assert(occurs_at(haystack@, needle@, i as int));
            return true;
        }
        i = i + 1;
    }
    assert forall|k: int| !occurs_at(haystack@, needle@, k) by {
        if 0 <= k && k + m <= n {
            assert(k < i);
        }
    }
    false
}

/// Replaces each `\` `marker` pair in `s`, from left to right, by `replacement`.
pub fn replace_escape_chars(s: &[char], marker: char, replacement: char) -> (res: Vec<char>)
    ensures
        res@ == replace_escape(s@, marker, replacement),
{
    let n = s.len();
    let mut res: Vec<char> = Vec::new();
    let mut i: usize = 0;
    assert(s@.skip(0) == s@);
    assert(res@ + s@ =~= s@);
    while i < n
        invariant
            i <= n == s@.len(),
            res@ + replace_escape(s@.skip(i as int), marker, replacement) == replace_escape(
                s@,
                marker,
                replacement,
            ),
        decreases n - i,
    {
        let ghost rest = s@.skip(i as int);
        if i + 1 < n && s[i] == '\\' && s[i + 1] == marker {
            assert(rest.skip(2) == s@.skip(i + 2));
            assert(res@.push(replacement) + replace_escape(s@.skip(i + 2), marker, replacement)
                == res@ + (seq![replacement] + replace_escape(rest.skip(2), marker, replacement)));
            res.push(replacement);
            i = i + 2;
        } else if i + 1 < n {
            assert(rest.drop_first() == s@.skip(i + 1));
            assert(res@.push(s@[i as int]) + replace_escape(s@.skip(i + 1), marker, replacement)
                == res@ + (seq![rest[0]] + replace_escape(rest.drop_first(), marker, replacement)));
            res.push(s[i]);
            i = i + 1;
        } else {
            assert(rest == seq![s@[i as int]]);
            assert(s@.skip(i + 1).len() == 0);
            assert(res@.push(s@[i as int]) + replace_escape(s@.skip(i + 1), marker, replacement)
                =~= res@ + rest);
            res.push(s[i]);
            i = i + 1;
        }
    }
    assert(res@ + replace_escape(s@.skip(n as int), marker, replacement) =~= res@);
    res
}

/// Leading whitespace is dropped by `trim_start`.
pub proof fn lemma_trim_start_skips_white_space(w: Seq<char>, s: Seq<char>)
    requires
        forall|i: int| 0 <= i < w.len() ==> is_white_space(w[i]),
    ensures
        trim_start(w + s) == trim_start(s),
    decreases w.len(),
{
    if w.len() > 0 {
        assert((w + s)[0] == w[0]);
        assert((w + s).drop_first() =~= w.drop_first() + s);
        lemma_trim_start_skips_white_space(w.drop_first(), s);
    } else {
        assert(w + s =~= s);
    }
}

/// Trailing whitespace is dropped by `trim_end`.
pub proof fn lemma_trim_end_skips_white_space(s: Seq<char>, w: Seq<char>)
    requires
        forall|i: int| 0 <= i < w.len() ==> is_white_space(w[i]),
    ensures
        trim_end(s + w) == trim_end(s),
    decreases w.len(),
{
    if w.len() > 0 {
        assert((s + w).last() == w.last());
        assert((s + w).drop_last() =~= s + w.drop_last());
        lemma_trim_end_skips_white_space(s, w.drop_last());
    } else {
        assert(s + w =~= s);
    }
}

/// Surrounding whitespace is what `trim` removes: a text whose ends are not
/// whitespace comes back unchanged.
pub proof fn lemma_trim_padded(w1: Seq<char>, t: Seq<char>, w2: Seq<char>)
    requires
        forall|i: int| 0 <= i < w1.len() ==> is_white_space(w1[i]),
        forall|i: int| 0 <= i < w2.len() ==> is_white_space(w2[i]),
        t.len() > 0,
        !is_white_space(t[0]),
        !is_white_space(t.last()),
    ensures
        trim(w1 + t + w2) == t,
{
    assert(w1 + t + w2 =~= w1 + (t + w2));
    lemma_trim_start_skips_white_space(w1, t + w2);
    assert((t + w2)[0] == t[0]);
    lemma_trim_end_skips_white_space(t, w2);
}

/// `first_index_of` finds the first occurrence.
pub proof fn lemma_first_index_of(s: Seq<char>, c: char)
    ensures
        match first_index_of(s, c) {
            Some(i) => 0 <= i < s.len() && s[i] == c && forall|k: int| 0 <= k < i ==> s[k] != c,
            None => forall|k: int| 0 <= k < s.len() ==> s[k] != c,
        },
    decreases s.len(),
{
    if s.len() > 0 {
        lemma_first_index_of(s.drop_first(), c);
        if s[0] != c {
            assert forall|k: int| 0 <= k < s.len() && s.drop_first().len() + 1 == s.len() && 1
                <= k implies s[k] == s.drop_first()[k - 1] by {}
        }
    }
}

/// A text whose first character is not whitespace keeps that character
/// when trimmed.
pub proof fn lemma_trim_keeps_first(s: Seq<char>)
    requires
        s.len() > 0,
        !is_white_space(s[0]),
    ensures
        trim(s).len() > 0,
        trim(s)[0] == s[0],
    decreases s.len(),
{
    lemma_trim_end_keeps_first(s);
}

/// `trim_end` keeps a first character that is not whitespace.
proof fn lemma_trim_end_keeps_first(s: Seq<char>)
    requires
        s.len() > 0,
        !is_white_space(s[0]),
    ensures
        trim_end(s).len() > 0,
        trim_end(s)[0] == s[0],
    decreases s.len(),
{
    if is_white_space(s.last()) {
        assert(s.len() > 1);
        assert(s.drop_last()[0] == s[0]);
        lemma_trim_end_keeps_first(s.drop_last());
    }
}

/// A text contains whatever stands in it, and nothing longer than itself.
pub proof fn law_contains_occurrence(a: Seq<char>, needle: Seq<char>, b: Seq<char>, haystack: Seq<char>)
    ensures
        contains_text(a + needle + b, needle),
        contains_text(haystack, needle) ==> needle.len() <= haystack.len(),
        contains_text(haystack, Seq::empty()),
{
    let t = a + needle + b;
    assert(t.subrange(a.len() as int, a.len() as int + needle.len()) =~= needle);
    assert(occurs_at(t, needle, a.len() as int));
    assert(haystack.subrange(0, 0) =~= Seq::<char>::empty());
    assert(occurs_at(haystack, Seq::empty(), 0));
}

} // verus!
