//! Text as sequences of characters: what the rest of the library searches,
//! splits, trims and assembles.
//!
//! A `&str` or `String` is modelled by its view, a `Seq<char>`. Functions that
//! look inside a text work on a slice of its characters.

use vstd::prelude::*;
use vstd::slice::slice_subrange;
use vstd::string::*;

verus! {

// ── The standard library ───────────────────────────────────────────────────
/// `String::push` appends one character.
pub assume_specification[ String::push ](s: &mut String, c: char)
    ensures
        final(s)@ == old(s)@.push(c),
;

/// The Unicode `White_Space` property.
pub open spec fn is_space(c: char) -> bool {
    ||| '\u{9}' <= c <= '\u{d}'
    ||| c == ' '
    ||| c == '\u{85}'
    ||| c == '\u{a0}'
    ||| c == '\u{1680}'
    ||| '\u{2000}' <= c <= '\u{200a}'
    ||| c == '\u{2028}'
    ||| c == '\u{2029}'
    ||| c == '\u{202f}'
    ||| c == '\u{205f}'
    ||| c == '\u{3000}'
}

/// `char::is_whitespace` holds of the characters with the `White_Space`
/// property and of no other.
pub assume_specification[ char::is_whitespace ](c: char) -> (r: bool)
    ensures
        r == is_space(c),
;

/// An ASCII letter.
pub open spec fn is_ascii_letter(c: char) -> bool {
    ('a' <= c && c <= 'z') || ('A' <= c && c <= 'Z')
}

/// An ASCII digit.
pub open spec fn is_digit(c: char) -> bool {
    '0' <= c && c <= '9'
}

/// What `char::is_alphabetic` answers: the Unicode `Alphabetic` property.
pub uninterp spec fn char_alphabetic(c: char) -> bool;

/// `char::is_alphabetic`, a property of the character alone. Among the ASCII
/// characters it holds of the letters.
pub assume_specification[ char::is_alphabetic ](c: char) -> (r: bool)
    ensures
        r == char_alphabetic(c),
        (c as u32) < 0x80 ==> r == is_ascii_letter(c),
;

/// What `char::is_alphanumeric` answers: `Alphabetic`, or a numeric character.
pub uninterp spec fn char_alphanumeric(c: char) -> bool;

/// `char::is_alphanumeric`, a property of the character alone. Among the ASCII
/// characters it holds of the letters and the digits.
pub assume_specification[ char::is_alphanumeric ](c: char) -> (r: bool)
    ensures
        r == char_alphanumeric(c),
        (c as u32) < 0x80 ==> r == (is_ascii_letter(c) || is_digit(c)),
;

/// What `char::is_uppercase` answers: the Unicode `Uppercase` property.
pub uninterp spec fn char_uppercase(c: char) -> bool;

/// `char::is_uppercase`, a property of the character alone. Among the ASCII
/// characters it holds of the capital letters.
pub assume_specification[ char::is_uppercase ](c: char) -> (r: bool)
    ensures
        r == char_uppercase(c),
        (c as u32) < 0x80 ==> r == ('A' <= c && c <= 'Z'),
;

/// What `str::to_lowercase` makes of a text.
pub uninterp spec fn lowercase(s: Seq<char>) -> Seq<char>;

/// The lower-case form of an ASCII character; any other is kept.
pub open spec fn ascii_lower_char(c: char) -> char {
    if 'A' <= c && c <= 'Z' {
        ((c as u8) + 32) as u8 as char
    } else {
        c
    }
}

/// `s` with its ASCII capitals made small.
pub open spec fn ascii_lower(s: Seq<char>) -> Seq<char> {
    s.map_values(|c: char| ascii_lower_char(c))
}

/// Every character is ASCII.
pub open spec fn all_ascii(s: Seq<char>) -> bool {
    forall|i: int| 0 <= i < s.len() ==> (s[i] as u32) < 0x80
}

/// `str::to_lowercase`, which depends on the text alone. Of an ASCII text it
/// makes the capitals small and keeps the rest.
pub assume_specification[ str::to_lowercase ](s: &str) -> (r: String)
    ensures
        r@ == lowercase(s@),
        all_ascii(s@) ==> r@ == ascii_lower(s@),
;

// ── Conversion ─────────────────────────────────────────────────────────────
/// The views of a sequence of strings.
pub open spec fn texts(v: Seq<String>) -> Seq<Seq<char>> {
    v.map_values(|s: String| s@)
}

/// Adding a string to a list adds its view to the views.
pub broadcast proof fn lemma_texts_push(v: Seq<String>, s: String)
    ensures
        #[trigger] texts(v.push(s)) == texts(v).push(s@),
{
    assert(texts(v.push(s)) =~= texts(v).push(s@));
}

/// The characters of `s`.
pub fn chars_of(s: &str) -> (r: Vec<char>)
    ensures
        r@ == s@,
{
    let mut out: Vec<char> = Vec::new();
    for c in it: s.chars()
        invariant
            out@ == it.seq().take(it.index() as int),
            it.seq() == s@,
    {
        out.push(c);
    }
    out
}

/// The string with the characters `c`.
pub fn text_of(c: &[char]) -> (r: String)
    ensures
        r@ == c@,
{
    let mut out = String::new();
    let mut i: usize = 0;
    while i < c.len()
        invariant
            i <= c@.len(),
            out@ == c@.take(i as int),
        decreases c@.len() - i,
    {
        out.push(c[i]);
        i += 1;
    }
    out
}

/// Appends the characters `c` to `s`.
pub fn append_chars(s: &mut String, c: &[char])
    ensures
        final(s)@ == old(s)@ + c@,
{
    let mut i: usize = 0;
    while i < c.len()
        invariant
            i <= c@.len(),
            s@ == old(s)@ + c@.take(i as int),
        decreases c@.len() - i,
    {
        s.push(c[i]);
        i += 1;
    }
    assert(c@.take(c@.len() as int) == c@);
}

/// `s` with its ASCII capitals made small.
pub fn ascii_lowercase(s: &str) -> (r: String)
    ensures
        r@ == ascii_lower(s@),
{
    let c = chars_of(s);
    let mut out = String::new();
    let mut i: usize = 0;
    while i < c.len()
        invariant
            c@ == s@,
            i <= c@.len(),
            out@ == ascii_lower(s@).take(i as int),
        decreases c@.len() - i,
    {
        let x = c[i];
        let y = if ('A' <= x) && (x <= 'Z') {
            ((x as u8) + 32) as char
        } else {
            x
        };
        out.push(y);
        assert(out@ =~= ascii_lower(s@).take(i + 1));
        i += 1;
    }
    assert(out@ =~= ascii_lower(s@));
    out
}

/// Whether two texts are the same.
pub fn same_text(a: &str, b: &str) -> (r: bool)
    ensures
        r == (a@ == b@),
{
    a.to_owned() == b.to_owned()
}

/// Whether `v` holds the text `s`.
pub fn holds_text(v: &[String], s: &str) -> (r: bool)
    ensures
        r == texts(v@).contains(s@),
{
    let mut i: usize = 0;
    while i < v.len()
        invariant
            i <= v@.len(),
            forall|j: int| 0 <= j < i ==> texts(v@)[j] != s@,
        decreases v@.len() - i,
    {
        if same_text(v[i].as_str(), s) {
            assert(texts(v@)[i as int] == s@);
            return true;
        }
        i += 1;
    }
    false
}

/// The views of string slices.
pub open spec fn str_views(v: Seq<&str>) -> Seq<Seq<char>> {
    v.map_values(|s: &str| s@)
}

/// Whether `s` is one of `options`.
pub fn is_one_of(s: &str, options: &[&str]) -> (r: bool)
    ensures
        r == str_views(options@).contains(s@),
{
    let mut i: usize = 0;
    while i < options.len()
        invariant
            i <= options@.len(),
            forall|j: int| 0 <= j < i ==> str_views(options@)[j] != s@,
        decreases options@.len() - i,
    {
        if same_text(options[i], s) {
            assert(str_views(options@)[i as int] == s@);
            return true;
        }
        i += 1;
    }
    false
}

/// Whether any of `options` occurs in `s`.
pub fn has_one_of(s: &str, options: &[&str]) -> (r: bool)
    ensures
        r == contains_any(s@, str_views(options@)),
{
    let c = chars_of(s);
    let mut i: usize = 0;
    while i < options.len()
        invariant
            c@ == s@,
            i <= options@.len(),
            forall|j: int| 0 <= j < i ==> !contains_text(s@, #[trigger] str_views(options@)[j]),
        decreases options@.len() - i,
    {
        let p = chars_of(options[i]);
        assert(str_views(options@)[i as int] == p@);
        if has_text(c.as_slice(), p.as_slice()) {
            return true;
        }
        i += 1;
    }
    false
}

// ── Searching ──────────────────────────────────────────────────────────────
/// `p` occurs in `s` at offset `i`.
pub open spec fn occurs_at(s: Seq<char>, p: Seq<char>, i: int) -> bool {
    0 <= i && i + p.len() <= s.len() && s.subrange(i, i + p.len()) == p
}

/// `p` occurs somewhere in `s`.
pub open spec fn contains_text(s: Seq<char>, p: Seq<char>) -> bool {
    exists|i: int| occurs_at(s, p, i)
}

/// `s` begins with `p`.
pub open spec fn starts_with(s: Seq<char>, p: Seq<char>) -> bool {
    occurs_at(s, p, 0)
}

/// `s` ends with `p`.
pub open spec fn ends_with(s: Seq<char>, p: Seq<char>) -> bool {
    occurs_at(s, p, s.len() - p.len())
}

/// The first offset from `i` on at which `p` occurs in `s`.
pub open spec fn find_from(s: Seq<char>, p: Seq<char>, i: int) -> Option<int>
    decreases s.len() + 1 - i,
{
    if i < 0 || i + p.len() > s.len() {
        None
    } else if occurs_at(s, p, i) {
        Some(i)
    } else {
        find_from(s, p, i + 1)
    }
}

/// What `find_from` returns is the first occurrence, and it misses none.
pub proof fn lemma_find_from(s: Seq<char>, p: Seq<char>, i: int)
    requires
        0 <= i,
    ensures
        match find_from(s, p, i) {
            Some(k) => i <= k && occurs_at(s, p, k) && forall|j: int|
                i <= j < k ==> !#[trigger] occurs_at(s, p, j),
            None => forall|j: int| i <= j ==> !#[trigger] occurs_at(s, p, j),
        },
    decreases s.len() + 1 - i,
{
    if i + p.len() > s.len() {
    } else if occurs_at(s, p, i) {
    } else {
        lemma_find_from(s, p, i + 1);
    }
}

/// A text contains `p` exactly when there is a first occurrence of it.
pub proof fn lemma_contains_is_found(s: Seq<char>, p: Seq<char>)
    ensures
        contains_text(s, p) == (find_from(s, p, 0) is Some),
{
    lemma_find_from(s, p, 0);
}

/// Whether `p` occurs in `s` at `i`.
pub fn text_at(s: &[char], p: &[char], i: usize) -> (r: bool)
    ensures
        r == occurs_at(s@, p@, i as int),
{
    if i > s.len() || p.len() > s.len() - i {
        return false;
    }
    let n: usize = s.len();
    let mut k: usize = 0;
    while k < p.len()
        invariant
            k <= p@.len(),
            n == s@.len(),
            i + p@.len() <= n,
            forall|j: int| 0 <= j < k ==> s@[i + j] == p@[j],
        decreases p@.len() - k,
    {
        if s[i + k] != p[k] {
            assert(s@.subrange(i as int, i + p@.len())[k as int] != p@[k as int]);
            return false;
        }
        k += 1;
    }
    assert(s@.subrange(i as int, i + p@.len()) =~= p@);
    true
}

/// The first offset from `from` on at which `p` occurs in `s`.
pub fn find_text_from(s: &[char], p: &[char], from: usize) -> (r: Option<usize>)
    ensures
        match r {
            Some(k) => find_from(s@, p@, from as int) == Some(k as int),
            None => find_from(s@, p@, from as int) is None,
        },
{
    let mut i: usize = from;
    while i <= s.len() && p.len() <= s.len() - i
        invariant
            find_from(s@, p@, from as int) == find_from(s@, p@, i as int),
        decreases s@.len() + 1 - i,
    {
        if text_at(s, p, i) {
            return Some(i);
        }
        if i == s.len() {
            assert(find_from(s@, p@, i + 1) is None);
            return None;
        }
        i += 1;
    }
    None
}

/// Whether `p` occurs in `s`.
pub fn has_text(s: &[char], p: &[char]) -> (r: bool)
    ensures
        r == contains_text(s@, p@),
{
    proof {
        lemma_contains_is_found(s@, p@);
    }
    find_text_from(s, p, 0).is_some()
}

/// Whether `p` occurs in the string `s`.
pub fn str_has(s: &str, p: &str) -> (r: bool)
    ensures
        r == contains_text(s@, p@),
{
    let a = chars_of(s);
    let b = chars_of(p);
    has_text(a.as_slice(), b.as_slice())
}

/// Whether any of `ps` occurs in `s`.
pub open spec fn contains_any(s: Seq<char>, ps: Seq<Seq<char>>) -> bool {
    exists|i: int| 0 <= i < ps.len() && contains_text(s, #[trigger] ps[i])
}

/// Whether `s` begins with `p`.
pub fn chars_start_with(s: &[char], p: &str) -> (r: bool)
    ensures
        r == starts_with(s@, p@),
{
    let b = chars_of(p);
    text_at(s, b.as_slice(), 0)
}

/// Whether the string `s` begins with `p`.
pub fn str_starts_with(s: &str, p: &str) -> (r: bool)
    ensures
        r == starts_with(s@, p@),
{
    let a = chars_of(s);
    chars_start_with(a.as_slice(), p)
}

/// Whether `s` ends with `p`.
pub fn chars_end_with(s: &[char], p: &str) -> (r: bool)
    ensures
        r == ends_with(s@, p@),
{
    let b = chars_of(p);
    if b.len() > s.len() {
        return false;
    }
    text_at(s, b.as_slice(), s.len() - b.len())
}

/// What follows the prefix `p` of `s`, if `s` begins with it.
pub open spec fn strip_front(s: Seq<char>, p: Seq<char>) -> Option<Seq<char>> {
    if starts_with(s, p) {
        Some(s.subrange(p.len() as int, s.len() as int))
    } else {
        None
    }
}

/// What follows the prefix `p` of `s`, if `s` begins with it.
pub fn chars_strip_front<'a>(s: &'a [char], p: &str) -> (r: Option<&'a [char]>)
    ensures
        match r {
            Some(x) => strip_front(s@, p@) == Some(x@),
            None => strip_front(s@, p@) is None,
        },
{
    let b = chars_of(p);
    if text_at(s, b.as_slice(), 0) {
        Some(slice_subrange(s, b.len(), s.len()))
    } else {
        None
    }
}

/// The first offset from `i` on whose character is `c`, or the length.
pub open spec fn index_of_char(s: Seq<char>, c: char, i: int) -> int
    decreases s.len() - i,
{
    if i < 0 || i >= s.len() {
        s.len() as int
    } else if s[i] == c {
        i
    } else {
        index_of_char(s, c, i + 1)
    }
}

/// `index_of_char` finds the first `c` and misses none.
pub proof fn lemma_index_of_char(s: Seq<char>, c: char, i: int)
    requires
        0 <= i <= s.len(),
    ensures
        i <= index_of_char(s, c, i) <= s.len(),
        index_of_char(s, c, i) < s.len() ==> s[index_of_char(s, c, i)] == c,
        forall|j: int| i <= j < index_of_char(s, c, i) ==> s[j] != c,
    decreases s.len() - i,
{
    if i < s.len() && s[i] != c {
        lemma_index_of_char(s, c, i + 1);
    }
}

/// The first offset from `from` on whose character is `c`, or the length.
pub fn find_char(s: &[char], c: char, from: usize) -> (r: usize)
    requires
        from <= s@.len(),
    ensures
        r == index_of_char(s@, c, from as int),
        from <= r <= s@.len(),
{
    let mut i: usize = from;
    while i < s.len()
        invariant
            from <= i <= s@.len(),
            index_of_char(s@, c, from as int) == index_of_char(s@, c, i as int),
        decreases s@.len() - i,
    {
        if s[i] == c {
            return i;
        }
        i += 1;
    }
    i
}

// ── Trimming ───────────────────────────────────────────────────────────────
/// `s` without its leading white space.
pub open spec fn trim_start(s: Seq<char>) -> Seq<char>
    decreases s.len(),
{
    if s.len() > 0 && is_space(s[0]) {
        trim_start(s.subrange(1, s.len() as int))
    } else {
        s
    }
}

/// `s` without its trailing white space.
pub open spec fn trim_end(s: Seq<char>) -> Seq<char>
    decreases s.len(),
{
    if s.len() > 0 && is_space(s.last()) {
        trim_end(s.drop_last())
    } else {
        s
    }
}

/// `s` without white space at either end.
pub open spec fn trim(s: Seq<char>) -> Seq<char> {
    trim_end(trim_start(s))
}

/// `s` without its leading white space.
pub fn trimmed_start(s: &[char]) -> (r: &[char])
    ensures
        r@ == trim_start(s@),
        r@.len() <= s@.len(),
{
    let mut i: usize = 0;
    assert(s@.subrange(0, s@.len() as int) =~= s@);
    while i < s.len() && s[i].is_whitespace()
        invariant
            i <= s@.len(),
            trim_start(s@) == trim_start(s@.subrange(i as int, s@.len() as int)),
        decreases s@.len() - i,
    {
        proof {
            let rest = s@.subrange(i as int, s@.len() as int);
            assert(rest.subrange(1, rest.len() as int) =~= s@.subrange(i + 1, s@.len() as int));
        }
        i += 1;
    }
    slice_subrange(s, i, s.len())
}

/// `s` without its trailing white space.
pub fn trimmed_end(s: &[char]) -> (r: &[char])
    ensures
        r@ == trim_end(s@),
        r@.len() <= s@.len(),
{
    let mut n: usize = s.len();
    assert(s@.subrange(0, n as int) =~= s@);
    while n > 0 && s[n - 1].is_whitespace()
        invariant
            n <= s@.len(),
            trim_end(s@) == trim_end(s@.subrange(0, n as int)),
        decreases n,
    {
        proof {
            let rest = s@.subrange(0, n as int);
            assert(rest.drop_last() =~= s@.subrange(0, n - 1));
        }
        n -= 1;
    }
    slice_subrange(s, 0, n)
}

/// `s` without white space at either end.
pub fn trimmed(s: &[char]) -> (r: &[char])
    ensures
        r@ == trim(s@),
        r@.len() <= s@.len(),
{
    trimmed_end(trimmed_start(s))
}

/// The string `s` without white space at either end.
pub fn trim_str(s: &str) -> (r: String)
    ensures
        r@ == trim(s@),
{
    let a = chars_of(s);
    text_of(trimmed(a.as_slice()))
}

// ── Laws ───────────────────────────────────────────────────────────────────
proof fn lemma_trim_start(s: Seq<char>)
    ensures
        exists|a: int|
            {
                &&& 0 <= a <= s.len()
                &&& trim_start(s) == #[trigger] s.skip(a)
                &&& forall|i: int| 0 <= i < a ==> is_space(#[trigger] s[i])
                &&& a < s.len() ==> !is_space(s[a])
            },
    decreases s.len(),
{
    if s.len() > 0 && is_space(s[0]) {
        let rest = s.subrange(1, s.len() as int);
        lemma_trim_start(rest);
        let a = choose|a: int|
            {
                &&& 0 <= a <= rest.len()
                &&& trim_start(rest) == #[trigger] rest.skip(a)
                &&& forall|i: int| 0 <= i < a ==> is_space(#[trigger] rest[i])
                &&& a < rest.len() ==> !is_space(rest[a])
            };
        assert(rest.skip(a) =~= s.skip(a + 1));
        assert forall|i: int| 0 <= i < a + 1 implies is_space(#[trigger] s[i]) by {
            if i > 0 {
                assert(rest[i - 1] == s[i]);
            }
        }
    } else {
        assert(s.skip(0) =~= s);
    }
}

proof fn lemma_trim_end(s: Seq<char>)
    ensures
        exists|b: int|
            {
                &&& 0 <= b <= s.len()
                &&& trim_end(s) == #[trigger] s.take(b)
                &&& forall|i: int| b <= i < s.len() ==> is_space(#[trigger] s[i])
                &&& b > 0 ==> !is_space(s[b - 1])
            },
    decreases s.len(),
{
    if s.len() > 0 && is_space(s.last()) {
        let rest = s.drop_last();
        lemma_trim_end(rest);
        let b = choose|b: int|
            {
                &&& 0 <= b <= rest.len()
                &&& trim_end(rest) == #[trigger] rest.take(b)
                &&& forall|i: int| b <= i < rest.len() ==> is_space(#[trigger] rest[i])
                &&& b > 0 ==> !is_space(rest[b - 1])
            };
        assert(rest.take(b) =~= s.take(b));
        assert forall|i: int| b <= i < s.len() implies is_space(#[trigger] s[i]) by {
            if i < rest.len() {
                assert(rest[i] == s[i]);
            }
        }
    } else {
        assert(s.take(s.len() as int) =~= s);
    }
}

/// Trimming takes off the white space at both ends, all of it and nothing else.
pub proof fn law_trimming_takes_off_the_space(s: Seq<char>)
    ensures
        exists|a: int, b: int|
            {
                &&& 0 <= a <= b <= s.len()
                &&& trim(s) == #[trigger] s.subrange(a, b)
                &&& forall|i: int| 0 <= i < a || b <= i < s.len() ==> is_space(#[trigger] s[i])
                &&& a < b ==> !is_space(s[a]) && !is_space(s[b - 1])
            },
        exists|a: int|
            {
                &&& 0 <= a <= s.len()
                &&& trim_start(s) == #[trigger] s.skip(a)
                &&& forall|i: int| 0 <= i < a ==> is_space(#[trigger] s[i])
                &&& a < s.len() ==> !is_space(s[a])
            },
{
    lemma_trim_start(s);
    let a = choose|a: int|
        {
            &&& 0 <= a <= s.len()
            &&& trim_start(s) == #[trigger] s.skip(a)
            &&& forall|i: int| 0 <= i < a ==> is_space(#[trigger] s[i])
            &&& a < s.len() ==> !is_space(s[a])
        };
    let t = s.skip(a);
    lemma_trim_end(t);
    let b = choose|b: int|
        {
            &&& 0 <= b <= t.len()
            &&& trim_end(t) == #[trigger] t.take(b)
            &&& forall|i: int| b <= i < t.len() ==> is_space(#[trigger] t[i])
            &&& b > 0 ==> !is_space(t[b - 1])
        };
    assert(t.take(b) =~= s.subrange(a, a + b));
    assert forall|i: int| 0 <= i < a || a + b <= i < s.len() implies is_space(#[trigger] s[i]) by {
        if i >= a {
            assert(t[i - a] == s[i]);
        }
    }
    if b > 0 {
        assert(t[b - 1] == s[a + b - 1]);
    }
}

/// The last character of a text that is no white space is `c`.
pub open spec fn last_is(s: Seq<char>, c: char) -> bool {
    exists|j: int|
        0 <= j < s.len() && #[trigger] s[j] == c && forall|k: int|
            j < k < s.len() ==> is_space(#[trigger] s[k])
}

/// A text without the white space at its ends ends with a character that is none
/// exactly if that is its last one.
pub proof fn law_trimmed_texts_end_with_their_last(s: Seq<char>, p: Seq<char>)
    requires
        p.len() == 1,
        !is_space(p[0]),
    ensures
        ends_with(trim(s), p) <==> last_is(s, p[0]),
{
    law_trimming_takes_off_the_space(s);
    let (a, b) = choose|a: int, b: int|
        {
            &&& 0 <= a <= b <= s.len()
            &&& trim(s) == #[trigger] s.subrange(a, b)
            &&& forall|i: int| 0 <= i < a || b <= i < s.len() ==> is_space(#[trigger] s[i])
            &&& a < b ==> !is_space(s[a]) && !is_space(s[b - 1])
        };
    let t = s.subrange(a, b);
    if ends_with(t, p) {
        assert(t.subrange(t.len() - 1, t.len() as int)[0] == p[0]);
        assert(s[b - 1] == p[0]);
    }
    if last_is(s, p[0]) {
        let j = choose|j: int|
            0 <= j < s.len() && #[trigger] s[j] == p[0] && forall|k: int|
                j < k < s.len() ==> is_space(#[trigger] s[k]);
        assert(a <= j < b);
        if j < b - 1 {
            assert(is_space(s[b - 1]));
        }
        assert(t.subrange(t.len() - 1, t.len() as int) =~= p);
    }
}

/// A text contains each of its parts.
pub proof fn lemma_contains_part(a: Seq<char>, b: Seq<char>, c: Seq<char>)
    ensures
        contains_text(a + b + c, b),
{
    assert((a + b + c).subrange(a.len() as int, (a.len() + b.len()) as int) =~= b);
    assert(occurs_at(a + b + c, b, a.len() as int));
}

/// A text does not begin with another one if they differ in some place.
pub proof fn lemma_other_start(s: Seq<char>, p: Seq<char>, i: int)
    requires
        0 <= i < s.len(),
        i < p.len(),
        s[i] != p[i],
    ensures
        !starts_with(s, p),
{
    if starts_with(s, p) {
        assert(s.subrange(0, p.len() as int)[i] == s[i]);
    }
}

/// A text begins with its first part.
pub proof fn lemma_starts_with_part(a: Seq<char>, b: Seq<char>)
    ensures
        starts_with(a + b, a),
        strip_front(a + b, a) == Some(b),
{
    assert((a + b).subrange(0, a.len() as int) =~= a);
    assert((a + b).subrange(a.len() as int, (a + b).len() as int) =~= b);
}

/// A text that begins and ends with a character that is no white space stays as it is.
pub proof fn lemma_nothing_to_trim(s: Seq<char>)
    requires
        s.len() > 0,
        !is_space(s[0]),
        !is_space(s.last()),
    ensures
        trim(s) == s,
        trim_start(s) == s,
{
}

} // verus!
