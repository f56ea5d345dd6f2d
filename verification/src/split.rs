//! Cutting texts into lines, words and fields, and putting them together again.

use crate::text::{
    append_chars, chars_of, contains_text, find_char, find_from, find_text_from, index_of_char,
    is_space, lemma_contains_part, lemma_find_from, lemma_index_of_char, occurs_at, text_of,
    texts,
};
use vstd::prelude::*;
use vstd::slice::slice_subrange;
use vstd::string::*;

verus! {

// ── Lines ──────────────────────────────────────────────────────────────────
/// A line without the carriage return that may stand before its line feed.
pub open spec fn strip_cr(s: Seq<char>) -> Seq<char> {
    if s.len() > 0 && s.last() == '\r' {
        s.drop_last()
    } else {
        s
    }
}

/// The lines of `s`: what stands before each line feed, without the carriage
/// return before it, and what follows the last line feed unless that is empty.
pub open spec fn lines(s: Seq<char>) -> Seq<Seq<char>>
    decreases s.len(),
    via lines_shrink
{
    let k = index_of_char(s, '\n', 0);
    if s.len() == 0 {
        Seq::empty()
    } else if k >= s.len() {
        seq![s]
    } else {
        seq![strip_cr(s.subrange(0, k))] + lines(s.subrange(k + 1, s.len() as int))
    }
}

#[via_fn]
proof fn lines_shrink(s: Seq<char>) {
    lemma_index_of_char(s, '\n', 0);
}

/// The lines of `s`.
pub fn lines_of(s: &str) -> (r: Vec<String>)
    ensures
        texts(r@) == lines(s@),
{
    let c = chars_of(s);
    let n: usize = c.len();
    let mut out: Vec<String> = Vec::new();
    let mut start: usize = 0;
    assert(s@.subrange(0, n as int) =~= s@);
    assert(texts(out@) + lines(s@) =~= lines(s@));
    while start < n
        invariant
            start <= n,
            n == s@.len(),
            c@ == s@,
            texts(out@) + lines(s@.subrange(start as int, n as int)) == lines(s@),
        decreases n - start,
    {
        let end: usize = find_char(c.as_slice(), '\n', start);
        let ghost before = texts(out@);
        let ghost rest = s@.subrange(start as int, n as int);
        proof {
            lemma_index_of_char_shift(s@, '\n', start as int);
        }
        if end >= n {
            let line = slice_subrange(c.as_slice(), start, n);
            out.push(text_of(line));
            proof {
                assert(lines(rest) == seq![rest]);
                assert(texts(out@) =~= before.push(rest));
                assert(texts(out@) =~= lines(s@));
                assert(lines(s@.subrange(n as int, n as int)) =~= Seq::<Seq<char>>::empty());
                assert(texts(out@) + lines(s@.subrange(n as int, n as int)) =~= lines(s@));
            }
            start = n;
        } else {
            let stop: usize = if end > start && c[end - 1] == '\r' {
                end - 1
            } else {
                end
            };
            let line = slice_subrange(c.as_slice(), start, stop);
            out.push(text_of(line));
            proof {
                let k = index_of_char(rest, '\n', 0);
                let head = strip_cr(rest.subrange(0, k));
                assert(rest.subrange(0, k) =~= s@.subrange(start as int, end as int));
                assert(head =~= s@.subrange(start as int, stop as int));
                let tail = rest.subrange(k + 1, rest.len() as int);
                assert(tail =~= s@.subrange(end + 1, n as int));
                assert(texts(out@) =~= before.push(head));
                assert(before.push(head) + lines(tail) =~= before + (seq![head] + lines(tail)));
            }
            start = end + 1;
        }
    }
    proof {
        assert(lines(s@.subrange(n as int, n as int)) =~= Seq::<Seq<char>>::empty());
        assert(texts(out@) + Seq::<Seq<char>>::empty() =~= texts(out@));
    }
    out
}

/// Searching from an offset is searching the rest.
pub proof fn lemma_index_of_char_shift(s: Seq<char>, c: char, i: int)
    requires
        0 <= i <= s.len(),
    ensures
        index_of_char(s, c, i) == i + index_of_char(s.subrange(i, s.len() as int), c, 0),
{
    let t = s.subrange(i, s.len() as int);
    lemma_index_of_char(s, c, i);
    lemma_index_of_char(t, c, 0);
    let a = index_of_char(s, c, i);
    let b = index_of_char(t, c, 0);
    if a < i + b {
        assert(t[a - i] == c);
    }
    if i + b < a {
        assert(s[i + b] == t[b]);
    }
}

// ── Fields ─────────────────────────────────────────────────────────────────
/// The first offset at which `stop` holds, or the length.
pub open spec fn index_where(s: Seq<char>, stop: spec_fn(char) -> bool) -> int
    decreases s.len(),
{
    if s.len() == 0 || stop(s[0]) {
        0
    } else {
        1 + index_where(s.subrange(1, s.len() as int), stop)
    }
}

/// `index_where` finds the first such character and misses none.
pub proof fn lemma_index_where(s: Seq<char>, stop: spec_fn(char) -> bool)
    ensures
        0 <= index_where(s, stop) <= s.len(),
        index_where(s, stop) < s.len() ==> stop(s[index_where(s, stop)]),
        forall|j: int| 0 <= j < index_where(s, stop) ==> !stop(s[j]),
    decreases s.len(),
{
    if s.len() > 0 && !stop(s[0]) {
        let t = s.subrange(1, s.len() as int);
        lemma_index_where(t, stop);
        assert forall|j: int| 0 <= j < index_where(s, stop) implies !stop(s[j]) by {
            if j > 0 {
                assert(s[j] == t[j - 1]);
            }
        }
    }
}

/// `k` is the first offset at which `stop` holds.
pub proof fn lemma_index_where_is(s: Seq<char>, stop: spec_fn(char) -> bool, k: int)
    requires
        0 <= k <= s.len(),
        k < s.len() ==> stop(s[k]),
        forall|j: int| 0 <= j < k ==> !stop(s[j]),
    ensures
        index_where(s, stop) == k,
{
    lemma_index_where(s, stop);
    let a = index_where(s, stop);
    if a < k {
        assert(!stop(s[a]));
    }
}

/// The fields of `s` between the characters at which `stop` holds. There is
/// always at least one, and fields may be empty.
pub open spec fn split(s: Seq<char>, stop: spec_fn(char) -> bool) -> Seq<Seq<char>>
    decreases s.len(),
    via split_shrink
{
    let k = index_where(s, stop);
    if k >= s.len() {
        seq![s]
    } else {
        seq![s.subrange(0, k)] + split(s.subrange(k + 1, s.len() as int), stop)
    }
}

#[via_fn]
proof fn split_shrink(s: Seq<char>, stop: spec_fn(char) -> bool) {
    lemma_index_where(s, stop);
}

/// `c` is one of `set`.
pub open spec fn among(set: Seq<char>) -> spec_fn(char) -> bool {
    |c: char| set.contains(c)
}

/// Whether `c` is one of `set`.
pub fn is_among(c: char, set: &[char]) -> (r: bool)
    ensures
        r == set@.contains(c),
{
    let mut i: usize = 0;
    while i < set.len()
        invariant
            i <= set@.len(),
            forall|j: int| 0 <= j < i ==> set@[j] != c,
        decreases set@.len() - i,
    {
        if set[i] == c {
            return true;
        }
        i += 1;
    }
    false
}

/// The fields of `s` between characters of `set`.
pub fn split_at_any(s: &[char], set: &[char]) -> (r: Vec<String>)
    ensures
        texts(r@) == split(s@, among(set@)),
        r@.len() >= 1,
{
    let n: usize = s.len();
    let ghost stop = among(set@);
    let mut out: Vec<String> = Vec::new();
    let mut start: usize = 0;
    let mut i: usize = 0;
    proof {
        assert(s@.subrange(0, n as int) =~= s@);
        assert(texts(out@) + split(s@, stop) =~= split(s@, stop));
    }
    while i < n
        invariant
            start <= i <= n,
            n == s@.len(),
            stop == among(set@),
            forall|j: int| start <= j < i ==> !stop(#[trigger] s@[j]),
            texts(out@) + split(s@.subrange(start as int, n as int), stop) == split(s@, stop),
        decreases n - i,
    {
        if is_among(s[i], set) {
            let ghost before = texts(out@);
            let ghost rest = s@.subrange(start as int, n as int);
            out.push(text_of(slice_subrange(s, start, i)));
            proof {
                let k = i - start;
                assert(rest[k] == s@[i as int]);
                assert forall|j: int| 0 <= j < k implies !stop(rest[j]) by {
                    assert(rest[j] == s@[start + j]);
                }
                lemma_index_where_is(rest, stop, k);
                let head = rest.subrange(0, k);
                let tail = rest.subrange(k + 1, rest.len() as int);
                assert(head =~= s@.subrange(start as int, i as int));
                assert(tail =~= s@.subrange(i + 1, n as int));
                assert(texts(out@) =~= before.push(head));
                assert(before.push(head) + split(tail, stop) =~= before + (seq![head] + split(
                    tail,
                    stop,
                )));
            }
            start = i + 1;
        }
        i += 1;
    }
    let ghost before = texts(out@);
    out.push(text_of(slice_subrange(s, start, n)));
    proof {
        let rest = s@.subrange(start as int, n as int);
        assert forall|j: int| 0 <= j < rest.len() implies !stop(rest[j]) by {
            assert(rest[j] == s@[start + j]);
        }
        lemma_index_where_is(rest, stop, rest.len() as int);
        assert(split(rest, stop) == seq![rest]);
        assert(texts(out@) =~= before.push(rest));
        assert(before.push(rest) =~= before + seq![rest]);
    }
    out
}

// ── Words ──────────────────────────────────────────────────────────────────
/// The words of `s`: its longest runs of characters that are not white space.
pub open spec fn words(s: Seq<char>) -> Seq<Seq<char>> {
    split(s, |c: char| is_space(c)).filter(|w: Seq<char>| w.len() > 0)
}

/// The words of `s`.
pub fn words_of(s: &str) -> (r: Vec<String>)
    ensures
        texts(r@) == words(s@),
        forall|i: int| 0 <= i < r@.len() ==> (#[trigger] texts(r@)[i]).len() > 0,
{
    let c = chars_of(s);
    let n: usize = c.len();
    let ghost stop = |c: char| is_space(c);
    let ghost full = |w: Seq<char>| w.len() > 0;
    let mut out: Vec<String> = Vec::new();
    let mut start: usize = 0;
    let mut i: usize = 0;
    proof {
        assert(s@.subrange(0, n as int) =~= s@);
        assert(texts(out@) + words(s@) =~= words(s@));
    }
    while i < n
        invariant
            start <= i <= n,
            n == s@.len(),
            c@ == s@,
            stop == (|c: char| is_space(c)),
            full == (|w: Seq<char>| w.len() > 0),
            forall|j: int| start <= j < i ==> !stop(#[trigger] s@[j]),
            forall|j: int| 0 <= j < out@.len() ==> (#[trigger] texts(out@)[j]).len() > 0,
            texts(out@) + words(s@.subrange(start as int, n as int)) == words(s@),
        decreases n - i,
    {
        if c[i].is_whitespace() {
            let ghost before = texts(out@);
            let ghost rest = s@.subrange(start as int, n as int);
            proof {
                let k = i - start;
                assert(rest[k] == s@[i as int]);
                assert forall|j: int| 0 <= j < k implies !stop(rest[j]) by {
                    assert(rest[j] == s@[start + j]);
                }
                lemma_index_where_is(rest, stop, k);
                let head = rest.subrange(0, k);
                let tail = rest.subrange(k + 1, rest.len() as int);
                assert(head =~= s@.subrange(start as int, i as int));
                assert(tail =~= s@.subrange(i + 1, n as int));
                lemma_filter_head(head, split(tail, stop), full);
                assert(words(rest) == if head.len() > 0 {
                    seq![head] + words(tail)
                } else {
                    words(tail)
                });
            }
            if i > start {
                out.push(text_of(slice_subrange(c.as_slice(), start, i)));
                proof {
                    let head = s@.subrange(start as int, i as int);
                    let tail = s@.subrange(i + 1, n as int);
                    assert(texts(out@) =~= before.push(head));
                    assert(before.push(head) + words(tail) =~= before + (seq![head] + words(tail)));
                }
            }
            start = i + 1;
        }
        i += 1;
    }
    let ghost before = texts(out@);
    proof {
        let rest = s@.subrange(start as int, n as int);
        assert forall|j: int| 0 <= j < rest.len() implies !stop(rest[j]) by {
            assert(rest[j] == s@[start + j]);
        }
        lemma_index_where_is(rest, stop, rest.len() as int);
        assert(split(rest, stop) == seq![rest]);
        assert(seq![rest] + Seq::<Seq<char>>::empty() =~= seq![rest]);
        lemma_filter_head(rest, Seq::<Seq<char>>::empty(), full);
        assert(Seq::<Seq<char>>::empty().filter(full) =~= Seq::<Seq<char>>::empty()) by {
            reveal(Seq::filter);
        }
    }
    if n > start {
        out.push(text_of(slice_subrange(c.as_slice(), start, n)));
        proof {
            let rest = s@.subrange(start as int, n as int);
            assert(texts(out@) =~= before.push(rest));
            assert(before.push(rest) =~= before + words(rest));
        }
    } else {
        assert(texts(out@) =~= before + words(s@.subrange(start as int, n as int)));
    }
    out
}

/// Filtering a sequence part by part: the head.
pub proof fn lemma_filter_head<A>(a: A, rest: Seq<A>, pred: spec_fn(A) -> bool)
    ensures
        (seq![a] + rest).filter(pred) == if pred(a) {
            seq![a] + rest.filter(pred)
        } else {
            rest.filter(pred)
        },
    decreases rest.len(),
{
    reveal(Seq::filter);
    let whole = seq![a] + rest;
    if rest.len() == 0 {
        assert(whole.drop_last() =~= Seq::<A>::empty());
        assert(whole.last() == a);
        assert(Seq::<A>::empty().filter(pred) =~= Seq::<A>::empty());
        assert(whole.filter(pred) =~= if pred(a) {
            seq![a] + rest.filter(pred)
        } else {
            rest.filter(pred)
        });
    } else {
        assert(whole.drop_last() =~= seq![a] + rest.drop_last());
        assert(whole.last() == rest.last());
        lemma_filter_head(a, rest.drop_last(), pred);
        if pred(rest.last()) {
            assert(whole.filter(pred) =~= if pred(a) {
                seq![a] + rest.filter(pred)
            } else {
                rest.filter(pred)
            });
        }
    }
}

// ── Joining and replacing ──────────────────────────────────────────────────
/// The texts `parts` with `sep` between each two.
pub open spec fn join(parts: Seq<Seq<char>>, sep: Seq<char>) -> Seq<char>
    decreases parts.len(),
{
    if parts.len() == 0 {
        Seq::empty()
    } else if parts.len() == 1 {
        parts[0]
    } else {
        join(parts.drop_last(), sep) + sep + parts.last()
    }
}

/// The strings `parts` with `sep` between each two.
pub fn join_texts(parts: &[String], sep: &str) -> (r: String)
    ensures
        r@ == join(texts(parts@), sep@),
{
    let mut out = String::new();
    let mut i: usize = 0;
    let ghost all = texts(parts@);
    while i < parts.len()
        invariant
            i <= parts@.len(),
            all == texts(parts@),
            out@ == join(all.take(i as int), sep@),
        decreases parts@.len() - i,
    {
        let ghost before = out@;
        if i > 0 {
            out.append(sep);
        }
        out.append(parts[i].as_str());
        proof {
            let next = all.take(i + 1);
            assert(next.drop_last() =~= all.take(i as int));
            assert(next.last() == parts@[i as int]@);
            if i == 0 {
                assert(before =~= Seq::<char>::empty());
                assert(out@ =~= next[0]);
            }
        }
        i += 1;
    }
    assert(all.take(parts@.len() as int) =~= all);
    out
}

/// `s` with every occurrence of `p`, found from the left without overlap,
/// replaced by `by`.
pub open spec fn replace_all(s: Seq<char>, p: Seq<char>, by: Seq<char>) -> Seq<char>
    decreases s.len(),
    via replace_shrink
{
    match find_from(s, p, 0) {
        Some(k) => if p.len() == 0 {
            s
        } else {
            s.subrange(0, k) + by + replace_all(s.subrange(k + p.len(), s.len() as int), p, by)
        },
        None => s,
    }
}

#[via_fn]
proof fn replace_shrink(s: Seq<char>, p: Seq<char>, by: Seq<char>) {
    lemma_find_from(s, p, 0);
}

/// Searching from an offset is searching the rest.
proof fn lemma_find_from_shift(s: Seq<char>, p: Seq<char>, i: int, j: int)
    requires
        0 <= i <= j,
        i <= s.len(),
    ensures
        find_from(s, p, j) == match find_from(s.subrange(i, s.len() as int), p, j - i) {
            Some(k) => Some(k + i),
            None => None::<int>,
        },
    decreases s.len() + 1 - j,
{
    let t = s.subrange(i, s.len() as int);
    if j + p.len() <= s.len() {
        assert(t.subrange(j - i, j - i + p.len()) =~= s.subrange(j, j + p.len()));
        if !occurs_at(s, p, j) {
            lemma_find_from_shift(s, p, i, j + 1);
        }
    }
}

/// `s` with every occurrence of `p` replaced by `by`.
pub fn replaced(s: &str, p: &str, by: &str) -> (r: String)
    requires
        p@.len() > 0,
    ensures
        r@ == replace_all(s@, p@, by@),
{
    let c = chars_of(s);
    let q = chars_of(p);
    let n: usize = c.len();
    let mut out = String::new();
    let mut start: usize = 0;
    proof {
        assert(s@.subrange(0, n as int) =~= s@);
        assert(out@ + replace_all(s@, p@, by@) =~= replace_all(s@, p@, by@));
    }
    loop
        invariant
            start <= n,
            n == s@.len(),
            c@ == s@,
            q@ == p@,
            p@.len() > 0,
            out@ + replace_all(s@.subrange(start as int, n as int), p@, by@) == replace_all(
                s@,
                p@,
                by@,
            ),
        decreases n - start,
    {
        let ghost rest = s@.subrange(start as int, n as int);
        let ghost before = out@;
        let found = find_text_from(c.as_slice(), q.as_slice(), start);
        proof {
            lemma_find_from_shift(s@, p@, start as int, start as int);
            lemma_find_from(s@, p@, start as int);
        }
        match found {
            None => {
                append_chars(&mut out, slice_subrange(c.as_slice(), start, n));
                return out;
            },
            Some(k) => {
                append_chars(&mut out, slice_subrange(c.as_slice(), start, k));
                out.append(by);
                proof {
                    let tail = rest.subrange(k - start + p@.len(), rest.len() as int);
                    assert(tail =~= s@.subrange(k + p@.len(), n as int));
                    assert(rest.subrange(0, k - start) =~= s@.subrange(start as int, k as int));
                    assert(out@ + replace_all(tail, p@, by@) =~= before + (rest.subrange(
                        0,
                        k - start,
                    ) + by@ + replace_all(tail, p@, by@)));
                }
                start = k + q.len();
            },
        }
    }
}

// ── Laws ───────────────────────────────────────────────────────────────────
/// A text without a separator is one field.
pub proof fn law_fields_hold_no_separator(s: Seq<char>, stop: spec_fn(char) -> bool)
    requires
        forall|i: int| 0 <= i < s.len() ==> !stop(#[trigger] s[i]),
    ensures
        split(s, stop) == seq![s],
{
    lemma_index_where_is(s, stop, s.len() as int);
}

/// A separator parts the fields before it from those behind it.
pub proof fn law_separators_part_fields(
    a: Seq<char>,
    c: char,
    b: Seq<char>,
    stop: spec_fn(char) -> bool,
)
    requires
        stop(c),
    ensures
        split(a.push(c) + b, stop) == split(a, stop) + split(b, stop),
    decreases a.len(),
{
    let s = a.push(c) + b;
    lemma_index_where(a, stop);
    let k = index_where(a, stop);
    assert forall|j: int| 0 <= j < k implies !stop(s[j]) by {
        assert(s[j] == a[j]);
    }
    if k >= a.len() {
        assert(s[k] == c);
        lemma_index_where_is(s, stop, k);
        assert(s.subrange(0, k) =~= a);
        assert(s.subrange(k + 1, s.len() as int) =~= b);
    } else {
        assert(s[k] == a[k]);
        lemma_index_where_is(s, stop, k);
        let rest = a.subrange(k + 1, a.len() as int);
        law_separators_part_fields(rest, c, b, stop);
        assert(s.subrange(0, k) =~= a.subrange(0, k));
        assert(s.subrange(k + 1, s.len() as int) =~= rest.push(c) + b);
        assert(seq![a.subrange(0, k)] + (split(rest, stop) + split(b, stop)) =~= (seq![
            a.subrange(0, k),
        ] + split(rest, stop)) + split(b, stop));
    }
}

proof fn lemma_filter_concat<A>(a: Seq<A>, b: Seq<A>, pred: spec_fn(A) -> bool)
    ensures
        (a + b).filter(pred) == a.filter(pred) + b.filter(pred),
    decreases a.len(),
{
    reveal(Seq::filter);
    if a.len() == 0 {
        assert(a + b =~= b);
        assert(a.filter(pred) =~= Seq::<A>::empty());
        assert(a.filter(pred) + b.filter(pred) =~= b.filter(pred));
    } else {
        let rest = a.skip(1);
        lemma_filter_concat(rest, b, pred);
        lemma_filter_head(a[0], rest, pred);
        lemma_filter_head(a[0], rest + b, pred);
        assert(seq![a[0]] + rest =~= a);
        assert(seq![a[0]] + (rest + b) =~= a + b);
        assert(seq![a[0]] + (rest.filter(pred) + b.filter(pred)) =~= (seq![a[0]] + rest.filter(
            pred,
        )) + b.filter(pred));
    }
}

/// A text without white space is one word, unless it is empty.
pub proof fn law_words_hold_no_space(s: Seq<char>)
    requires
        forall|i: int| 0 <= i < s.len() ==> !is_space(#[trigger] s[i]),
    ensures
        s.len() > 0 ==> words(s) == seq![s],
        s.len() == 0 ==> words(s).len() == 0,
{
    reveal(Seq::filter);
    let stop = |c: char| is_space(c);
    assert forall|i: int| 0 <= i < s.len() implies !stop(#[trigger] s[i]) by {}
    law_fields_hold_no_separator(s, stop);
    let pred = |w: Seq<char>| w.len() > 0;
    lemma_filter_head(s, Seq::<Seq<char>>::empty(), pred);
    assert(seq![s] + Seq::<Seq<char>>::empty() =~= seq![s]);
    assert(seq![s] + Seq::<Seq<char>>::empty().filter(pred) =~= seq![s]);
}

/// White space parts the words before it from those behind it.
pub proof fn law_space_parts_words(a: Seq<char>, c: char, b: Seq<char>)
    requires
        is_space(c),
    ensures
        words(a.push(c) + b) == words(a) + words(b),
{
    let stop = |c: char| is_space(c);
    law_separators_part_fields(a, c, b, stop);
    lemma_filter_concat(split(a, stop), split(b, stop), |w: Seq<char>| w.len() > 0);
}

/// Words that are put together with a space between each two are read back.
pub proof fn law_joined_words_are_read_back(ws: Seq<Seq<char>>)
    requires
        forall|i: int, k: int|
            0 <= i < ws.len() && 0 <= k < ws[i].len() ==> !is_space(#[trigger] ws[i][k]),
        forall|i: int| 0 <= i < ws.len() ==> (#[trigger] ws[i]).len() > 0,
    ensures
        words(join(ws, " "@)) == ws,
    decreases ws.len(),
{
    reveal_strlit(" ");
    if ws.len() == 0 {
        law_words_hold_no_space(Seq::empty());
        assert(words(join(ws, " "@)) =~= ws);
    } else {
        let last = ws.last();
        assert(last == ws[ws.len() - 1]);
        law_words_hold_no_space(last);
        if ws.len() == 1 {
            assert(seq![last] =~= ws);
        } else {
            let rest = ws.drop_last();
            assert forall|i: int, k: int| 0 <= i < rest.len() && 0 <= k < rest[i].len() implies
                !is_space(#[trigger] rest[i][k]) by {
                assert(!is_space(ws[i][k]));
            }
            assert forall|i: int| 0 <= i < rest.len() implies (#[trigger] rest[i]).len() > 0 by {
                assert(rest[i] == ws[i]);
            }
            law_joined_words_are_read_back(rest);
            law_space_parts_words(join(rest, " "@), ' ', last);
            assert(join(rest, " "@).push(' ') + last =~= join(rest, " "@) + " "@ + last);
            assert(rest + seq![last] =~= ws);
        }
    }
}

/// A line ends with its line feed, and is not its own carriage return. What follows
/// is in the lines behind it.
pub proof fn law_line_feeds_part_lines(a: Seq<char>, b: Seq<char>)
    requires
        !a.contains('\n'),
    ensures
        lines(a.push('\n') + b) == seq![
            if a.len() > 0 && a.last() == '\r' {
                a.drop_last()
            } else {
                a
            },
        ] + lines(b),
        lines(a) == if a.len() == 0 {
            Seq::empty()
        } else {
            seq![a]
        },
{
    let s = a.push('\n') + b;
    lemma_index_of_char(s, '\n', 0);
    let k = index_of_char(s, '\n', 0);
    assert(s[a.len() as int] == '\n');
    if k < a.len() {
        assert(a[k] == '\n');
    }
    assert(s.subrange(0, k) =~= a);
    assert(s.subrange(k + 1, s.len() as int) =~= b);
    lemma_index_of_char(a, '\n', 0);
    let j = index_of_char(a, '\n', 0);
    if j < a.len() {
        assert(a.contains(a[j]));
    }
}

/// Lines that are put together with a line feed between each two are read back, if the
/// last one is not empty and none ends with a carriage return.
pub proof fn law_joined_lines_are_read_back(ls: Seq<Seq<char>>)
    requires
        ls.len() > 0,
        ls.last().len() > 0,
        forall|i: int|
            0 <= i < ls.len() ==> !(#[trigger] ls[i]).contains('\n') && (ls[i].len() > 0
                ==> ls[i].last() != '\r'),
    ensures
        lines(join(ls, "\n"@)) == ls,
    decreases ls.len(),
{
    reveal_strlit("\n");
    if ls.len() == 1 {
        law_line_feeds_part_lines(ls[0], Seq::empty());
        assert(seq![ls[0]] =~= ls);
    } else {
        let rest = ls.skip(1);
        assert forall|i: int| 0 <= i < rest.len() implies !(#[trigger] rest[i]).contains('\n') && (
        rest[i].len() > 0 ==> rest[i].last() != '\r') by {
            assert(rest[i] == ls[i + 1]);
        }
        law_joined_lines_are_read_back(rest);
        lemma_join_head(ls, "\n"@);
        law_line_feeds_part_lines(ls[0], join(rest, "\n"@));
        assert(ls[0].push('\n') + join(rest, "\n"@) =~= ls[0] + "\n"@ + join(rest, "\n"@));
        assert(seq![ls[0]] + rest =~= ls);
    }
}

/// Joining from the front.
pub proof fn lemma_join_head(parts: Seq<Seq<char>>, sep: Seq<char>)
    requires
        parts.len() >= 2,
    ensures
        join(parts, sep) == parts[0] + sep + join(parts.skip(1), sep),
    decreases parts.len(),
{
    let rest = parts.skip(1);
    if parts.len() == 2 {
        assert(parts.drop_last() =~= seq![parts[0]]);
        assert(rest =~= seq![parts[1]]);
        assert(join(parts.drop_last(), sep) == parts[0]);
        assert(join(rest, sep) == parts[1]);
    } else {
        lemma_join_head(parts.drop_last(), sep);
        assert(parts.drop_last().skip(1) =~= rest.drop_last());
        assert(join(parts, sep) =~= parts[0] + sep + join(rest, sep));
    }
}

/// Each part of a joined text is in it, and so is the separator between two.
pub proof fn law_joined_texts_hold_their_parts(parts: Seq<Seq<char>>, sep: Seq<char>, i: int)
    requires
        0 <= i < parts.len(),
    ensures
        contains_text(join(parts, sep), parts[i]),
        parts.len() == 1 ==> join(parts, sep) == parts[0],
        i > 0 ==> contains_text(join(parts, sep), sep + parts[i]),
    decreases parts.len(),
{
    let rest = parts.drop_last();
    if parts.len() == 1 {
        lemma_contains_part(Seq::empty(), parts[0], Seq::empty());
        assert(Seq::<char>::empty() + parts[0] + Seq::<char>::empty() =~= parts[0]);
    } else if i == parts.len() - 1 {
        let head = join(rest, sep);
        lemma_contains_part(head + sep, parts[i], Seq::empty());
        assert(head + sep + parts[i] + Seq::<char>::empty() =~= join(parts, sep));
        lemma_contains_part(head, sep + parts[i], Seq::empty());
        assert(head + (sep + parts[i]) + Seq::<char>::empty() =~= join(parts, sep));
    } else {
        law_joined_texts_hold_their_parts(rest, sep, i);
        assert(rest[i] == parts[i]);
        let tail = sep + parts.last();
        lemma_contains_longer(join(rest, sep), parts[i], tail);
        assert(join(rest, sep) + tail =~= join(parts, sep));
        if i > 0 {
            lemma_contains_longer(join(rest, sep), sep + parts[i], tail);
        }
    }
}

proof fn lemma_contains_longer(s: Seq<char>, p: Seq<char>, b: Seq<char>)
    requires
        contains_text(s, p),
    ensures
        contains_text(s + b, p),
{
    let i = choose|i: int| occurs_at(s, p, i);
    assert((s + b).subrange(i, i + p.len()) =~= p);
    assert(occurs_at(s + b, p, i));
}

/// A text in which `p` does not occur stays as it is; what stands before the first
/// occurrence stays, the occurrence is replaced, and the rest is dealt with likewise.
pub proof fn law_occurrences_are_replaced(a: Seq<char>, p: Seq<char>, b: Seq<char>, by: Seq<char>)
    requires
        p.len() > 0,
        forall|i: int| 0 <= i < a.len() ==> !#[trigger] occurs_at(a + p + b, p, i),
    ensures
        replace_all(a + p + b, p, by) == a + by + replace_all(b, p, by),
        !contains_text(b, p) ==> replace_all(b, p, by) == b,
{
    let s = a + p + b;
    lemma_find_from(s, p, 0);
    assert(s.subrange(a.len() as int, (a.len() + p.len()) as int) =~= p);
    assert(occurs_at(s, p, a.len() as int));
    assert(s.subrange(0, a.len() as int) =~= a);
    assert(s.subrange((a.len() + p.len()) as int, s.len() as int) =~= b);
    lemma_find_from(b, p, 0);
}

} // verus!
