//! Text in pieces: what of an answer is shown at a time, and what of it is
//! reasoning.

use crate::numeral::{byte_len, char_width, lemma_byte_len_concat};
use crate::text::{
    chars_of, find_from, find_text_from, is_space, lemma_find_from, lemma_texts_push, occurs_at,
    text_of, texts,
};
use vstd::prelude::*;
use vstd::slice::slice_subrange;
use vstd::string::*;

verus! {

broadcast use lemma_texts_push;

/// How many bytes are shown at a time.
pub const DELTA_BYTES: usize = 100;

/// The end of the longest run of characters from `i` on that takes no more
/// than `room` bytes.
pub open spec fn room_end(s: Seq<char>, i: int, room: int) -> int
    decreases s.len() - i,
{
    if 0 <= i < s.len() && char_width(s[i]) <= room {
        room_end(s, i + 1, room - char_width(s[i]))
    } else {
        i
    }
}

/// The end of what is shown from `i` on, if the run ends at `end`: after the
/// last white space in it, if there is one.
pub open spec fn after_last_space(s: Seq<char>, i: int, end: int) -> int
    decreases end - i,
{
    if end <= i {
        i
    } else if is_space(s[end - 1]) {
        end
    } else {
        after_last_space(s, i, end - 1)
    }
}

/// The end of what is shown from `i` on.
pub open spec fn delta_end(s: Seq<char>, i: int) -> int {
    let end = room_end(s, i, DELTA_BYTES as int);
    if end >= s.len() {
        s.len() as int
    } else {
        let cut = after_last_space(s, i, end);
        if cut == i {
            end
        } else {
            cut
        }
    }
}

proof fn lemma_room_end(s: Seq<char>, i: int, room: int)
    requires
        0 <= i <= s.len(),
    ensures
        i <= room_end(s, i, room) <= s.len(),
        i < s.len() && room >= 4 ==> i < room_end(s, i, room),
    decreases s.len() - i,
{
    if i < s.len() && char_width(s[i]) <= room {
        lemma_room_end(s, i + 1, room - char_width(s[i]));
    }
}

proof fn lemma_after_last_space(s: Seq<char>, i: int, end: int)
    requires
        0 <= i <= end <= s.len(),
    ensures
        i <= after_last_space(s, i, end) <= end,
    decreases end - i,
{
    if end > i && !is_space(s[end - 1]) {
        lemma_after_last_space(s, i, end - 1);
    }
}

proof fn lemma_delta_end(s: Seq<char>, i: int)
    requires
        0 <= i < s.len(),
    ensures
        i < delta_end(s, i) <= s.len(),
{
    lemma_room_end(s, i, DELTA_BYTES as int);
    lemma_after_last_space(s, i, room_end(s, i, DELTA_BYTES as int));
}

/// The pieces in which `s` is shown from `i` on.
pub open spec fn deltas(s: Seq<char>, i: int) -> Seq<Seq<char>>
    decreases s.len() - i,
    via deltas_shrink
{
    if 0 <= i < s.len() {
        seq![s.subrange(i, delta_end(s, i))] + deltas(s, delta_end(s, i))
    } else {
        Seq::empty()
    }
}

#[via_fn]
proof fn deltas_shrink(s: Seq<char>, i: int) {
    if 0 <= i < s.len() {
        lemma_delta_end(s, i);
    }
}

/// The texts one after the other.
pub open spec fn concat(parts: Seq<Seq<char>>) -> Seq<char>
    decreases parts.len(),
{
    if parts.len() == 0 {
        Seq::empty()
    } else {
        parts[0] + concat(parts.subrange(1, parts.len() as int))
    }
}

/// The pieces together are the text.
pub proof fn law_deltas_are_the_text(s: Seq<char>, i: int)
    requires
        0 <= i <= s.len(),
    ensures
        concat(deltas(s, i)) == s.subrange(i, s.len() as int),
    decreases s.len() - i,
{
    if i < s.len() {
        lemma_delta_end(s, i);
        let end = delta_end(s, i);
        law_deltas_are_the_text(s, end);
        let d = deltas(s, i);
        assert(d.subrange(1, d.len() as int) =~= deltas(s, end));
        assert(s.subrange(i, end) + s.subrange(end, s.len() as int) =~= s.subrange(
            i,
            s.len() as int,
        ));
    } else {
        assert(s.subrange(i, s.len() as int) =~= Seq::<char>::empty());
    }
}

fn width(c: char) -> (r: usize)
    ensures
        r == char_width(c),
        1 <= r <= 4,
{
    let n: u32 = c as u32;
    if n < 0x80 {
        1
    } else if n < 0x800 {
        2
    } else if n < 0x10000 {
        3
    } else {
        4
    }
}

fn find_delta_end(s: &[char], i: usize) -> (r: usize)
    requires
        i < s@.len(),
    ensures
        r == delta_end(s@, i as int),
        i < r <= s@.len(),
{
    proof {
        lemma_delta_end(s@, i as int);
    }
    let mut end: usize = i;
    let mut room: usize = DELTA_BYTES;
    while end < s.len() && width(s[end]) <= room
        invariant
            i <= end <= s@.len(),
            room_end(s@, i as int, DELTA_BYTES as int) == room_end(s@, end as int, room as int),
        decreases s@.len() - end,
    {
        room = room - width(s[end]);
        end += 1;
    }
    if end >= s.len() {
        return end;
    }
    let mut cut: usize = end;
    while cut > i && !s[cut - 1].is_whitespace()
        invariant
            i <= cut <= end < s@.len(),
            after_last_space(s@, i as int, end as int) == after_last_space(
                s@,
                i as int,
                cut as int,
            ),
        decreases cut,
    {
        cut -= 1;
    }
    if cut == i {
        end
    } else {
        cut
    }
}

/// The pieces in which a text is shown: at most 100 bytes each, cut after
/// white space where there is any.
pub fn text_deltas(content: &str) -> (r: Vec<String>)
    ensures
        texts(r@) == deltas(content@, 0),
{
    let c = chars_of(content);
    let mut out: Vec<String> = Vec::new();
    let mut i: usize = 0;
    assert(texts(out@) + deltas(content@, 0) =~= deltas(content@, 0));
    while i < c.len()
        invariant
            c@ == content@,
            i <= c@.len(),
            texts(out@) + deltas(content@, i as int) == deltas(content@, 0),
        decreases c@.len() - i,
    {
        let ghost before = texts(out@);
        let end: usize = find_delta_end(c.as_slice(), i);
        out.push(text_of(slice_subrange(c.as_slice(), i, end)));
        proof {
            let piece = content@.subrange(i as int, end as int);
            assert(texts(out@) =~= before.push(piece));
            assert(before.push(piece) + deltas(content@, end as int) =~= before + (seq![piece]
                + deltas(content@, end as int)));
        }
        i = end;
    }
    assert(texts(out@) =~= deltas(content@, 0));
    out
}

/// The reasoning in an answer: what stands between the first opening and the
/// first closing tag, if the closing tag comes after the opening one.
pub open spec fn reasoning(s: Seq<char>) -> Option<Seq<char>> {
    match find_from(s, "<thinking>"@, 0) {
        Some(a) => match find_from(s, "</thinking>"@, 0) {
            Some(b) => if a + "<thinking>"@.len() <= b {
                Some(s.subrange(a + "<thinking>"@.len(), b))
            } else {
                None
            },
            None => None,
        },
        None => None,
    }
}

/// The reasoning in an answer.
pub fn reasoning_of(content: &str) -> (r: Option<String>)
    ensures
        match r {
            Some(s) => reasoning(content@) == Some(s@),
            None => reasoning(content@) is None,
        },
{
    let c = chars_of(content);
    let open = chars_of("<thinking>");
    let close = chars_of("</thinking>");
    match find_text_from(c.as_slice(), open.as_slice(), 0) {
        Some(a) => match find_text_from(c.as_slice(), close.as_slice(), 0) {
            Some(b) => {
                proof {
                    lemma_find_from(content@, "<thinking>"@, 0);
                    lemma_find_from(content@, "</thinking>"@, 0);
                }
                if open.len() <= b && a <= b - open.len() {
                    Some(text_of(slice_subrange(c.as_slice(), a + open.len(), b)))
                } else {
                    None
                }
            },
            None => None,
        },
        None => None,
    }
}

/// The beginning of a text, at most `n` characters.
pub open spec fn head_text(s: Seq<char>, n: nat) -> Seq<char> {
    if s.len() <= n {
        s
    } else {
        s.take(n as int)
    }
}

/// The beginning of a text, at most `n` characters.
pub fn head_chars(s: &str, n: usize) -> (r: String)
    ensures
        r@ == head_text(s@, n as nat),
{
    let c = chars_of(s);
    if c.len() <= n {
        s.to_owned()
    } else {
        text_of(slice_subrange(c.as_slice(), 0, n))
    }
}

// ── Laws ───────────────────────────────────────────────────────────────────
/// A piece that others follow is as long as fits: no word more goes into it. It ends after
/// the last white space of what fits, or where nothing more fits if there is none.
pub proof fn law_deltas_are_as_long_as_fits(s: Seq<char>, i: int)
    requires
        0 <= i < s.len(),
    ensures
        ({
            let e = delta_end(s, i);
            &&& i < e <= s.len()
            &&& byte_len(s.subrange(i, e)) <= 100
            &&& e < s.len() ==> exists|end: int|
                #![trigger s.subrange(i, end)]
                e <= end < s.len() && byte_len(s.subrange(i, end)) <= 100 && byte_len(
                    s.subrange(i, end),
                ) + char_width(s[end]) > 100 && (forall|k: int|
                    e <= k < end ==> !is_space(#[trigger] s[k])) && (is_space(s[e - 1]) || (e
                    == end && forall|k: int| i <= k < e ==> !is_space(#[trigger] s[k])))
        }),
{
    lemma_delta_end(s, i);
    let end = room_end(s, i, 100);
    lemma_room_end(s, i, 100);
    lemma_room_fits(s, i, 100);
    let e = delta_end(s, i);
    if end < s.len() {
        lemma_after_last_space(s, i, end);
        lemma_last_space(s, i, end);
        lemma_byte_len_concat(s.subrange(i, e), s.subrange(e, end));
        assert(s.subrange(i, e) + s.subrange(e, end) =~= s.subrange(i, end));
    }
}

proof fn lemma_room_fits(s: Seq<char>, i: int, room: int)
    requires
        0 <= i <= s.len(),
        room >= 0,
    ensures
        ({
            let end = room_end(s, i, room);
            &&& i <= end <= s.len()
            &&& byte_len(s.subrange(i, end)) <= room
            &&& end < s.len() ==> byte_len(s.subrange(i, end)) + char_width(s[end]) > room
        }),
    decreases s.len() - i,
{
    lemma_room_end(s, i, room);
    let end = room_end(s, i, room);
    if i < s.len() && char_width(s[i]) <= room {
        lemma_room_fits(s, i + 1, room - char_width(s[i]));
        lemma_byte_len_concat(seq![s[i]], s.subrange(i + 1, end));
        assert(seq![s[i]] + s.subrange(i + 1, end) =~= s.subrange(i, end));
        assert(seq![s[i]].drop_last() =~= Seq::<char>::empty());
        assert(byte_len(seq![s[i]]) == byte_len(Seq::<char>::empty()) + char_width(s[i]));
    } else {
        assert(s.subrange(i, end) =~= Seq::<char>::empty());
    }
}

proof fn lemma_last_space(s: Seq<char>, i: int, end: int)
    requires
        0 <= i <= end <= s.len(),
    ensures
        ({
            let e = after_last_space(s, i, end);
            &&& i <= e <= end
            &&& forall|k: int| e <= k < end ==> !is_space(#[trigger] s[k])
            &&& e > i ==> is_space(s[e - 1])
        }),
    decreases end - i,
{
    if end > i && !is_space(s[end - 1]) {
        lemma_last_space(s, i, end - 1);
    }
}

/// What stands between the tags is the reasoning.
pub proof fn law_reasoning_stands_between_the_tags(
    before: Seq<char>,
    thought: Seq<char>,
    after: Seq<char>,
)
    requires
        !before.contains('<'),
        !thought.contains('<'),
    ensures
        reasoning(before + "<thinking>"@ + thought + "</thinking>"@ + after) == Some(thought),
        reasoning(before) is None,
{
    reveal_strlit("<thinking>");
    reveal_strlit("</thinking>");
    let open = "<thinking>"@;
    let close = "</thinking>"@;
    let s = before + open + thought + close + after;
    let a = before.len() as int;
    let b = a + open.len() + thought.len();
    assert forall|k: int| 0 <= k < s.len() && s[k] == '<' implies k == a || k >= b by {
        if k < a {
            assert(before.contains(before[k]));
        } else if a + open.len() <= k < b {
            assert(thought.contains(thought[k - a - open.len()]));
        }
    }
    assert forall|k: int| 0 <= k < before.len() implies before[k] != '<' by {
        assert(before.contains(before[k]));
    }
    lemma_find_from(s, open, 0);
    lemma_find_from(s, close, 0);
    assert(occurs_at(s, open, a)) by {
        assert(s.subrange(a, a + open.len()) =~= open);
    }
    assert(occurs_at(s, close, b)) by {
        assert(s.subrange(b, b + close.len()) =~= close);
    }
    let x = find_from(s, open, 0)->0;
    let y = find_from(s, close, 0)->0;
    assert(s.subrange(x, x + open.len())[0] == s[x]);
    assert(s.subrange(y, y + close.len())[0] == s[y]);
    assert(s.subrange(y, y + close.len())[1] == s[y + 1]);
    assert(s.subrange(a + open.len(), b) =~= thought);
    lemma_find_from(before, open, 0);
    if find_from(before, open, 0) is Some {
        let z = find_from(before, open, 0)->0;
        assert(before.subrange(z, z + open.len())[0] == before[z]);
    }
}

/// The beginning of a text is what it begins with, as long as asked for, and all of it if
/// it is no longer.
pub proof fn law_heads_begin_the_text(s: Seq<char>, n: nat)
    ensures
        head_text(s, n).len() == (if s.len() < n {
            s.len()
        } else {
            n
        }),
        head_text(s, n) == s.take(head_text(s, n).len() as int),
{
}

} // verus!
