//! What is worth remembering of an exchange.

use crate::numeral::{byte_count, byte_len};
use crate::split::{among, join, join_texts, split, split_at_any};
use crate::text::{
    chars_of, contains_any, contains_text, has_one_of, lemma_texts_push, lowercase, occurs_at,
    str_has, str_views, texts, trim, trim_str,
};
use vstd::prelude::*;
use vstd::string::*;

verus! {

broadcast use lemma_texts_push;

/// Words that announce a preference.
pub open spec fn preference_signals() -> Seq<Seq<char>> {
    seq![
        "i prefer"@, "always use"@, "never use"@, "never do"@, "don't use"@, "i like"@,
        "i want"@, "please always"@, "from now on"@, "remember that"@, "keep in mind"@,
        "my preference is"@, "use this approach"@,
    ]
}

/// Words that announce a preference for a tool.
pub open spec fn tool_signals() -> Seq<Seq<char>> {
    seq!["use grep not find"@, "prefer async"@]
}

/// Words that announce a correction.
pub open spec fn correction_signals() -> Seq<Seq<char>> {
    seq!["actually"@, "no, "@, "not that"@, "i meant"@, "wrong,"@, "incorrect"@]
}

/// Words that announce a convention.
pub open spec fn convention_signals() -> Seq<Seq<char>> {
    seq!["project convention"@, "coding standard"@, "team uses"@, "configured to use"@]
}

/// A sentence without the space round it is of a useful length.
pub open spec fn useful(s: Seq<char>) -> bool {
    10 < byte_len(trim(s)) < 200
}

/// The memories that the first `n` sentences give for a signal.
pub open spec fn from_sentences(
    sentences: Seq<Seq<char>>,
    signal: Seq<char>,
    prefix: Seq<char>,
    n: nat,
) -> Seq<Seq<char>>
    decreases n,
{
    if n == 0 {
        Seq::empty()
    } else {
        let rest = from_sentences(sentences, signal, prefix, (n - 1) as nat);
        let s = sentences[n - 1];
        if contains_text(lowercase(s), signal) && useful(s) {
            rest.push(prefix + trim(s))
        } else {
            rest
        }
    }
}

/// The memories that the first `n` signals give: for each that occurs in
/// `whole`, those of the sentences in which it occurs.
pub open spec fn from_signals(
    whole: Seq<char>,
    sentences: Seq<Seq<char>>,
    signals: Seq<Seq<char>>,
    prefix: Seq<char>,
    n: nat,
) -> Seq<Seq<char>>
    decreases n,
{
    if n == 0 {
        Seq::empty()
    } else {
        let rest = from_signals(whole, sentences, signals, prefix, (n - 1) as nat);
        if contains_text(whole, signals[n - 1]) {
            rest + from_sentences(sentences, signals[n - 1], prefix, sentences.len())
        } else {
            rest
        }
    }
}

/// The memory that a correction gives.
pub open spec fn from_correction(input: Seq<char>) -> Seq<Seq<char>> {
    if contains_any(lowercase(input), correction_signals()) && byte_len(input) > 20 && byte_len(
        trim(input),
    ) < 200 {
        seq!["Correction: "@ + trim(input)]
    } else {
        Seq::empty()
    }
}

/// The memories that the first `n` sentences give for tools. A sentence that
/// announces a preference is remembered for that.
pub open spec fn from_tools(sentences: Seq<Seq<char>>, n: nat) -> Seq<Seq<char>>
    decreases n,
{
    if n == 0 {
        Seq::empty()
    } else {
        let rest = from_tools(sentences, (n - 1) as nat);
        let s = sentences[n - 1];
        if contains_any(lowercase(s), tool_signals()) && !contains_any(
            lowercase(s),
            preference_signals(),
        ) && useful(s) {
            rest.push(trim(s))
        } else {
            rest
        }
    }
}

/// What is worth remembering of an exchange.
pub open spec fn memories(input: Seq<char>, answer: Seq<char>) -> Seq<Seq<char>> {
    from_signals(
        lowercase(input),
        split(input, among(seq!['.', '!', '\n'])),
        preference_signals(),
        Seq::empty(),
        preference_signals().len(),
    ) + from_correction(input) + from_signals(
        lowercase(input + "\n"@ + answer),
        split(answer, among(seq!['.', '\n'])),
        convention_signals(),
        "Convention: "@,
        convention_signals().len(),
    ) + from_tools(
        split(input, among(seq!['.', '!', '\n'])),
        split(input, among(seq!['.', '!', '\n'])).len(),
    )
}

fn add_from_tools(out: &mut Vec<String>, sentences: &Vec<String>, preferences: &[&str])
    requires
        str_views(preferences@) == preference_signals(),
    ensures
        texts(final(out)@) == texts(old(out)@) + from_tools(
            texts(sentences@),
            sentences@.len(),
        ),
{
    let ghost before = texts(out@);
    let ghost all = texts(sentences@);
    let tools: [&str; 2] = ["use grep not find", "prefer async"];
    assert(str_views(tools@) =~= tool_signals());
    let mut i: usize = 0;
    assert(texts(out@) =~= before + from_tools(all, 0));
    while i < sentences.len()
        invariant
            all == texts(sentences@),
            i <= all.len(),
            str_views(preferences@) == preference_signals(),
            str_views(tools@) == tool_signals(),
            texts(out@) == before + from_tools(all, i as nat),
        decreases all.len() - i,
    {
        let ghost now = from_tools(all, i as nat);
        assert(all[i as int] == sentences@[i as int]@);
        let low = sentences[i].as_str().to_lowercase();
        if has_one_of(low.as_str(), tools.as_slice()) && !has_one_of(low.as_str(), preferences) {
            let t = trim_str(sentences[i].as_str());
            let n: usize = byte_count(t.as_str());
            if n > 10 && n < 200 {
                out.push(t);
                assert(texts(out@) =~= before + now.push(t@));
            }
        }
        i += 1;
    }
}

fn add_from_sentences(out: &mut Vec<String>, sentences: &Vec<String>, signal: &str, prefix: &str)
    ensures
        texts(final(out)@) == texts(old(out)@) + from_sentences(
            texts(sentences@),
            signal@,
            prefix@,
            sentences@.len(),
        ),
{
    let ghost before = texts(out@);
    let ghost all = texts(sentences@);
    let mut i: usize = 0;
    assert(texts(out@) =~= before + from_sentences(all, signal@, prefix@, 0));
    while i < sentences.len()
        invariant
            all == texts(sentences@),
            i <= all.len(),
            texts(out@) == before + from_sentences(all, signal@, prefix@, i as nat),
        decreases all.len() - i,
    {
        let ghost now = from_sentences(all, signal@, prefix@, i as nat);
        assert(all[i as int] == sentences@[i as int]@);
        let low = sentences[i].as_str().to_lowercase();
        if str_has(low.as_str(), signal) {
            let t = trim_str(sentences[i].as_str());
            let n: usize = byte_count(t.as_str());
            if n > 10 && n < 200 {
                let mut m = prefix.to_owned();
                m.append(t.as_str());
                out.push(m);
                assert(texts(out@) =~= before + now.push(m@));
            }
        }
        i += 1;
    }
}

fn add_from_signals(
    out: &mut Vec<String>,
    whole: &str,
    sentences: &Vec<String>,
    signals: &[&str],
    prefix: &str,
)
    ensures
        texts(final(out)@) == texts(old(out)@) + from_signals(
            whole@,
            texts(sentences@),
            str_views(signals@),
            prefix@,
            signals@.len(),
        ),
{
    let ghost before = texts(out@);
    let ghost all = texts(sentences@);
    let ghost sigs = str_views(signals@);
    let mut k: usize = 0;
    assert(texts(out@) =~= before + from_signals(whole@, all, sigs, prefix@, 0));
    while k < signals.len()
        invariant
            all == texts(sentences@),
            sigs == str_views(signals@),
            k <= sigs.len(),
            texts(out@) == before + from_signals(whole@, all, sigs, prefix@, k as nat),
        decreases sigs.len() - k,
    {
        let ghost now = from_signals(whole@, all, sigs, prefix@, k as nat);
        assert(sigs[k as int] == signals@[k as int]@);
        if str_has(whole, signals[k]) {
            add_from_sentences(out, sentences, signals[k], prefix);
            proof {
                let more = from_sentences(all, sigs[k as int], prefix@, all.len());
                assert(before + now + more =~= before + (now + more));
            }
        }
        k += 1;
    }
}

/// What is worth remembering of an exchange: the sentences in which the user
/// states a preference, the whole input if it corrects the agent, the sentences
/// in which the agent mentions a convention, and those in which the user prefers a
/// tool.
pub fn extract_memories(user_input: &str, assistant_response: &str) -> (r: Vec<String>)
    ensures
        texts(r@) == memories(user_input@, assistant_response@),
{
    let mut out: Vec<String> = Vec::new();
    let user_lower = user_input.to_lowercase();
    let input = chars_of(user_input);
    let ends: [char; 3] = ['.', '!', '\n'];
    let sentences = split_at_any(input.as_slice(), ends.as_slice());
    assert(ends@ =~= seq!['.', '!', '\n']);
    let preferences: [&str; 13] = [
        "i prefer", "always use", "never use", "never do", "don't use", "i like", "i want",
        "please always", "from now on", "remember that", "keep in mind", "my preference is",
        "use this approach",
    ];
    assert(str_views(preferences@) =~= preference_signals());
    let empty = String::new();
    add_from_signals(
        &mut out,
        user_lower.as_str(),
        &sentences,
        preferences.as_slice(),
        empty.as_str(),
    );
    let ghost first = from_signals(
        lowercase(user_input@),
        split(user_input@, among(seq!['.', '!', '\n'])),
        preference_signals(),
        Seq::empty(),
        preference_signals().len(),
    );
    assert(empty@ =~= Seq::<char>::empty());
    assert(texts(out@) =~= first);

    let corrections: [&str; 6] = ["actually", "no, ", "not that", "i meant", "wrong,", "incorrect"];
    assert(str_views(corrections@) =~= correction_signals());
    if has_one_of(user_lower.as_str(), corrections.as_slice()) && byte_count(user_input) > 20 {
        let t = trim_str(user_input);
        if byte_count(t.as_str()) < 200 {
            let mut m = "Correction: ".to_owned();
            m.append(t.as_str());
            out.push(m);
            assert(texts(out@) =~= first + seq![m@]);
        }
    }
    assert(texts(out@) =~= first + from_correction(user_input@));

    let mut both = user_input.to_owned();
    both.append("\n");
    both.append(assistant_response);
    let both_lower = both.as_str().to_lowercase();
    let answer = chars_of(assistant_response);
    let stops: [char; 2] = ['.', '\n'];
    let parts = split_at_any(answer.as_slice(), stops.as_slice());
    assert(stops@ =~= seq!['.', '\n']);
    let conventions: [&str; 4] = [
        "project convention", "coding standard", "team uses", "configured to use",
    ];
    assert(str_views(conventions@) =~= convention_signals());
    add_from_signals(
        &mut out,
        both_lower.as_str(),
        &parts,
        conventions.as_slice(),
        "Convention: ",
    );
    add_from_tools(&mut out, &sentences, preferences.as_slice());
    out
}

// ── The memory file ────────────────────────────────────────────────────────
/// The memory file with the first `n` memories that it does not hold yet.
pub open spec fn file_with(existing: Seq<char>, mems: Seq<Seq<char>>, n: nat) -> Seq<char>
    decreases n,
{
    if n == 0 {
        existing
    } else {
        let now = file_with(existing, mems, (n - 1) as nat);
        if contains_text(now, mems[n - 1]) {
            now
        } else {
            now + ("\n"@ + mems[n - 1])
        }
    }
}

/// The memory file with the memories that it does not hold yet.
pub fn merge_memories(existing: &str, mems: &[String]) -> (r: String)
    ensures
        r@ == file_with(existing@, texts(mems@), mems@.len()),
{
    let ghost all = texts(mems@);
    let mut out = existing.to_owned();
    let mut i: usize = 0;
    while i < mems.len()
        invariant
            all == texts(mems@),
            i <= all.len(),
            out@ == file_with(existing@, all, i as nat),
        decreases all.len() - i,
    {
        assert(all[i as int] == mems@[i as int]@);
        if !str_has(out.as_str(), mems[i].as_str()) {
            let ghost now = out@;
            out.append("\n");
            out.append(mems[i].as_str());
            assert(out@ =~= now + ("\n"@ + all[i as int]));
        }
        i += 1;
    }
    out
}

/// The memory file, where there was none.
pub open spec fn new_file(mems: Seq<Seq<char>>) -> Seq<char> {
    "# Caduceus Memory\n\n"@ + join(mems, "\n"@)
}

/// The memory file, where there was none: all memories under a heading.
pub fn new_memory_file(mems: &[String]) -> (r: String)
    ensures
        r@ == new_file(texts(mems@)),
{
    let mut out = "# Caduceus Memory\n\n".to_owned();
    let list = join_texts(mems, "\n");
    out.append(list.as_str());
    out
}

proof fn lemma_occurs_in_longer(a: Seq<char>, b: Seq<char>, p: Seq<char>)
    requires
        contains_text(a, p),
    ensures
        contains_text(a + b, p),
{
    let i = choose|i: int| occurs_at(a, p, i);
    assert((a + b).subrange(i, i + p.len()) =~= a.subrange(i, i + p.len()));
    assert(occurs_at(a + b, p, i));
}

/// Every memory is in the file afterwards.
pub proof fn law_memories_are_in_the_file(
    existing: Seq<char>,
    mems: Seq<Seq<char>>,
    n: nat,
    k: int,
)
    requires
        0 <= k < n <= mems.len(),
    ensures
        contains_text(file_with(existing, mems, n), mems[k]),
    decreases n,
{
    let now = file_with(existing, mems, (n - 1) as nat);
    if k < n - 1 {
        law_memories_are_in_the_file(existing, mems, (n - 1) as nat, k);
        if !contains_text(now, mems[n - 1]) {
            lemma_occurs_in_longer(now, "\n"@ + mems[n - 1], mems[k]);
        }
    } else if !contains_text(now, mems[n - 1]) {
        let all = now + ("\n"@ + mems[k]);
        let i: int = now.len() as int + "\n"@.len() as int;
        assert(all.subrange(i, i + mems[k].len()) =~= mems[k]);
        assert(occurs_at(all, mems[k], i));
    }
}

/// Merging the same memories again changes nothing.
pub proof fn law_merging_twice_is_merging_once(existing: Seq<char>, mems: Seq<Seq<char>>, n: nat)
    requires
        n <= mems.len(),
    ensures
        file_with(file_with(existing, mems, mems.len()), mems, n) == file_with(
            existing,
            mems,
            mems.len(),
        ),
    decreases n,
{
    if n > 0 {
        law_merging_twice_is_merging_once(existing, mems, (n - 1) as nat);
        law_memories_are_in_the_file(existing, mems, mems.len(), n - 1);
    }
}

/// A sentence is remembered for a signal if it holds the signal in any case and is of a
/// useful length; nothing else is, and what is remembered comes in the order of the text.
pub proof fn law_sentences_with_a_signal_are_remembered(
    sentences: Seq<Seq<char>>,
    signal: Seq<char>,
    prefix: Seq<char>,
)
    ensures
        from_sentences(sentences, signal, prefix, sentences.len()) == sentences.filter(
            |s: Seq<char>|
                contains_text(lowercase(s), signal) && 10 < byte_len(trim(s)) < 200,
        ).map_values(|s: Seq<char>| prefix + trim(s)),
{
    lemma_remembered(sentences, signal, prefix, sentences.len());
    assert(sentences.take(sentences.len() as int) =~= sentences);
}

proof fn lemma_remembered(
    sentences: Seq<Seq<char>>,
    signal: Seq<char>,
    prefix: Seq<char>,
    n: nat,
)
    requires
        n <= sentences.len(),
    ensures
        from_sentences(sentences, signal, prefix, n) == sentences.take(n as int).filter(
            |s: Seq<char>|
                contains_text(lowercase(s), signal) && 10 < byte_len(trim(s)) < 200,
        ).map_values(|s: Seq<char>| prefix + trim(s)),
    decreases n,
{
    reveal(Seq::filter);
    let keep = |s: Seq<char>| contains_text(lowercase(s), signal) && 10 < byte_len(trim(s)) < 200;
    let form = |s: Seq<char>| prefix + trim(s);
    let part = sentences.take(n as int);
    if n > 0 {
        lemma_remembered(sentences, signal, prefix, (n - 1) as nat);
        let before = sentences.take(n - 1);
        let s = sentences[n - 1];
        assert(part.drop_last() =~= before);
        assert(part.last() == s);
        if keep(s) {
            assert(before.filter(keep).push(s).map_values(form) =~= before.filter(
                keep,
            ).map_values(form).push(prefix + trim(s)));
        }
    } else {
        assert(part.filter(keep).map_values(form) =~= Seq::<Seq<char>>::empty());
    }
}

/// A memory from signals is a sentence of the text that holds one of them, and every such
/// sentence is one.
pub proof fn law_every_signal_is_heard(
    whole: Seq<char>,
    sentences: Seq<Seq<char>>,
    signals: Seq<Seq<char>>,
    prefix: Seq<char>,
    n: nat,
    m: Seq<char>,
)
    requires
        n <= signals.len(),
    ensures
        from_signals(whole, sentences, signals, prefix, n).contains(m) <==> exists|k: int|
            0 <= k < n && contains_text(whole, #[trigger] signals[k]) && from_sentences(
                sentences,
                signals[k],
                prefix,
                sentences.len(),
            ).contains(m),
    decreases n,
{
    if n > 0 {
        law_every_signal_is_heard(whole, sentences, signals, prefix, (n - 1) as nat, m);
        let rest = from_signals(whole, sentences, signals, prefix, (n - 1) as nat);
        let more = from_sentences(sentences, signals[n - 1], prefix, sentences.len());
        let all = rest + more;
        if rest.contains(m) {
            let k = choose|k: int| 0 <= k < rest.len() && rest[k] == m;
            assert(all[k] == m);
        }
        if more.contains(m) {
            let k = choose|k: int| 0 <= k < more.len() && more[k] == m;
            assert(all[rest.len() + k] == m);
        }
        if all.contains(m) {
            let k = choose|k: int| 0 <= k < all.len() && all[k] == m;
            if k < rest.len() {
                assert(rest[k] == m);
            } else {
                assert(more[k - rest.len()] == m);
            }
        }
    }
}

} // verus!
