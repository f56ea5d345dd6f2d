//! Critics: what is said of an answer before it is given.

use crate::numeral::{byte_count, byte_len, decimal, decimal_text};
use crate::text::{
    contains_text, lemma_contains_part, lemma_texts_push, lowercase, str_has, texts, trim,
    trim_str,
};
use vstd::prelude::*;
use vstd::string::*;

use std::collections::VecDeque;

verus! {

broadcast use lemma_texts_push;

/// What a critic says of an answer.
#[derive(Debug, PartialEq, Eq)]
pub enum Verdict {
    Accept,
    Reject { feedback: String },
}

/// The model of a [`Verdict`].
pub enum VerdictModel {
    Accept,
    Reject { feedback: Seq<char> },
}

impl View for Verdict {
    type V = VerdictModel;

    open spec fn view(&self) -> VerdictModel {
        match self {
            Verdict::Accept => VerdictModel::Accept,
            Verdict::Reject { feedback } => VerdictModel::Reject { feedback: feedback@ },
        }
    }
}

/// Rejects answers that are too short, and those with an evasive phrase.
#[derive(Debug)]
pub struct HeuristicCritic {
    pub min_chars: usize,
    pub veto_phrases: Vec<String>,
}

/// What is said of an answer that is too short.
pub open spec fn too_short(n: nat) -> Seq<char> {
    "Your response was "@ + decimal(n)
        + " chars long, which looks truncated or evasive. Please answer the question with concrete content."@
}

/// What is said of an answer with an evasive phrase.
pub open spec fn evasive(phrase: Seq<char>) -> Seq<char> {
    "Your response contained an evasive phrase ('"@ + phrase
        + "'). Please attempt the task directly using the tools available."@
}

/// The first of the phrases from `i` on that occurs in a text in lower case,
/// whatever the case of the phrase.
pub open spec fn first_phrase(text: Seq<char>, phrases: Seq<Seq<char>>, i: int) -> Option<Seq<char>>
    decreases phrases.len() - i,
{
    if i < 0 || i >= phrases.len() {
        None
    } else if contains_text(text, lowercase(phrases[i])) {
        Some(phrases[i])
    } else {
        first_phrase(text, phrases, i + 1)
    }
}

/// What the critic says of an answer.
pub open spec fn judgement(c: HeuristicCritic, response: Seq<char>) -> VerdictModel {
    let t = trim(response);
    if byte_len(t) < c.min_chars {
        VerdictModel::Reject { feedback: too_short(byte_len(t)) }
    } else {
        match first_phrase(lowercase(t), texts(c.veto_phrases@), 0) {
            Some(p) => VerdictModel::Reject { feedback: evasive(p) },
            None => VerdictModel::Accept,
        }
    }
}

impl HeuristicCritic {
    /// What the critic says of an answer.
    pub fn judge(&self, response: &str) -> (r: Verdict)
        ensures
            r@ == judgement(*self, response@),
    {
        let t = trim_str(response);
        let n: usize = byte_count(t.as_str());
        if n < self.min_chars {
            let mut feedback = "Your response was ".to_owned();
            let s = decimal_text(n as u64);
            feedback.append(s.as_str());
            feedback.append(
                " chars long, which looks truncated or evasive. Please answer the question with concrete content.",
            );
            return Verdict::Reject { feedback };
        }
        let low = t.as_str().to_lowercase();
        let ghost all = texts(self.veto_phrases@);
        let mut i: usize = 0;
        while i < self.veto_phrases.len()
            invariant
                all == texts(self.veto_phrases@),
                i <= all.len(),
                low@ == lowercase(trim(response@)),
                byte_len(trim(response@)) >= self.min_chars,
                first_phrase(low@, all, 0) == first_phrase(low@, all, i as int),
            decreases all.len() - i,
        {
            assert(all[i as int] == self.veto_phrases@[i as int]@);
            let phrase = self.veto_phrases[i].as_str().to_lowercase();
            if str_has(low.as_str(), phrase.as_str()) {
                let mut feedback = "Your response contained an evasive phrase ('".to_owned();
                feedback.append(self.veto_phrases[i].as_str());
                feedback.append(
                    "'). Please attempt the task directly using the tools available.",
                );
                return Verdict::Reject { feedback };
            }
            i += 1;
        }
        Verdict::Accept
    }
}

impl Default for HeuristicCritic {
    fn default() -> (r: HeuristicCritic)
        ensures
            r.min_chars == 12,
            texts(r.veto_phrases@) == seq!["i cannot help"@, "i'm unable to"@, "as an ai"@],
    {
        let mut phrases: Vec<String> = Vec::new();
        phrases.push("i cannot help".to_owned());
        phrases.push("i'm unable to".to_owned());
        phrases.push("as an ai".to_owned());
        assert(texts(phrases@) =~= seq!["i cannot help"@, "i'm unable to"@, "as an ai"@]);
        HeuristicCritic { min_chars: 12, veto_phrases: phrases }
    }
}

/// Says what it was told to say, and accepts everything after that.
#[derive(Debug)]
pub struct ScriptedCritic {
    verdicts: VecDeque<Verdict>,
}

impl ScriptedCritic {
    /// What it is still to say.
    pub closed spec fn script(self) -> Seq<Verdict> {
        self.verdicts@
    }

    /// A critic with this script.
    pub fn new(seq: Vec<Verdict>) -> (r: ScriptedCritic)
        ensures
            r.script() == seq@,
    {
        let mut rest = seq;
        let mut out: VecDeque<Verdict> = VecDeque::new();
        while rest.len() > 0
            invariant
                rest@ + out@ == seq@,
            decreases rest@.len(),
        {
            let ghost before = rest@ + out@;
            match rest.pop() {
                Some(v) => {
                    out.push_front(v);
                },
                None => {},
            }
            assert(rest@ + out@ =~= before);
        }
        assert(out@ =~= seq@);
        ScriptedCritic { verdicts: out }
    }

    /// What comes next in the script.
    pub fn judge(&mut self) -> (r: Verdict)
        ensures
            old(self).script().len() > 0 ==> r == old(self).script()[0] && final(self).script()
                == old(self).script().subrange(1, old(self).script().len() as int),
            old(self).script().len() == 0 ==> r is Accept && final(self).script() == old(
                self,
            ).script(),
    {
        match self.verdicts.pop_front() {
            Some(v) => v,
            None => Verdict::Accept,
        }
    }
}

// ── Laws ───────────────────────────────────────────────────────────────────
/// An answer is accepted exactly if it is long enough and holds none of the phrases, in
/// whatever case either is written.
pub proof fn law_answers_are_accepted_without_a_phrase(c: HeuristicCritic, response: Seq<char>)
    ensures
        judgement(c, response) is Accept <==> {
            &&& byte_len(trim(response)) >= c.min_chars
            &&& forall|i: int|
                0 <= i < c.veto_phrases@.len() ==> !contains_text(
                    lowercase(trim(response)),
                    lowercase((#[trigger] c.veto_phrases@[i])@),
                )
        },
{
    let low = lowercase(trim(response));
    let all = texts(c.veto_phrases@);
    lemma_first_phrase(low, all, 0);
    match first_phrase(low, all, 0) {
        Some(p) => {
            let i = choose|i: int|
                0 <= i < all.len() && p == #[trigger] all[i] && contains_text(
                    low,
                    lowercase(all[i]),
                );
            assert(all[i] == c.veto_phrases@[i]@);
        },
        None => {
            assert forall|i: int| 0 <= i < c.veto_phrases@.len() implies !contains_text(
                low,
                lowercase((#[trigger] c.veto_phrases@[i])@),
            ) by {
                assert(all[i] == c.veto_phrases@[i]@);
            }
        },
    }
}

proof fn lemma_first_phrase(text: Seq<char>, phrases: Seq<Seq<char>>, i: int)
    requires
        0 <= i <= phrases.len(),
    ensures
        match first_phrase(text, phrases, i) {
            Some(p) => exists|k: int|
                i <= k < phrases.len() && p == #[trigger] phrases[k] && contains_text(
                    text,
                    lowercase(phrases[k]),
                ) && forall|j: int|
                    i <= j < k ==> !contains_text(text, lowercase(#[trigger] phrases[j])),
            None => forall|k: int|
                i <= k < phrases.len() ==> !contains_text(text, lowercase(#[trigger] phrases[k])),
        },
    decreases phrases.len() - i,
{
    if i < phrases.len() {
        if contains_text(text, lowercase(phrases[i])) {
            assert(phrases[i] == phrases[i]);
        } else {
            lemma_first_phrase(text, phrases, i + 1);
        }
    }
}

/// An answer that is sent back is told why: how short it is, or the first of the phrases
/// that it holds.
pub proof fn law_rejections_say_why(c: HeuristicCritic, response: Seq<char>, i: int)
    ensures
        byte_len(trim(response)) < c.min_chars ==> judgement(c, response) is Reject
            && contains_text(
            judgement(c, response)->feedback,
            " "@ + decimal(byte_len(trim(response))) + " "@,
        ),
        byte_len(trim(response)) >= c.min_chars && 0 <= i < c.veto_phrases@.len() && contains_text(
            lowercase(trim(response)),
            lowercase(c.veto_phrases@[i]@),
        ) && (forall|j: int|
            0 <= j < i ==> !contains_text(
                lowercase(trim(response)),
                lowercase((#[trigger] c.veto_phrases@[j])@),
            )) ==> judgement(c, response) is Reject && contains_text(
            judgement(c, response)->feedback,
            "'"@ + c.veto_phrases@[i]@ + "'"@,
        ),
{
    let low = lowercase(trim(response));
    let all = texts(c.veto_phrases@);
    reveal_strlit(" ");
    reveal_strlit("'");
    reveal_strlit("Your response was ");
    reveal_strlit("Your response was");
    reveal_strlit(
        " chars long, which looks truncated or evasive. Please answer the question with concrete content.",
    );
    reveal_strlit(
        "chars long, which looks truncated or evasive. Please answer the question with concrete content.",
    );
    reveal_strlit("Your response contained an evasive phrase ('");
    reveal_strlit("Your response contained an evasive phrase (");
    reveal_strlit("'). Please attempt the task directly using the tools available.");
    reveal_strlit("). Please attempt the task directly using the tools available.");
    if byte_len(trim(response)) < c.min_chars {
        let n = byte_len(trim(response));
        let a = "Your response was"@;
        let b =
            "chars long, which looks truncated or evasive. Please answer the question with concrete content."@;
        lemma_contains_part(a, " "@ + decimal(n) + " "@, b);
        assert(a + (" "@ + decimal(n) + " "@) + b =~= too_short(n));
    } else if 0 <= i < c.veto_phrases@.len() && contains_text(
        low,
        lowercase(c.veto_phrases@[i]@),
    ) && (forall|j: int|
        0 <= j < i ==> !contains_text(low, lowercase((#[trigger] c.veto_phrases@[j])@))) {
        lemma_first_phrase(low, all, 0);
        assert(all[i] == c.veto_phrases@[i]@);
        let k = choose|k: int|
            0 <= k < all.len() && first_phrase(low, all, 0) == Some(#[trigger] all[k])
                && contains_text(low, lowercase(all[k])) && forall|j: int|
                0 <= j < k ==> !contains_text(low, lowercase(#[trigger] all[j]));
        if k < i {
            assert(all[k] == c.veto_phrases@[k]@);
        }
        let p = all[i];
        let a = "Your response contained an evasive phrase ("@;
        let b = "). Please attempt the task directly using the tools available."@;
        lemma_contains_part(a, "'"@ + p + "'"@, b);
        assert(a + ("'"@ + p + "'"@) + b =~= evasive(p));
    }
}

} // verus!
