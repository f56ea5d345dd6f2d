//! Asking a model again for the same answer, and taking a vote.
//!
//! The first ballot is the answer itself. How the ballots are counted is the
//! caller's business.

use crate::events::{
    event_models, lemma_events_empty, lemma_events_push, AgentEvent, EventModel,
};
use crate::numeral::{decimal, decimal_text};
use crate::text::{chars_of, lemma_texts_push, same_text, texts, trim, trimmed};
use vstd::prelude::*;
use vstd::string::*;

verus! {

broadcast use {lemma_texts_push, lemma_events_push, lemma_events_empty};

/// How ballots are weighed.
#[derive(Debug, Clone, Copy, PartialEq, Eq, Structural)]
pub enum VoteKind {
    /// All alike.
    Plain,
    /// By a verifier of steps.
    ProcessReward,
    /// By how sure the model was.
    Confidence,
}

/// The name of a kind of vote.
pub open spec fn vote_name(k: VoteKind) -> Seq<char> {
    match k {
        VoteKind::Plain => "rollout_vote"@,
        VoteKind::ProcessReward => "prm_weighted_vote"@,
        VoteKind::Confidence => "cisc_weighted_vote"@,
    }
}

/// What is told when a vote begins.
pub fn vote_started(kind: VoteKind, extra: usize) -> (r: AgentEvent)
    ensures
        r@ == (EventModel::VerificationStarted { strategy: vote_name(kind), sample_count: extra }),
{
    let name = match kind {
        VoteKind::Plain => "rollout_vote",
        VoteKind::ProcessReward => "prm_weighted_vote",
        VoteKind::Confidence => "cisc_weighted_vote",
    };
    AgentEvent::VerificationStarted { strategy: name.to_owned(), sample_count: extra }
}

/// What is told when the tests are run in place of a vote.
pub fn gate_vote_started() -> (r: AgentEvent)
    ensures
        r@ == (EventModel::VerificationStarted { strategy: "test_gated"@, sample_count: 0 }),
{
    AgentEvent::VerificationStarted { strategy: "test_gated".to_owned(), sample_count: 0 }
}

/// What is told when the tests have been run in place of a vote.
pub fn gate_vote_completed(cancelled: bool) -> (r: AgentEvent)
    ensures
        r@ == (EventModel::VerificationCompleted {
            ballots_collected: 1,
            agreed: false,
            cancelled,
        }),
{
    AgentEvent::VerificationCompleted { ballots_collected: 1, agreed: false, cancelled }
}

/// What is told when there is nothing to weigh the ballots by.
pub open spec fn missing_weights(k: VoteKind) -> Option<Seq<char>> {
    match k {
        VoteKind::Plain => None,
        VoteKind::ProcessReward => Some(
            "verification: PrmWeightedVote strategy set but no StepVerifier provided — falling back to plain vote"@,
        ),
        VoteKind::Confidence => Some(
            "verification: CiscWeightedVote strategy set but no provider returned logprobs — falling back to plain vote"@,
        ),
    }
}

/// How the ballots are weighed, given whether there is anything to weigh them
/// by, and what is told if there is not.
pub fn weighing(kind: VoteKind, has_weights: bool) -> (r: (VoteKind, Option<AgentEvent>))
    ensures
        has_weights || kind == VoteKind::Plain ==> r.0 == kind && r.1 is None,
        !has_weights && kind != VoteKind::Plain ==> r.0 == VoteKind::Plain && r.1 is Some
            && r.1->0@ == (EventModel::Error { message: missing_weights(kind)->0 }),
{
    if has_weights {
        return (kind, None);
    }
    match kind {
        VoteKind::Plain => (kind, None),
        VoteKind::ProcessReward => (
            VoteKind::Plain,
            Some(
                AgentEvent::Error {
                    message: "verification: PrmWeightedVote strategy set but no StepVerifier provided — falling back to plain vote".to_owned(),
                },
            ),
        ),
        VoteKind::Confidence => (
            VoteKind::Plain,
            Some(
                AgentEvent::Error {
                    message: "verification: CiscWeightedVote strategy set but no provider returned logprobs — falling back to plain vote".to_owned(),
                },
            ),
        ),
    }
}

/// What is told when the tests should be run and no command is known.
pub fn gate_missing() -> (r: AgentEvent)
    ensures
        r@ == (EventModel::Error {
            message: "verification: TestGated strategy set but no TestGateConfig provided — skipping"@,
        }),
{
    AgentEvent::Error {
        message: "verification: TestGated strategy set but no TestGateConfig provided — skipping".to_owned(),
    }
}

/// What came of asking again.
#[derive(Debug)]
pub enum Rollout {
    Answer(String),
    Failed(String),
}

/// How a vote ended.
#[derive(Debug)]
pub struct VoteOutcome {
    pub winner: String,
    pub winner_votes: usize,
    pub total_votes: usize,
    pub had_majority: bool,
}

/// A vote that is being taken.
#[derive(Debug)]
pub struct Vote {
    pub ballots: Vec<String>,
    /// How often the model is asked again.
    pub extra: usize,
    /// How often it has been.
    pub asked: usize,
    pub cancelled: bool,
}

/// The model of a [`Vote`].
pub struct VoteModel {
    pub ballots: Seq<Seq<char>>,
    pub extra: nat,
    pub asked: nat,
    pub cancelled: bool,
}

impl View for Vote {
    type V = VoteModel;

    open spec fn view(&self) -> VoteModel {
        VoteModel {
            ballots: texts(self.ballots@),
            extra: self.extra as nat,
            asked: self.asked as nat,
            cancelled: self.cancelled,
        }
    }
}

/// The vote after asking once more: an answer that is not blank is a ballot.
pub open spec fn after_rollout(v: VoteModel, r: Rollout) -> VoteModel {
    VoteModel {
        asked: v.asked + 1,
        ballots: match r {
            Rollout::Answer(s) => if trim(s@).len() > 0 {
                v.ballots.push(s@)
            } else {
                v.ballots
            },
            Rollout::Failed(_) => v.ballots,
        },
        ..v
    }
}

/// What is told after asking once more.
pub open spec fn rollout_events(asked: nat, r: Rollout) -> Seq<EventModel> {
    match r {
        Rollout::Answer(s) => if trim(s@).len() > 0 {
            Seq::empty()
        } else {
            seq![
                EventModel::Error {
                    message: "verification rollout "@ + decimal(asked + 1)
                        + " returned empty content"@,
                },
            ]
        },
        Rollout::Failed(e) => seq![
            EventModel::Error {
                message: "verification rollout "@ + decimal(asked + 1) + " failed: "@ + e@,
            },
        ],
    }
}

/// What is told at the end of a vote.
pub open spec fn vote_events(v: VoteModel, original: Seq<char>, outcome: Option<VoteOutcome>) -> Seq<
    EventModel,
> {
    let n = v.ballots.len();
    if n < 2 {
        seq![
            EventModel::VerificationCompleted {
                ballots_collected: n as usize,
                agreed: false,
                cancelled: v.cancelled,
            },
        ]
    } else {
        match outcome {
            Some(o) => seq![
                EventModel::VerificationCompleted {
                    ballots_collected: n as usize,
                    agreed: o.had_majority && o.winner@ != original,
                    cancelled: v.cancelled,
                },
                EventModel::Error {
                    message: "verification: "@ + decimal(o.winner_votes as nat) + "/"@ + decimal(
                        o.total_votes as nat,
                    ) + " ballots agreed (majority="@ + (if o.had_majority {
                        "true"@
                    } else {
                        "false"@
                    }) + ")"@,
                },
            ],
            None => seq![
                EventModel::VerificationCompleted {
                    ballots_collected: n as usize,
                    agreed: false,
                    cancelled: v.cancelled,
                },
            ],
        }
    }
}

/// The answer that a vote gives, if it gives one.
pub open spec fn vote_winner(v: VoteModel, outcome: Option<VoteOutcome>) -> Option<Seq<char>> {
    match outcome {
        Some(o) => if v.ballots.len() >= 2 {
            Some(o.winner@)
        } else {
            None
        },
        None => None,
    }
}

impl Vote {
    /// A vote with the answer itself as the first ballot.
    pub fn new(original: &str, extra: usize) -> (r: Vote)
        ensures
            r@ == (VoteModel {
                ballots: seq![original@],
                extra: extra as nat,
                asked: 0,
                cancelled: false,
            }),
    {
        let mut ballots: Vec<String> = Vec::new();
        ballots.push(original.to_owned());
        assert(texts(ballots@) =~= seq![original@]);
        Vote { ballots, extra, asked: 0, cancelled: false }
    }

    /// Whether the model is to be asked again. If the run has been cancelled,
    /// it is not.
    pub fn ask_again(&mut self, cancelled: bool) -> (r: bool)
        ensures
            r == (!cancelled && old(self)@.asked < old(self)@.extra),
            final(self)@ == (VoteModel {
                cancelled: old(self)@.cancelled || (cancelled && old(self)@.asked
                    < old(self)@.extra),
                ..old(self)@
            }),
    {
        if self.asked >= self.extra {
            return false;
        }
        if cancelled {
            self.cancelled = true;
            return false;
        }
        true
    }

    /// The model was asked again.
    pub fn asked_again(&mut self, rollout: Rollout) -> (r: Vec<AgentEvent>)
        requires
            old(self).asked < old(self).extra,
        ensures
            final(self)@ == after_rollout(old(self)@, rollout),
            event_models(r@) == rollout_events(old(self)@.asked, rollout),
    {
        let mut out: Vec<AgentEvent> = Vec::new();
        self.asked = self.asked + 1;
        let mut message = "verification rollout ".to_owned();
        let n = decimal_text(self.asked as u64);
        message.append(n.as_str());
        match rollout {
            Rollout::Answer(s) => {
                let c = chars_of(s.as_str());
                if trimmed(c.as_slice()).len() > 0 {
                    self.ballots.push(s);
                } else {
                    message.append(" returned empty content");
                    out.push(AgentEvent::Error { message });
                }
            },
            Rollout::Failed(e) => {
                message.append(" failed: ");
                message.append(e.as_str());
                out.push(AgentEvent::Error { message });
            },
        }
        assert(event_models(out@) =~= rollout_events(old(self)@.asked, rollout));
        out
    }

    /// Whether there is anything to count: the answer and another ballot.
    pub fn is_meaningful(&self) -> (r: bool)
        ensures
            r == (self@.ballots.len() >= 2),
    {
        self.ballots.len() >= 2
    }

    /// The vote has been counted, or there was nothing to count. Returns the
    /// answer that it gives, if it gives one, and what is told.
    pub fn counted(&self, original: &str, outcome: Option<VoteOutcome>) -> (r: (
        Option<String>,
        Vec<AgentEvent>,
    ))
        ensures
            event_models(r.1@) == vote_events(self@, original@, outcome),
            match r.0 {
                Some(s) => vote_winner(self@, outcome) == Some(s@),
                None => vote_winner(self@, outcome) is None,
            },
    {
        let mut out: Vec<AgentEvent> = Vec::new();
        let n: usize = self.ballots.len();
        if n < 2 {
            out.push(
                AgentEvent::VerificationCompleted {
                    ballots_collected: n,
                    agreed: false,
                    cancelled: self.cancelled,
                },
            );
            assert(event_models(out@) =~= vote_events(self@, original@, outcome));
            return (None, out);
        }
        match outcome {
            Some(o) => {
                let differs = !same_text(o.winner.as_str(), original);
                out.push(
                    AgentEvent::VerificationCompleted {
                        ballots_collected: n,
                        agreed: o.had_majority && differs,
                        cancelled: self.cancelled,
                    },
                );
                let mut message = "verification: ".to_owned();
                let w = decimal_text(o.winner_votes as u64);
                message.append(w.as_str());
                message.append("/");
                let t = decimal_text(o.total_votes as u64);
                message.append(t.as_str());
                message.append(" ballots agreed (majority=");
                if o.had_majority {
                    message.append("true");
                } else {
                    message.append("false");
                }
                message.append(")");
                out.push(AgentEvent::Error { message });
                assert(event_models(out@) =~= vote_events(self@, original@, outcome));
                (Some(o.winner), out)
            },
            None => {
                out.push(
                    AgentEvent::VerificationCompleted {
                        ballots_collected: n,
                        agreed: false,
                        cancelled: self.cancelled,
                    },
                );
                assert(event_models(out@) =~= vote_events(self@, original@, outcome));
                (None, out)
            },
        }
    }
}

/// A failed or blank rollout is no ballot: it neither helps nor harms the
/// answer, and the answer itself stays the first ballot.
pub proof fn law_failed_rollouts_do_not_vote(v: VoteModel, error: String)
    ensures
        after_rollout(v, Rollout::Failed(error)).ballots == v.ballots,
{
}

/// The answer itself stays the first ballot, whatever comes back.
pub proof fn law_the_answer_is_the_first_ballot(v: VoteModel, r: Rollout)
    requires
        v.ballots.len() > 0,
    ensures
        after_rollout(v, r).ballots[0] == v.ballots[0],
{
}

/// A ballot is an answer that is not blank, as it was given, after those that were there;
/// every question counts as asked, whatever comes back.
pub proof fn law_answers_are_ballots(v: VoteModel, answer: String)
    ensures
        after_rollout(v, Rollout::Answer(answer)).ballots == (if trim(answer@) == Seq::<
            char,
        >::empty() {
            v.ballots
        } else {
            v.ballots + seq![answer@]
        }),
        forall|r: Rollout| (#[trigger] after_rollout(v, r)).asked == v.asked + 1,
        forall|r: Rollout|
            (#[trigger] after_rollout(v, r)).cancelled == v.cancelled && after_rollout(v, r).extra
                == v.extra,
{
    if trim(answer@).len() == 0 {
        assert(trim(answer@) =~= Seq::<char>::empty());
    }
    assert(v.ballots.push(answer@) =~= v.ballots + seq![answer@]);
}

/// One ballot is no vote: the answer is replaced only where there are two or more, by the
/// winner among them, and there is agreement only with a majority for another answer.
pub proof fn law_one_ballot_is_no_vote(
    v: VoteModel,
    original: Seq<char>,
    outcome: Option<VoteOutcome>,
)
    requires
        v.ballots.len() <= usize::MAX,
    ensures
        vote_winner(v, outcome) is Some <==> v.ballots.len() >= 2 && outcome is Some,
        vote_winner(v, outcome) is Some ==> vote_winner(v, outcome)->0 == outcome->0.winner@,
        ({
            let told = vote_events(v, original, outcome);
            &&& told.len() >= 1
            &&& told[0] is VerificationCompleted
            &&& told[0]->ballots_collected == v.ballots.len()
            &&& told[0]->agreed <==> v.ballots.len() >= 2 && outcome is Some
                && outcome->0.had_majority && outcome->0.winner@ != original
            &&& told[0]->VerificationCompleted_cancelled == v.cancelled
        }),
{
}

} // verus!
