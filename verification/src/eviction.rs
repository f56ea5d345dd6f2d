//! When to compact, and what a model may give up of its own context.

use crate::clock::present;
use crate::groups::{message_models, CompactMessage, CompactModel};
use crate::numeral::{byte_count, byte_len, decimal, decimal_text, lemma_decimal_injective};
use crate::split::{join, join_texts, words, words_of};
use crate::strategies::cap;
use crate::text::{
    char_alphabetic, chars_of, contains_text, holds_text, is_one_of, lemma_texts_push, lowercase,
    same_text, str_has, str_views, texts,
};
use vstd::prelude::*;
use vstd::string::*;

verus! {

broadcast use lemma_texts_push;

// ── Triggers ───────────────────────────────────────────────────────────────
/// How large a context is.
#[derive(Debug, Clone, Copy, PartialEq, Eq, Structural)]
pub struct ContextStats {
    pub total_tokens: usize,
    pub message_count: usize,
    pub turn_count: usize,
}

/// When to compact.
#[derive(Debug)]
pub enum CompactionTrigger {
    TokensExceed(usize),
    MessagesExceed(usize),
    TurnsExceed(usize),
    Always,
    Never,
    /// Every inner trigger fires, and there is one.
    All(Vec<CompactionTrigger>),
    /// Some inner trigger fires.
    Any(Vec<CompactionTrigger>),
}

/// Whether the trigger fires.
pub open spec fn fires(t: CompactionTrigger, stats: ContextStats) -> bool
    decreases t, 0nat,
{
    match t {
        CompactionTrigger::TokensExceed(n) => stats.total_tokens > n,
        CompactionTrigger::MessagesExceed(n) => stats.message_count > n,
        CompactionTrigger::TurnsExceed(n) => stats.turn_count > n,
        CompactionTrigger::Always => true,
        CompactionTrigger::Never => false,
        CompactionTrigger::All(v) => v@.len() > 0 && all_fire(v@, v@.len(), stats),
        CompactionTrigger::Any(v) => any_fires(v@, v@.len(), stats),
    }
}

/// Whether each of the first `n` triggers fires.
pub open spec fn all_fire(v: Seq<CompactionTrigger>, n: nat, stats: ContextStats) -> bool
    decreases v, n,
{
    n == 0 || n > v.len() || (all_fire(v, (n - 1) as nat, stats) && fires(v[n - 1], stats))
}

/// Whether one of the first `n` triggers fires.
pub open spec fn any_fires(v: Seq<CompactionTrigger>, n: nat, stats: ContextStats) -> bool
    decreases v, n,
{
    0 < n <= v.len() && (any_fires(v, (n - 1) as nat, stats) || fires(v[n - 1], stats))
}

/// `all_fire` speaks of each of them.
pub proof fn lemma_all_fire(v: Seq<CompactionTrigger>, n: nat, stats: ContextStats)
    requires
        n <= v.len(),
    ensures
        all_fire(v, n, stats) == forall|i: int| 0 <= i < n ==> fires(#[trigger] v[i], stats),
    decreases n,
{
    if n > 0 {
        lemma_all_fire(v, (n - 1) as nat, stats);
    }
}

/// `any_fires` speaks of some of them.
pub proof fn lemma_any_fires(v: Seq<CompactionTrigger>, n: nat, stats: ContextStats)
    requires
        n <= v.len(),
    ensures
        any_fires(v, n, stats) == exists|i: int| 0 <= i < n && fires(#[trigger] v[i], stats),
    decreases n,
{
    if n > 0 {
        lemma_any_fires(v, (n - 1) as nat, stats);
    }
}

impl CompactionTrigger {
    /// Whether to compact now.
    pub fn should_compact(&self, stats: &ContextStats) -> (r: bool)
        ensures
            r == fires(*self, *stats),
        decreases self,
    {
        match self {
            CompactionTrigger::TokensExceed(n) => stats.total_tokens > *n,
            CompactionTrigger::MessagesExceed(n) => stats.message_count > *n,
            CompactionTrigger::TurnsExceed(n) => stats.turn_count > *n,
            CompactionTrigger::Always => true,
            CompactionTrigger::Never => false,
            CompactionTrigger::All(v) => {
                let mut fire: bool = true;
                let mut i: usize = 0;
                while i < v.len()
                    invariant
                        *self == CompactionTrigger::All(*v),
                        i <= v@.len(),
                        fire == all_fire(v@, i as nat, *stats),
                    decreases v@.len() - i,
                {
                    proof {
                        assert(decreases_to!(*self => (*self)->All_0));
                        assert(decreases_to!((*self)->All_0 => (*self)->All_0@));
                        assert(decreases_to!(v@ => v@[i as int]));
                    }
                    let one = v[i].should_compact(stats);
                    fire = fire && one;
                    i += 1;
                }
                !v.is_empty() && fire
            },
            CompactionTrigger::Any(v) => {
                let mut fire: bool = false;
                let mut i: usize = 0;
                while i < v.len()
                    invariant
                        *self == CompactionTrigger::Any(*v),
                        i <= v@.len(),
                        fire == any_fires(v@, i as nat, *stats),
                    decreases v@.len() - i,
                {
                    proof {
                        assert(decreases_to!(*self => (*self)->Any_0));
                        assert(decreases_to!((*self)->Any_0 => (*self)->Any_0@));
                        assert(decreases_to!(v@ => v@[i as int]));
                    }
                    let one = v[i].should_compact(stats);
                    fire = fire || one;
                    i += 1;
                }
                fire
            },
        }
    }
}

// ── Checkpoints of facts ───────────────────────────────────────────────────
/// Facts that were known to hold at some point of a conversation.
#[derive(Debug)]
pub struct ContextCheckpoint {
    pub id: String,
    pub verified_facts: Vec<String>,
    pub timestamp: u64,
}

/// The model of a [`ContextCheckpoint`].
pub struct CheckpointModel {
    pub id: Seq<char>,
    pub facts: Seq<Seq<char>>,
    pub timestamp: u64,
}

impl View for ContextCheckpoint {
    type V = CheckpointModel;

    open spec fn view(&self) -> CheckpointModel {
        CheckpointModel {
            id: self.id@,
            facts: texts(self.verified_facts@),
            timestamp: self.timestamp,
        }
    }
}

/// The id of the `n`th checkpoint.
pub open spec fn checkpoint_id(n: nat) -> Seq<char> {
    "cp-"@ + decimal(n)
}

/// The checkpoints, and how many ids have been given out.
pub struct EvictionModel {
    pub checkpoints: Seq<CheckpointModel>,
    pub issued: nat,
}

/// The checkpoints of a conversation, oldest first.
#[derive(Debug)]
pub struct SelfEvictionManager {
    checkpoints: Vec<ContextCheckpoint>,
    issued: u64,
}

/// The models of checkpoints.
pub open spec fn checkpoint_models(v: Seq<ContextCheckpoint>) -> Seq<CheckpointModel> {
    v.map_values(|c: ContextCheckpoint| c@)
}

impl View for SelfEvictionManager {
    type V = EvictionModel;

    closed spec fn view(&self) -> EvictionModel {
        EvictionModel {
            checkpoints: checkpoint_models(self.checkpoints@),
            issued: self.issued as nat,
        }
    }
}

/// The place of the first checkpoint with this id, or the number of them.
pub open spec fn place_of(cps: Seq<CheckpointModel>, id: Seq<char>) -> int
    decreases cps.len(),
{
    if cps.len() == 0 || cps[0].id == id {
        0
    } else {
        1 + place_of(cps.subrange(1, cps.len() as int), id)
    }
}

/// The facts of the checkpoint with this id, if there is one.
pub open spec fn resumed(m: EvictionModel, id: Seq<char>) -> Option<Seq<Seq<char>>> {
    let at = place_of(m.checkpoints, id);
    if at < m.checkpoints.len() {
        Some(m.checkpoints[at].facts)
    } else {
        None
    }
}

/// The checkpoints once those before the one with this id have been dropped.
pub open spec fn purged(m: EvictionModel, id: Seq<char>) -> EvictionModel {
    let at = place_of(m.checkpoints, id);
    if at < m.checkpoints.len() {
        EvictionModel {
            checkpoints: m.checkpoints.subrange(at, m.checkpoints.len() as int),
            ..m
        }
    } else {
        m
    }
}

/// The checkpoints with one more.
pub open spec fn with_facts(
    m: EvictionModel,
    facts: Seq<Seq<char>>,
    timestamp: u64,
) -> EvictionModel {
    EvictionModel {
        checkpoints: m.checkpoints.push(
            CheckpointModel { id: checkpoint_id(m.issued + 1), facts, timestamp },
        ),
        issued: m.issued + 1,
    }
}

/// How many bytes the texts take.
pub open spec fn bytes_of(facts: Seq<Seq<char>>) -> nat
    decreases facts.len(),
{
    if facts.len() == 0 {
        0
    } else {
        bytes_of(facts.drop_last()) + byte_len(facts.last())
    }
}

/// How many bytes the facts of the checkpoints take.
pub open spec fn fact_bytes(cps: Seq<CheckpointModel>) -> nat
    decreases cps.len(),
{
    if cps.len() == 0 {
        0
    } else {
        fact_bytes(cps.drop_last()) + bytes_of(cps.last().facts)
    }
}

impl EvictionModel {
    /// Every id has been given out, and no two checkpoints share one.
    pub open spec fn wf(self) -> bool {
        &&& forall|i: int|
            0 <= i < self.checkpoints.len() ==> issued_before(
                #[trigger] self.checkpoints[i].id,
                self.issued,
            )
        &&& forall|i: int, j: int|
            0 <= i < j < self.checkpoints.len() ==> (#[trigger] self.checkpoints[i]).id != (
            #[trigger] self.checkpoints[j]).id
    }
}

/// The id is one of the first `n`.
pub open spec fn issued_before(id: Seq<char>, n: nat) -> bool {
    exists|k: nat| 1 <= k <= n && id == #[trigger] checkpoint_id(k)
}

proof fn lemma_checkpoint_id_injective(a: nat, b: nat)
    ensures
        checkpoint_id(a) == checkpoint_id(b) ==> a == b,
{
    if checkpoint_id(a) == checkpoint_id(b) {
        let p = "cp-"@.len() as int;
        assert(checkpoint_id(a).subrange(p, checkpoint_id(a).len() as int) =~= decimal(a));
        assert(checkpoint_id(b).subrange(p, checkpoint_id(b).len() as int) =~= decimal(b));
        lemma_decimal_injective(a, b);
    }
}

/// A new checkpoint has an id that none has had, so that ids stay unique.
pub proof fn law_checkpoint_ids_are_unique(m: EvictionModel, c: CheckpointModel)
    requires
        m.wf(),
        c.id == checkpoint_id(m.issued + 1),
    ensures
        !issued_before(c.id, m.issued),
        (EvictionModel { checkpoints: m.checkpoints.push(c), issued: m.issued + 1 }).wf(),
{
    assert forall|k: nat| 1 <= k <= m.issued implies c.id != #[trigger] checkpoint_id(k) by {
        lemma_checkpoint_id_injective(k, m.issued + 1);
    }
    let after = EvictionModel { checkpoints: m.checkpoints.push(c), issued: m.issued + 1 };
    assert forall|i: int| 0 <= i < after.checkpoints.len() implies issued_before(
        #[trigger] after.checkpoints[i].id,
        after.issued,
    ) by {
        if i < m.checkpoints.len() {
            assert(after.checkpoints[i] == m.checkpoints[i]);
            assert(issued_before(m.checkpoints[i].id, m.issued));
        } else {
            assert(c.id == checkpoint_id(after.issued));
        }
    }
    assert forall|i: int, j: int| 0 <= i < j < after.checkpoints.len() implies (
    #[trigger] after.checkpoints[i]).id != (#[trigger] after.checkpoints[j]).id by {
        if j == m.checkpoints.len() {
            assert(issued_before(m.checkpoints[i].id, m.issued));
        }
    }
}

/// Purging keeps ids unique.
pub proof fn law_purging_keeps_ids_unique(m: EvictionModel, at: int)
    requires
        m.wf(),
        0 <= at <= m.checkpoints.len(),
    ensures
        (EvictionModel {
            checkpoints: m.checkpoints.subrange(at, m.checkpoints.len() as int),
            issued: m.issued,
        }).wf(),
{
    let after = m.checkpoints.subrange(at, m.checkpoints.len() as int);
    assert forall|i: int| 0 <= i < after.len() implies issued_before(
        #[trigger] after[i].id,
        m.issued,
    ) by {
        assert(issued_before(m.checkpoints[at + i].id, m.issued));
    }
}

/// Something that is done to the checkpoints.
pub enum FactStep {
    Record { facts: Seq<Seq<char>>, timestamp: u64 },
    Purge { id: Seq<char> },
}

/// The checkpoints after the steps, one after the other.
pub open spec fn facts_after(m: EvictionModel, steps: Seq<FactStep>) -> EvictionModel
    decreases steps.len(),
{
    if steps.len() == 0 {
        m
    } else {
        let before = facts_after(m, steps.drop_last());
        match steps.last() {
            FactStep::Record { facts, timestamp } => with_facts(before, facts, timestamp),
            FactStep::Purge { id } => purged(before, id),
        }
    }
}

/// The checkpoints that the steps record, whether they are purged later or not. The
/// `n`th has the `n`th id.
pub open spec fn given_out(steps: Seq<FactStep>) -> Seq<CheckpointModel>
    decreases steps.len(),
{
    if steps.len() == 0 {
        Seq::empty()
    } else {
        let before = given_out(steps.drop_last());
        match steps.last() {
            FactStep::Record { facts, timestamp } => before.push(
                CheckpointModel { id: checkpoint_id(before.len() + 1), facts, timestamp },
            ),
            FactStep::Purge { .. } => before,
        }
    }
}

proof fn lemma_place_of(cps: Seq<CheckpointModel>, id: Seq<char>)
    ensures
        0 <= place_of(cps, id) <= cps.len(),
        place_of(cps, id) < cps.len() ==> cps[place_of(cps, id)].id == id,
        forall|i: int| 0 <= i < place_of(cps, id) ==> (#[trigger] cps[i]).id != id,
    decreases cps.len(),
{
    if cps.len() > 0 && cps[0].id != id {
        let rest = cps.subrange(1, cps.len() as int);
        lemma_place_of(rest, id);
        assert forall|i: int| 0 <= i < place_of(cps, id) implies (#[trigger] cps[i]).id != id by {
            if i > 0 {
                assert(cps[i] == rest[i - 1]);
            }
        }
    }
}

/// What is left is the last part of what was given out.
proof fn lemma_given_out(m: EvictionModel, steps: Seq<FactStep>)
    requires
        m.checkpoints.len() == 0,
        m.issued == 0,
    ensures
        ({
            let after = facts_after(m, steps);
            let all = given_out(steps);
            &&& after.issued == all.len()
            &&& after.checkpoints.len() <= all.len()
            &&& after.checkpoints == all.skip(all.len() - after.checkpoints.len())
            &&& forall|i: int|
                0 <= i < all.len() ==> (#[trigger] all[i]).id == checkpoint_id((i + 1) as nat)
            &&& (forall|i: int| 0 <= i < steps.len() ==> (#[trigger] steps[i]) is Record) ==> {
                &&& after.checkpoints.len() == all.len()
                &&& all.len() == steps.len()
                &&& forall|i: int|
                    0 <= i < steps.len() ==> (#[trigger] all[i]).facts == steps[i]->facts
            }
        }),
    decreases steps.len(),
{
    let after = facts_after(m, steps);
    let all = given_out(steps);
    if steps.len() == 0 {
        assert(after.checkpoints =~= all.skip(0));
    } else {
        let rest = steps.drop_last();
        let before = facts_after(m, rest);
        lemma_given_out(m, rest);
        let gone = all.len() - after.checkpoints.len();
        match steps.last() {
            FactStep::Record { .. } => {
                assert(after.checkpoints =~= all.skip(gone));
            },
            FactStep::Purge { id } => {
                lemma_place_of(before.checkpoints, id);
                assert(after.checkpoints =~= all.skip(gone));
            },
        }
        if forall|i: int| 0 <= i < steps.len() ==> (#[trigger] steps[i]) is Record {
            assert(steps[steps.len() - 1] is Record);
            assert forall|i: int| 0 <= i < rest.len() implies (#[trigger] rest[i]) is Record by {
                assert(rest[i] == steps[i]);
            }
            assert forall|i: int| 0 <= i < steps.len() implies (#[trigger] all[i]).facts
                == steps[i]->facts by {
                if i < rest.len() {
                    assert(all[i] == given_out(rest)[i]);
                    assert(rest[i] == steps[i]);
                }
            }
        }
    }
}

/// Each id that was given out gives back its own facts until its checkpoint is
/// purged, and nothing after that. As long as nothing is purged, the `k`th id gives
/// back the facts that were recorded `k`th.
pub proof fn law_facts_come_back(m: EvictionModel, steps: Seq<FactStep>, k: nat)
    requires
        m.checkpoints.len() == 0,
        m.issued == 0,
    ensures
        ({
            let after = facts_after(m, steps);
            let all = given_out(steps);
            let gone = all.len() - after.checkpoints.len();
            &&& 0 <= gone
            &&& resumed(after, checkpoint_id(k)) == if gone < k <= all.len() {
                Some(all[k - 1].facts)
            } else {
                None
            }
            &&& (forall|i: int| 0 <= i < steps.len() ==> (#[trigger] steps[i]) is Record) ==> {
                &&& gone == 0
                &&& all.len() == steps.len()
                &&& 1 <= k <= steps.len() ==> all[k - 1].facts == steps[k - 1]->facts
            }
        }),
{
    let after = facts_after(m, steps);
    let all = given_out(steps);
    let gone = all.len() - after.checkpoints.len();
    lemma_given_out(m, steps);
    let id = checkpoint_id(k);
    lemma_place_of(after.checkpoints, id);
    let at = place_of(after.checkpoints, id);
    assert forall|i: int| 0 <= i < after.checkpoints.len() implies (
    #[trigger] after.checkpoints[i]) == all[gone + i] && (after.checkpoints[i].id == id ==> k == gone
        + i + 1) by {
        lemma_checkpoint_id_injective(k, (gone + i + 1) as nat);
    }
    if gone < k <= all.len() {
        assert(after.checkpoints[k - gone - 1].id == id);
    }
}

/// An id that was never given out gives back nothing.
pub proof fn law_other_ids_give_nothing(m: EvictionModel, steps: Seq<FactStep>, id: Seq<char>)
    requires
        m.checkpoints.len() == 0,
        m.issued == 0,
        !issued_before(id, given_out(steps).len()),
    ensures
        resumed(facts_after(m, steps), id) is None,
{
    let after = facts_after(m, steps);
    let all = given_out(steps);
    lemma_given_out(m, steps);
    lemma_place_of(after.checkpoints, id);
    let at = place_of(after.checkpoints, id);
    if at < after.checkpoints.len() {
        let i = all.len() - after.checkpoints.len() + at;
        assert(all[i].id == checkpoint_id((i + 1) as nat));
    }
}

impl SelfEvictionManager {
    /// No checkpoints.
    pub fn new() -> (r: SelfEvictionManager)
        ensures
            r@.checkpoints == Seq::<CheckpointModel>::empty(),
            r@.issued == 0,
            r@.wf(),
    {
        let v: Vec<ContextCheckpoint> = Vec::new();
        assert(checkpoint_models(v@) =~= Seq::<CheckpointModel>::empty());
        SelfEvictionManager { checkpoints: v, issued: 0 }
    }

    /// Records `facts` at the given time. Returns the id of the checkpoint,
    /// which no other checkpoint has or had.
    pub fn checkpoint_at(&mut self, facts: Vec<String>, timestamp: u64) -> (r: String)
        requires
            old(self)@.issued < u64::MAX,
        ensures
            r@ == checkpoint_id(old(self)@.issued + 1),
            final(self)@ == with_facts(old(self)@, texts(facts@), timestamp),
    {
        let ghost before = checkpoint_models(self.checkpoints@);
        self.issued = self.issued + 1;
        let mut id = "cp-".to_owned();
        let n = decimal_text(self.issued);
        id.append(n.as_str());
        let c = ContextCheckpoint { id: id.clone(), verified_facts: facts, timestamp };
        self.checkpoints.push(c);
        assert(checkpoint_models(self.checkpoints@) =~= before.push(c@));
        id
    }

    /// Records `facts` now. Returns the id of the checkpoint, which no other
    /// checkpoint has or had.
    pub fn checkpoint(&mut self, facts: Vec<String>) -> (r: String)
        requires
            old(self)@.issued < u64::MAX,
        ensures
            r@ == checkpoint_id(old(self)@.issued + 1),
            exists|t: u64|
                final(self)@ == #[trigger] with_facts(old(self)@, texts(facts@), t),
    {
        let t = present();
        let now: u64 = if t.secs >= 0 {
            t.secs as u64
        } else {
            0
        };
        self.checkpoint_at(facts, now)
    }

    /// The place of the first checkpoint with this id, or the number of them.
    fn find(&self, id: &str) -> (r: usize)
        ensures
            r == place_of(checkpoint_models(self.checkpoints@), id@),
            r <= self.checkpoints@.len(),
    {
        let ghost all = checkpoint_models(self.checkpoints@);
        let mut i: usize = 0;
        assert(all.subrange(0, all.len() as int) =~= all);
        while i < self.checkpoints.len()
            invariant
                all == checkpoint_models(self.checkpoints@),
                i <= all.len(),
                place_of(all, id@) == i + place_of(
                    all.subrange(i as int, all.len() as int),
                    id@,
                ),
            decreases all.len() - i,
        {
            proof {
                let part = all.subrange(i as int, all.len() as int);
                assert(part[0] == self.checkpoints@[i as int]@);
                assert(part.subrange(1, part.len() as int) =~= all.subrange(
                    i + 1,
                    all.len() as int,
                ));
            }
            if same_text(self.checkpoints[i].id.as_str(), id) {
                return i;
            }
            i += 1;
        }
        i
    }

    /// Drops the checkpoints before the one with this id. Returns how many
    /// bytes their facts took, 0 if there is no such checkpoint.
    pub fn purge_before(&mut self, checkpoint_id: &str) -> (r: usize)
        ensures
            final(self)@ == purged(old(self)@, checkpoint_id@),
            ({
                let before = old(self)@.checkpoints;
                let at = place_of(before, checkpoint_id@);
                r == if at < before.len() {
                    cap(fact_bytes(before.subrange(0, at)))
                } else {
                    0
                }
            }),
    {
        let ghost before = checkpoint_models(self.checkpoints@);
        let at: usize = self.find(checkpoint_id);
        if at == self.checkpoints.len() {
            return 0;
        }
        let mut freed: usize = 0;
        let mut i: usize = 0;
        assert(before.subrange(0, 0) =~= Seq::<CheckpointModel>::empty());
        while i < at
            invariant
                before == checkpoint_models(self.checkpoints@),
                i <= at <= before.len(),
                freed == cap(fact_bytes(before.subrange(0, i as int))),
            decreases at - i,
        {
            proof {
                let next = before.subrange(0, i + 1);
                assert(next.drop_last() =~= before.subrange(0, i as int));
                assert(next.last() == self.checkpoints@[i as int]@);
            }
            freed = freed.saturating_add(byte_sum(&self.checkpoints[i].verified_facts));
            i += 1;
        }
        let rest: Vec<ContextCheckpoint> = self.checkpoints.split_off(at);
        self.checkpoints = rest;
        assert(checkpoint_models(self.checkpoints@) =~= before.subrange(
            at as int,
            before.len() as int,
        ));
        freed
    }

    /// The facts of the checkpoint with this id.
    pub fn resume_from(&self, checkpoint_id: &str) -> (r: Option<Vec<String>>)
        ensures
            match r {
                Some(facts) => resumed(self@, checkpoint_id@) == Some(texts(facts@)),
                None => resumed(self@, checkpoint_id@) is None,
            },
    {
        let at: usize = self.find(checkpoint_id);
        if at == self.checkpoints.len() {
            return None;
        }
        let facts: Vec<String> = self.checkpoints[at].verified_facts.clone();
        proof {
            assert(facts@ =~= self.checkpoints@[at as int].verified_facts@);
            assert(checkpoint_models(self.checkpoints@)[at as int]
                == self.checkpoints@[at as int]@);
        }
        Some(facts)
    }

    /// The checkpoints, oldest first.
    pub fn list_checkpoints(&self) -> (r: &[ContextCheckpoint])
        ensures
            checkpoint_models(r@) == self@.checkpoints,
    {
        self.checkpoints.as_slice()
    }
}

impl Default for SelfEvictionManager {
    fn default() -> (r: SelfEvictionManager)
        ensures
            r@.checkpoints == Seq::<CheckpointModel>::empty(),
            r@.issued == 0,
            r@.wf(),
    {
        SelfEvictionManager::new()
    }
}

/// How many bytes the texts take.
fn byte_sum(v: &Vec<String>) -> (r: usize)
    ensures
        r == cap(bytes_of(texts(v@))),
{
    let ghost all = texts(v@);
    let mut n: usize = 0;
    let mut i: usize = 0;
    assert(all.take(0) =~= Seq::<Seq<char>>::empty());
    while i < v.len()
        invariant
            all == texts(v@),
            i <= all.len(),
            n == cap(bytes_of(all.take(i as int))),
        decreases all.len() - i,
    {
        proof {
            assert(all.take(i + 1).drop_last() =~= all.take(i as int));
            assert(all.take(i + 1).last() == v@[i as int]@);
        }
        n = n.saturating_add(byte_count(v[i].as_str()));
        i += 1;
    }
    assert(all.take(i as int) =~= all);
    n
}

// ── A second model for summaries ───────────────────────────────────────────
/// A part of a whole that is not nothing.
#[derive(Debug, Clone, Copy, PartialEq, Eq, Structural)]
pub struct Ratio {
    pub part: usize,
    pub whole: usize,
}

/// A capable model for the conversation, and a cheaper one for summaries.
#[derive(Debug)]
pub struct DualModelCompactor {
    pub primary_model: String,
    pub compaction_model: String,
    pub max_summary_tokens: usize,
}

/// A message as the summary prompt shows it.
pub open spec fn prompt_line(m: CompactModel) -> Seq<char> {
    m.role + ": "@ + m.content
}

/// The prompt that asks for a summary.
pub open spec fn summary_prompt(limit: nat, msgs: Seq<CompactModel>) -> Seq<char> {
    "Summarise the following conversation in at most "@ + decimal(limit)
        + " tokens, preserving key facts, decisions, and context:\n\n"@ + join(
        msgs.map_values(|m: CompactModel| prompt_line(m)),
        "\n"@,
    )
}

impl DualModelCompactor {
    /// Two models, and summaries of at most 2000 tokens.
    pub fn new(primary: &str, compaction: &str) -> (r: DualModelCompactor)
        ensures
            r.primary_model@ == primary@,
            r.compaction_model@ == compaction@,
            r.max_summary_tokens == 2_000,
    {
        DualModelCompactor {
            primary_model: primary.to_owned(),
            compaction_model: compaction.to_owned(),
            max_summary_tokens: 2_000,
        }
    }

    /// The prompt that asks the cheaper model for a summary.
    pub fn generate_summary_prompt(&self, messages: &[CompactMessage]) -> (r: String)
        ensures
            r@ == summary_prompt(self.max_summary_tokens as nat, message_models(messages@)),
    {
        let ghost all = message_models(messages@).map_values(|m: CompactModel| prompt_line(m));
        let mut lines: Vec<String> = Vec::new();
        let mut i: usize = 0;
        while i < messages.len()
            invariant
                i <= messages@.len(),
                all == message_models(messages@).map_values(|m: CompactModel| prompt_line(m)),
                texts(lines@) == all.take(i as int),
            decreases messages@.len() - i,
        {
            let content = messages[i].content();
            let mut line = messages[i].role().to_owned();
            line.append(": ");
            line.append(content);
            assert(all[i as int] == line@);
            lines.push(line);
            assert(texts(lines@) =~= all.take(i + 1));
            i += 1;
        }
        assert(texts(lines@) =~= all);
        let mut out = "Summarise the following conversation in at most ".to_owned();
        let n = decimal_text(self.max_summary_tokens as u64);
        out.append(n.as_str());
        out.append(" tokens, preserving key facts, decisions, and context:\n\n");
        let body = join_texts(lines.as_slice(), "\n");
        out.append(body.as_str());
        out
    }

    /// How much of the original a summary saves; nothing of nothing.
    pub fn estimate_savings(&self, original_tokens: usize, summary_tokens: usize) -> (r: Ratio)
        ensures
            original_tokens == 0 ==> r == (Ratio { part: 0, whole: 1 }),
            original_tokens > 0 ==> r.whole == original_tokens && r.part == (if original_tokens
                >= summary_tokens {
                original_tokens - summary_tokens
            } else {
                0
            }),
    {
        if original_tokens == 0 {
            return Ratio { part: 0, whole: 1 };
        }
        Ratio { part: original_tokens.saturating_sub(summary_tokens), whole: original_tokens }
    }
}

// ── What a summary retains ─────────────────────────────────────────────────
/// Words that are no keywords.
pub open spec fn stop_words() -> Seq<Seq<char>> {
    seq![
        "about"@, "after"@, "again"@, "also"@, "been"@, "before"@, "being"@, "could"@,
        "every"@, "first"@, "from"@, "have"@, "here"@, "just"@, "like"@, "made"@, "make"@,
        "more"@, "most"@, "much"@, "only"@, "other"@, "over"@, "same"@, "should"@, "some"@,
        "such"@, "than"@, "that"@, "their"@, "there"@, "these"@, "they"@, "this"@, "those"@,
        "through"@, "under"@, "very"@, "was"@, "were"@, "when"@, "where"@, "which"@, "while"@,
        "will"@, "with"@, "would"@, "your"@,
    ]
}

/// The letters of a word.
pub open spec fn letters(w: Seq<char>) -> Seq<char> {
    w.filter(|c: char| char_alphabetic(c))
}

/// The keywords of the words: their letters in lower case, where there are
/// more than four of them, without stop words and without repetition.
pub open spec fn keywords(ws: Seq<Seq<char>>) -> Seq<Seq<char>>
    decreases ws.len(),
{
    if ws.len() == 0 {
        Seq::empty()
    } else {
        let rest = keywords(ws.drop_last());
        let w = letters(ws.last());
        let low = lowercase(w);
        if w.len() > 4 && !stop_words().contains(low) && !rest.contains(low) {
            rest.push(low)
        } else {
            rest
        }
    }
}

/// The keywords are all different.
pub proof fn law_keywords_are_unique(ws: Seq<Seq<char>>)
    ensures
        keywords(ws).no_duplicates(),
    decreases ws.len(),
{
    if ws.len() > 0 {
        law_keywords_are_unique(ws.drop_last());
    }
}

fn letters_of(w: &str) -> (r: String)
    ensures
        r@ == letters(w@),
{
    let c = chars_of(w);
    let ghost pred = |c: char| char_alphabetic(c);
    let mut out = String::new();
    let mut i: usize = 0;
    assert(w@.take(0) =~= Seq::<char>::empty());
    assert(Seq::<char>::empty().filter(pred) =~= Seq::<char>::empty()) by {
        reveal(Seq::filter);
    }
    while i < c.len()
        invariant
            c@ == w@,
            pred == (|c: char| char_alphabetic(c)),
            i <= c@.len(),
            out@ == w@.take(i as int).filter(pred),
        decreases c@.len() - i,
    {
        proof {
            reveal(Seq::filter);
            assert(w@.take(i + 1).drop_last() =~= w@.take(i as int));
            assert(w@.take(i + 1).last() == w@[i as int]);
        }
        if c[i].is_alphabetic() {
            out.push(c[i]);
        }
        i += 1;
    }
    assert(w@.take(i as int) =~= w@);
    out
}

fn is_stop_word(s: &str) -> (r: bool)
    ensures
        r == stop_words().contains(s@),
{
    let list: [&str; 48] = [
        "about", "after", "again", "also", "been", "before", "being", "could", "every",
        "first", "from", "have", "here", "just", "like", "made", "make", "more", "most",
        "much", "only", "other", "over", "same", "should", "some", "such", "than", "that",
        "their", "there", "these", "they", "this", "those", "through", "under", "very", "was",
        "were", "when", "where", "which", "while", "will", "with", "would", "your",
    ];
    assert(str_views(list@) =~= stop_words());
    is_one_of(s, list.as_slice())
}

/// The keywords of a text: words of more than four letters that are no stop
/// words, in lower case, each once, in the order in which they first occur.
pub fn extract_keywords(text: &str) -> (r: Vec<String>)
    ensures
        texts(r@) == keywords(words(text@)),
{
    let ws = words_of(text);
    let ghost all = words(text@);
    let mut out: Vec<String> = Vec::new();
    let mut i: usize = 0;
    assert(all.take(0) =~= Seq::<Seq<char>>::empty());
    assert(texts(out@) =~= Seq::<Seq<char>>::empty());
    while i < ws.len()
        invariant
            texts(ws@) == all,
            ws@.len() == all.len(),
            i <= ws@.len(),
            texts(out@) == keywords(all.take(i as int)),
        decreases ws@.len() - i,
    {
        proof {
            assert(all.take(i + 1).drop_last() =~= all.take(i as int));
            assert(all.take(i + 1).last() == texts(ws@)[i as int]);
        }
        let w = letters_of(ws[i].as_str());
        if chars_of(w.as_str()).len() > 4 {
            let low = w.as_str().to_lowercase();
            if !is_stop_word(low.as_str()) && !holds_text(out.as_slice(), low.as_str()) {
                out.push(low);
            }
        }
        i += 1;
    }
    assert(all.take(i as int) =~= all);
    out
}

/// How many of the first `n` keywords occur in a text.
pub open spec fn retained(kws: Seq<Seq<char>>, text: Seq<char>, n: nat) -> nat
    decreases n,
{
    if n == 0 {
        0
    } else {
        retained(kws, text, (n - 1) as nat) + (if contains_text(text, kws[n - 1]) {
            1nat
        } else {
            0nat
        })
    }
}

/// What share of its keywords a text keeps in a summary, as part and whole: all
/// of them if there are none.
pub open spec fn retention(original: Seq<char>, summary: Seq<char>) -> (nat, nat) {
    let kws = keywords(words(original));
    if kws.len() == 0 {
        (1, 1)
    } else {
        (retained(kws, lowercase(summary), kws.len()), kws.len())
    }
}

/// The length of a summary in bytes beside that of the original; as long as the
/// original if that is empty.
pub open spec fn compression(original: Seq<char>, summary: Seq<char>) -> (nat, nat) {
    if original.len() == 0 {
        (1, 1)
    } else {
        (byte_len(summary), byte_len(original))
    }
}

/// How dense a summary is, as part and whole: what it retains, for what it is
/// long, and never more than the whole.
pub open spec fn density(original: Seq<char>, summary: Seq<char>) -> (nat, nat) {
    let (kept, all) = retention(original, summary);
    let (short, long) = compression(original, summary);
    if short == 0 {
        (kept, all)
    } else if kept * long > all * short {
        (1, 1)
    } else {
        (kept * long, all * short)
    }
}

/// A share as large as a product of two lengths.
#[derive(Debug, Clone, Copy, PartialEq, Eq, Structural)]
pub struct Density {
    pub part: u128,
    pub whole: u128,
}

/// What the measure of a summary gave.
#[derive(Debug, Clone, Copy, PartialEq, Eq, Structural)]
pub struct EntropyResult {
    pub passed: bool,
    pub density_score: Density,
    pub keyword_retention: Ratio,
}

/// Holds summaries to a least density.
#[derive(Debug, Clone, Copy)]
pub struct EntropyChecker {
    pub min_density: Ratio,
}

/// `x * n` in two digits to the base of 2^64.
fn wide_product(x: u128, n: u64) -> (r: (u128, u128))
    ensures
        x * n == r.0 * 0x1_0000_0000_0000_0000 + r.1,
        r.1 < 0x1_0000_0000_0000_0000,
{
    let base: u128 = 0x1_0000_0000_0000_0000;
    let low: u128 = x % base;
    let high: u128 = x / base;
    proof {
        assert(x == high * base + low);
        assert(low * n <= (base - 1) * (base - 1)) by (nonlinear_arith)
            requires
                low <= base - 1,
                n <= base - 1,
                base >= 1,
        ;
        assert(high * n <= (base - 1) * (base - 1)) by (nonlinear_arith)
            requires
                high <= base - 1,
                n <= base - 1,
                base >= 1,
        ;
    }
    let first: u128 = low * (n as u128);
    let second: u128 = high * (n as u128) + first / base;
    proof {
        assert(x * n == (high * n) * base + low * n) by (nonlinear_arith)
            requires
                x == high * base + low,
        ;
        assert(first == (first / base) * base + first % base);
        assert((high * n + first / base) * base == (high * n) * base + (first / base) * base)
            by (nonlinear_arith);
    }
    (second, first % base)
}

/// Whether one share reaches another.
fn reaches(d: Density, least: Ratio) -> (r: bool)
    ensures
        r == (d.part * least.whole >= least.part * d.whole),
{
    let a = wide_product(d.part, least.whole as u64);
    let b = wide_product(d.whole, least.part as u64);
    assert(least.part * d.whole == d.whole * least.part) by (nonlinear_arith);
    if a.0 == b.0 {
        a.1 >= b.1
    } else {
        a.0 > b.0
    }
}

impl EntropyChecker {
    /// A measure with a least density. More than the whole is the whole.
    pub fn new(min_density: Ratio) -> (r: EntropyChecker)
        requires
            min_density.whole > 0,
        ensures
            r.min_density == (if min_density.part > min_density.whole {
                Ratio { part: 1, whole: 1 }
            } else {
                min_density
            }),
    {
        if min_density.part > min_density.whole {
            EntropyChecker { min_density: Ratio { part: 1, whole: 1 } }
        } else {
            EntropyChecker { min_density }
        }
    }

    /// How dense a summary is, and whether that is enough.
    pub fn check_summary_quality(&self, original: &str, summary: &str) -> (r: EntropyResult)
        ensures
            r.keyword_retention.part == retention(original@, summary@).0,
            r.keyword_retention.whole == retention(original@, summary@).1,
            r.density_score.part == density(original@, summary@).0,
            r.density_score.whole == density(original@, summary@).1,
            r.passed == (density(original@, summary@).0 * self.min_density.whole
                >= self.min_density.part * density(original@, summary@).1),
    {
        let kept = self.keyword_retention_ratio(original, summary);
        let size = self.length_compression_ratio(original, summary);
        proof {
            assert(kept.part * size.whole <= usize::MAX * usize::MAX) by (nonlinear_arith)
                requires
                    kept.part <= usize::MAX,
                    size.whole <= usize::MAX,
            ;
            assert(kept.whole * size.part <= usize::MAX * usize::MAX) by (nonlinear_arith)
                requires
                    kept.whole <= usize::MAX,
                    size.part <= usize::MAX,
            ;
            assert(usize::MAX * usize::MAX <= u128::MAX) by (nonlinear_arith)
                requires
                    usize::MAX <= 0xffff_ffff_ffff_ffff,
            ;
        }
        let density_score = if size.part == 0 {
            Density { part: kept.part as u128, whole: kept.whole as u128 }
        } else {
            let part: u128 = (kept.part as u128) * (size.whole as u128);
            let whole: u128 = (kept.whole as u128) * (size.part as u128);
            if part > whole {
                Density { part: 1, whole: 1 }
            } else {
                Density { part, whole }
            }
        };
        EntropyResult {
            passed: reaches(density_score, self.min_density),
            density_score,
            keyword_retention: kept,
        }
    }

    /// How many of the keywords of `original` occur in `summary`: all of them if
    /// there are none.
    pub fn keyword_retention_ratio(&self, original: &str, summary: &str) -> (r: Ratio)
        ensures
            r.part == retention(original@, summary@).0,
            r.whole == retention(original@, summary@).1,
            r.part <= r.whole,
            r.whole > 0,
    {
        let kws = extract_keywords(original);
        if kws.is_empty() {
            return Ratio { part: 1, whole: 1 };
        }
        let low = summary.to_lowercase();
        let ghost all = texts(kws@);
        let n: usize = kws.len();
        let mut part: usize = 0;
        let mut i: usize = 0;
        while i < n
            invariant
                all == texts(kws@),
                n == kws@.len(),
                i <= n,
                part <= i,
                part == retained(all, low@, i as nat),
            decreases n - i,
        {
            assert(all[i as int] == kws@[i as int]@);
            if str_has(low.as_str(), kws[i].as_str()) {
                part += 1;
            }
            i += 1;
        }
        Ratio { part, whole: n }
    }

    /// How long a summary is, of the length of the original in bytes; as long as
    /// the original if that is empty.
    pub fn length_compression_ratio(&self, original: &str, summary: &str) -> (r: Ratio)
        ensures
            r.part == compression(original@, summary@).0,
            r.whole == compression(original@, summary@).1,
    {
        if original.is_empty() {
            return Ratio { part: 1, whole: 1 };
        }
        Ratio { part: byte_count(summary), whole: byte_count(original) }
    }
}

/// A summary is never denser than the whole.
pub proof fn law_density_is_a_share(original: Seq<char>, summary: Seq<char>)
    ensures
        density(original, summary).0 <= density(original, summary).1,
{
    let kws = keywords(words(original));
    lemma_retained_bound(kws, lowercase(summary), kws.len());
}

proof fn lemma_retained_bound(kws: Seq<Seq<char>>, text: Seq<char>, n: nat)
    ensures
        retained(kws, text, n) <= n,
    decreases n,
{
    if n > 0 {
        lemma_retained_bound(kws, text, (n - 1) as nat);
    }
}

/// A trigger of several fires if all of them do, and there are some, or if one of them
/// does; one on a number fires above it.
pub proof fn law_triggers_are_combined(
    v: Vec<CompactionTrigger>,
    n: usize,
    stats: ContextStats,
)
    ensures
        fires(CompactionTrigger::All(v), stats) <==> v@.len() > 0 && forall|i: int|
            0 <= i < v@.len() ==> fires(#[trigger] v@[i], stats),
        fires(CompactionTrigger::Any(v), stats) <==> exists|i: int|
            0 <= i < v@.len() && fires(#[trigger] v@[i], stats),
        fires(CompactionTrigger::TokensExceed(n), stats) <==> stats.total_tokens > n,
        fires(CompactionTrigger::MessagesExceed(n), stats) <==> stats.message_count > n,
        fires(CompactionTrigger::TurnsExceed(n), stats) <==> stats.turn_count > n,
        fires(CompactionTrigger::Always, stats),
        !fires(CompactionTrigger::Never, stats),
{
    lemma_all_fire(v@, v@.len(), stats);
    lemma_any_fires(v@, v@.len(), stats);
}

/// A keyword is what one of the words is in lower case, by its letters alone: more than
/// four of them, and no stop word. Every such word gives one.
pub proof fn law_keywords_are_the_long_words(ws: Seq<Seq<char>>, k: Seq<char>)
    ensures
        keywords(ws).contains(k) <==> exists|i: int|
            0 <= i < ws.len() && lowercase(letters(#[trigger] ws[i])) == k && letters(ws[i]).len()
                > 4 && !stop_words().contains(k),
    decreases ws.len(),
{
    if ws.len() > 0 {
        let rest = ws.drop_last();
        let before = keywords(rest);
        let all = keywords(ws);
        law_keywords_are_the_long_words(rest, k);
        if before.contains(k) {
            let j = choose|j: int| 0 <= j < before.len() && before[j] == k;
            assert(all[j] == k);
            let i = choose|i: int|
                0 <= i < rest.len() && lowercase(letters(#[trigger] rest[i])) == k && letters(
                    rest[i],
                ).len() > 4 && !stop_words().contains(k);
            assert(ws[i] == rest[i]);
        }
        if exists|i: int|
            0 <= i < ws.len() && lowercase(letters(#[trigger] ws[i])) == k && letters(ws[i]).len()
                > 4 && !stop_words().contains(k) {
            let i = choose|i: int|
                0 <= i < ws.len() && lowercase(letters(#[trigger] ws[i])) == k && letters(
                    ws[i],
                ).len() > 4 && !stop_words().contains(k);
            if i < rest.len() {
                assert(rest[i] == ws[i]);
            } else if !before.contains(k) {
                assert(all[before.len() as int] == k);
            }
        }
        if all.contains(k) && !before.contains(k) {
            let j = choose|j: int| 0 <= j < all.len() && all[j] == k;
            if j < before.len() {
                assert(before[j] == k);
            }
            assert(lowercase(letters(ws[ws.len() - 1])) == k);
        }
    }
}

/// A summary retains the keywords that occur in it.
pub proof fn law_retained_keywords_are_counted(kws: Seq<Seq<char>>, text: Seq<char>)
    ensures
        retained(kws, text, kws.len()) == kws.filter(|k: Seq<char>| contains_text(text, k)).len(),
{
    lemma_retained(kws, text, kws.len());
    assert(kws.take(kws.len() as int) =~= kws);
}

proof fn lemma_retained(kws: Seq<Seq<char>>, text: Seq<char>, n: nat)
    requires
        n <= kws.len(),
    ensures
        retained(kws, text, n) == kws.take(n as int).filter(
            |k: Seq<char>| contains_text(text, k),
        ).len(),
    decreases n,
{
    reveal(Seq::filter);
    if n > 0 {
        lemma_retained(kws, text, (n - 1) as nat);
        assert(kws.take(n as int).drop_last() =~= kws.take(n - 1));
    }
}

} // verus!
