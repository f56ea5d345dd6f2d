//! Keeping the groups that matter most within a budget.
//!
//! Each group that is not what the system says has signals (how recent it is,
//! how many query terms it mentions, whether it is important), from which a
//! caller derives a key: the larger, the more the group is worth per token.
//! Groups are packed in the order of their keys.

use crate::groups::{
    message_models, models, CompactModel, GroupModel, MessageGroup, MessageGroupKind,
};
use crate::strategies::{candidate, dropped, keep_marked, lemma_select_holds, select};
use crate::text::{contains_text, lemma_texts_push, lowercase, str_has, str_views, texts};
use vstd::prelude::*;
use vstd::string::*;

verus! {

broadcast use lemma_texts_push;

// ── Signals ────────────────────────────────────────────────────────────────
/// What makes a group worth keeping.
#[derive(Debug)]
pub struct UnitScorer {
    /// Groups that are kept whatever they cost, by their distance from the
    /// end among the groups that are not what the system says.
    pub pinned: Vec<usize>,
    /// Terms in lower case that make a group relevant.
    pub query_terms: Vec<String>,
}

/// What a group's score is made of.
#[derive(Debug, Clone, Copy, PartialEq, Eq, Structural)]
pub struct Signals {
    /// How many groups follow that are not what the system says.
    pub distance: usize,
    /// How many of the query terms the group mentions.
    pub hits: usize,
    /// How many query terms there are.
    pub terms: usize,
    /// The group is atomic, or the first that the user said.
    pub important: bool,
}

/// The term occurs in the text of one of the messages, in any case.
pub open spec fn mentions(msgs: Seq<CompactModel>, term: Seq<char>) -> bool {
    exists|i: int|
        0 <= i < msgs.len() && contains_text(
            lowercase((#[trigger] msgs[i]).content),
            lowercase(term),
        )
}

/// How many of the first `n` terms the messages mention.
pub open spec fn hits(terms: Seq<Seq<char>>, msgs: Seq<CompactModel>, n: nat) -> nat
    decreases n,
{
    if n == 0 {
        0
    } else {
        hits(terms, msgs, (n - 1) as nat) + (if mentions(msgs, terms[n - 1]) {
            1nat
        } else {
            0nat
        })
    }
}

/// The terms in lower case, without those that are empty.
pub open spec fn cleaned_terms(terms: Seq<Seq<char>>) -> Seq<Seq<char>>
    decreases terms.len(),
{
    if terms.len() == 0 {
        Seq::empty()
    } else {
        let rest = cleaned_terms(terms.drop_last());
        let low = lowercase(terms.last());
        if low.len() > 0 {
            rest.push(low)
        } else {
            rest
        }
    }
}

/// Whether one of the texts contains the term.
fn one_has(parts: &[String], term: &str) -> (r: bool)
    ensures
        r == exists|i: int|
            0 <= i < parts@.len() && contains_text(#[trigger] texts(parts@)[i], term@),
{
    let mut i: usize = 0;
    while i < parts.len()
        invariant
            i <= parts@.len(),
            forall|j: int| 0 <= j < i ==> !contains_text(#[trigger] texts(parts@)[j], term@),
        decreases parts@.len() - i,
    {
        assert(texts(parts@)[i as int] == parts@[i as int]@);
        if str_has(parts[i].as_str(), term) {
            return true;
        }
        i += 1;
    }
    false
}

impl UnitScorer {
    /// The pins as numbers.
    pub open spec fn pins(self, d: int) -> bool {
        exists|k: int| 0 <= k < self.pinned@.len() && #[trigger] self.pinned@[k] == d
    }

    /// Nothing pinned and no query.
    pub fn new() -> (r: UnitScorer)
        ensures
            r.pinned@.len() == 0,
            r.query_terms@.len() == 0,
    {
        UnitScorer { pinned: Vec::new(), query_terms: Vec::new() }
    }

    /// The same, with these query terms.
    pub fn with_query_terms(self, terms: &[&str]) -> (r: UnitScorer)
        ensures
            r.pinned@ == self.pinned@,
            texts(r.query_terms@) == cleaned_terms(str_views(terms@)),
    {
        let ghost all = str_views(terms@);
        let mut out: Vec<String> = Vec::new();
        let mut i: usize = 0;
        assert(all.take(0) =~= Seq::<Seq<char>>::empty());
        assert(texts(out@) =~= Seq::<Seq<char>>::empty());
        while i < terms.len()
            invariant
                i <= terms@.len(),
                all == str_views(terms@),
                texts(out@) == cleaned_terms(all.take(i as int)),
            decreases terms@.len() - i,
        {
            let low = terms[i].to_lowercase();
            proof {
                assert(all.take(i + 1).drop_last() =~= all.take(i as int));
                assert(all.take(i + 1).last() == terms@[i as int]@);
            }
            if !low.as_str().is_empty() {
                out.push(low);
            }
            i += 1;
        }
        assert(all.take(i as int) =~= all);
        UnitScorer { pinned: self.pinned, query_terms: out }
    }

    /// The same, with these pins.
    pub fn with_pins(self, pins: Vec<usize>) -> (r: UnitScorer)
        ensures
            r.pinned == pins,
            r.query_terms == self.query_terms,
    {
        UnitScorer { pinned: pins, query_terms: self.query_terms }
    }

    /// What the score of a group is made of.
    pub open spec fn signals_of(self, g: GroupModel, distance: nat, first_user: bool) -> Signals {
        Signals {
            distance: distance as usize,
            hits: hits(
                texts(self.query_terms@),
                g.messages,
                self.query_terms@.len(),
            ) as usize,
            terms: self.query_terms@.len() as usize,
            important: g.atomic || first_user,
        }
    }

    /// What the score of a group is made of. `idx_from_end` is 0 for the most
    /// recent group, `is_first_user` marks the first that the user said.
    pub fn signals(&self, g: &MessageGroup, idx_from_end: usize, is_first_user: bool) -> (r:
        Signals)
        ensures
            r == self.signals_of(g@, idx_from_end as nat, is_first_user),
            r.hits <= r.terms,
    {
        let msgs = g.messages();
        let ghost all = g@.messages.map_values(|m: CompactModel| lowercase(m.content));
        let mut parts: Vec<String> = Vec::new();
        let mut i: usize = 0;
        while i < msgs.len()
            invariant
                i <= msgs@.len(),
                message_models(msgs@) == g@.messages,
                all == g@.messages.map_values(|m: CompactModel| lowercase(m.content)),
                texts(parts@) == all.take(i as int),
            decreases msgs@.len() - i,
        {
            let content = msgs[i].content();
            let low = content.to_lowercase();
            proof {
                assert(msgs@[i as int]@ == g@.messages[i as int]);
                assert(all[i as int] == low@);
            }
            parts.push(low);
            assert(texts(parts@) =~= all.take(i + 1));
            i += 1;
        }
        assert(texts(parts@) =~= all);
        let terms: usize = self.query_terms.len();
        let mut n: usize = 0;
        let mut k: usize = 0;
        while k < terms
            invariant
                k <= terms,
                terms == self.query_terms@.len(),
                n <= k,
                texts(parts@) == all,
                all == g@.messages.map_values(|m: CompactModel| lowercase(m.content)),
                n == hits(texts(self.query_terms@), g@.messages, k as nat),
            decreases terms - k,
        {
            assert(texts(self.query_terms@)[k as int] == self.query_terms@[k as int]@);
            let term = self.query_terms[k].as_str().to_lowercase();
            assert(parts@.len() == texts(parts@).len() == g@.messages.len());
            assert forall|i: int| 0 <= i < all.len() implies #[trigger] texts(parts@)[i]
                == lowercase(g@.messages[i].content) by {
                assert(texts(parts@)[i] == all[i]);
            }
            if one_has(parts.as_slice(), term.as_str()) {
                proof {
                    let i = choose|i: int|
                        0 <= i < parts@.len() && contains_text(
                            #[trigger] texts(parts@)[i],
                            term@,
                        );
                    assert(contains_text(lowercase(g@.messages[i].content), term@));
                }
                n += 1;
            } else {
                assert forall|i: int| 0 <= i < g@.messages.len() implies !contains_text(
                    lowercase((#[trigger] g@.messages[i]).content),
                    term@,
                ) by {
                    assert(!contains_text(texts(parts@)[i], term@));
                }
            }
            k += 1;
        }
        Signals { distance: idx_from_end, hits: n, terms, important: g.is_atomic() || is_first_user }
    }
}

impl Default for UnitScorer {
    fn default() -> (r: UnitScorer)
        ensures
            r.pinned@.len() == 0,
            r.query_terms@.len() == 0,
    {
        UnitScorer::new()
    }
}

// ── Candidates ─────────────────────────────────────────────────────────────
/// A group that may be dropped.
#[derive(Debug, Clone, Copy, PartialEq, Eq, Structural)]
pub struct Candidate {
    /// Its place among all groups.
    pub place: usize,
    /// What it costs, at least one token.
    pub tokens: usize,
    /// It is kept whatever it costs.
    pub pinned: bool,
    pub signals: Signals,
}

/// The places of the groups that are not what the system says.
pub open spec fn places(groups: Seq<GroupModel>) -> Seq<int>
    decreases groups.len(),
{
    if groups.len() == 0 {
        Seq::empty()
    } else {
        let rest = places(groups.drop_last());
        if groups.last().is_system() {
            rest
        } else {
            rest.push(groups.len() - 1)
        }
    }
}

/// The group at `i` is the first that the user said.
pub open spec fn first_user(groups: Seq<GroupModel>, i: int) -> bool {
    &&& groups[i].kind == MessageGroupKind::User
    &&& forall|j: int| 0 <= j < i ==> (#[trigger] groups[j]).kind != MessageGroupKind::User
}

/// What the group at `i` is as a candidate, if `after` others follow.
pub open spec fn candidate_at(
    scorer: UnitScorer,
    groups: Seq<GroupModel>,
    i: int,
    after: nat,
) -> Candidate {
    Candidate {
        place: i as usize,
        tokens: if groups[i].token_count >= 1 {
            groups[i].token_count as usize
        } else {
            1
        },
        pinned: scorer.pins(after as int),
        signals: scorer.signals_of(groups[i], after, first_user(groups, i)),
    }
}

/// The candidates among the groups.
pub open spec fn candidates_of(scorer: UnitScorer, groups: Seq<GroupModel>) -> Seq<Candidate> {
    let p = places(groups);
    Seq::new(
        p.len(),
        |k: int| candidate_at(scorer, groups, p[k], (p.len() - 1 - k) as nat),
    )
}

proof fn lemma_places(groups: Seq<GroupModel>)
    ensures
        places(groups).len() <= groups.len(),
        forall|k: int|
            0 <= k < places(groups).len() ==> 0 <= #[trigger] places(groups)[k] < groups.len()
                && !groups[places(groups)[k]].is_system(),
        forall|k: int, l: int|
            0 <= k < l < places(groups).len() ==> places(groups)[k] < places(groups)[l],
    decreases groups.len(),
{
    if groups.len() > 0 {
        lemma_places(groups.drop_last());
        assert forall|k: int| 0 <= k < places(groups).len() implies 0 <= #[trigger] places(
            groups,
        )[k] < groups.len() && !groups[places(groups)[k]].is_system() by {
            if k < places(groups.drop_last()).len() {
                assert(places(groups)[k] == places(groups.drop_last())[k]);
            }
        }
    }
}

/// Keeps the groups that are worth most per token within `budget`.
#[derive(Debug)]
pub struct PriorityScoreStrategy {
    pub budget: usize,
    pub scorer: UnitScorer,
}

/// A group that has been dropped.
#[derive(Debug)]
pub struct EvictedGroupRef {
    pub kind: String,
    pub message_count: u32,
    pub token_count: u32,
    pub reason: String,
}

/// What packing did.
#[derive(Debug)]
pub struct PriorityResult {
    pub removed_tokens: usize,
    pub groups_affected: usize,
    pub evicted: Vec<EvictedGroupRef>,
}

/// The name of a kind of group, in lower case.
pub open spec fn kind_name(k: MessageGroupKind) -> Seq<char> {
    match k {
        MessageGroupKind::System => "system"@,
        MessageGroupKind::User => "user"@,
        MessageGroupKind::AssistantText => "assistanttext"@,
        MessageGroupKind::ToolCall => "toolcall"@,
        MessageGroupKind::Summary => "summary"@,
    }
}

fn name_of_kind(k: MessageGroupKind) -> (r: &'static str)
    ensures
        r@ == kind_name(k),
{
    match k {
        MessageGroupKind::System => "system",
        MessageGroupKind::User => "user",
        MessageGroupKind::AssistantText => "assistanttext",
        MessageGroupKind::ToolCall => "toolcall",
        MessageGroupKind::Summary => "summary",
    }
}

// ── Packing ────────────────────────────────────────────────────────────────
/// Candidate `a` is packed before candidate `b`, which is older: pinned ones
/// first, then by key, and of equals the newer.
pub open spec fn goes_first(cands: Seq<Candidate>, keys: Seq<u64>, a: int, b: int) -> bool {
    if cands[a].pinned {
        true
    } else {
        !cands[b].pinned && keys[a] >= keys[b]
    }
}

/// Where a candidate newer than all of `order` is packed.
pub open spec fn rank(cands: Seq<Candidate>, keys: Seq<u64>, order: Seq<int>, a: int) -> int
    decreases order.len(),
{
    if order.len() == 0 || goes_first(cands, keys, a, order[0]) {
        0
    } else {
        1 + rank(cands, keys, order.subrange(1, order.len() as int), a)
    }
}

/// The order in which the first `n` candidates are packed.
pub open spec fn packing_order(cands: Seq<Candidate>, keys: Seq<u64>, n: nat) -> Seq<int>
    decreases n,
{
    if n == 0 {
        Seq::empty()
    } else {
        let order = packing_order(cands, keys, (n - 1) as nat);
        order.insert(rank(cands, keys, order, n - 1), n - 1)
    }
}

/// What has been packed, and what it costs.
pub struct Pack {
    pub used: nat,
    pub kept: Set<int>,
}

/// A `usize` sum that stays at its largest value.
pub open spec fn capped(n: nat) -> nat {
    if n <= usize::MAX {
        n
    } else {
        usize::MAX as nat
    }
}

/// What has been packed after the first `n` of `order`. A pinned candidate is
/// always packed, any other if it fits.
pub open spec fn packed(cands: Seq<Candidate>, order: Seq<int>, budget: nat, n: nat) -> Pack
    decreases n,
{
    if n == 0 {
        Pack { used: 0, kept: Set::empty() }
    } else {
        let p = packed(cands, order, budget, (n - 1) as nat);
        let a = order[n - 1];
        let sum = capped(p.used + cands[a].tokens as nat);
        if cands[a].pinned || sum <= budget {
            Pack { used: sum, kept: p.kept.insert(a) }
        } else {
            p
        }
    }
}

/// The candidates that are kept.
pub open spec fn kept_candidates(cands: Seq<Candidate>, keys: Seq<u64>, budget: nat) -> Set<int> {
    packed(cands, packing_order(cands, keys, cands.len()), budget, cands.len()).kept
}

/// The places that are kept: what the system says, and the kept candidates.
pub open spec fn kept_places(
    groups: Seq<GroupModel>,
    cands: Seq<Candidate>,
    keys: Seq<u64>,
    budget: nat,
) -> Seq<bool> {
    Seq::new(
        groups.len(),
        |i: int|
            groups[i].is_system() || exists|k: int|
                0 <= k < cands.len() && (#[trigger] cands[k]).place == i && kept_candidates(
                    cands,
                    keys,
                    budget,
                ).contains(k),
    )
}

/// What is reported of a dropped group.
pub open spec fn eviction_of(g: GroupModel, e: EvictedGroupRef) -> bool {
    &&& e.kind@ == kind_name(g.kind)
    &&& e.message_count == g.messages.len() % 0x1_0000_0000
    &&& e.token_count == g.token_count % 0x1_0000_0000
    &&& e.reason@ == "priority-evict"@
}

/// The groups that are dropped.
pub open spec fn dropped_groups(groups: Seq<GroupModel>, keep: Seq<bool>) -> Seq<GroupModel> {
    select(groups, keep.map_values(|b: bool| !b))
}

/// The evictions are those of the dropped groups, in order.
pub open spec fn evictions_of(gone: Seq<GroupModel>, evicted: Seq<EvictedGroupRef>) -> bool {
    &&& gone.len() == evicted.len()
    &&& forall|k: int| 0 <= k < gone.len() ==> eviction_of(gone[k], #[trigger] evicted[k])
}

/// The order of packing holds each of the first `n` candidates once.
proof fn lemma_packing_order(cands: Seq<Candidate>, keys: Seq<u64>, n: nat)
    ensures
        packing_order(cands, keys, n).len() == n,
        forall|k: int|
            0 <= k < n ==> 0 <= #[trigger] packing_order(cands, keys, n)[k] < n,
        forall|a: int| 0 <= a < n ==> #[trigger] packing_order(cands, keys, n).contains(a),
    decreases n,
{
    if n > 0 {
        let order = packing_order(cands, keys, (n - 1) as nat);
        lemma_packing_order(cands, keys, (n - 1) as nat);
        lemma_rank_bound(cands, keys, order, n - 1);
        let at = rank(cands, keys, order, n - 1);
        let next = order.insert(at, n - 1);
        assert forall|a: int| 0 <= a < n implies #[trigger] next.contains(a) by {
            if a == n - 1 {
                assert(next[at] == a);
            } else {
                assert(order.contains(a));
                let k = choose|k: int| 0 <= k < order.len() && order[k] == a;
                if k < at {
                    assert(next[k] == a);
                } else {
                    assert(next[k + 1] == a);
                }
            }
        }
        assert forall|k: int| 0 <= k < n implies 0 <= #[trigger] next[k] < n by {
            if k < at {
                assert(next[k] == order[k]);
            } else if k > at {
                assert(next[k] == order[k - 1]);
            }
        }
    }
}

proof fn lemma_rank_bound(cands: Seq<Candidate>, keys: Seq<u64>, order: Seq<int>, a: int)
    ensures
        0 <= rank(cands, keys, order, a) <= order.len(),
    decreases order.len(),
{
    if order.len() > 0 {
        lemma_rank_bound(cands, keys, order.subrange(1, order.len() as int), a);
    }
}

proof fn lemma_packed_pins(
    cands: Seq<Candidate>,
    order: Seq<int>,
    budget: nat,
    n: nat,
    k: int,
)
    requires
        0 <= k < n <= order.len(),
        cands[order[k]].pinned,
    ensures
        packed(cands, order, budget, n).kept.contains(order[k]),
    decreases n,
{
    if k < n - 1 {
        lemma_packed_pins(cands, order, budget, (n - 1) as nat, k);
    }
}

/// A pinned candidate is kept, whatever the budget and the keys are.
pub proof fn law_pinned_groups_survive(
    cands: Seq<Candidate>,
    keys: Seq<u64>,
    budget: nat,
    a: int,
)
    requires
        0 <= a < cands.len(),
        cands[a].pinned,
    ensures
        kept_candidates(cands, keys, budget).contains(a),
{
    let order = packing_order(cands, keys, cands.len());
    lemma_packing_order(cands, keys, cands.len());
    assert(order.contains(a));
    let k = choose|k: int| 0 <= k < order.len() && order[k] == a;
    lemma_packed_pins(cands, order, budget, cands.len(), k);
}

/// The pinned candidates come first.
spec fn pins_lead(cands: Seq<Candidate>, order: Seq<int>) -> bool {
    forall|k: int, l: int|
        0 <= k < l < order.len() && cands[#[trigger] order[l]].pinned
            ==> cands[#[trigger] order[k]].pinned
}

proof fn lemma_rank_after_pins(cands: Seq<Candidate>, keys: Seq<u64>, order: Seq<int>, a: int)
    ensures
        cands[a].pinned ==> rank(cands, keys, order, a) == 0,
        !cands[a].pinned && rank(cands, keys, order, a) < order.len() ==> !cands[order[rank(
            cands,
            keys,
            order,
            a,
        )]].pinned,
    decreases order.len(),
{
    lemma_rank_bound(cands, keys, order, a);
    if order.len() > 0 && !goes_first(cands, keys, a, order[0]) {
        let rest = order.subrange(1, order.len() as int);
        lemma_rank_after_pins(cands, keys, rest, a);
        lemma_rank_bound(cands, keys, rest, a);
        let r = rank(cands, keys, rest, a);
        if r < rest.len() {
            assert(rest[r] == order[r + 1]);
        }
    }
}

proof fn lemma_pins_lead(cands: Seq<Candidate>, keys: Seq<u64>, n: nat)
    ensures
        pins_lead(cands, packing_order(cands, keys, n)),
    decreases n,
{
    if n > 0 {
        let x = n - 1;
        let order = packing_order(cands, keys, (n - 1) as nat);
        lemma_pins_lead(cands, keys, (n - 1) as nat);
        lemma_rank_bound(cands, keys, order, x);
        lemma_rank_after_pins(cands, keys, order, x);
        let at = rank(cands, keys, order, x);
        let next = order.insert(at, x);
        assert forall|k: int, l: int|
            0 <= k < l < next.len() && cands[#[trigger] next[l]].pinned implies cands[
        #[trigger] next[k]].pinned by {
            let u = if k < at {
                k
            } else {
                k - 1
            };
            let v = if l < at {
                l
            } else {
                l - 1
            };
            if k != at {
                assert(next[k] == order[u]);
            }
            if l != at {
                assert(next[l] == order[v]);
            }
            if k == at {
                if !cands[x].pinned {
                    if at < v {
                        assert(cands[order[at]].pinned);
                    }
                }
            } else if l != at {
                assert(cands[order[u]].pinned);
            }
        }
    }
}

proof fn lemma_packed_within(cands: Seq<Candidate>, order: Seq<int>, budget: nat, n: nat, a: int)
    requires
        n <= order.len(),
        packed(cands, order, budget, n).kept.contains(a),
    ensures
        exists|k: int| 0 <= k < n && #[trigger] order[k] == a,
    decreases n,
{
    if n > 0 {
        if packed(cands, order, budget, (n - 1) as nat).kept.contains(a) {
            lemma_packed_within(cands, order, budget, (n - 1) as nat, a);
            let k = choose|k: int| 0 <= k < n - 1 && #[trigger] order[k] == a;
            assert(order[k] == a);
        } else {
            assert(order[n - 1] == a);
        }
    }
}

/// What the packed ones among the first `n` of `order` cost together.
pub open spec fn packed_cost(cands: Seq<Candidate>, order: Seq<int>, budget: nat, n: nat) -> nat
    decreases n,
{
    if n == 0 {
        0
    } else {
        let m = (n - 1) as nat;
        let a = order[n - 1];
        let sum = capped(packed(cands, order, budget, m).used + cands[a].tokens as nat);
        packed_cost(cands, order, budget, m) + (if cands[a].pinned || sum <= budget {
            cands[a].tokens as nat
        } else {
            0
        })
    }
}

proof fn lemma_packed_budget(cands: Seq<Candidate>, order: Seq<int>, budget: nat, n: nat)
    requires
        n <= order.len(),
        pins_lead(cands, order),
    ensures
        ({
            let p = packed(cands, order, budget, n);
            &&& p.used == capped(packed_cost(cands, order, budget, n))
            &&& p.used <= budget || forall|a: int| #[trigger]
                p.kept.contains(a) ==> cands[a].pinned
        }),
    decreases n,
{
    if n > 0 {
        let m = (n - 1) as nat;
        lemma_packed_budget(cands, order, budget, m);
        let p = packed(cands, order, budget, n);
        let last = order[n - 1];
        if cands[last].pinned && p.used > budget {
            assert forall|a: int| #[trigger] p.kept.contains(a) implies cands[a].pinned by {
                lemma_packed_within(cands, order, budget, n, a);
                let k = choose|k: int| 0 <= k < n && #[trigger] order[k] == a;
                if k < n - 1 {
                    assert(cands[order[n - 1]].pinned);
                    assert(cands[order[k]].pinned);
                }
            }
        }
    }
}

/// What is kept fits the budget, or it is only what is pinned. Costs are counted
/// up to `usize::MAX`.
pub proof fn law_kept_groups_fit_the_budget(cands: Seq<Candidate>, keys: Seq<u64>, budget: nat)
    ensures
        ({
            let order = packing_order(cands, keys, cands.len());
            let kept = kept_candidates(cands, keys, budget);
            ||| capped(packed_cost(cands, order, budget, cands.len())) <= budget
            ||| forall|a: int| #[trigger] kept.contains(a) ==> cands[a].pinned
        }),
        (forall|k: int| 0 <= k < cands.len() ==> !(#[trigger] cands[k]).pinned) ==> capped(
            packed_cost(
                cands,
                packing_order(cands, keys, cands.len()),
                budget,
                cands.len(),
            ),
        ) <= budget,
{
    let n = cands.len();
    let order = packing_order(cands, keys, n);
    lemma_packing_order(cands, keys, n);
    lemma_pins_lead(cands, keys, n);
    lemma_packed_budget(cands, order, budget, n);
    if forall|k: int| 0 <= k < n ==> !(#[trigger] cands[k]).pinned {
        lemma_packed_unpinned(cands, order, budget, n);
    }
}

proof fn lemma_packed_unpinned(cands: Seq<Candidate>, order: Seq<int>, budget: nat, n: nat)
    requires
        n <= order.len(),
        forall|k: int| 0 <= k < order.len() ==> !cands[#[trigger] order[k]].pinned,
    ensures
        packed(cands, order, budget, n).used <= budget,
    decreases n,
{
    if n > 0 {
        lemma_packed_unpinned(cands, order, budget, (n - 1) as nat);
    }
}

/// What the system says is kept, whatever the budget is.
pub proof fn law_packing_keeps_system(
    groups: Seq<GroupModel>,
    cands: Seq<Candidate>,
    keys: Seq<u64>,
    budget: nat,
    i: int,
)
    requires
        0 <= i < groups.len(),
        groups[i].is_system(),
    ensures
        select(groups, kept_places(groups, cands, keys, budget)).contains(groups[i]),
{
    lemma_select_holds(groups, kept_places(groups, cands, keys, budget), i);
}

/// The order in which the candidates are packed.
fn order_candidates(cands: &Vec<Candidate>, keys: &[u64]) -> (r: Vec<usize>)
    requires
        keys@.len() == cands@.len(),
    ensures
        r@.len() == cands@.len(),
        r@.map_values(|k: usize| k as int) == packing_order(cands@, keys@, cands@.len()),
{
    let mut order: Vec<usize> = Vec::new();
    let mut n: usize = 0;
    assert(order@.map_values(|k: usize| k as int) =~= packing_order(cands@, keys@, 0));
    while n < cands.len()
        invariant
            n <= cands@.len(),
            keys@.len() == cands@.len(),
            order@.len() == n,
            order@.map_values(|k: usize| k as int) == packing_order(cands@, keys@, n as nat),
        decreases cands@.len() - n,
    {
        let ghost view = packing_order(cands@, keys@, n as nat);
        proof {
            lemma_packing_order(cands@, keys@, n as nat);
        }
        let mut at: usize = 0;
        let mut found: bool = false;
        assert(view.subrange(0, view.len() as int) =~= view);
        while at < order.len() && !found
            invariant
                at <= order@.len() == n,
                n < cands@.len() == keys@.len(),
                view == order@.map_values(|k: usize| k as int),
                forall|k: int| 0 <= k < n ==> 0 <= #[trigger] view[k] < n,
                found ==> at < n && goes_first(cands@, keys@, n as int, view[at as int]),
                rank(cands@, keys@, view, n as int) == at + rank(
                    cands@,
                    keys@,
                    view.subrange(at as int, n as int),
                    n as int,
                ),
            decreases
                n - at + (if found {
                    0int
                } else {
                    1int
                }),
        {
            assert(view[at as int] == order@[at as int]);
            let other: usize = order[at];
            let first = if cands[n].pinned {
                true
            } else {
                !cands[other].pinned && keys[n] >= keys[other]
            };
            if first {
                found = true;
            } else {
                proof {
                    let part = view.subrange(at as int, n as int);
                    assert(part[0] == view[at as int]);
                    assert(part.subrange(1, part.len() as int) =~= view.subrange(
                        at + 1,
                        n as int,
                    ));
                }
                at += 1;
            }
        }
        proof {
            let part = view.subrange(at as int, n as int);
            if found {
                assert(part[0] == view[at as int]);
            }
            assert(rank(cands@, keys@, view, n as int) == at);
        }
        order.insert(at, n);
        assert(order@.map_values(|k: usize| k as int) =~= view.insert(at as int, n as int));
        n += 1;
    }
    order
}

impl PriorityScoreStrategy {
    /// A strategy with a budget and a scorer.
    pub fn new(budget: usize, scorer: UnitScorer) -> (r: PriorityScoreStrategy)
        ensures
            r.budget == budget,
            r.scorer == scorer,
    {
        PriorityScoreStrategy { budget, scorer }
    }

    /// The name of the strategy.
    pub fn name(&self) -> (r: &str)
        ensures
            r@ == "priority-score"@,
    {
        "priority-score"
    }

    /// The groups that may be dropped, in order, with what their scores are
    /// made of.
    pub fn candidates(&self, groups: &Vec<MessageGroup>) -> (r: Vec<Candidate>)
        ensures
            r@ == candidates_of(self.scorer, models(groups@)),
    {
        let ghost all = models(groups@);
        let ghost spots = places(all);
        let mut at: Vec<usize> = Vec::new();
        let mut i: usize = 0;
        assert(all.take(0) =~= Seq::<GroupModel>::empty());
        assert(at@.map_values(|k: usize| k as int) =~= places(all.take(0)));
        while i < groups.len()
            invariant
                all == models(groups@),
                i <= all.len(),
                at@.map_values(|k: usize| k as int) == places(all.take(i as int)),
            decreases all.len() - i,
        {
            let ghost before = at@.map_values(|k: usize| k as int);
            proof {
                assert(all.take(i + 1).drop_last() =~= all.take(i as int));
                assert(all.take(i + 1).last() == groups@[i as int]@);
            }
            if !groups[i].is_system() {
                at.push(i);
                assert(at@.map_values(|k: usize| k as int) =~= before.push(i as int));
            }
            i += 1;
        }
        assert(all.take(i as int) =~= all);
        proof {
            lemma_places(all);
        }
        let n: usize = at.len();
        let mut out: Vec<Candidate> = Vec::new();
        let mut user_seen: bool = false;
        let mut scanned: usize = 0;
        let mut k: usize = 0;
        while k < n
            invariant
                all == models(groups@),
                spots == places(all),
                n == at@.len() == spots.len(),
                at@.map_values(|k: usize| k as int) == spots,
                forall|k: int|
                    0 <= k < spots.len() ==> 0 <= #[trigger] spots[k] < all.len(),
                forall|k: int, l: int| 0 <= k < l < spots.len() ==> spots[k] < spots[l],
                k <= n,
                scanned <= all.len(),
                k < n ==> scanned <= spots[k as int],
                user_seen == exists|j: int|
                    0 <= j < scanned && (#[trigger] all[j]).kind == MessageGroupKind::User,
                out@.len() == k,
                forall|m: int|
                    0 <= m < k ==> #[trigger] out@[m] == candidates_of(self.scorer, all)[m],
            decreases n - k,
        {
            let place: usize = at[k];
            assert(spots[k as int] == place);
            while scanned < place
                invariant
                    all == models(groups@),
                    scanned <= place < all.len(),
                    user_seen == exists|j: int|
                        0 <= j < scanned && (#[trigger] all[j]).kind == MessageGroupKind::User,
                decreases place - scanned,
            {
                assert(groups@[scanned as int]@ == all[scanned as int]);
                if groups[scanned].kind() == MessageGroupKind::User {
                    user_seen = true;
                }
                scanned += 1;
            }
            assert(groups@[place as int]@ == all[place as int]);
            let g = &groups[place];
            let after: usize = n - 1 - k;
            let first = !user_seen && g.kind() == MessageGroupKind::User;
            assert(first == first_user(all, place as int));
            let tokens: usize = if g.total_tokens() >= 1 {
                g.total_tokens()
            } else {
                1
            };
            let pinned = self.is_pinned(after);
            let signals = self.scorer.signals(g, after, first);
            out.push(Candidate { place, tokens, pinned, signals });
            proof {
                if k + 1 < n {
                    assert(spots[k as int] < spots[k + 1]);
                }
            }
            k += 1;
        }
        assert(out@ =~= candidates_of(self.scorer, all));
        out
    }

    /// Whether the candidate at this distance from the end is pinned.
    fn is_pinned(&self, after: usize) -> (r: bool)
        ensures
            r == self.scorer.pins(after as int),
    {
        let mut i: usize = 0;
        while i < self.scorer.pinned.len()
            invariant
                i <= self.scorer.pinned@.len(),
                forall|k: int| 0 <= k < i ==> self.scorer.pinned@[k] != after,
            decreases self.scorer.pinned@.len() - i,
        {
            if self.scorer.pinned[i] == after {
                return true;
            }
            i += 1;
        }
        false
    }

    /// Packs the groups in the order of their keys, one for each candidate,
    /// and drops what does not fit. The groups that stay keep their order.
    pub fn compact(&self, groups: &mut Vec<MessageGroup>, keys: &[u64]) -> (r: PriorityResult)
        requires
            keys@.len() == places(models(old(groups)@)).len(),
        ensures
            ({
                let before = models(old(groups)@);
                let cands = candidates_of(self.scorer, before);
                let keep = kept_places(before, cands, keys@, self.budget as nat);
                let end = dropped(before, select(before, keep));
                &&& models(final(groups)@) == end.groups
                &&& r.removed_tokens == end.removed_tokens
                &&& r.groups_affected == end.groups_affected
                &&& evictions_of(dropped_groups(before, keep), r.evicted@)
            }),
    {
        let ghost before = models(groups@);
        let cands = self.candidates(groups);
        let order = order_candidates(&cands, keys);
        let ghost view = packing_order(cands@, keys@, cands@.len());
        let ghost budget = self.budget as nat;
        proof {
            lemma_packing_order(cands@, keys@, cands@.len());
            lemma_places(before);
        }
        let len: usize = groups.len();
        let mut marks: Vec<bool> = Vec::new();
        let mut i: usize = 0;
        while i < len
            invariant
                before == models(groups@),
                len == before.len(),
                i <= len,
                marks@.len() == i,
                forall|k: int| 0 <= k < i ==> #[trigger] marks@[k] == before[k].is_system(),
            decreases len - i,
        {
            assert(groups@[i as int]@ == before[i as int]);
            marks.push(groups[i].is_system());
            i += 1;
        }
        let mut used: usize = 0;
        let mut n: usize = 0;
        while n < order.len()
            invariant
                before == models(groups@),
                len == before.len() == marks@.len(),
                budget == self.budget,
                cands@ == candidates_of(self.scorer, before),
                view == packing_order(cands@, keys@, cands@.len()),
                order@.len() == cands@.len() == view.len() == places(before).len(),
                order@.map_values(|k: usize| k as int) == view,
                forall|k: int| 0 <= k < view.len() ==> 0 <= #[trigger] view[k] < view.len(),
                forall|k: int|
                    0 <= k < places(before).len() ==> 0 <= #[trigger] places(before)[k]
                        < before.len(),
                n <= order@.len(),
                used == packed(cands@, view, budget, n as nat).used,
                forall|k: int|
                    0 <= k < len ==> #[trigger] marks@[k] == (before[k].is_system() || exists|
                        c: int,
                    |
                        0 <= c < cands@.len() && (#[trigger] cands@[c]).place == k && packed(
                            cands@,
                            view,
                            budget,
                            n as nat,
                        ).kept.contains(c)),
            decreases order@.len() - n,
        {
            assert(view[n as int] == order@[n as int]);
            let a: usize = order[n];
            let c = cands[a];
            let sum: usize = used.saturating_add(c.tokens);
            let ghost old_marks = marks@;
            let ghost old_kept = packed(cands@, view, budget, n as nat).kept;
            let ghost new_kept = packed(cands@, view, budget, (n + 1) as nat).kept;
            assert(c.place == places(before)[a as int]);
            if c.pinned || sum <= self.budget {
                used = sum;
                marks[c.place] = true;
                proof {
                    assert(new_kept == old_kept.insert(a as int));
                    assert forall|k: int| 0 <= k < len implies #[trigger] marks@[k] == (
                    before[k].is_system() || exists|d: int|
                        0 <= d < cands@.len() && (#[trigger] cands@[d]).place == k
                            && new_kept.contains(d)) by {
                        assert(old_marks[k] == (before[k].is_system() || exists|d: int|
                            0 <= d < cands@.len() && (#[trigger] cands@[d]).place == k
                                && old_kept.contains(d)));
                        if k == c.place {
                            assert(cands@[a as int].place == k && new_kept.contains(a as int));
                        } else {
                            assert(marks@[k] == old_marks[k]);
                            if exists|d: int|
                                0 <= d < cands@.len() && (#[trigger] cands@[d]).place == k
                                    && old_kept.contains(d) {
                                let d = choose|d: int|
                                    0 <= d < cands@.len() && (#[trigger] cands@[d]).place == k
                                        && old_kept.contains(d);
                                assert(new_kept.contains(d));
                            }
                            if exists|d: int|
                                0 <= d < cands@.len() && (#[trigger] cands@[d]).place == k
                                    && new_kept.contains(d) {
                                let d = choose|d: int|
                                    0 <= d < cands@.len() && (#[trigger] cands@[d]).place == k
                                        && new_kept.contains(d);
                                assert(d != a);
                                assert(old_kept.contains(d));
                            }
                        }
                    }
                }
            }
            n += 1;
        }
        assert(marks@ =~= kept_places(before, cands@, keys@, budget));
        let evicted = evictions(groups, &marks);
        let gross = keep_marked(groups, &marks);
        PriorityResult {
            removed_tokens: gross.removed_tokens,
            groups_affected: gross.groups_affected,
            evicted,
        }
    }
}

/// What is reported of the groups that are not marked.
fn evictions(groups: &Vec<MessageGroup>, marks: &Vec<bool>) -> (r: Vec<EvictedGroupRef>)
    requires
        marks@.len() == groups@.len(),
    ensures
        evictions_of(dropped_groups(models(groups@), marks@), r@),
{
    let ghost all = models(groups@);
    let ghost gone = marks@.map_values(|b: bool| !b);
    let mut out: Vec<EvictedGroupRef> = Vec::new();
    let mut i: usize = 0;
    assert(all.take(0) =~= Seq::<GroupModel>::empty());
    while i < groups.len()
        invariant
            all == models(groups@),
            marks@.len() == all.len(),
            gone == marks@.map_values(|b: bool| !b),
            i <= all.len(),
            evictions_of(select(all.take(i as int), gone), out@),
        decreases all.len() - i,
    {
        let ghost before = select(all.take(i as int), gone);
        let ghost old_out = out@;
        proof {
            assert(all.take(i + 1).drop_last() =~= all.take(i as int));
            assert(all.take(i + 1).last() == groups@[i as int]@);
            assert(gone[i as int] == !marks@[i as int]);
        }
        if !marks[i] {
            let g = &groups[i];
            let kind = name_of_kind(g.kind()).to_owned();
            let msgs = g.messages();
            let count_u64: u64 = msgs.len() as u64;
            let tokens_u64: u64 = g.total_tokens() as u64;
            let e = EvictedGroupRef {
                kind,
                message_count: (count_u64 % 0x1_0000_0000) as u32,
                token_count: (tokens_u64 % 0x1_0000_0000) as u32,
                reason: "priority-evict".to_owned(),
            };
            out.push(e);
            proof {
                let after = before.push(g@);
                assert(g@.messages.len() == msgs@.len());
                assert forall|k: int| 0 <= k < after.len() implies eviction_of(
                    after[k],
                    #[trigger] out@[k],
                ) by {
                    if k < before.len() {
                        assert(eviction_of(before[k], old_out[k]));
                    }
                }
            }
        }
        i += 1;
    }
    assert(all.take(i as int) =~= all);
    out
}

/// Candidate `a` goes before candidate `b`: pinned before what is not, then the higher key,
/// and of equals the newer.
pub open spec fn before_in_line(cands: Seq<Candidate>, keys: Seq<u64>, a: int, b: int) -> bool {
    if cands[a].pinned {
        !cands[b].pinned || b < a
    } else {
        !cands[b].pinned && (keys[b] < keys[a] || (keys[b] == keys[a] && b < a))
    }
}

spec fn in_line(cands: Seq<Candidate>, keys: Seq<u64>, order: Seq<int>) -> bool {
    forall|k: int, l: int|
        0 <= k < l < order.len() ==> before_in_line(
            cands,
            keys,
            #[trigger] order[k],
            #[trigger] order[l],
        )
}

proof fn lemma_rank_in_line(cands: Seq<Candidate>, keys: Seq<u64>, order: Seq<int>, a: int)
    requires
        in_line(cands, keys, order),
        forall|k: int| 0 <= k < order.len() ==> #[trigger] order[k] < a,
    ensures
        ({
            let at = rank(cands, keys, order, a);
            &&& 0 <= at <= order.len()
            &&& forall|k: int|
                0 <= k < at ==> before_in_line(cands, keys, #[trigger] order[k], a)
            &&& forall|k: int|
                at <= k < order.len() ==> before_in_line(cands, keys, a, #[trigger] order[k])
        }),
    decreases order.len(),
{
    if order.len() > 0 {
        let rest = order.subrange(1, order.len() as int);
        if goes_first(cands, keys, a, order[0]) {
            assert forall|k: int| 0 <= k < order.len() implies before_in_line(
                cands,
                keys,
                a,
                #[trigger] order[k],
            ) by {
                if k > 0 {
                    assert(before_in_line(cands, keys, order[0], order[k]));
                }
            }
        } else {
            assert forall|k: int, l: int| 0 <= k < l < rest.len() implies before_in_line(
                cands,
                keys,
                #[trigger] rest[k],
                #[trigger] rest[l],
            ) by {
                assert(rest[k] == order[k + 1]);
                assert(rest[l] == order[l + 1]);
            }
            assert forall|k: int| 0 <= k < rest.len() implies #[trigger] rest[k] < a by {
                assert(rest[k] == order[k + 1]);
            }
            lemma_rank_in_line(cands, keys, rest, a);
            let at = rank(cands, keys, order, a);
            assert forall|k: int| 0 <= k < at implies before_in_line(
                cands,
                keys,
                #[trigger] order[k],
                a,
            ) by {
                if k > 0 {
                    assert(rest[k - 1] == order[k]);
                } else {
                    assert(order[0] < a);
                }
            }
            assert forall|k: int| at <= k < order.len() implies before_in_line(
                cands,
                keys,
                a,
                #[trigger] order[k],
            ) by {
                assert(rest[k - 1] == order[k]);
            }
        }
    }
}

proof fn lemma_in_line(cands: Seq<Candidate>, keys: Seq<u64>, n: nat)
    ensures
        in_line(cands, keys, packing_order(cands, keys, n)),
    decreases n,
{
    if n > 0 {
        let order = packing_order(cands, keys, (n - 1) as nat);
        lemma_in_line(cands, keys, (n - 1) as nat);
        lemma_packing_order(cands, keys, (n - 1) as nat);
        lemma_rank_in_line(cands, keys, order, n - 1);
        let at = rank(cands, keys, order, n - 1);
        let next = order.insert(at, n - 1);
        assert forall|k: int, l: int| 0 <= k < l < next.len() implies before_in_line(
            cands,
            keys,
            #[trigger] next[k],
            #[trigger] next[l],
        ) by {
            let x = if k < at {
                k
            } else {
                k - 1
            };
            let y = if l < at {
                l
            } else {
                l - 1
            };
            if k != at {
                assert(next[k] == order[x]);
            }
            if l != at {
                assert(next[l] == order[y]);
            }
        }
    }
}

/// The candidates are packed in line, each of them once.
pub proof fn law_better_groups_are_packed_first(cands: Seq<Candidate>, keys: Seq<u64>)
    ensures
        ({
            let order = packing_order(cands, keys, cands.len());
            &&& order.len() == cands.len()
            &&& forall|a: int| 0 <= a < cands.len() ==> #[trigger] order.contains(a)
            &&& forall|k: int, l: int|
                0 <= k < l < order.len() ==> before_in_line(
                    cands,
                    keys,
                    #[trigger] order[k],
                    #[trigger] order[l],
                )
        }),
{
    lemma_packing_order(cands, keys, cands.len());
    lemma_in_line(cands, keys, cands.len());
}

/// A group is dropped only if it does not fit any more beside those that are kept.
pub proof fn law_groups_that_fit_are_kept(
    cands: Seq<Candidate>,
    keys: Seq<u64>,
    budget: nat,
    a: int,
)
    requires
        0 <= a < cands.len(),
        !kept_candidates(cands, keys, budget).contains(a),
    ensures
        capped(
            packed(
                cands,
                packing_order(cands, keys, cands.len()),
                budget,
                cands.len(),
            ).used + cands[a].tokens as nat,
        ) > budget,
{
    let n = cands.len();
    let order = packing_order(cands, keys, n);
    lemma_packing_order(cands, keys, n);
    assert(order.contains(a));
    let k = choose|k: int| 0 <= k < order.len() && order[k] == a;
    lemma_packed_grows(cands, order, budget, k + 1, n);
    lemma_packed_grows(cands, order, budget, k, n);
}

proof fn lemma_packed_grows(cands: Seq<Candidate>, order: Seq<int>, budget: nat, k: int, n: nat)
    requires
        0 <= k <= n,
    ensures
        packed(cands, order, budget, k as nat).used <= packed(cands, order, budget, n).used,
        forall|a: int|
            packed(cands, order, budget, k as nat).kept.contains(a) ==> #[trigger] packed(
                cands,
                order,
                budget,
                n,
            ).kept.contains(a),
        packed(cands, order, budget, n).used <= usize::MAX,
    decreases n,
{
    if n > 0 {
        if k < n {
            lemma_packed_grows(cands, order, budget, k, (n - 1) as nat);
        } else {
            lemma_packed_grows(cands, order, budget, n - 1, (n - 1) as nat);
        }
    }
}

/// The candidates are the groups that are not what the system says, in their order, and
/// each is as far from the end as others follow it.
pub proof fn law_candidates_are_the_other_groups(groups: Seq<GroupModel>)
    ensures
        ({
            let p = places(groups);
            &&& forall|k: int|
                0 <= k < p.len() ==> 0 <= #[trigger] p[k] < groups.len() && groups[p[k]].kind
                    != MessageGroupKind::System
            &&& forall|k: int, l: int| 0 <= k < l < p.len() ==> #[trigger] p[k] < #[trigger] p[l]
            &&& forall|i: int|
                0 <= i < groups.len() && (#[trigger] groups[i]).kind != MessageGroupKind::System
                    ==> p.contains(i)
        }),
    decreases groups.len(),
{
    let p = places(groups);
    if groups.len() > 0 {
        law_candidates_are_the_other_groups(groups.drop_last());
        let rest = places(groups.drop_last());
        assert forall|k: int| 0 <= k < rest.len() implies 0 <= #[trigger] rest[k] < groups.len() - 1
            && groups[rest[k]].kind != MessageGroupKind::System by {
            assert(groups.drop_last()[rest[k]] == groups[rest[k]]);
        }
        assert forall|i: int|
            0 <= i < groups.len() && (#[trigger] groups[i]).kind
                != MessageGroupKind::System implies p.contains(i) by {
            if i < groups.len() - 1 {
                assert(groups.drop_last()[i] == groups[i]);
                assert(rest.contains(i));
                let k = choose|k: int| 0 <= k < rest.len() && rest[k] == i;
                assert(p[k] == i);
            } else {
                assert(p[p.len() - 1] == i);
            }
        }
    }
}

/// The terms that are asked for are counted where they are mentioned, and an empty one is
/// not asked for.
pub proof fn law_mentioned_terms_are_counted(terms: Seq<Seq<char>>, msgs: Seq<CompactModel>)
    ensures
        hits(terms, msgs, terms.len()) == terms.filter(|t: Seq<char>| mentions(msgs, t)).len(),
        cleaned_terms(terms) == terms.map_values(|t: Seq<char>| lowercase(t)).filter(
            |t: Seq<char>| t.len() > 0,
        ),
    decreases terms.len(),
{
    lemma_hits(terms, msgs, terms.len());
    assert(terms.take(terms.len() as int) =~= terms);
    lemma_cleaned(terms);
}

proof fn lemma_hits(terms: Seq<Seq<char>>, msgs: Seq<CompactModel>, n: nat)
    requires
        n <= terms.len(),
    ensures
        hits(terms, msgs, n) == terms.take(n as int).filter(
            |t: Seq<char>| mentions(msgs, t),
        ).len(),
    decreases n,
{
    reveal(Seq::filter);
    if n > 0 {
        lemma_hits(terms, msgs, (n - 1) as nat);
        assert(terms.take(n as int).drop_last() =~= terms.take(n - 1));
    }
}

proof fn lemma_cleaned(terms: Seq<Seq<char>>)
    ensures
        cleaned_terms(terms) == terms.map_values(|t: Seq<char>| lowercase(t)).filter(
            |t: Seq<char>| t.len() > 0,
        ),
    decreases terms.len(),
{
    reveal(Seq::filter);
    let low = terms.map_values(|t: Seq<char>| lowercase(t));
    if terms.len() > 0 {
        lemma_cleaned(terms.drop_last());
        assert(low.drop_last() =~= terms.drop_last().map_values(|t: Seq<char>| lowercase(t)));
    } else {
        assert(low.filter(|t: Seq<char>| t.len() > 0) =~= Seq::<Seq<char>>::empty());
    }
}

} // verus!
