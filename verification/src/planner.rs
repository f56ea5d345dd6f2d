//! A beam search over plans.
//!
//! [`Beam`] holds the state of a search and is driven step by step, so that
//! whoever drives it may take its time to find continuations and to score
//! them. [`TreeOfThoughts`] drives it with an expander and a scorer at hand.

use vstd::prelude::*;

verus! {

/// A node of the search tree.
#[derive(Debug)]
pub struct ThoughtNode<T> {
    pub depth: usize,
    pub thought: T,
    /// How good the thought is; only the order of scores matters.
    pub score: i64,
    /// The plan is complete, or leads nowhere.
    pub terminal: bool,
}

impl<T> ThoughtNode<T> {
    /// A node.
    pub fn new(depth: usize, thought: T, score: i64, terminal: bool) -> (r: ThoughtNode<T>)
        ensures
            r == (ThoughtNode { depth, thought, score, terminal }),
    {
        ThoughtNode { depth, thought, score, terminal }
    }
}

/// How far a search goes.
#[derive(Debug, Clone, Copy, PartialEq, Eq, Structural)]
pub struct PlannerConfig {
    /// How many continuations are asked for.
    pub branching_factor: usize,
    /// How many nodes are kept at each depth.
    pub beam_width: usize,
    /// How often the beam is expanded at most.
    pub max_depth: usize,
}

impl Default for PlannerConfig {
    fn default() -> (r: PlannerConfig)
        ensures
            r == (PlannerConfig { branching_factor: 3, beam_width: 2, max_depth: 6 }),
    {
        PlannerConfig { branching_factor: 3, beam_width: 2, max_depth: 6 }
    }
}

/// What a search found.
#[derive(Debug)]
pub struct PlanResult<T> {
    pub best: Option<ThoughtNode<T>>,
    pub frontier_at_termination: Vec<ThoughtNode<T>>,
    pub depth_reached: usize,
    pub nodes_expanded: usize,
}

// ── The state of a search ──────────────────────────────────────────────────
/// The state of a search. Nodes are named by the order in which they were
/// made.
pub struct BeamModel<T> {
    pub cfg: PlannerConfig,
    pub nodes: Seq<ThoughtNode<T>>,
    /// The nodes that are expanded in this round.
    pub frontier: Seq<int>,
    /// How many of them have been.
    pub cursor: nat,
    /// The nodes that this round has made.
    pub children: Seq<int>,
    pub best: Option<int>,
    pub depth_reached: nat,
    pub expanded: nat,
    pub round: nat,
}

/// The state of a search.
#[derive(Debug)]
pub struct Beam<T> {
    cfg: PlannerConfig,
    nodes: Vec<ThoughtNode<T>>,
    frontier: Vec<usize>,
    cursor: usize,
    children: Vec<usize>,
    best: Option<usize>,
    depth_reached: usize,
    expanded: usize,
    round: usize,
}

/// Places as integers.
pub open spec fn ints(v: Seq<usize>) -> Seq<int> {
    v.map_values(|k: usize| k as int)
}

impl<T> View for Beam<T> {
    type V = BeamModel<T>;

    closed spec fn view(&self) -> BeamModel<T> {
        BeamModel {
            cfg: self.cfg,
            nodes: self.nodes@,
            frontier: ints(self.frontier@),
            cursor: self.cursor as nat,
            children: ints(self.children@),
            best: match self.best {
                Some(k) => Some(k as int),
                None => None,
            },
            depth_reached: self.depth_reached as nat,
            expanded: self.expanded as nat,
            round: self.round as nat,
        }
    }
}

impl<T> BeamModel<T> {
    /// Every name is that of a node, the nodes of the frontier are as deep as
    /// rounds have passed, and nothing is expanded twice.
    pub open spec fn wf(self) -> bool {
        &&& self.cursor <= self.frontier.len()
        &&& self.round <= self.cfg.max_depth
        &&& forall|k: int|
            0 <= k < self.frontier.len() ==> 0 <= #[trigger] self.frontier[k] < self.nodes.len()
                && self.nodes[self.frontier[k]].depth == self.round
        &&& forall|k: int|
            0 <= k < self.children.len() ==> 0 <= #[trigger] self.children[k] < self.nodes.len()
                && self.nodes[self.children[k]].depth == self.round + 1
        &&& self.best matches Some(b) ==> 0 <= b < self.nodes.len()
        &&& self.expanded + (self.frontier.len() - self.cursor) + self.children.len()
            <= self.nodes.len()
    }
}

/// Whether `i` is better than the best so far.
pub open spec fn beats<T>(nodes: Seq<ThoughtNode<T>>, best: Option<int>, i: int) -> bool {
    match best {
        Some(b) => nodes[i].score > nodes[b].score,
        None => true,
    }
}

/// The best so far, once the terminal node `i` has been seen; a node that is
/// not terminal changes nothing.
pub open spec fn seen<T>(nodes: Seq<ThoughtNode<T>>, best: Option<int>, i: int) -> Option<int> {
    if nodes[i].terminal && beats(nodes, best, i) {
        Some(i)
    } else {
        best
    }
}

/// The best so far, once the first `n` of `ids` have been seen.
pub open spec fn seen_all<T>(
    nodes: Seq<ThoughtNode<T>>,
    best: Option<int>,
    ids: Seq<int>,
    n: nat,
) -> Option<int>
    decreases n,
{
    if n == 0 {
        best
    } else {
        seen(nodes, seen_all(nodes, best, ids, (n - 1) as nat), ids[n - 1])
    }
}

/// A search that begins with one root.
pub open spec fn planted<T>(cfg: PlannerConfig, root: T, score: i64) -> BeamModel<T> {
    BeamModel {
        cfg,
        nodes: seq![ThoughtNode { depth: 0, thought: root, score, terminal: false }],
        frontier: seq![0int],
        cursor: 0,
        children: Seq::empty(),
        best: None,
        depth_reached: 0,
        expanded: 0,
        round: 0,
    }
}

/// The search once it has looked for the next node to expand: terminal nodes
/// are seen and passed over.
pub open spec fn advanced<T>(m: BeamModel<T>) -> (BeamModel<T>, Option<int>)
    decreases m.frontier.len() - m.cursor,
{
    if m.cursor >= m.frontier.len() {
        (m, None)
    } else {
        let i = m.frontier[m.cursor as int];
        if m.nodes[i].terminal {
            advanced(
                BeamModel {
                    best: if beats(m.nodes, m.best, i) {
                        Some(i)
                    } else {
                        m.best
                    },
                    cursor: m.cursor + 1,
                    ..m
                },
            )
        } else {
            (BeamModel { cursor: m.cursor + 1, expanded: m.expanded + 1, ..m }, Some(i))
        }
    }
}

/// The search with one more child of a node of the frontier.
pub open spec fn with_child<T>(m: BeamModel<T>, thought: T, terminal: bool, score: i64) -> BeamModel<
    T,
> {
    BeamModel {
        nodes: m.nodes.push(
            ThoughtNode { depth: (m.round + 1) as usize, thought, score, terminal },
        ),
        children: m.children.push(m.nodes.len() as int),
        ..m
    }
}

/// Where a score is put among nodes in the order of their scores, the largest
/// first and of equals the earlier first.
pub open spec fn score_rank<T>(nodes: Seq<ThoughtNode<T>>, sorted: Seq<int>, score: i64) -> int
    decreases sorted.len(),
{
    if sorted.len() == 0 || nodes[sorted[0]].score < score {
        0
    } else {
        1 + score_rank(nodes, sorted.subrange(1, sorted.len() as int), score)
    }
}

/// The first `n` of `ids` in the order of their scores.
pub open spec fn by_score<T>(nodes: Seq<ThoughtNode<T>>, ids: Seq<int>, n: nat) -> Seq<int>
    decreases n,
{
    if n == 0 {
        Seq::empty()
    } else {
        let rest = by_score(nodes, ids, (n - 1) as nat);
        rest.insert(score_rank(nodes, rest, nodes[ids[n - 1]].score), ids[n - 1])
    }
}

/// The children that survive a round.
pub open spec fn survivors<T>(m: BeamModel<T>) -> Seq<int> {
    let sorted = by_score(m.nodes, m.children, m.children.len());
    if sorted.len() <= m.cfg.beam_width {
        sorted
    } else {
        sorted.take(m.cfg.beam_width as int)
    }
}

/// None of the nodes is terminal.
pub open spec fn none_terminal<T>(nodes: Seq<ThoughtNode<T>>, ids: Seq<int>) -> bool {
    forall|k: int| 0 <= k < ids.len() ==> !nodes[#[trigger] ids[k]].terminal
}

/// The search at the end of a round, and whether it goes on: it stops as soon as a
/// terminal node enters the beam, and where nothing is left to expand.
pub open spec fn round_ended<T>(m: BeamModel<T>) -> (BeamModel<T>, bool) {
    if m.children.len() == 0 {
        (m, false)
    } else {
        let top = survivors(m);
        (
            BeamModel {
                frontier: top,
                cursor: 0,
                children: Seq::empty(),
                best: seen_all(m.nodes, m.best, top, top.len()),
                round: m.round + 1,
                ..m
            },
            top.len() > 0 && none_terminal(m.nodes, top),
        )
    }
}

/// The last of the nodes with the largest score among the first `n`.
pub open spec fn last_best<T>(nodes: Seq<ThoughtNode<T>>, ids: Seq<int>, n: nat) -> Option<int>
    decreases n,
{
    if n == 0 {
        None
    } else {
        match last_best(nodes, ids, (n - 1) as nat) {
            Some(b) => if nodes[ids[n - 1]].score >= nodes[b].score {
                Some(ids[n - 1])
            } else {
                Some(b)
            },
            None => Some(ids[n - 1]),
        }
    }
}

/// The node that a search ends with: the best terminal node, else the best of
/// the frontier.
pub open spec fn chosen<T>(m: BeamModel<T>) -> Option<int> {
    match m.best {
        Some(b) => Some(b),
        None => last_best(m.nodes, m.frontier, m.frontier.len()),
    }
}

/// `c` is what cloning `a` gives.
pub open spec fn node_copy<T: Clone>(a: ThoughtNode<T>, c: ThoughtNode<T>) -> bool {
    &&& c.depth == a.depth
    &&& c.score == a.score
    &&& c.terminal == a.terminal
    &&& cloned(a.thought, c.thought)
}

/// What a search reports.
pub open spec fn reports<T: Clone>(m: BeamModel<T>, r: PlanResult<T>) -> bool {
    &&& match chosen(m) {
        Some(b) => r.best is Some && node_copy(m.nodes[b], r.best->0),
        None => r.best is None,
    }
    &&& r.frontier_at_termination@.len() == m.frontier.len()
    &&& forall|k: int|
        0 <= k < m.frontier.len() ==> node_copy(
            m.nodes[m.frontier[k]],
            #[trigger] r.frontier_at_termination@[k],
        )
    &&& r.depth_reached == m.depth_reached
    &&& r.nodes_expanded == m.expanded
}

impl<T: Clone> Clone for ThoughtNode<T> {
    fn clone(&self) -> (r: ThoughtNode<T>)
        ensures
            node_copy(*self, r),
    {
        ThoughtNode {
            depth: self.depth,
            thought: self.thought.clone(),
            score: self.score,
            terminal: self.terminal,
        }
    }
}

// ── Facts about the order ──────────────────────────────────────────────────
proof fn lemma_score_rank<T>(nodes: Seq<ThoughtNode<T>>, sorted: Seq<int>, score: i64)
    ensures
        0 <= score_rank(nodes, sorted, score) <= sorted.len(),
        forall|k: int|
            0 <= k < score_rank(nodes, sorted, score) ==> nodes[#[trigger] sorted[k]].score
                >= score,
    decreases sorted.len(),
{
    if sorted.len() > 0 && nodes[sorted[0]].score >= score {
        let rest = sorted.subrange(1, sorted.len() as int);
        lemma_score_rank(nodes, rest, score);
        assert forall|k: int| 0 <= k < score_rank(nodes, sorted, score) implies nodes[
            #[trigger] sorted[k]].score >= score by {
            if k > 0 {
                assert(sorted[k] == rest[k - 1]);
            }
        }
    }
}

/// What holds of all of `ids` holds of all in the order of their scores.
proof fn lemma_by_score<T>(nodes: Seq<ThoughtNode<T>>, ids: Seq<int>, n: nat, low: int, high: int, depth: int)
    requires
        n <= ids.len(),
        forall|k: int|
            0 <= k < ids.len() ==> low <= #[trigger] ids[k] < high && nodes[ids[k]].depth == depth,
    ensures
        by_score(nodes, ids, n).len() == n,
        forall|k: int|
            0 <= k < n ==> low <= #[trigger] by_score(nodes, ids, n)[k] < high && nodes[by_score(
                nodes,
                ids,
                n,
            )[k]].depth == depth,
    decreases n,
{
    if n > 0 {
        lemma_by_score(nodes, ids, (n - 1) as nat, low, high, depth);
        let rest = by_score(nodes, ids, (n - 1) as nat);
        let at = score_rank(nodes, rest, nodes[ids[n - 1]].score);
        lemma_score_rank(nodes, rest, nodes[ids[n - 1]].score);
        let all = rest.insert(at, ids[n - 1]);
        assert forall|k: int| 0 <= k < n implies low <= #[trigger] all[k] < high && nodes[
            all[k]].depth == depth by {
            if k < at {
                assert(all[k] == rest[k]);
            } else if k == at {
                assert(all[k] == ids[n - 1]);
            } else {
                assert(all[k] == rest[k - 1]);
            }
        }
    }
}

/// The scores do not grow along the sequence.
pub open spec fn falling<T>(nodes: Seq<ThoughtNode<T>>, s: Seq<int>) -> bool {
    forall|i: int, j: int|
        0 <= i < j < s.len() ==> nodes[#[trigger] s[i]].score >= nodes[#[trigger] s[j]].score
}

proof fn lemma_rank_splits<T>(nodes: Seq<ThoughtNode<T>>, sorted: Seq<int>, score: i64)
    requires
        falling(nodes, sorted),
    ensures
        forall|k: int|
            score_rank(nodes, sorted, score) <= k < sorted.len() ==> nodes[
            #[trigger] sorted[k]].score < score,
    decreases sorted.len(),
{
    if sorted.len() > 0 {
        if nodes[sorted[0]].score >= score {
            let rest = sorted.subrange(1, sorted.len() as int);
            assert(falling(nodes, rest));
            lemma_rank_splits(nodes, rest, score);
            lemma_score_rank(nodes, rest, score);
            assert forall|k: int| score_rank(nodes, sorted, score) <= k < sorted.len() implies nodes[
                #[trigger] sorted[k]].score < score by {
                assert(sorted[k] == rest[k - 1]);
            }
        } else {
            assert forall|k: int| 0 <= k < sorted.len() implies nodes[
                #[trigger] sorted[k]].score < score by {
                if k > 0 {
                    assert(nodes[sorted[0]].score >= nodes[sorted[k]].score);
                }
            }
        }
    }
}

/// The nodes come in the order of their scores, the best first.
pub proof fn law_beam_is_in_order<T>(nodes: Seq<ThoughtNode<T>>, ids: Seq<int>, n: nat)
    requires
        n <= ids.len(),
    ensures
        falling(nodes, by_score(nodes, ids, n)),
    decreases n,
{
    if n > 0 {
        law_beam_is_in_order(nodes, ids, (n - 1) as nat);
        let rest = by_score(nodes, ids, (n - 1) as nat);
        let score = nodes[ids[n - 1]].score;
        let at = score_rank(nodes, rest, score);
        lemma_score_rank(nodes, rest, score);
        lemma_rank_splits(nodes, rest, score);
        let all = rest.insert(at, ids[n - 1]);
        assert forall|i: int, j: int| 0 <= i < j < all.len() implies nodes[
            #[trigger] all[i]].score >= nodes[#[trigger] all[j]].score by {
            if i < at {
                assert(all[i] == rest[i]);
                if j < at {
                    assert(all[j] == rest[j]);
                } else if j > at {
                    assert(all[j] == rest[j - 1]);
                }
            } else if i == at {
                assert(all[j] == rest[j - 1]);
            } else {
                assert(all[i] == rest[i - 1]);
                assert(all[j] == rest[j - 1]);
            }
        }
    }
}

/// A beam is never wider than it may be once a round has passed.
pub proof fn law_beam_is_bounded<T>(m: BeamModel<T>)
    requires
        m.children.len() > 0,
    ensures
        round_ended(m).0.frontier.len() <= m.cfg.beam_width,
{
}

/// Once a terminal node is known, the best is terminal, and it only gets
/// better.
pub proof fn law_best_only_improves<T>(
    nodes: Seq<ThoughtNode<T>>,
    best: Option<int>,
    ids: Seq<int>,
    n: nat,
)
    requires
        n <= ids.len(),
        best matches Some(b) ==> nodes[b].terminal,
    ensures
        seen_all(nodes, best, ids, n) matches Some(c) ==> nodes[c].terminal,
        best matches Some(b) ==> (seen_all(nodes, best, ids, n) matches Some(c) && nodes[c].score
            >= nodes[b].score),
        forall|k: int|
            0 <= k < n && nodes[#[trigger] ids[k]].terminal ==> (seen_all(
                nodes,
                best,
                ids,
                n,
            ) matches Some(c) && nodes[c].score >= nodes[ids[k]].score),
    decreases n,
{
    if n > 0 {
        law_best_only_improves(nodes, best, ids, (n - 1) as nat);
    }
}

// ── Driving a search ───────────────────────────────────────────────────────
impl<T> Beam<T> {
    /// A search that begins with one root.
    pub fn new(cfg: PlannerConfig, root: T, root_score: i64) -> (r: Beam<T>)
        ensures
            r@ == planted(cfg, root, root_score),
            r@.wf(),
    {
        let mut nodes: Vec<ThoughtNode<T>> = Vec::new();
        nodes.push(ThoughtNode { depth: 0, thought: root, score: root_score, terminal: false });
        let mut frontier: Vec<usize> = Vec::new();
        frontier.push(0);
        let r = Beam {
            cfg,
            nodes,
            frontier,
            cursor: 0,
            children: Vec::new(),
            best: None,
            depth_reached: 0,
            expanded: 0,
            round: 0,
        };
        assert(r@.nodes =~= planted(cfg, root, root_score).nodes);
        assert(r@.frontier =~= seq![0int]);
        assert(r@.children =~= Seq::<int>::empty());
        r
    }

    /// Begins a round, if there may be one more.
    pub fn start_round(&mut self) -> (r: bool)
        requires
            old(self)@.wf(),
        ensures
            r == (old(self)@.round < old(self)@.cfg.max_depth),
            final(self)@ == (if r {
                BeamModel { depth_reached: old(self)@.round, ..old(self)@ }
            } else {
                old(self)@
            }),
            final(self)@.wf(),
    {
        if self.round >= self.cfg.max_depth {
            return false;
        }
        self.depth_reached = self.round;
        true
    }

    /// The next node to expand in this round, if there is one.
    pub fn next_parent(&mut self) -> (r: Option<usize>)
        requires
            old(self)@.wf(),
        ensures
            final(self)@ == advanced(old(self)@).0,
            match r {
                Some(i) => advanced(old(self)@).1 == Some(i as int) && i < final(self)@.nodes.len(),
                None => advanced(old(self)@).1 is None,
            },
            final(self)@.wf(),
    {
        let ghost goal = advanced(self@);
        while self.cursor < self.frontier.len()
            invariant
                self@.wf(),
                goal == advanced(old(self)@),
                advanced(self@) == goal,
            decreases self.frontier@.len() - self.cursor,
        {
            let ghost before = self@;
            let made: usize = self.nodes.len();
            assert(before.expanded < made);
            assert(before.frontier[before.cursor as int] == self.frontier@[self.cursor as int]);
            let i: usize = self.frontier[self.cursor];
            if self.nodes[i].terminal {
                let better = match self.best {
                    Some(b) => self.nodes[i].score > self.nodes[b].score,
                    None => true,
                };
                if better {
                    self.best = Some(i);
                }
                self.cursor = self.cursor + 1;
                assert(self@ == (BeamModel {
                    best: if beats(before.nodes, before.best, i as int) {
                        Some(i as int)
                    } else {
                        before.best
                    },
                    cursor: before.cursor + 1,
                    ..before
                }));
            } else {
                self.cursor = self.cursor + 1;
                self.expanded = self.expanded + 1;
                assert(self@ == (BeamModel {
                    cursor: before.cursor + 1,
                    expanded: before.expanded + 1,
                    ..before
                }));
                return Some(i);
            }
        }
        None
    }

    /// The node with this name.
    pub fn node(&self, i: usize) -> (r: &ThoughtNode<T>)
        requires
            i < self@.nodes.len(),
        ensures
            *r == self@.nodes[i as int],
    {
        &self.nodes[i]
    }

    /// How many continuations to ask for.
    pub fn branching_factor(&self) -> (r: usize)
        ensures
            r == self@.cfg.branching_factor,
    {
        self.cfg.branching_factor
    }

    /// How deep the children of this round are.
    pub fn child_depth(&self) -> (r: usize)
        requires
            self@.round < self@.cfg.max_depth,
        ensures
            r == self@.round + 1,
    {
        self.round + 1
    }

    /// Adds a child that this round has made.
    pub fn add_child(&mut self, thought: T, terminal: bool, score: i64)
        requires
            old(self)@.wf(),
            old(self)@.round < old(self)@.cfg.max_depth,
        ensures
            final(self)@ == with_child(old(self)@, thought, terminal, score),
            final(self)@.wf(),
    {
        let ghost before = self@;
        let id: usize = self.nodes.len();
        self.nodes.push(ThoughtNode { depth: self.round + 1, thought, score, terminal });
        self.children.push(id);
        proof {
            assert(self@.children =~= before.children.push(id as int));
            let after = self@;
            assert forall|k: int| 0 <= k < after.frontier.len() implies 0
                <= #[trigger] after.frontier[k] < after.nodes.len() && after.nodes[
                after.frontier[k]].depth == after.round by {
                assert(before.frontier[k] == after.frontier[k]);
            }
            assert forall|k: int| 0 <= k < after.children.len() implies 0
                <= #[trigger] after.children[k] < after.nodes.len() && after.nodes[
                after.children[k]].depth == after.round + 1 by {
                if k < before.children.len() {
                    assert(before.children[k] == after.children[k]);
                }
            }
        }
    }

    /// The children of this round in the order of their scores.
    fn sorted_children(&self) -> (r: Vec<usize>)
        requires
            self@.wf(),
        ensures
            ints(r@) == by_score(self@.nodes, self@.children, self@.children.len()),
            r@.len() == self@.children.len(),
    {
        let ghost nodes = self@.nodes;
        let ghost ids = self@.children;
        let mut out: Vec<usize> = Vec::new();
        let mut n: usize = 0;
        assert(ints(out@) =~= by_score(nodes, ids, 0));
        while n < self.children.len()
            invariant
                self@.wf(),
                nodes == self@.nodes,
                ids == self@.children,
                ids.len() == self.children@.len(),
                n <= ids.len(),
                out@.len() == n,
                ints(out@) == by_score(nodes, ids, n as nat),
                forall|k: int| 0 <= k < out@.len() ==> #[trigger] out@[k] < nodes.len(),
            decreases ids.len() - n,
        {
            let ghost sorted = ints(out@);
            let id: usize = self.children[n];
            assert(ids[n as int] == id);
            let score: i64 = self.nodes[id].score;
            let mut at: usize = 0;
            assert(sorted.subrange(0, sorted.len() as int) =~= sorted);
            while at < out.len() && self.nodes[out[at]].score >= score
                invariant
                    nodes == self@.nodes,
                    sorted == ints(out@),
                    at <= out@.len() == n,
                    forall|k: int| 0 <= k < out@.len() ==> #[trigger] out@[k] < nodes.len(),
                    score_rank(nodes, sorted, score) == at + score_rank(
                        nodes,
                        sorted.subrange(at as int, n as int),
                        score,
                    ),
                decreases n - at,
            {
                proof {
                    let part = sorted.subrange(at as int, n as int);
                    assert(part[0] == out@[at as int]);
                    assert(part.subrange(1, part.len() as int) =~= sorted.subrange(
                        at + 1,
                        n as int,
                    ));
                }
                at += 1;
            }
            proof {
                let part = sorted.subrange(at as int, n as int);
                if at < n {
                    assert(part[0] == out@[at as int]);
                }
            }
            out.insert(at, id);
            assert(ints(out@) =~= sorted.insert(at as int, id as int));
            n += 1;
        }
        out
    }

    /// Ends a round: the best children are the next frontier. Returns whether
    /// the search goes on.
    pub fn end_round(&mut self) -> (r: bool)
        requires
            old(self)@.wf(),
            old(self)@.round < old(self)@.cfg.max_depth,
        ensures
            final(self)@ == round_ended(old(self)@).0,
            r == round_ended(old(self)@).1,
            final(self)@.wf(),
    {
        if self.children.is_empty() {
            return false;
        }
        let ghost before = self@;
        let mut top = self.sorted_children();
        proof {
            lemma_by_score(
                before.nodes,
                before.children,
                before.children.len(),
                0,
                before.nodes.len() as int,
                before.round as int + 1,
            );
        }
        let ghost sorted = ints(top@);
        if top.len() > self.cfg.beam_width {
            top.truncate(self.cfg.beam_width);
            assert(ints(top@) =~= sorted.take(self.cfg.beam_width as int));
        }
        let ghost ids = ints(top@);
        proof {
            assert(ids == survivors(before));
            assert forall|k: int| 0 <= k < ids.len() implies 0 <= #[trigger] ids[k]
                < before.nodes.len() && before.nodes[ids[k]].depth == before.round + 1 by {
                assert(ids[k] == sorted[k]);
            }
        }
        let mut going: bool = top.len() > 0;
        let mut k: usize = 0;
        while k < top.len()
            invariant
                ids == ints(top@),
                k <= top@.len(),
                self.nodes@ == before.nodes,
                self@ == (BeamModel { best: self@.best, ..before }),
                self@.best matches Some(b) ==> 0 <= b < before.nodes.len(),
                self@.best == seen_all(before.nodes, before.best, ids, k as nat),
                forall|j: int|
                    0 <= j < ids.len() ==> 0 <= #[trigger] ids[j] < before.nodes.len(),
                going == (ids.len() > 0 && forall|j: int|
                    0 <= j < k ==> !before.nodes[#[trigger] ids[j]].terminal),
            decreases top@.len() - k,
        {
            assert(ids[k as int] == top@[k as int]);
            let i: usize = top[k];
            if self.nodes[i].terminal {
                let better = match self.best {
                    Some(b) => self.nodes[i].score > self.nodes[b].score,
                    None => true,
                };
                if better {
                    self.best = Some(i);
                }
                going = false;
            }
            k += 1;
        }
        self.frontier = top;
        self.cursor = 0;
        let none: Vec<usize> = Vec::new();
        self.children = none;
        self.round = self.round + 1;
        assert(self@.children =~= Seq::<int>::empty());
        assert(self@ == round_ended(before).0);
        going
    }
}

impl<T: Clone> Beam<T> {
    fn copy_node(&self, i: usize) -> (r: ThoughtNode<T>)
        requires
            i < self@.nodes.len(),
        ensures
            node_copy(self@.nodes[i as int], r),
    {
        self.nodes[i].clone()
    }

    /// What the search found.
    pub fn finish(&self) -> (r: PlanResult<T>)
        requires
            self@.wf(),
        ensures
            reports(self@, r),
    {
        let ghost m = self@;
        let mut best: Option<usize> = self.best;
        if best.is_none() {
            let mut k: usize = 0;
            while k < self.frontier.len()
                invariant
                    m == self@,
                    m.wf(),
                    k <= m.frontier.len(),
                    match best {
                        Some(b) => last_best(m.nodes, m.frontier, k as nat) == Some(b as int) && b
                            < m.nodes.len(),
                        None => last_best(m.nodes, m.frontier, k as nat) is None,
                    },
                decreases m.frontier.len() - k,
            {
                assert(m.frontier[k as int] == self.frontier@[k as int]);
                let i: usize = self.frontier[k];
                let better = match best {
                    Some(b) => self.nodes[i].score >= self.nodes[b].score,
                    None => true,
                };
                if better {
                    best = Some(i);
                }
                k += 1;
            }
        }
        let best_node = match best {
            Some(b) => Some(self.copy_node(b)),
            None => None,
        };
        let mut frontier: Vec<ThoughtNode<T>> = Vec::new();
        let mut k: usize = 0;
        while k < self.frontier.len()
            invariant
                m == self@,
                m.wf(),
                k <= m.frontier.len(),
                frontier@.len() == k,
                forall|j: int|
                    0 <= j < k ==> node_copy(m.nodes[m.frontier[j]], #[trigger] frontier@[j]),
            decreases m.frontier.len() - k,
        {
            assert(m.frontier[k as int] == self.frontier@[k as int]);
            frontier.push(self.copy_node(self.frontier[k]));
            k += 1;
        }
        PlanResult {
            best: best_node,
            frontier_at_termination: frontier,
            depth_reached: self.depth_reached,
            nodes_expanded: self.expanded,
        }
    }
}

// ── A search with an expander and a scorer ─────────────────────────────────
/// Finds continuations of a thought.
pub trait BranchExpander<T> {
    /// The continuations, and for each whether it is terminal.
    open spec fn continuations(&self, node: ThoughtNode<T>, branching_factor: usize) -> Seq<
        (T, bool),
    > {
        Seq::empty()
    }

    /// The continuations, and for each whether it is terminal.
    fn expand(&self, node: &ThoughtNode<T>, branching_factor: usize) -> (r: Vec<(T, bool)>)
        ensures
            r@ == self.continuations(*node, branching_factor),
    ;
}

/// Scores a thought: the higher, the better.
pub trait BranchScorer<T> {
    /// The score of a thought.
    open spec fn value(&self, node: ThoughtNode<T>) -> i64 {
        0
    }

    /// The score of a thought.
    fn score(&self, node: &ThoughtNode<T>) -> (r: i64)
        ensures
            r == self.value(*node),
    ;
}

/// The search with the first `n` of the continuations `kids` added.
pub open spec fn with_kids<T, S: BranchScorer<T>>(
    m: BeamModel<T>,
    scorer: S,
    kids: Seq<(T, bool)>,
    n: nat,
) -> BeamModel<T>
    decreases n,
{
    if n == 0 {
        m
    } else {
        let rest = with_kids(m, scorer, kids, (n - 1) as nat);
        let kid = kids[n - 1];
        let unscored = ThoughtNode {
            depth: (m.round + 1) as usize,
            thought: kid.0,
            score: 0,
            terminal: kid.1,
        };
        with_child(rest, kid.0, kid.1, scorer.value(unscored))
    }
}

/// Adding children changes neither the frontier nor where the round stands.
proof fn lemma_with_kids<T, S: BranchScorer<T>>(
    m: BeamModel<T>,
    scorer: S,
    kids: Seq<(T, bool)>,
    n: nat,
)
    ensures
        ({
            let r = with_kids(m, scorer, kids, n);
            &&& r.frontier == m.frontier
            &&& r.cursor == m.cursor
            &&& r.round == m.round
            &&& r.cfg == m.cfg
        }),
    decreases n,
{
    if n > 0 {
        lemma_with_kids(m, scorer, kids, (n - 1) as nat);
    }
}

/// Looking for the next node leaves the frontier as it is and moves on.
proof fn lemma_advanced<T>(m: BeamModel<T>)
    ensures
        ({
            let a = advanced(m);
            &&& a.0.frontier == m.frontier
            &&& a.0.cursor >= m.cursor
            &&& a.1 is Some ==> m.cursor < a.0.cursor <= m.frontier.len()
            &&& a.0.round == m.round
            &&& a.0.cfg == m.cfg
        }),
    decreases m.frontier.len() - m.cursor,
{
    if m.cursor < m.frontier.len() {
        let i = m.frontier[m.cursor as int];
        if m.nodes[i].terminal {
            lemma_advanced(
                BeamModel {
                    best: if beats(m.nodes, m.best, i) {
                        Some(i)
                    } else {
                        m.best
                    },
                    cursor: m.cursor + 1,
                    ..m
                },
            );
        }
    }
}

/// The search once every node of the frontier has been expanded.
pub open spec fn expanded_round<T, E: BranchExpander<T>, S: BranchScorer<T>>(
    m: BeamModel<T>,
    expander: E,
    scorer: S,
) -> BeamModel<T>
    decreases m.frontier.len() - m.cursor,
    via expanded_round_shrinks::<T, E, S>
{
    let a = advanced(m);
    match a.1 {
        Some(i) => {
            let kids = expander.continuations(a.0.nodes[i], m.cfg.branching_factor);
            expanded_round(with_kids(a.0, scorer, kids, kids.len()), expander, scorer)
        },
        None => a.0,
    }
}

#[via_fn]
proof fn expanded_round_shrinks<T, E: BranchExpander<T>, S: BranchScorer<T>>(
    m: BeamModel<T>,
    expander: E,
    scorer: S,
) {
    lemma_advanced(m);
    let a = advanced(m);
    match a.1 {
        Some(i) => {
            let kids = expander.continuations(a.0.nodes[i], m.cfg.branching_factor);
            lemma_with_kids(a.0, scorer, kids, kids.len());
        },
        None => {},
    }
}

/// Expanding a round does not end it.
proof fn lemma_expanded_round<T, E: BranchExpander<T>, S: BranchScorer<T>>(
    m: BeamModel<T>,
    expander: E,
    scorer: S,
)
    ensures
        expanded_round(m, expander, scorer).round == m.round,
        expanded_round(m, expander, scorer).cfg == m.cfg,
    decreases m.frontier.len() - m.cursor,
{
    lemma_advanced(m);
    let a = advanced(m);
    match a.1 {
        Some(i) => {
            let kids = expander.continuations(a.0.nodes[i], m.cfg.branching_factor);
            lemma_with_kids(a.0, scorer, kids, kids.len());
            lemma_expanded_round(with_kids(a.0, scorer, kids, kids.len()), expander, scorer);
        },
        None => {},
    }
}

/// The search at its end.
pub open spec fn searched<T, E: BranchExpander<T>, S: BranchScorer<T>>(
    m: BeamModel<T>,
    expander: E,
    scorer: S,
) -> BeamModel<T>
    decreases m.cfg.max_depth - m.round,
    via searched_shrinks::<T, E, S>
{
    if m.round >= m.cfg.max_depth {
        m
    } else {
        let e = expanded_round(
            BeamModel { depth_reached: m.round, ..m },
            expander,
            scorer,
        );
        let next = round_ended(e);
        if next.1 {
            searched(next.0, expander, scorer)
        } else {
            next.0
        }
    }
}

#[via_fn]
proof fn searched_shrinks<T, E: BranchExpander<T>, S: BranchScorer<T>>(
    m: BeamModel<T>,
    expander: E,
    scorer: S,
) {
    lemma_expanded_round(BeamModel { depth_reached: m.round, ..m }, expander, scorer);
}

/// A search stops as soon as a terminal node enters the beam: after a round in
/// which one survives there is no other, and a search that goes on has only nodes
/// to expand.
pub proof fn law_terminal_nodes_stop_the_search<T, E: BranchExpander<T>, S: BranchScorer<T>>(
    m: BeamModel<T>,
    expander: E,
    scorer: S,
)
    requires
        m.round < m.cfg.max_depth,
    ensures
        ({
            let e = expanded_round(BeamModel { depth_reached: m.round, ..m }, expander, scorer);
            let next = round_ended(e);
            &&& e.children.len() > 0 && (exists|k: int|
                0 <= k < survivors(e).len() && e.nodes[#[trigger] survivors(e)[k]].terminal)
                ==> !next.1 && searched(m, expander, scorer) == next.0
            &&& next.1 ==> next.0.frontier.len() > 0 && none_terminal(
                next.0.nodes,
                next.0.frontier,
            )
        }),
{
}

/// A search with an expander and a scorer.
pub struct TreeOfThoughts<E, S> {
    pub cfg: PlannerConfig,
    pub expander: E,
    pub scorer: S,
}

impl<E, S> TreeOfThoughts<E, S> {
    /// A search with an expander and a scorer.
    pub fn new(cfg: PlannerConfig, expander: E, scorer: S) -> (r: TreeOfThoughts<E, S>)
        ensures
            r.cfg == cfg,
            r.expander == expander,
            r.scorer == scorer,
    {
        TreeOfThoughts { cfg, expander, scorer }
    }

    /// Searches from a root.
    pub fn search<T: Clone>(&self, root: T) -> (r: PlanResult<T>) where
        E: BranchExpander<T>,
        S: BranchScorer<T>,

        ensures
            ({
                let unscored = ThoughtNode {
                    depth: 0usize,
                    thought: root,
                    score: 0i64,
                    terminal: false,
                };
                reports(
                    searched(
                        planted(self.cfg, root, self.scorer.value(unscored)),
                        self.expander,
                        self.scorer,
                    ),
                    r,
                )
            }),
    {
        let unscored = ThoughtNode { depth: 0, thought: root, score: 0, terminal: false };
        let root_score: i64 = self.scorer.score(&unscored);
        let mut beam: Beam<T> = Beam::new(self.cfg, unscored.thought, root_score);
        let ghost goal = searched(beam@, self.expander, self.scorer);
        let mut going: bool = true;
        while going
            invariant
                beam@.wf(),
                beam@.cfg == self.cfg,
                going ==> searched(beam@, self.expander, self.scorer) == goal,
                !going ==> beam@ == goal,
            decreases
                self.cfg.max_depth - beam@.round + (if going {
                    1int
                } else {
                    0int
                }),
        {
            let ghost before = beam@;
            if !beam.start_round() {
                going = false;
            } else {
                self.expand_round(&mut beam);
                proof {
                    lemma_expanded_round(
                        BeamModel { depth_reached: before.round, ..before },
                        self.expander,
                        self.scorer,
                    );
                }
                going = beam.end_round();
            }
        }
        beam.finish()
    }

    /// Expands every node of the frontier.
    fn expand_round<T: Clone>(&self, beam: &mut Beam<T>) where
        E: BranchExpander<T>,
        S: BranchScorer<T>,

        requires
            old(beam)@.wf(),
            old(beam)@.round < old(beam)@.cfg.max_depth,
        ensures
            final(beam)@ == expanded_round(old(beam)@, self.expander, self.scorer),
            final(beam)@.wf(),
    {
        let ghost goal = expanded_round(beam@, self.expander, self.scorer);
        let ghost round = beam@.round;
        let mut more: bool = true;
        while more
            invariant
                beam@.wf(),
                beam@.round == round,
                round < beam@.cfg.max_depth,
                more ==> expanded_round(beam@, self.expander, self.scorer) == goal,
                !more ==> beam@ == goal,
            decreases
                beam@.frontier.len() - beam@.cursor + (if more {
                    1int
                } else {
                    0int
                }),
        {
            let ghost before = beam@;
            proof {
                lemma_advanced(before);
            }
            match beam.next_parent() {
                None => {
                    more = false;
                },
                Some(i) => {
                    let ghost at = beam@;
                    let kids = self.expander.expand(beam.node(i), beam.branching_factor());
                    let ghost all = kids@;
                    proof {
                        lemma_with_kids(at, self.scorer, all, all.len());
                    }
                    self.add_kids(beam, kids);
                },
            }
        }
    }

    /// Scores and adds the continuations of a node.
    fn add_kids<T: Clone>(&self, beam: &mut Beam<T>, kids: Vec<(T, bool)>) where
        S: BranchScorer<T>,

        requires
            old(beam)@.wf(),
            old(beam)@.round < old(beam)@.cfg.max_depth,
        ensures
            final(beam)@ == with_kids(old(beam)@, self.scorer, kids@, kids@.len()),
            final(beam)@.wf(),
    {
        let ghost all = kids@;
        let ghost start = beam@;
        let n: usize = kids.len();
        let mut rest = kids;
        let mut i: usize = 0;
        assert(rest@ =~= all.skip(0));
        while i < n
            invariant
                n == all.len(),
                i <= n,
                rest@ == all.skip(i as int),
                beam@.wf(),
                beam@ == with_kids(start, self.scorer, all, i as nat),
                start.round < start.cfg.max_depth,
            decreases n - i,
        {
            proof {
                lemma_with_kids(start, self.scorer, all, i as nat);
            }
            let (thought, terminal) = rest.remove(0);
            assert(rest@ =~= all.skip(i + 1));
            let unscored = ThoughtNode { depth: beam.child_depth(), thought, score: 0, terminal };
            let score: i64 = self.scorer.score(&unscored);
            beam.add_child(unscored.thought, terminal, score);
            i += 1;
        }
    }
}

/// The children that survive are the best: none that is left out has a higher score than
/// one that survives, and all survive where there is room.
pub proof fn law_the_best_children_survive<T>(m: BeamModel<T>)
    ensures
        ({
            let top = survivors(m);
            let all = by_score(m.nodes, m.children, m.children.len());
            &&& all.len() == m.children.len()
            &&& all.to_multiset() == m.children.to_multiset()
            &&& top.len() == (if all.len() <= m.cfg.beam_width {
                all.len()
            } else {
                m.cfg.beam_width as nat
            })
            &&& top == all.take(top.len() as int)
            &&& forall|a: int, b: int|
                0 <= a < top.len() && top.len() <= b < all.len() ==> m.nodes[
                #[trigger] top[a]].score >= m.nodes[#[trigger] all[b]].score
        }),
{
    let all = by_score(m.nodes, m.children, m.children.len());
    let top = survivors(m);
    lemma_by_score_holds(m.nodes, m.children, m.children.len());
    assert(m.children.take(m.children.len() as int) =~= m.children);
    law_beam_is_in_order(m.nodes, m.children, m.children.len());
    assert(all.take(top.len() as int) =~= top);
    assert forall|a: int, b: int|
        0 <= a < top.len() && top.len() <= b < all.len() implies m.nodes[#[trigger] top[a]].score
        >= m.nodes[#[trigger] all[b]].score by {
        assert(top[a] == all[a]);
    }
}

proof fn lemma_by_score_holds<T>(nodes: Seq<ThoughtNode<T>>, ids: Seq<int>, n: nat)
    requires
        n <= ids.len(),
    ensures
        by_score(nodes, ids, n).len() == n,
        by_score(nodes, ids, n).to_multiset() == ids.take(n as int).to_multiset(),
    decreases n,
{
    if n > 0 {
        let rest = by_score(nodes, ids, (n - 1) as nat);
        lemma_by_score_holds(nodes, ids, (n - 1) as nat);
        let x = ids[n - 1];
        let at = score_rank(nodes, rest, nodes[x].score);
        lemma_score_rank(nodes, rest, nodes[x].score);
        vstd::seq_lib::to_multiset_insert(rest, at, x);
        assert(ids.take(n as int) =~= ids.take(n - 1).push(x));
        vstd::seq_lib::to_multiset_build(ids.take(n - 1), x);
    } else {
        assert(by_score(nodes, ids, n) =~= ids.take(0));
    }
}

/// The node that stands for a frontier is one of it, with a score that none of the others
/// exceeds, and of equals the last.
pub proof fn law_the_last_best_is_the_best<T>(nodes: Seq<ThoughtNode<T>>, ids: Seq<int>, n: nat)
    requires
        n <= ids.len(),
    ensures
        last_best(nodes, ids, n) is None <==> n == 0,
        n > 0 ==> exists|k: int|
            0 <= k < n && last_best(nodes, ids, n) == Some(#[trigger] ids[k]) && (forall|i: int|
                0 <= i < n ==> nodes[#[trigger] ids[i]].score <= nodes[ids[k]].score) && (forall|
                i: int,
            |
                k < i < n ==> nodes[#[trigger] ids[i]].score < nodes[ids[k]].score),
    decreases n,
{
    if n > 0 {
        let m = (n - 1) as nat;
        law_the_last_best_is_the_best(nodes, ids, m);
        if m > 0 {
            let k = choose|k: int|
                0 <= k < m && last_best(nodes, ids, m) == Some(#[trigger] ids[k]) && (forall|
                    i: int,
                |
                    0 <= i < m ==> nodes[#[trigger] ids[i]].score <= nodes[ids[k]].score) && (
                forall|i: int|
                    k < i < m ==> nodes[#[trigger] ids[i]].score < nodes[ids[k]].score);
            if nodes[ids[n - 1]].score >= nodes[ids[k]].score {
                assert(last_best(nodes, ids, n) == Some(ids[n - 1]));
            } else {
                assert(last_best(nodes, ids, n) == Some(ids[k]));
            }
        } else {
            assert(last_best(nodes, ids, n) == Some(ids[0]));
        }
    }
}

/// Of the terminal nodes that have been seen none is better than the best.
pub proof fn law_no_terminal_node_is_missed<T>(
    nodes: Seq<ThoughtNode<T>>,
    best: Option<int>,
    ids: Seq<int>,
    n: nat,
    k: int,
)
    requires
        n <= ids.len(),
        0 <= k < n,
        nodes[ids[k]].terminal,
    ensures
        seen_all(nodes, best, ids, n) is Some,
        nodes[seen_all(nodes, best, ids, n)->0].score >= nodes[ids[k]].score,
    decreases n,
{
    if k < n - 1 {
        law_no_terminal_node_is_missed(nodes, best, ids, (n - 1) as nat, k);
    }
}

} // verus!
