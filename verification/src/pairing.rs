//! Tool requests and the results that answer them.
//!
//! A message that requests tool calls and the results that follow it directly
//! form one unit: providers reject a result without its request, so a unit is
//! kept or dropped as a whole.

use crate::text::{holds_text, texts};
use vstd::prelude::*;

verus! {

/// What ties a message to others: the ids of the tool calls that it requests,
/// and the id of the call that it answers.
pub struct Link {
    pub requests: Option<Seq<Seq<char>>>,
    pub result: Option<Seq<char>>,
}

/// A message that may request tool calls, or answer such a request.
pub trait PairAwareMessage {
    /// What ties the message to others.
    open spec fn link(&self) -> Link {
        Link { requests: None, result: None }
    }

    /// The ids of the tool calls that the message requests, or `None` if it
    /// requests none.
    fn tool_request_ids(&self) -> (r: Option<&Vec<String>>)
        ensures
            match r {
                Some(ids) => self.link().requests == Some(texts(ids@)),
                None => self.link().requests is None,
            },
    ;

    /// The id of the tool call that the message answers.
    fn tool_result_id(&self) -> (r: Option<&str>)
        ensures
            match r {
                Some(id) => self.link().result == Some(id@),
                None => self.link().result is None,
            },
    ;
}

/// The links of messages.
pub open spec fn links<M: PairAwareMessage>(msgs: Seq<M>) -> Seq<Link> {
    msgs.map_values(|m: M| m.link())
}

/// The message answers one of the requests `ids`.
pub open spec fn answers(m: Link, ids: Seq<Seq<char>>) -> bool {
    m.result is Some && ids.contains(m.result->0)
}

/// The end of the run of messages from `i` on that answer one of `ids`.
pub open spec fn run_end(msgs: Seq<Link>, ids: Seq<Seq<char>>, i: int) -> int
    decreases msgs.len() - i,
{
    if 0 <= i < msgs.len() && answers(msgs[i], ids) {
        run_end(msgs, ids, i + 1)
    } else {
        i
    }
}

/// The end of the unit that starts at `i`: a request with the results that
/// follow it directly, or any other message alone.
pub open spec fn unit_end(msgs: Seq<Link>, i: int) -> int {
    match msgs[i].requests {
        Some(ids) => run_end(msgs, ids, i + 1),
        None => i + 1,
    }
}

/// A run ends no earlier than it starts, and every message in it answers.
pub proof fn lemma_run_end(msgs: Seq<Link>, ids: Seq<Seq<char>>, i: int)
    requires
        0 <= i <= msgs.len(),
    ensures
        i <= run_end(msgs, ids, i) <= msgs.len(),
        forall|j: int| i <= j < run_end(msgs, ids, i) ==> answers(#[trigger] msgs[j], ids),
        run_end(msgs, ids, i) < msgs.len() ==> !answers(msgs[run_end(msgs, ids, i)], ids),
    decreases msgs.len() - i,
{
    if i < msgs.len() && answers(msgs[i], ids) {
        lemma_run_end(msgs, ids, i + 1);
    }
}

/// A unit is not empty and stays within the messages.
pub proof fn lemma_unit_end(msgs: Seq<Link>, i: int)
    requires
        0 <= i < msgs.len(),
    ensures
        i < unit_end(msgs, i) <= msgs.len(),
        msgs[i].requests is None ==> unit_end(msgs, i) == i + 1,
{
    match msgs[i].requests {
        Some(ids) => {
            lemma_run_end(msgs, ids, i + 1);
        },
        None => {},
    }
}

/// The units of the messages from `i` on, as ranges `start..end`.
pub open spec fn units_from(msgs: Seq<Link>, i: int) -> Seq<(int, int)>
    decreases msgs.len() - i,
    via units_from_shrink
{
    if 0 <= i < msgs.len() {
        seq![(i, unit_end(msgs, i))] + units_from(msgs, unit_end(msgs, i))
    } else {
        Seq::empty()
    }
}

#[via_fn]
proof fn units_from_shrink(msgs: Seq<Link>, i: int) {
    if 0 <= i < msgs.len() {
        lemma_unit_end(msgs, i);
    }
}

/// The units as ranges of indices.
pub open spec fn ranges(v: Seq<(usize, usize)>) -> Seq<(int, int)> {
    v.map_values(|p: (usize, usize)| (p.0 as int, p.1 as int))
}

/// The end of the unit that starts at `i`.
pub fn find_unit_end<M: PairAwareMessage>(messages: &[M], i: usize) -> (r: usize)
    requires
        i < messages@.len(),
    ensures
        r == unit_end(links(messages@), i as int),
        i < r <= messages@.len(),
{
    proof {
        lemma_unit_end(links(messages@), i as int);
    }
    match messages[i].tool_request_ids() {
        None => i + 1,
        Some(ids) => {
            let mut j: usize = i + 1;
            while j < messages.len()
                invariant
                    i < j <= messages@.len(),
                    links(messages@)[i as int].requests == Some(texts(ids@)),
                    run_end(links(messages@), texts(ids@), i + 1) == run_end(
                        links(messages@),
                        texts(ids@),
                        j as int,
                    ),
                decreases messages@.len() - j,
            {
                let answered = match messages[j].tool_result_id() {
                    Some(id) => holds_text(ids.as_slice(), id),
                    None => false,
                };
                if !answered {
                    return j;
                }
                j += 1;
            }
            j
        },
    }
}

/// The units of `messages`, in order, as ranges `start..end`.
pub fn pair_aware_units<M: PairAwareMessage>(messages: &[M]) -> (r: Vec<(usize, usize)>)
    ensures
        ranges(r@) == units_from(links(messages@), 0),
{
    let mut out: Vec<(usize, usize)> = Vec::new();
    let mut i: usize = 0;
    assert(ranges(out@) + units_from(links(messages@), 0) =~= units_from(links(messages@), 0));
    while i < messages.len()
        invariant
            i <= messages@.len(),
            ranges(out@) + units_from(links(messages@), i as int) == units_from(links(messages@), 0),
        decreases messages@.len() - i,
    {
        let end: usize = find_unit_end(messages, i);
        let ghost before = ranges(out@);
        out.push((i, end));
        proof {
            let u = (i as int, end as int);
            assert(ranges(out@) =~= before.push(u));
            assert(before.push(u) + units_from(links(messages@), end as int) =~= before + (seq![u]
                + units_from(links(messages@), end as int)));
        }
        i = end;
    }
    proof {
        assert(units_from(links(messages@), i as int) =~= Seq::<(int, int)>::empty());
        assert(ranges(out@) + Seq::<(int, int)>::empty() =~= ranges(out@));
    }
    out
}

// ── Laws ───────────────────────────────────────────────────────────────────
/// A request and the results that follow it are one unit, as far as they answer it; any
/// other message is one for itself.
pub proof fn law_results_belong_to_their_request(msgs: Seq<Link>, i: int)
    requires
        0 <= i < msgs.len(),
    ensures
        ({
            let e = unit_end(msgs, i);
            &&& i < e <= msgs.len()
            &&& msgs[i].requests is None ==> e == i + 1
            &&& msgs[i].requests matches Some(ids) ==> {
                &&& forall|k: int|
                    i < k < e ==> (#[trigger] msgs[k]).result is Some && ids.contains(
                        msgs[k].result->0,
                    )
                &&& e < msgs.len() ==> !(msgs[e].result is Some && ids.contains(
                    msgs[e].result->0,
                ))
            }
        }),
{
    if msgs[i].requests is Some {
        lemma_run(msgs, msgs[i].requests->0, i + 1);
    }
}

proof fn lemma_run(msgs: Seq<Link>, ids: Seq<Seq<char>>, i: int)
    requires
        0 <= i <= msgs.len(),
    ensures
        ({
            let e = run_end(msgs, ids, i);
            &&& i <= e <= msgs.len()
            &&& forall|k: int| i <= k < e ==> answers(#[trigger] msgs[k], ids)
            &&& e < msgs.len() ==> !answers(msgs[e], ids)
        }),
    decreases msgs.len() - i,
{
    if i < msgs.len() && answers(msgs[i], ids) {
        lemma_run(msgs, ids, i + 1);
    }
}

/// The units follow one another without a gap, from the first message to the last.
pub proof fn law_units_cover_all_messages(msgs: Seq<Link>, i: int)
    requires
        0 <= i <= msgs.len(),
    ensures
        ({
            let units = units_from(msgs, i);
            &&& i < msgs.len() ==> units.len() > 0 && units[0].0 == i && units.last().1
                == msgs.len()
            &&& i == msgs.len() ==> units.len() == 0
            &&& forall|k: int, l: int|
                0 <= k && l == k + 1 && l < units.len() ==> (#[trigger] units[k]).1 == (
                #[trigger] units[l]).0
        }),
    decreases msgs.len() - i,
{
    if i < msgs.len() {
        law_results_belong_to_their_request(msgs, i);
        let e = unit_end(msgs, i);
        law_units_cover_all_messages(msgs, e);
        let rest = units_from(msgs, e);
        let units = units_from(msgs, i);
        assert(units =~= seq![(i, e)] + rest);
        if rest.len() > 0 {
            assert(units.last() == rest.last());
        }
        assert forall|k: int, l: int| 0 <= k && l == k + 1 && l < units.len() implies (
        #[trigger] units[k]).1 == (#[trigger] units[l]).0 by {
            assert(units[l] == rest[l - 1]);
            if k > 0 {
                assert(units[k] == rest[k - 1]);
            }
        }
    }
}

} // verus!
