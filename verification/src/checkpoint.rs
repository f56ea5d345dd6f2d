//! Checkpoints of the files that tools change, so that a batch of tool calls
//! can be undone.
//!
//! The store does not touch files: it records what they held before, and hands
//! it back when a batch is reverted.

use crate::emitter::ring_push;
use crate::events::{AgentEvent, EventModel};
use crate::numeral::{decimal, decimal_text};
use vstd::prelude::*;
use vstd::string::*;

verus! {

/// The id of a checkpoint. Ids grow and are not used again.
#[derive(Debug, Clone, Copy, PartialEq, Eq, Structural, Hash)]
pub struct CheckpointId(pub u64);

impl CheckpointId {
    /// The id as a number.
    pub fn raw(self) -> (r: u64)
        ensures
            r == self.0,
    {
        self.0
    }
}

/// What a file held before. `None` means that there was no such file.
#[derive(Debug, PartialEq, Eq)]
pub struct FileSnapshot {
    pub path: String,
    pub before: Option<String>,
}

impl Clone for FileSnapshot {
    fn clone(&self) -> (r: FileSnapshot)
        ensures
            r == *self,
    {
        FileSnapshot { path: self.path.clone(), before: self.before.clone() }
    }
}

/// How far a batch is.
#[derive(Debug, Clone, Copy, PartialEq, Eq, Structural)]
pub enum BatchState {
    /// Edits are being recorded.
    Open,
    /// The edits are complete.
    Committed,
    /// The edits have been undone.
    Reverted,
}

/// A batch of tool calls, with what the files that it changed held before.
#[derive(Debug, PartialEq, Eq)]
pub struct ToolBatchCheckpoint {
    pub id: CheckpointId,
    pub turn_index: u32,
    pub tool_summary: String,
    pub edits: Vec<FileSnapshot>,
    pub state: BatchState,
    pub created_at_secs: u64,
}

/// The model of a [`ToolBatchCheckpoint`].
pub struct BatchModel {
    pub id: CheckpointId,
    pub turn_index: u32,
    pub tool_summary: Seq<char>,
    pub edits: Seq<FileSnapshot>,
    pub state: BatchState,
    pub created_at_secs: u64,
}

impl View for ToolBatchCheckpoint {
    type V = BatchModel;

    open spec fn view(&self) -> BatchModel {
        BatchModel {
            id: self.id,
            turn_index: self.turn_index,
            tool_summary: self.tool_summary@,
            edits: self.edits@,
            state: self.state,
            created_at_secs: self.created_at_secs,
        }
    }
}

impl Clone for ToolBatchCheckpoint {
    fn clone(&self) -> (r: ToolBatchCheckpoint)
        ensures
            r@ == self@,
    {
        let edits: Vec<FileSnapshot> = self.edits.clone();
        assert(edits@ =~= self.edits@);
        ToolBatchCheckpoint {
            id: self.id,
            turn_index: self.turn_index,
            tool_summary: self.tool_summary.clone(),
            edits,
            state: self.state,
            created_at_secs: self.created_at_secs,
        }
    }
}

/// Why a checkpoint could not be used.
#[derive(Debug, Clone, Copy, PartialEq, Eq, Structural)]
pub enum CheckpointError {
    /// It was dropped, or there never was one.
    Unknown(CheckpointId),
    StillOpen(CheckpointId),
    AlreadyCommitted(CheckpointId),
    AlreadyReverted(CheckpointId),
}

/// What an error says.
pub open spec fn error_text(e: CheckpointError) -> Seq<char> {
    match e {
        CheckpointError::Unknown(id) => "checkpoint CheckpointId("@ + decimal(id.0 as nat)
            + ") not found (evicted or never existed)"@,
        CheckpointError::StillOpen(id) => "checkpoint CheckpointId("@ + decimal(id.0 as nat)
            + ") is still open; call commit() first"@,
        CheckpointError::AlreadyCommitted(id) => "checkpoint CheckpointId("@ + decimal(id.0 as nat)
            + ") is already committed; cannot record more edits"@,
        CheckpointError::AlreadyReverted(id) => "checkpoint CheckpointId("@ + decimal(id.0 as nat)
            + ") is already reverted"@,
    }
}

impl CheckpointError {
    /// What the error says.
    pub fn message(&self) -> (r: String)
        ensures
            r@ == error_text(*self),
    {
        let (id, rest) = match self {
            CheckpointError::Unknown(id) => (id, ") not found (evicted or never existed)"),
            CheckpointError::StillOpen(id) => (id, ") is still open; call commit() first"),
            CheckpointError::AlreadyCommitted(id) => (
                id,
                ") is already committed; cannot record more edits",
            ),
            CheckpointError::AlreadyReverted(id) => (id, ") is already reverted"),
        };
        let mut out = "checkpoint CheckpointId(".to_owned();
        let n = decimal_text(id.0);
        out.append(n.as_str());
        out.append(rest);
        out
    }
}

/// The checkpoints, oldest first, and the next id.
pub struct StoreModel {
    pub items: Seq<BatchModel>,
    pub cap: nat,
    pub next_id: u64,
}

/// At most `cap` checkpoints: the oldest goes when there are too many.
#[derive(Debug)]
pub struct CheckpointStore {
    checkpoints: Vec<ToolBatchCheckpoint>,
    cap: usize,
    next_id: u64,
}

/// The models of checkpoints.
pub open spec fn batch_models(v: Seq<ToolBatchCheckpoint>) -> Seq<BatchModel> {
    v.map_values(|c: ToolBatchCheckpoint| c@)
}

impl View for CheckpointStore {
    type V = StoreModel;

    closed spec fn view(&self) -> StoreModel {
        StoreModel {
            items: batch_models(self.checkpoints@),
            cap: self.cap as nat,
            next_id: self.next_id,
        }
    }
}

/// The place of the first checkpoint with this id, or their number.
pub open spec fn place(items: Seq<BatchModel>, id: CheckpointId) -> int
    decreases items.len(),
{
    if items.len() == 0 || items[0].id == id {
        0
    } else {
        1 + place(items.subrange(1, items.len() as int), id)
    }
}

impl StoreModel {
    /// There is a checkpoint with this id.
    pub open spec fn has(self, id: CheckpointId) -> bool {
        place(self.items, id) < self.items.len()
    }

    /// The checkpoint with this id.
    pub open spec fn item(self, id: CheckpointId) -> BatchModel {
        self.items[place(self.items, id)]
    }

    /// The store with another checkpoint in the place of the one with this id.
    pub open spec fn replace(self, id: CheckpointId, b: BatchModel) -> StoreModel {
        StoreModel { items: self.items.update(place(self.items, id), b), ..self }
    }

    /// No more checkpoints than there may be.
    pub open spec fn wf(self) -> bool {
        1 <= self.cap && self.items.len() <= self.cap
    }

    /// The ids grow, and the next one is larger than all of them.
    pub open spec fn ordered(self) -> bool {
        &&& forall|i: int| 0 <= i < self.items.len() ==> (#[trigger] self.items[i]).id.0 < self.next_id
        &&& forall|i: int, j: int|
            0 <= i < j < self.items.len() ==> (#[trigger] self.items[i]).id.0 < (
            #[trigger] self.items[j]).id.0
    }
}

/// The id after `n`.
pub open spec fn following(n: u64) -> u64 {
    if n < u64::MAX {
        (n + 1) as u64
    } else {
        n
    }
}

/// A batch that has just begun.
pub open spec fn new_batch(id: u64, turn: u32, summary: Seq<char>, now: u64) -> BatchModel {
    BatchModel {
        id: CheckpointId(id),
        turn_index: turn,
        tool_summary: summary,
        edits: Seq::empty(),
        state: BatchState::Open,
        created_at_secs: now,
    }
}

/// The store once a batch has begun.
pub open spec fn begun(s: StoreModel, turn: u32, summary: Seq<char>, now: u64) -> StoreModel {
    StoreModel {
        items: ring_push(s.items, s.cap, new_batch(s.next_id, turn, summary, now)),
        next_id: following(s.next_id),
        ..s
    }
}

/// The store once an edit was to be recorded.
pub open spec fn recorded(s: StoreModel, id: CheckpointId, f: FileSnapshot) -> StoreModel {
    if s.has(id) && s.item(id).state == BatchState::Open {
        s.replace(id, BatchModel { edits: s.item(id).edits.push(f), ..s.item(id) })
    } else {
        s
    }
}

/// Why no edit can be recorded in a batch, and it cannot be ended, if so.
pub open spec fn closed_error(s: StoreModel, id: CheckpointId) -> Option<CheckpointError> {
    if !s.has(id) {
        Some(CheckpointError::Unknown(id))
    } else {
        match s.item(id).state {
            BatchState::Open => None,
            BatchState::Committed => Some(CheckpointError::AlreadyCommitted(id)),
            BatchState::Reverted => Some(CheckpointError::AlreadyReverted(id)),
        }
    }
}

/// The store once a batch was to be ended.
pub open spec fn committed(s: StoreModel, id: CheckpointId) -> StoreModel {
    if s.has(id) && s.item(id).state == BatchState::Open {
        s.replace(id, BatchModel { state: BatchState::Committed, ..s.item(id) })
    } else {
        s
    }
}

/// The store once a batch was to be undone.
pub open spec fn reverted(s: StoreModel, id: CheckpointId) -> StoreModel {
    if s.has(id) && s.item(id).state == BatchState::Committed {
        s.replace(id, BatchModel { state: BatchState::Reverted, ..s.item(id) })
    } else {
        s
    }
}

/// What undoing a batch gives: what its files held before, in the order in which
/// it was recorded.
pub open spec fn revert_result(s: StoreModel, id: CheckpointId) -> Result<
    Seq<FileSnapshot>,
    CheckpointError,
> {
    if !s.has(id) {
        Err(CheckpointError::Unknown(id))
    } else {
        match s.item(id).state {
            BatchState::Open => Err(CheckpointError::StillOpen(id)),
            BatchState::Reverted => Err(CheckpointError::AlreadyReverted(id)),
            BatchState::Committed => Ok(s.item(id).edits),
        }
    }
}

proof fn lemma_place(items: Seq<BatchModel>, id: CheckpointId)
    ensures
        0 <= place(items, id) <= items.len(),
        place(items, id) < items.len() ==> items[place(items, id)].id == id,
        forall|i: int| 0 <= i < place(items, id) ==> (#[trigger] items[i]).id != id,
    decreases items.len(),
{
    if items.len() > 0 && items[0].id != id {
        let rest = items.subrange(1, items.len() as int);
        lemma_place(rest, id);
        assert forall|i: int| 0 <= i < place(items, id) implies (#[trigger] items[i]).id != id by {
            if i > 0 {
                assert(items[i] == rest[i - 1]);
            }
        }
    }
}

impl CheckpointStore {
    /// Room for `cap` checkpoints, and at least for one.
    pub fn with_capacity(cap: usize) -> (r: CheckpointStore)
        ensures
            r@.items == Seq::<BatchModel>::empty(),
            r@.cap == (if cap == 0 {
                1
            } else {
                cap as nat
            }),
            r@.next_id == 1,
            r@.wf(),
            r@.ordered(),
    {
        let v: Vec<ToolBatchCheckpoint> = Vec::new();
        assert(batch_models(v@) =~= Seq::<BatchModel>::empty());
        CheckpointStore {
            checkpoints: v,
            cap: if cap == 0 {
                1
            } else {
                cap
            },
            next_id: 1,
        }
    }

    /// How many checkpoints there may be.
    pub fn capacity(&self) -> (r: usize)
        ensures
            r == self@.cap,
    {
        self.cap
    }

    /// A batch begins. Returns its id.
    pub fn begin_batch(&mut self, turn_index: u32, tool_summary: &str, now_secs: u64) -> (r:
        CheckpointId)
        requires
            old(self)@.wf(),
        ensures
            final(self)@ == begun(old(self)@, turn_index, tool_summary@, now_secs),
            r == CheckpointId(old(self)@.next_id),
            final(self)@.wf(),
    {
        let ghost before = self@;
        let id = CheckpointId(self.next_id);
        self.next_id = self.next_id.saturating_add(1);
        if self.checkpoints.len() >= self.cap {
            let _oldest = self.checkpoints.remove(0);
        }
        let ghost middle = batch_models(self.checkpoints@);
        proof {
            assert(middle =~= if before.items.len() >= before.cap {
                before.items.subrange(1, before.items.len() as int)
            } else {
                before.items
            });
        }
        let edits: Vec<FileSnapshot> = Vec::new();
        let cp = ToolBatchCheckpoint {
            id,
            turn_index,
            tool_summary: tool_summary.to_owned(),
            edits,
            state: BatchState::Open,
            created_at_secs: now_secs,
        };
        self.checkpoints.push(cp);
        proof {
            assert(cp@ == new_batch(before.next_id, turn_index, tool_summary@, now_secs));
            assert(batch_models(self.checkpoints@) =~= middle.push(cp@));
        }
        id
    }

    /// The place of the checkpoint with this id, or their number.
    fn find(&self, id: CheckpointId) -> (r: usize)
        ensures
            r == place(batch_models(self.checkpoints@), id),
            r <= self.checkpoints@.len(),
            r < self.checkpoints@.len() ==> self.checkpoints@[r as int].id == id,
    {
        let ghost all = batch_models(self.checkpoints@);
        proof {
            lemma_place(all, id);
        }
        let mut i: usize = 0;
        assert(all.subrange(0, all.len() as int) =~= all);
        while i < self.checkpoints.len()
            invariant
                all == batch_models(self.checkpoints@),
                i <= all.len(),
                place(all, id) == i + place(all.subrange(i as int, all.len() as int), id),
            decreases all.len() - i,
        {
            proof {
                let part = all.subrange(i as int, all.len() as int);
                assert(part[0] == self.checkpoints@[i as int]@);
                assert(part.subrange(1, part.len() as int) =~= all.subrange(
                    i + 1,
                    all.len() as int,
                ));
            }
            if self.checkpoints[i].id == id {
                return i;
            }
            i += 1;
        }
        i
    }

    /// Records what a file held before an open batch changes it.
    pub fn record_edit(&mut self, id: CheckpointId, path: &str, before: Option<String>) -> (r:
        Result<(), CheckpointError>)
        ensures
            match r {
                Ok(_) => closed_error(old(self)@, id) is None,
                Err(e) => closed_error(old(self)@, id) == Some(e),
            },
            exists|f: FileSnapshot|
                f.path@ == path@ && f.before == before && final(self)@ == #[trigger] recorded(
                    old(self)@,
                    id,
                    f,
                ),
    {
        let ghost s = self@;
        let f = FileSnapshot { path: path.to_owned(), before };
        let ghost after = recorded(s, id, f);
        let i: usize = self.find(id);
        if i == self.checkpoints.len() {
            assert(self@ == after);
            return Err(CheckpointError::Unknown(id));
        }
        assert(s.items[i as int] == self.checkpoints@[i as int]@);
        match self.checkpoints[i].state {
            BatchState::Open => {
                let cp = &mut self.checkpoints[i];
                cp.edits.push(f);
                proof {
                    let b = BatchModel { edits: s.item(id).edits.push(f), ..s.item(id) };
                    assert(self@.items =~= s.items.update(i as int, b));
                    assert(self@ == s.replace(id, b));
                }
                Ok(())
            },
            BatchState::Committed => Err(CheckpointError::AlreadyCommitted(id)),
            BatchState::Reverted => Err(CheckpointError::AlreadyReverted(id)),
        }
    }

    /// Ends an open batch. Returns it.
    pub fn commit(&mut self, id: CheckpointId) -> (r: Result<ToolBatchCheckpoint, CheckpointError>)
        ensures
            match r {
                Ok(b) => closed_error(old(self)@, id) is None && b@ == (BatchModel {
                    state: BatchState::Committed,
                    ..old(self)@.item(id)
                }),
                Err(e) => closed_error(old(self)@, id) == Some(e),
            },
            final(self)@ == committed(old(self)@, id),
    {
        let ghost s = self@;
        let i: usize = self.find(id);
        if i == self.checkpoints.len() {
            return Err(CheckpointError::Unknown(id));
        }
        assert(s.items[i as int] == self.checkpoints@[i as int]@);
        match self.checkpoints[i].state {
            BatchState::Open => {
                let cp = &mut self.checkpoints[i];
                cp.state = BatchState::Committed;
                proof {
                    let b = BatchModel { state: BatchState::Committed, ..s.item(id) };
                    assert(self@.items =~= s.items.update(i as int, b));
                }
                Ok(self.checkpoints[i].clone())
            },
            BatchState::Committed => Err(CheckpointError::AlreadyCommitted(id)),
            BatchState::Reverted => Err(CheckpointError::AlreadyReverted(id)),
        }
    }

    /// Marks a committed batch as undone. Returns what its files held before.
    /// A batch is not undone twice.
    pub fn revert(&mut self, id: CheckpointId) -> (r: Result<Vec<FileSnapshot>, CheckpointError>)
        ensures
            (match r {
                Ok(files) => Ok(files@),
                Err(e) => Err(e),
            }) == revert_result(old(self)@, id),
            final(self)@ == reverted(old(self)@, id),
    {
        let ghost s = self@;
        let i: usize = self.find(id);
        if i == self.checkpoints.len() {
            return Err(CheckpointError::Unknown(id));
        }
        assert(s.items[i as int] == self.checkpoints@[i as int]@);
        match self.checkpoints[i].state {
            BatchState::Open => Err(CheckpointError::StillOpen(id)),
            BatchState::Reverted => Err(CheckpointError::AlreadyReverted(id)),
            BatchState::Committed => {
                let cp = &mut self.checkpoints[i];
                cp.state = BatchState::Reverted;
                proof {
                    let b = BatchModel { state: BatchState::Reverted, ..s.item(id) };
                    assert(self@.items =~= s.items.update(i as int, b));
                }
                let edits: Vec<FileSnapshot> = self.checkpoints[i].edits.clone();
                assert(edits@ =~= s.item(id).edits);
                Ok(edits)
            },
        }
    }

    /// The checkpoints, newest first.
    pub fn list(&self) -> (r: Vec<&ToolBatchCheckpoint>)
        ensures
            r@.len() == self@.items.len(),
            forall|i: int|
                0 <= i < r@.len() ==> (#[trigger] r@[i])@ == self@.items[self@.items.len() - 1 - i],
    {
        let mut out: Vec<&ToolBatchCheckpoint> = Vec::new();
        let n: usize = self.checkpoints.len();
        let ghost all = batch_models(self.checkpoints@);
        let mut i: usize = 0;
        while i < n
            invariant
                all == batch_models(self.checkpoints@),
                n == all.len(),
                i <= n,
                out@.len() == i,
                forall|k: int| 0 <= k < i ==> (#[trigger] out@[k])@ == all[n - 1 - k],
            decreases n - i,
        {
            assert(all[n - 1 - i] == self.checkpoints@[n - 1 - i]@);
            out.push(&self.checkpoints[n - 1 - i]);
            i += 1;
        }
        out
    }

    /// The checkpoint with this id.
    pub fn get(&self, id: CheckpointId) -> (r: Option<&ToolBatchCheckpoint>)
        ensures
            match r {
                Some(c) => self@.has(id) && c@ == self@.item(id),
                None => !self@.has(id),
            },
    {
        let i: usize = self.find(id);
        if i == self.checkpoints.len() {
            return None;
        }
        assert(batch_models(self.checkpoints@)[i as int] == self.checkpoints@[i as int]@);
        Some(&self.checkpoints[i])
    }

    /// How many checkpoints there are.
    pub fn len(&self) -> (r: usize)
        ensures
            r == self@.items.len(),
    {
        self.checkpoints.len()
    }

    /// Whether there are no checkpoints.
    pub fn is_empty(&self) -> (r: bool)
        ensures
            r == (self@.items.len() == 0),
    {
        self.checkpoints.is_empty()
    }
}

impl Default for CheckpointStore {
    fn default() -> (r: CheckpointStore)
        ensures
            r@.items == Seq::<BatchModel>::empty(),
            r@.cap == 64,
            r@.next_id == 1,
            r@.wf(),
            r@.ordered(),
    {
        CheckpointStore::with_capacity(64)
    }
}

/// What is told when a batch was to be undone.
pub open spec fn reverted_event(
    id: CheckpointId,
    result: Result<Seq<FileSnapshot>, CheckpointError>,
) -> EventModel {
    match result {
        Ok(files) => EventModel::CheckpointReverted {
            id: id.0,
            ok: true,
            files: (files.len() % 0x1_0000_0000) as u32,
            reason: Seq::empty(),
        },
        Err(e) => EventModel::CheckpointReverted {
            id: id.0,
            ok: false,
            files: 0,
            reason: error_text(e),
        },
    }
}

/// What is told when a batch was to be undone.
pub fn revert_told(id: CheckpointId, result: &Result<Vec<FileSnapshot>, CheckpointError>) -> (r:
    AgentEvent)
    ensures
        r@ == reverted_event(
            id,
            match *result {
                Ok(files) => Ok(files@),
                Err(e) => Err(e),
            },
        ),
{
    match result {
        Ok(files) => {
            let n: u64 = files.len() as u64 % 0x1_0000_0000;
            AgentEvent::CheckpointReverted {
                id: id.0,
                ok: true,
                files: n as u32,
                reason: String::new(),
            }
        },
        Err(e) => AgentEvent::CheckpointReverted {
            id: id.0,
            ok: false,
            files: 0,
            reason: e.message(),
        },
    }
}

// ── Laws ───────────────────────────────────────────────────────────────────
/// A new batch has an id that no checkpoint in the store has, and that is
/// larger than all ids given out before.
pub proof fn law_checkpoint_ids_are_never_reused(
    s: StoreModel,
    turn: u32,
    summary: Seq<char>,
    now: u64,
)
    requires
        s.wf(),
        s.ordered(),
        s.next_id < u64::MAX,
    ensures
        !s.has(CheckpointId(s.next_id)),
        begun(s, turn, summary, now).has(CheckpointId(s.next_id)),
        begun(s, turn, summary, now).next_id > s.next_id,
        begun(s, turn, summary, now).ordered(),
{
    lemma_place(s.items, CheckpointId(s.next_id));
    let after = begun(s, turn, summary, now);
    lemma_place(after.items, CheckpointId(s.next_id));
    assert(after.items.last().id == CheckpointId(s.next_id));
    assert(after.items[after.items.len() - 1].id == CheckpointId(s.next_id));
}

/// A batch is undone once: whatever the store held, a batch that has just been
/// reverted cannot be reverted again, nor can edits be recorded in it.
pub proof fn law_revert_happens_once(s: StoreModel, id: CheckpointId)
    requires
        s.has(id),
        s.item(id).state == BatchState::Committed,
    ensures
        ({
            let after = s.replace(
                id,
                BatchModel { state: BatchState::Reverted, ..s.item(id) },
            );
            &&& after.has(id)
            &&& after.item(id).state == BatchState::Reverted
            &&& after.item(id).edits == s.item(id).edits
            &&& s.ordered() ==> after.ordered()
        }),
{
    let b = BatchModel { state: BatchState::Reverted, ..s.item(id) };
    let after = s.replace(id, b);
    lemma_place(s.items, id);
    lemma_place(after.items, id);
    let p = place(s.items, id);
    let q = place(after.items, id);
    assert(after.items[p].id == id);
    if q < p {
        assert(after.items[q] == s.items[q]);
    }
    if p < q {
        assert(after.items[p].id != id);
    }
}

/// Something that is done to a store.
pub enum CheckpointStep {
    Begin { turn: u32, summary: Seq<char>, now: u64 },
    Record { id: CheckpointId, file: FileSnapshot },
    Commit { id: CheckpointId },
    Revert { id: CheckpointId },
}

/// The store after a step.
pub open spec fn store_stepped(s: StoreModel, step: CheckpointStep) -> StoreModel {
    match step {
        CheckpointStep::Begin { turn, summary, now } => begun(s, turn, summary, now),
        CheckpointStep::Record { id, file } => recorded(s, id, file),
        CheckpointStep::Commit { id } => committed(s, id),
        CheckpointStep::Revert { id } => reverted(s, id),
    }
}

/// The store after the steps, one after the other.
pub open spec fn store_after(s: StoreModel, steps: Seq<CheckpointStep>) -> StoreModel
    decreases steps.len(),
{
    if steps.len() == 0 {
        s
    } else {
        store_stepped(store_after(s, steps.drop_last()), steps.last())
    }
}

/// What a step makes of a batch.
pub open spec fn batch_stepped(b: BatchModel, step: CheckpointStep) -> BatchModel {
    match step {
        CheckpointStep::Begin { .. } => b,
        CheckpointStep::Record { id, file } => if id == b.id && b.state == BatchState::Open {
            BatchModel { edits: b.edits.push(file), ..b }
        } else {
            b
        },
        CheckpointStep::Commit { id } => if id == b.id && b.state == BatchState::Open {
            BatchModel { state: BatchState::Committed, ..b }
        } else {
            b
        },
        CheckpointStep::Revert { id } => if id == b.id && b.state == BatchState::Committed {
            BatchModel { state: BatchState::Reverted, ..b }
        } else {
            b
        },
    }
}

/// What the steps make of a batch.
pub open spec fn batch_after(b: BatchModel, steps: Seq<CheckpointStep>) -> BatchModel
    decreases steps.len(),
{
    if steps.len() == 0 {
        b
    } else {
        batch_stepped(batch_after(b, steps.drop_last()), steps.last())
    }
}

/// The batch is ended by one of the steps.
pub open spec fn commits(steps: Seq<CheckpointStep>, id: CheckpointId) -> bool
    decreases steps.len(),
{
    steps.len() > 0 && (commits(steps.drop_last(), id) || steps.last() == CheckpointStep::Commit {
        id,
    })
}

/// The edits that the steps record in a batch before they end it, in their order.
pub open spec fn edits_in(steps: Seq<CheckpointStep>, id: CheckpointId) -> Seq<FileSnapshot>
    decreases steps.len(),
{
    if steps.len() == 0 {
        Seq::empty()
    } else {
        let before = edits_in(steps.drop_last(), id);
        match steps.last() {
            CheckpointStep::Record { id: i, file } => if i == id && !commits(
                steps.drop_last(),
                id,
            ) {
                before.push(file)
            } else {
                before
            },
            _ => before,
        }
    }
}

/// A batch is at the place where its id is.
proof fn lemma_at(s: StoreModel, id: CheckpointId, i: int)
    requires
        s.ordered(),
        0 <= i < s.items.len(),
        s.items[i].id == id,
    ensures
        place(s.items, id) == i,
        s.has(id),
        s.item(id) == s.items[i],
{
    lemma_place(s.items, id);
    let p = place(s.items, id);
    if p < i {
        assert(s.items[p].id.0 < s.items[i].id.0);
    }
}

/// Another batch with the same id in the place of one.
proof fn lemma_replace(s: StoreModel, id: CheckpointId, b: BatchModel, other: CheckpointId)
    requires
        s.ordered(),
        s.has(id),
        b.id == id,
    ensures
        s.replace(id, b).ordered(),
        s.replace(id, b).has(other) == s.has(other),
        s.has(other) ==> s.replace(id, b).item(other) == if other == id {
            b
        } else {
            s.item(other)
        },
{
    let after = s.replace(id, b);
    lemma_place(s.items, id);
    lemma_place(s.items, other);
    lemma_place(after.items, other);
    let p = place(s.items, id);
    assert forall|i: int| 0 <= i < s.items.len() implies (#[trigger] after.items[i]).id
        == s.items[i].id by {}
    let q = place(s.items, other);
    if q < s.items.len() {
        assert(after.items[q].id == other);
        lemma_at(after, other, q);
        if other == id {
            lemma_at(s, id, q);
        }
    } else if after.has(other) {
        let k = place(after.items, other);
        assert(s.items[k].id == other);
    }
}

/// A step keeps the order of the ids, and what it leaves of a batch is what it makes
/// of it.
proof fn lemma_step(s: StoreModel, step: CheckpointStep, id: CheckpointId)
    requires
        s.wf(),
        s.ordered(),
        s.next_id < u64::MAX,
        id.0 < s.next_id,
    ensures
        ({
            let after = store_stepped(s, step);
            &&& after.wf()
            &&& after.ordered()
            &&& s.next_id <= after.next_id <= s.next_id + 1
            &&& after.has(id) ==> s.has(id) && after.item(id) == batch_stepped(s.item(id), step)
        }),
{
    let after = store_stepped(s, step);
    lemma_place(s.items, id);
    lemma_place(after.items, id);
    match step {
        CheckpointStep::Begin { turn, summary, now } => {
            law_checkpoint_ids_are_never_reused(s, turn, summary, now);
            if after.has(id) {
                let k = place(after.items, id);
                let j = if s.items.len() >= s.cap {
                    k + 1
                } else {
                    k
                };
                assert(after.items[k].id == id);
                assert(after.items[k] == s.items[j]);
                lemma_at(s, id, j);
            }
        },
        CheckpointStep::Record { id: i, file } => {
            lemma_place(s.items, i);
            if s.has(i) {
                let b = BatchModel { edits: s.item(i).edits.push(file), ..s.item(i) };
                lemma_replace(s, i, b, id);
            }
        },
        CheckpointStep::Commit { id: i } => {
            lemma_place(s.items, i);
            if s.has(i) {
                let b = BatchModel { state: BatchState::Committed, ..s.item(i) };
                lemma_replace(s, i, b, id);
            }
        },
        CheckpointStep::Revert { id: i } => {
            lemma_place(s.items, i);
            if s.has(i) {
                let b = BatchModel { state: BatchState::Reverted, ..s.item(i) };
                lemma_replace(s, i, b, id);
            }
        },
    }
}

/// A batch that is still in the store after any steps is what those steps that name
/// it have made of it; steps on other batches do not change it.
pub proof fn law_batches_change_only_by_their_id(
    s: StoreModel,
    steps: Seq<CheckpointStep>,
    id: CheckpointId,
)
    requires
        s.wf(),
        s.ordered(),
        s.next_id + steps.len() <= u64::MAX,
        id.0 < s.next_id,
    ensures
        ({
            let after = store_after(s, steps);
            &&& after.wf()
            &&& after.ordered()
            &&& s.next_id <= after.next_id <= s.next_id + steps.len()
            &&& after.has(id) ==> s.has(id) && after.item(id) == batch_after(s.item(id), steps)
        }),
    decreases steps.len(),
{
    if steps.len() > 0 {
        law_batches_change_only_by_their_id(s, steps.drop_last(), id);
        lemma_step(store_after(s, steps.drop_last()), steps.last(), id);
    }
}

proof fn lemma_batch_after(b: BatchModel, steps: Seq<CheckpointStep>)
    requires
        b.state == BatchState::Open,
        b.edits == Seq::<FileSnapshot>::empty(),
        forall|i: int|
            0 <= i < steps.len() ==> #[trigger] steps[i] != (CheckpointStep::Revert { id: b.id }),
    ensures
        batch_after(b, steps) == (BatchModel {
            edits: edits_in(steps, b.id),
            state: if commits(steps, b.id) {
                BatchState::Committed
            } else {
                BatchState::Open
            },
            ..b
        }),
    decreases steps.len(),
{
    if steps.len() > 0 {
        let rest = steps.drop_last();
        assert forall|i: int| 0 <= i < rest.len() implies #[trigger] rest[i] != (
        CheckpointStep::Revert { id: b.id }) by {
            assert(rest[i] == steps[i]);
        }
        assert(steps[steps.len() - 1] != (CheckpointStep::Revert { id: b.id }));
        lemma_batch_after(b, rest);
    }
}

/// The edits that were recorded in a batch come back when it is undone, in their
/// order, whatever else was done, unless the store has dropped it. It can be undone
/// only once it has been ended, and only once; its edits stay recorded.
pub proof fn law_recorded_edits_come_back(
    s: StoreModel,
    turn: u32,
    summary: Seq<char>,
    now: u64,
    steps: Seq<CheckpointStep>,
)
    requires
        s.wf(),
        s.ordered(),
        s.next_id + steps.len() < u64::MAX,
        forall|i: int|
            0 <= i < steps.len() ==> #[trigger] steps[i] != (CheckpointStep::Revert {
                id: CheckpointId(s.next_id),
            }),
        store_after(begun(s, turn, summary, now), steps).has(CheckpointId(s.next_id)),
    ensures
        ({
            let id = CheckpointId(s.next_id);
            let after = store_after(begun(s, turn, summary, now), steps);
            if commits(steps, id) {
                &&& revert_result(after, id) == Ok::<Seq<FileSnapshot>, CheckpointError>(
                    edits_in(steps, id),
                )
                &&& reverted(after, id).has(id)
                &&& reverted(after, id).item(id).state == BatchState::Reverted
                &&& reverted(after, id).item(id).edits == edits_in(steps, id)
                &&& revert_result(reverted(after, id), id) == Err::<
                    Seq<FileSnapshot>,
                    CheckpointError,
                >(CheckpointError::AlreadyReverted(id))
            } else {
                &&& revert_result(after, id) == Err::<Seq<FileSnapshot>, CheckpointError>(
                    CheckpointError::StillOpen(id),
                )
                &&& reverted(after, id) == after
            }
        }),
{
    let id = CheckpointId(s.next_id);
    let first = begun(s, turn, summary, now);
    law_checkpoint_ids_are_never_reused(s, turn, summary, now);
    assert(first.items[first.items.len() - 1].id == id);
    lemma_at(first, id, first.items.len() - 1);
    law_batches_change_only_by_their_id(first, steps, id);
    lemma_batch_after(first.item(id), steps);
    let after = store_after(first, steps);
    if commits(steps, id) {
        lemma_place(after.items, id);
        law_revert_happens_once(after, id);
    }
}

/// Only a new batch can make the store drop one.
pub proof fn law_only_new_batches_drop_old_ones(
    s: StoreModel,
    steps: Seq<CheckpointStep>,
    id: CheckpointId,
)
    requires
        s.ordered(),
        s.has(id),
        forall|i: int| 0 <= i < steps.len() ==> !((#[trigger] steps[i]) is Begin),
    ensures
        store_after(s, steps).has(id),
        store_after(s, steps).ordered(),
        store_after(s, steps).items.len() == s.items.len(),
    decreases steps.len(),
{
    if steps.len() > 0 {
        let rest = steps.drop_last();
        assert forall|i: int| 0 <= i < rest.len() implies !((#[trigger] rest[i]) is Begin) by {
            assert(rest[i] == steps[i]);
        }
        law_only_new_batches_drop_old_ones(s, rest, id);
        let b = store_after(s, rest);
        assert(!(steps[steps.len() - 1] is Begin));
        match steps.last() {
            CheckpointStep::Record { id: i, file } => {
                lemma_place(b.items, i);
                if b.has(i) {
                    let c = BatchModel { edits: b.item(i).edits.push(file), ..b.item(i) };
                    lemma_replace(b, i, c, id);
                }
            },
            CheckpointStep::Commit { id: i } => {
                lemma_place(b.items, i);
                if b.has(i) {
                    let c = BatchModel { state: BatchState::Committed, ..b.item(i) };
                    lemma_replace(b, i, c, id);
                }
            },
            CheckpointStep::Revert { id: i } => {
                lemma_place(b.items, i);
                if b.has(i) {
                    let c = BatchModel { state: BatchState::Reverted, ..b.item(i) };
                    lemma_replace(b, i, c, id);
                }
            },
            CheckpointStep::Begin { .. } => {},
        }
    }
}

} // verus!
