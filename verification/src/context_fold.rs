//! Folding long transcripts: the conversation keeps a short form, and the full
//! text can be had by its id.

use crate::checkpoint::following;
use crate::emitter::ring_push;
use crate::json::{json_quoted, quote_json};
use crate::numeral::{byte_count, byte_len, decimal, decimal_text};
use crate::split::{join, join_texts, lines, lines_of};
use crate::text::{
    ascii_lower, ascii_lowercase, chars_of, chars_start_with, lemma_texts_push, starts_with,
    same_text, text_of, texts, trim, trim_start, trim_str, trimmed_start,
};
use vstd::prelude::*;
use vstd::slice::slice_subrange;
use vstd::string::*;

use std::time::Instant;

verus! {

broadcast use lemma_texts_push;

/// From how many bytes on a text is folded by default.
pub const DEFAULT_FOLD_THRESHOLD_CHARS: usize = 20_000;

/// How many transcripts are kept by default.
pub const DEFAULT_STORE_CAPACITY: usize = 256;

/// How many seconds a transcript is kept by default.
pub const DEFAULT_TTL_SECS: u64 = 1_800;

// ── Time ───────────────────────────────────────────────────────────────────
/// A point in time, of which only the standard library knows more.
#[verifier::external_type_specification]
#[verifier::external_body]
pub struct ExInstant(Instant);

/// `Instant::now`. Nothing is claimed of the point in time.
pub assume_specification[ Instant::now ]() -> (r: Instant)
;

/// It was asked how long ago `start` was, and it was so many nanoseconds.
pub uninterp spec fn lasted(start: Instant, nanos: u128) -> bool;

/// The nanoseconds since `start`, by `Instant::elapsed`. They are counted from that
/// point; how many they are depends on when they are asked for.
#[verifier::external_body]
fn nanos_since(start: &Instant) -> (r: u128)
    ensures
        lasted(*start, r),
{
    start.elapsed().as_nanos()
}

// ── Transcripts ────────────────────────────────────────────────────────────
/// The id of a folded transcript. Ids grow and are not used again.
#[derive(Debug, Clone, Copy, PartialEq, Eq, Structural, Hash)]
pub struct TranscriptId(pub u64);

impl TranscriptId {
    /// The id as a number.
    pub fn raw(self) -> (r: u64)
        ensures
            r == self.0,
    {
        self.0
    }
}

/// The short form of a transcript.
#[derive(Debug, PartialEq, Eq)]
pub struct FoldedTranscript {
    pub id: TranscriptId,
    pub subagent: String,
    pub outcome: String,
    pub original_chars: u32,
    pub original_tokens_estimate: u32,
    pub key_points: Vec<String>,
}

/// The model of a [`FoldedTranscript`].
pub struct FoldedModel {
    pub id: TranscriptId,
    pub subagent: Seq<char>,
    pub outcome: Seq<char>,
    pub original_chars: u32,
    pub original_tokens_estimate: u32,
    pub key_points: Seq<Seq<char>>,
}

impl View for FoldedTranscript {
    type V = FoldedModel;

    open spec fn view(&self) -> FoldedModel {
        FoldedModel {
            id: self.id,
            subagent: self.subagent@,
            outcome: self.outcome@,
            original_chars: self.original_chars,
            original_tokens_estimate: self.original_tokens_estimate,
            key_points: texts(self.key_points@),
        }
    }
}

impl Clone for FoldedTranscript {
    fn clone(&self) -> (r: FoldedTranscript)
        ensures
            r@ == self@,
    {
        let points: Vec<String> = self.key_points.clone();
        assert(texts(points@) =~= texts(self.key_points@));
        FoldedTranscript {
            id: self.id,
            subagent: self.subagent.clone(),
            outcome: self.outcome.clone(),
            original_chars: self.original_chars,
            original_tokens_estimate: self.original_tokens_estimate,
            key_points: points,
        }
    }
}

/// Why a transcript could not be had.
#[derive(Debug, Clone, Copy, PartialEq, Eq, Structural)]
pub enum ExpandError {
    /// It was dropped, or there never was one.
    Unknown(TranscriptId),
    /// It has been kept long enough.
    Expired(TranscriptId),
}

/// What an error says.
pub open spec fn expand_error_text(e: ExpandError) -> Seq<char> {
    match e {
        ExpandError::Unknown(id) => "transcript TranscriptId("@ + decimal(id.0 as nat)
            + ") not found (evicted or never existed)"@,
        ExpandError::Expired(id) => "transcript TranscriptId("@ + decimal(id.0 as nat)
            + ") expired"@,
    }
}

impl ExpandError {
    /// What the error says.
    pub fn message(&self) -> (r: String)
        ensures
            r@ == expand_error_text(*self),
    {
        let (id, rest) = match self {
            ExpandError::Unknown(id) => (id, ") not found (evicted or never existed)"),
            ExpandError::Expired(id) => (id, ") expired"),
        };
        let mut out = "transcript TranscriptId(".to_owned();
        let n = decimal_text(id.0);
        out.append(n.as_str());
        out.append(rest);
        out
    }
}

// ── Key points ─────────────────────────────────────────────────────────────
/// The line is a heading.
pub open spec fn is_heading(line: Seq<char>) -> bool {
    starts_with(trim_start(line), "#"@)
}

/// The line begins with `KEY:` in capitals or not.
pub open spec fn is_key_line(line: Seq<char>) -> bool {
    let t = trim_start(line);
    t.len() >= 4 && ascii_lower(t.subrange(0, 4)) == "key:"@
}

/// The first heading, without the space round it.
pub open spec fn first_heading(ls: Seq<Seq<char>>) -> Seq<Seq<char>>
    decreases ls.len(),
{
    if ls.len() == 0 {
        Seq::empty()
    } else if is_heading(ls[0]) {
        seq![trim(ls[0])]
    } else {
        first_heading(ls.subrange(1, ls.len() as int))
    }
}

/// The most key points that there may be.
pub const MAX_KEY_POINTS: usize = 30;

/// The most bytes that the key points may take together.
pub const MAX_KEY_BYTES: usize = 1_000;

/// How many bytes the points take together.
pub open spec fn point_bytes(points: Seq<Seq<char>>) -> nat
    decreases points.len(),
{
    if points.len() == 0 {
        0
    } else {
        point_bytes(points.drop_last()) + byte_len(points.last())
    }
}

/// The points with one more, if there is room for it.
pub open spec fn with_point(points: Seq<Seq<char>>, point: Seq<char>) -> Seq<Seq<char>> {
    if points.len() < MAX_KEY_POINTS && point_bytes(points) + byte_len(point) <= MAX_KEY_BYTES {
        points.push(point)
    } else {
        points
    }
}

/// The points once the key lines among the first `n` lines have been added, each
/// if there is room for it.
pub open spec fn picked(ls: Seq<Seq<char>>, start: Seq<Seq<char>>, n: nat) -> Seq<Seq<char>>
    decreases n,
{
    if n == 0 {
        start
    } else {
        let before = picked(ls, start, (n - 1) as nat);
        if is_key_line(ls[n - 1]) {
            with_point(before, trim_start(ls[n - 1]))
        } else {
            before
        }
    }
}

/// The heading among the points, if there is one and room for it.
pub open spec fn heading_point(ls: Seq<Seq<char>>) -> Seq<Seq<char>> {
    let head = first_heading(ls);
    if head.len() > 0 {
        with_point(Seq::empty(), head[0])
    } else {
        Seq::empty()
    }
}

/// The key points of a text: its first heading, and its lines that begin with
/// `KEY:`, as far as there is room for them.
pub open spec fn key_points(text: Seq<char>) -> Seq<Seq<char>> {
    let ls = lines(text);
    picked(ls, heading_point(ls), ls.len())
}

proof fn lemma_with_point(points: Seq<Seq<char>>, point: Seq<char>)
    requires
        points.len() <= MAX_KEY_POINTS,
        point_bytes(points) <= MAX_KEY_BYTES,
    ensures
        with_point(points, point).len() <= MAX_KEY_POINTS,
        point_bytes(with_point(points, point)) <= MAX_KEY_BYTES,
        point_bytes(points.push(point)) == point_bytes(points) + byte_len(point),
{
    assert(points.push(point).drop_last() =~= points);
}

proof fn lemma_picked(ls: Seq<Seq<char>>, start: Seq<Seq<char>>, n: nat)
    requires
        start.len() <= MAX_KEY_POINTS,
        point_bytes(start) <= MAX_KEY_BYTES,
    ensures
        picked(ls, start, n).len() <= MAX_KEY_POINTS,
        point_bytes(picked(ls, start, n)) <= MAX_KEY_BYTES,
    decreases n,
{
    if n > 0 {
        lemma_picked(ls, start, (n - 1) as nat);
        lemma_with_point(picked(ls, start, (n - 1) as nat), trim_start(ls[n - 1]));
    }
}

/// The key points are few and short, whatever the text.
pub proof fn law_key_points_are_short(text: Seq<char>)
    ensures
        key_points(text).len() <= MAX_KEY_POINTS,
        point_bytes(key_points(text)) <= MAX_KEY_BYTES,
{
    let ls = lines(text);
    if first_heading(ls).len() > 0 {
        lemma_with_point(Seq::empty(), first_heading(ls)[0]);
    }
    lemma_picked(ls, heading_point(ls), ls.len());
}

fn starts_key(c: &[char]) -> (r: bool)
    ensures
        r == (c@.len() >= 4 && ascii_lower(c@.subrange(0, 4)) == "key:"@),
{
    if c.len() < 4 {
        return false;
    }
    let head = text_of(slice_subrange(c, 0, 4));
    let low = ascii_lowercase(head.as_str());
    same_text(low.as_str(), "key:")
}

/// The first heading among the lines.
fn find_heading(ls: &[String]) -> (r: Option<String>)
    ensures
        first_heading(texts(ls@)) == (match r {
            Some(h) => seq![h@],
            None => Seq::<Seq<char>>::empty(),
        }),
{
    let ghost all = texts(ls@);
    let n: usize = ls.len();
    let mut k: usize = 0;
    assert(all.subrange(0, all.len() as int) =~= all);
    while k < n
        invariant
            texts(ls@) == all,
            n == ls@.len() == all.len(),
            k <= n,
            first_heading(all) == first_heading(all.subrange(k as int, n as int)),
        decreases n - k,
    {
        proof {
            let part = all.subrange(k as int, n as int);
            assert(part[0] == texts(ls@)[k as int]);
            assert(part.subrange(1, part.len() as int) =~= all.subrange(k + 1, n as int));
        }
        let c = chars_of(ls[k].as_str());
        if chars_start_with(trimmed_start(c.as_slice()), "#") {
            return Some(trim_str(ls[k].as_str()));
        }
        k += 1;
    }
    None
}

/// Adds a point if there is room for it. `bytes` is what the points take.
fn add_point(out: &mut Vec<String>, bytes: usize, point: String) -> (r: usize)
    requires
        old(out)@.len() <= MAX_KEY_POINTS,
        bytes == point_bytes(texts(old(out)@)) <= MAX_KEY_BYTES,
    ensures
        texts(final(out)@) == with_point(texts(old(out)@), point@),
        r == point_bytes(texts(final(out)@)),
        final(out)@.len() <= MAX_KEY_POINTS,
        r <= MAX_KEY_BYTES,
{
    proof {
        lemma_with_point(texts(out@), point@);
    }
    let n: usize = byte_count(point.as_str());
    if out.len() < MAX_KEY_POINTS && n <= MAX_KEY_BYTES - bytes {
        out.push(point);
        bytes + n
    } else {
        bytes
    }
}

/// The key points of a text: its first heading, and its lines that begin with
/// `KEY:`, as far as there is room for them.
pub fn extract_key_points(text: &str) -> (r: Vec<String>)
    ensures
        texts(r@) == key_points(text@),
{
    let ls = lines_of(text);
    let ghost all = lines(text@);
    let n: usize = ls.len();
    let mut out: Vec<String> = Vec::new();
    assert(texts(out@) =~= Seq::<Seq<char>>::empty());
    let mut bytes: usize = 0;
    match find_heading(ls.as_slice()) {
        Some(h) => {
            bytes = add_point(&mut out, 0, h);
        },
        None => {},
    }
    let ghost start = heading_point(all);
    let mut i: usize = 0;
    while i < n
        invariant
            texts(ls@) == all,
            n == ls@.len() == all.len(),
            i <= n,
            texts(out@) == picked(all, start, i as nat),
            bytes == point_bytes(texts(out@)) <= MAX_KEY_BYTES,
            out@.len() <= MAX_KEY_POINTS,
        decreases n - i,
    {
        assert(all[i as int] == texts(ls@)[i as int]);
        let c = chars_of(ls[i].as_str());
        let t = trimmed_start(c.as_slice());
        if starts_key(t) {
            bytes = add_point(&mut out, bytes, text_of(t));
        }
        i += 1;
    }
    out
}

// ── The store ──────────────────────────────────────────────────────────────
/// A transcript with its short form, and when it was stored.
#[derive(Debug)]
struct StoredTranscript {
    full_text: String,
    folded: FoldedTranscript,
    stored_at: Instant,
}

/// The model of a stored transcript.
pub struct StoredModel {
    pub full_text: Seq<char>,
    pub folded: FoldedModel,
    pub stored_at: Instant,
}

impl StoredTranscript {
    closed spec fn model(self) -> StoredModel {
        StoredModel {
            full_text: self.full_text@,
            folded: self.folded@,
            stored_at: self.stored_at,
        }
    }
}

spec fn stored_models(v: Seq<StoredTranscript>) -> Seq<StoredModel> {
    v.map_values(|t: StoredTranscript| t.model())
}

/// The stored transcripts, oldest first.
pub struct FoldModel {
    pub items: Seq<StoredModel>,
    pub cap: nat,
    pub ttl_nanos: u128,
    pub next_id: u64,
}

/// At most `capacity` transcripts: the oldest goes when there are too many,
/// and none can be had for longer than the time that it is kept.
#[derive(Debug)]
pub struct TranscriptStore {
    items: Vec<StoredTranscript>,
    capacity: usize,
    ttl_nanos: u128,
    next_id: u64,
}

impl View for TranscriptStore {
    type V = FoldModel;

    closed spec fn view(&self) -> FoldModel {
        FoldModel {
            items: stored_models(self.items@),
            cap: self.capacity as nat,
            ttl_nanos: self.ttl_nanos,
            next_id: self.next_id,
        }
    }
}

/// The place of the first transcript with this id, or their number.
pub open spec fn fold_place(items: Seq<StoredModel>, id: TranscriptId) -> int
    decreases items.len(),
{
    if items.len() == 0 || items[0].folded.id == id {
        0
    } else {
        1 + fold_place(items.subrange(1, items.len() as int), id)
    }
}

proof fn lemma_fold_place(items: Seq<StoredModel>, id: TranscriptId)
    ensures
        0 <= fold_place(items, id) <= items.len(),
        fold_place(items, id) < items.len() ==> items[fold_place(items, id)].folded.id == id,
        forall|i: int| 0 <= i < fold_place(items, id) ==> (#[trigger] items[i]).folded.id != id,
    decreases items.len(),
{
    if items.len() > 0 && items[0].folded.id != id {
        let rest = items.subrange(1, items.len() as int);
        lemma_fold_place(rest, id);
        assert forall|i: int| 0 <= i < fold_place(items, id) implies (
        #[trigger] items[i]).folded.id != id by {
            if i > 0 {
                assert(items[i] == rest[i - 1]);
            }
        }
    }
}

impl FoldModel {
    /// There is a transcript with this id.
    pub open spec fn has(self, id: TranscriptId) -> bool {
        fold_place(self.items, id) < self.items.len()
    }

    /// The transcript with this id.
    pub open spec fn item(self, id: TranscriptId) -> StoredModel {
        self.items[fold_place(self.items, id)]
    }

    /// Why the transcript with this id cannot be had once it has been kept for `age`
    /// nanoseconds, if it cannot.
    pub open spec fn refusal(self, id: TranscriptId, age: u128) -> Option<ExpandError> {
        if !self.has(id) {
            Some(ExpandError::Unknown(id))
        } else if age > self.ttl_nanos {
            Some(ExpandError::Expired(id))
        } else {
            None
        }
    }

    /// The full text of a transcript that has been kept for `age` nanoseconds.
    pub open spec fn text_after(self, id: TranscriptId, age: u128) -> Result<
        Seq<char>,
        ExpandError,
    > {
        match self.refusal(id, age) {
            Some(e) => Err(e),
            None => Ok(self.item(id).full_text),
        }
    }

    /// The short form of a transcript that has been kept for `age` nanoseconds.
    pub open spec fn short_after(self, id: TranscriptId, age: u128) -> Result<
        FoldedModel,
        ExpandError,
    > {
        match self.refusal(id, age) {
            Some(e) => Err(e),
            None => Ok(self.item(id).folded),
        }
    }

    /// The result is the full text of a transcript for the time that it has been kept,
    /// counted from when it was stored.
    pub open spec fn gives_text(
        self,
        id: TranscriptId,
        r: Result<Seq<char>, ExpandError>,
    ) -> bool {
        if self.has(id) {
            exists|age: u128|
                #[trigger] lasted(self.item(id).stored_at, age) && r == self.text_after(id, age)
        } else {
            r == Err::<Seq<char>, ExpandError>(ExpandError::Unknown(id))
        }
    }

    /// The result is the short form of a transcript for the time that it has been
    /// kept, counted from when it was stored.
    pub open spec fn gives_short(
        self,
        id: TranscriptId,
        r: Result<FoldedModel, ExpandError>,
    ) -> bool {
        if self.has(id) {
            exists|age: u128|
                #[trigger] lasted(self.item(id).stored_at, age) && r == self.short_after(id, age)
        } else {
            r == Err::<FoldedModel, ExpandError>(ExpandError::Unknown(id))
        }
    }

    /// No more transcripts than there may be.
    pub open spec fn wf(self) -> bool {
        1 <= self.cap && self.items.len() <= self.cap
    }

    /// The ids grow, and the next one is larger than all of them.
    pub open spec fn ordered(self) -> bool {
        &&& forall|i: int|
            0 <= i < self.items.len() ==> (#[trigger] self.items[i]).folded.id.0 < self.next_id
        &&& forall|i: int, j: int|
            0 <= i < j < self.items.len() ==> (#[trigger] self.items[i]).folded.id.0 < (
            #[trigger] self.items[j]).folded.id.0
    }
}

/// The text that was given back.
pub open spec fn text_result(r: Result<&str, ExpandError>) -> Result<Seq<char>, ExpandError> {
    match r {
        Ok(text) => Ok(text@),
        Err(e) => Err(e),
    }
}

/// The short form that was given back.
pub open spec fn short_result(r: Result<&FoldedTranscript, ExpandError>) -> Result<
    FoldedModel,
    ExpandError,
> {
    match r {
        Ok(f) => Ok(f@),
        Err(e) => Err(e),
    }
}

/// The short form of a text. Lengths are counted modulo 2^32.
pub open spec fn fold_of(
    id: u64,
    subagent: Seq<char>,
    outcome: Seq<char>,
    text: Seq<char>,
) -> FoldedModel {
    FoldedModel {
        id: TranscriptId(id),
        subagent,
        outcome,
        original_chars: (byte_len(text) % 0x1_0000_0000) as u32,
        original_tokens_estimate: ((byte_len(text) / 4) % 0x1_0000_0000) as u32,
        key_points: key_points(text),
    }
}

/// The store once a text has been folded at a point in time.
pub open spec fn folded_store(
    s: FoldModel,
    subagent: Seq<char>,
    outcome: Seq<char>,
    text: Seq<char>,
    at: Instant,
) -> FoldModel {
    FoldModel {
        items: ring_push(
            s.items,
            s.cap,
            StoredModel {
                full_text: text,
                folded: fold_of(s.next_id, subagent, outcome, text),
                stored_at: at,
            },
        ),
        next_id: following(s.next_id),
        ..s
    }
}

/// The items that have not been kept for longer than `ttl` nanoseconds, given how
/// long each has been kept.
pub open spec fn alive(items: Seq<StoredModel>, ages: Seq<u128>, ttl: u128) -> Seq<StoredModel>
    decreases items.len(),
{
    if items.len() == 0 {
        Seq::empty()
    } else {
        let rest = alive(items.drop_last(), ages, ttl);
        if ages[items.len() - 1] > ttl {
            rest
        } else {
            rest.push(items.last())
        }
    }
}

/// Each item has been kept for its age, counted from when it was stored.
pub open spec fn kept_for(items: Seq<StoredModel>, ages: Seq<u128>) -> bool {
    &&& ages.len() == items.len()
    &&& forall|i: int|
        0 <= i < items.len() ==> lasted(items[i].stored_at, #[trigger] ages[i])
}

impl TranscriptStore {
    /// Room for `capacity` transcripts, and at least for one, each kept for
    /// `ttl_nanos` nanoseconds.
    pub fn new(capacity: usize, ttl_nanos: u128) -> (r: TranscriptStore)
        ensures
            r@.items == Seq::<StoredModel>::empty(),
            r@.cap == (if capacity == 0 {
                1
            } else {
                capacity as nat
            }),
            r@.ttl_nanos == ttl_nanos,
            r@.next_id == 1,
            r@.wf(),
            r@.ordered(),
    {
        let items: Vec<StoredTranscript> = Vec::new();
        assert(stored_models(items@) =~= Seq::<StoredModel>::empty());
        TranscriptStore {
            items,
            capacity: if capacity == 0 {
                1
            } else {
                capacity
            },
            ttl_nanos,
            next_id: 1,
        }
    }

    /// Whether a text is to be folded: it takes at least so many bytes.
    pub fn should_fold(text: &str, threshold_chars: usize) -> (r: bool)
        ensures
            r == (byte_len(text@) >= threshold_chars),
    {
        byte_count(text) >= threshold_chars
    }

    /// Stores a text. Returns its short form.
    pub fn fold(&mut self, subagent: &str, outcome: &str, full_text: String) -> (r: FoldedTranscript)
        requires
            old(self)@.wf(),
        ensures
            r@ == fold_of(old(self)@.next_id, subagent@, outcome@, full_text@),
            exists|at: Instant|
                final(self)@ == #[trigger] folded_store(
                    old(self)@,
                    subagent@,
                    outcome@,
                    full_text@,
                    at,
                ),
            final(self)@.wf(),
    {
        let ghost before = self@;
        let id = TranscriptId(self.next_id);
        self.next_id = self.next_id.saturating_add(1);
        let len: u64 = byte_count(full_text.as_str()) as u64;
        let folded = FoldedTranscript {
            id,
            subagent: subagent.to_owned(),
            outcome: outcome.to_owned(),
            original_chars: (len % 0x1_0000_0000) as u32,
            original_tokens_estimate: ((len / 4) % 0x1_0000_0000) as u32,
            key_points: extract_key_points(full_text.as_str()),
        };
        if self.items.len() >= self.capacity {
            let _oldest = self.items.remove(0);
        }
        let ghost middle = stored_models(self.items@);
        proof {
            assert(middle =~= if before.items.len() >= before.cap {
                before.items.subrange(1, before.items.len() as int)
            } else {
                before.items
            });
        }
        let at = Instant::now();
        let item = StoredTranscript { full_text, folded: folded.clone(), stored_at: at };
        self.items.push(item);
        proof {
            assert(stored_models(self.items@) =~= middle.push(item.model()));
            assert(self@ == folded_store(before, subagent@, outcome@, full_text@, at));
        }
        folded
    }

    /// The place of the transcript with this id, or their number.
    fn find(&self, id: TranscriptId) -> (r: usize)
        ensures
            r == fold_place(self@.items, id),
            r <= self.items@.len(),
    {
        let ghost all = stored_models(self.items@);
        let mut i: usize = 0;
        assert(all.subrange(0, all.len() as int) =~= all);
        while i < self.items.len()
            invariant
                all == stored_models(self.items@),
                i <= all.len(),
                fold_place(all, id) == i + fold_place(
                    all.subrange(i as int, all.len() as int),
                    id,
                ),
            decreases all.len() - i,
        {
            proof {
                let part = all.subrange(i as int, all.len() as int);
                assert(part[0] == self.items@[i as int].model());
                assert(part.subrange(1, part.len() as int) =~= all.subrange(
                    i + 1,
                    all.len() as int,
                ));
            }
            if self.items[i].folded.id == id {
                return i;
            }
            i += 1;
        }
        i
    }

    /// The full text of a transcript that has been kept for `age` nanoseconds.
    pub fn expand_after(&self, id: TranscriptId, age: u128) -> (r: Result<&str, ExpandError>)
        ensures
            text_result(r) == self@.text_after(id, age),
    {
        let i: usize = self.find(id);
        if i == self.items.len() {
            return Err(ExpandError::Unknown(id));
        }
        if age > self.ttl_nanos {
            return Err(ExpandError::Expired(id));
        }
        assert(stored_models(self.items@)[i as int] == self.items@[i as int].model());
        Ok(self.items[i].full_text.as_str())
    }

    /// When the transcript with this id was stored, if there is one.
    pub fn stored_at(&self, id: TranscriptId) -> (r: Option<&Instant>)
        ensures
            match r {
                Some(t) => self@.has(id) && *t == self@.item(id).stored_at,
                None => !self@.has(id),
            },
    {
        let i: usize = self.find(id);
        if i == self.items.len() {
            return None;
        }
        assert(stored_models(self.items@)[i as int] == self.items@[i as int].model());
        Some(&self.items[i].stored_at)
    }

    /// The full text of a transcript. Whether it has expired depends on when
    /// it is asked for: it is what [`TranscriptStore::expand_after`] says for the
    /// time that has passed since [`TranscriptStore::stored_at`].
    pub fn expand(&self, id: TranscriptId) -> (r: Result<&str, ExpandError>)
        ensures
            self@.gives_text(id, text_result(r)),
    {
        match self.stored_at(id) {
            Some(t) => self.expand_after(id, nanos_since(t)),
            None => Err(ExpandError::Unknown(id)),
        }
    }

    /// The short form of a transcript that has been kept for `age` nanoseconds.
    pub fn metadata_after(&self, id: TranscriptId, age: u128) -> (r: Result<
        &FoldedTranscript,
        ExpandError,
    >)
        ensures
            short_result(r) == self@.short_after(id, age),
    {
        let i: usize = self.find(id);
        if i == self.items.len() {
            return Err(ExpandError::Unknown(id));
        }
        if age > self.ttl_nanos {
            return Err(ExpandError::Expired(id));
        }
        assert(stored_models(self.items@)[i as int] == self.items@[i as int].model());
        Ok(&self.items[i].folded)
    }

    /// The short form of a transcript. Whether it has expired depends on when
    /// it is asked for: it is what [`TranscriptStore::metadata_after`] says for the
    /// time that has passed since [`TranscriptStore::stored_at`].
    pub fn metadata(&self, id: TranscriptId) -> (r: Result<&FoldedTranscript, ExpandError>)
        ensures
            self@.gives_short(id, short_result(r)),
    {
        match self.stored_at(id) {
            Some(t) => self.metadata_after(id, nanos_since(t)),
            None => Err(ExpandError::Unknown(id)),
        }
    }

    /// Drops the transcripts that have expired, given for how many
    /// nanoseconds each has been kept. Returns how many they are.
    pub fn purge_after(&mut self, ages: &[u128]) -> (r: usize)
        requires
            ages@.len() == old(self)@.items.len(),
        ensures
            final(self)@.items == alive(old(self)@.items, ages@, old(self)@.ttl_nanos),
            final(self)@.cap == old(self)@.cap,
            final(self)@.ttl_nanos == old(self)@.ttl_nanos,
            final(self)@.next_id == old(self)@.next_id,
            r == old(self)@.items.len() - final(self)@.items.len(),
    {
        let ghost before = self@.items;
        let ghost ttl = self@.ttl_nanos;
        let n: usize = self.items.len();
        let mut i: usize = 0;
        let mut j: usize = 0;
        proof {
            assert(before.take(0) =~= Seq::<StoredModel>::empty());
            assert(self@.items =~= alive(before.take(0), ages@, ttl) + before.skip(0));
        }
        while j < n
            invariant
                n == before.len() == ages@.len(),
                i <= j <= n,
                i == alive(before.take(j as int), ages@, ttl).len(),
                self.items@.len() == n - (j - i),
                self@.items == alive(before.take(j as int), ages@, ttl) + before.skip(j as int),
                self@.cap == old(self)@.cap,
                self@.ttl_nanos == old(self)@.ttl_nanos,
                ttl == self@.ttl_nanos,
                self@.next_id == old(self)@.next_id,
            decreases n - j,
        {
            let ghost now = self@.items;
            let ghost part = alive(before.take(j as int), ages@, ttl);
            proof {
                assert(before.take(j + 1).drop_last() =~= before.take(j as int));
                assert(before.take(j + 1).last() == before[j as int]);
            }
            if ages[j] > self.ttl_nanos {
                let _gone = self.items.remove(i);
                assert(self@.items =~= now.remove(i as int));
                assert(self@.items =~= part + before.skip(j + 1));
            } else {
                i += 1;
                assert(now =~= part.push(before[j as int]) + before.skip(j + 1));
            }
            j += 1;
        }
        proof {
            assert(before.take(n as int) =~= before);
            assert(self@.items =~= alive(before, ages@, ttl));
        }
        n - i
    }

    /// Drops the transcripts that have expired by now, by the time that has passed
    /// since each was stored. Returns how many they are.
    pub fn purge_expired(&mut self) -> (r: usize)
        ensures
            exists|ages: Seq<u128>|
                {
                    &&& kept_for(old(self)@.items, ages)
                    &&& final(self)@.items == #[trigger] alive(
                        old(self)@.items,
                        ages,
                        old(self)@.ttl_nanos,
                    )
                },
            final(self)@.cap == old(self)@.cap,
            final(self)@.ttl_nanos == old(self)@.ttl_nanos,
            final(self)@.next_id == old(self)@.next_id,
            r == old(self)@.items.len() - final(self)@.items.len(),
    {
        let mut ages: Vec<u128> = Vec::new();
        let n: usize = self.items.len();
        let mut i: usize = 0;
        while i < n
            invariant
                n == self.items@.len(),
                self@ == old(self)@,
                i <= n,
                ages@.len() == i,
                forall|k: int|
                    0 <= k < i ==> lasted(self@.items[k].stored_at, #[trigger] ages@[k]),
            decreases n - i,
        {
            assert(self@.items[i as int] == self.items@[i as int].model());
            ages.push(nanos_since(&self.items[i].stored_at));
            i += 1;
        }
        self.purge_after(ages.as_slice())
    }

    /// How many transcripts there are.
    pub fn len(&self) -> (r: usize)
        ensures
            r == self@.items.len(),
    {
        self.items.len()
    }

    /// Whether there are no transcripts.
    pub fn is_empty(&self) -> (r: bool)
        ensures
            r == (self@.items.len() == 0),
    {
        self.items.is_empty()
    }
}

impl Default for TranscriptStore {
    fn default() -> (r: TranscriptStore)
        ensures
            r@.items == Seq::<StoredModel>::empty(),
            r@.cap == DEFAULT_STORE_CAPACITY,
            r@.ttl_nanos == DEFAULT_TTL_SECS * 1_000_000_000,
            r@.next_id == 1,
            r@.wf(),
            r@.ordered(),
    {
        TranscriptStore::new(DEFAULT_STORE_CAPACITY, (DEFAULT_TTL_SECS as u128) * 1_000_000_000)
    }
}

// ── As JSON ────────────────────────────────────────────────────────────────
/// The short form as a JSON text.
pub open spec fn folded_json_text(f: FoldedModel) -> Seq<char> {
    "{\"id\":"@ + decimal(f.id.0 as nat) + ",\"subagent\":"@ + json_quoted(f.subagent)
        + ",\"outcome\":"@ + json_quoted(f.outcome) + ",\"original_chars\":"@ + decimal(
        f.original_chars as nat,
    ) + ",\"original_tokens_estimate\":"@ + decimal(f.original_tokens_estimate as nat)
        + ",\"key_points\":["@ + join(
        f.key_points.map_values(|p: Seq<char>| json_quoted(p)),
        ","@,
    ) + "]}"@
}

/// The short form as a JSON text.
pub fn folded_json(f: &FoldedTranscript) -> (r: String)
    ensures
        r@ == folded_json_text(f@),
{
    let mut out = "{\"id\":".to_owned();
    let s = decimal_text(f.id.0);
    out.append(s.as_str());
    out.append(",\"subagent\":");
    let s = quote_json(f.subagent.as_str());
    out.append(s.as_str());
    out.append(",\"outcome\":");
    let s = quote_json(f.outcome.as_str());
    out.append(s.as_str());
    out.append(",\"original_chars\":");
    let s = decimal_text(f.original_chars as u64);
    out.append(s.as_str());
    out.append(",\"original_tokens_estimate\":");
    let s = decimal_text(f.original_tokens_estimate as u64);
    out.append(s.as_str());
    out.append(",\"key_points\":[");
    let ghost all = f@.key_points.map_values(|p: Seq<char>| json_quoted(p));
    let mut points: Vec<String> = Vec::new();
    let mut i: usize = 0;
    while i < f.key_points.len()
        invariant
            all == f@.key_points.map_values(|p: Seq<char>| json_quoted(p)),
            i <= f.key_points@.len(),
            texts(points@) == all.take(i as int),
        decreases f.key_points@.len() - i,
    {
        let q = quote_json(f.key_points[i].as_str());
        assert(all[i as int] == q@);
        points.push(q);
        assert(texts(points@) =~= all.take(i + 1));
        i += 1;
    }
    assert(texts(points@) =~= all);
    let s = join_texts(points.as_slice(), ",");
    out.append(s.as_str());
    out.append("]}");
    out
}

// ── Laws ───────────────────────────────────────────────────────────────────
/// What was folded can be had again, word for word, by the id of its short
/// form, as long as it has not expired.
pub proof fn law_folded_text_can_be_had_again(
    s: FoldModel,
    subagent: Seq<char>,
    outcome: Seq<char>,
    text: Seq<char>,
    at: Instant,
)
    requires
        s.wf(),
        s.ordered(),
        s.next_id < u64::MAX,
    ensures
        ({
            let after = folded_store(s, subagent, outcome, text, at);
            let id = fold_of(s.next_id, subagent, outcome, text).id;
            &&& after.has(id)
            &&& after.item(id).full_text == text
            &&& after.item(id).stored_at == at
            &&& after.item(id).folded == fold_of(s.next_id, subagent, outcome, text)
            &&& after.ordered()
            &&& !s.has(id)
        }),
{
    let after = folded_store(s, subagent, outcome, text, at);
    let id = TranscriptId(s.next_id);
    lemma_fold_place(s.items, id);
    lemma_fold_place(after.items, id);
    let last = after.items.len() - 1;
    assert(after.items[last].folded.id == id);
    let p = fold_place(after.items, id);
    if p < last {
        assert(after.items[p].folded.id.0 < s.next_id);
    }
}

/// Something that is done to a store.
pub enum StoreStep {
    /// A text is folded at a point in time.
    Fold { subagent: Seq<char>, outcome: Seq<char>, text: Seq<char>, at: Instant },
    /// The transcripts that have expired are dropped, given how long each has been
    /// kept.
    Purge { ages: Seq<u128> },
}

/// The store after a step.
pub open spec fn stepped(s: FoldModel, step: StoreStep) -> FoldModel {
    match step {
        StoreStep::Fold { subagent, outcome, text, at } => folded_store(
            s,
            subagent,
            outcome,
            text,
            at,
        ),
        StoreStep::Purge { ages } => FoldModel {
            items: alive(s.items, ages, s.ttl_nanos),
            ..s
        },
    }
}

/// The store after the steps, one after the other.
pub open spec fn after_steps(s: FoldModel, steps: Seq<StoreStep>) -> FoldModel
    decreases steps.len(),
{
    if steps.len() == 0 {
        s
    } else {
        stepped(after_steps(s, steps.drop_last()), steps.last())
    }
}

/// What the folds among the steps store, with the short form that each of them
/// returns. Their ids count up from `first`.
pub open spec fn made(first: u64, steps: Seq<StoreStep>) -> Seq<StoredModel>
    decreases steps.len(),
{
    if steps.len() == 0 {
        Seq::empty()
    } else {
        let before = made(first, steps.drop_last());
        match steps.last() {
            StoreStep::Fold { subagent, outcome, text, at } => before.push(
                StoredModel {
                    full_text: text,
                    folded: fold_of((first + before.len()) as u64, subagent, outcome, text),
                    stored_at: at,
                },
            ),
            StoreStep::Purge { .. } => before,
        }
    }
}

/// Nothing is purged.
pub open spec fn folds_only(steps: Seq<StoreStep>) -> bool {
    forall|i: int| 0 <= i < steps.len() ==> (#[trigger] steps[i]) is Fold
}

/// Each item has a larger id than those before it.
pub open spec fn ids_grow(items: Seq<StoredModel>) -> bool {
    forall|i: int, j: int|
        0 <= i < j < items.len() ==> (#[trigger] items[i]).folded.id.0 < (
        #[trigger] items[j]).folded.id.0
}

proof fn lemma_alive(items: Seq<StoredModel>, ages: Seq<u128>, ttl: u128)
    requires
        ids_grow(items),
    ensures
        alive(items, ages, ttl).len() <= items.len(),
        forall|k: int|
            0 <= k < alive(items, ages, ttl).len() ==> items.contains(
                #[trigger] alive(items, ages, ttl)[k],
            ),
        ids_grow(alive(items, ages, ttl)),
    decreases items.len(),
{
    if items.len() > 0 {
        let rest = items.drop_last();
        let left = alive(rest, ages, ttl);
        lemma_alive(rest, ages, ttl);
        let now = alive(items, ages, ttl);
        assert forall|k: int| 0 <= k < now.len() implies items.contains(#[trigger] now[k]) by {
            if k < left.len() {
                assert(rest.contains(left[k]));
                let i = choose|i: int| 0 <= i < rest.len() && rest[i] == left[k];
                assert(items[i] == now[k]);
            } else {
                assert(items[items.len() - 1] == now[k]);
            }
        }
        assert forall|i: int, j: int| 0 <= i < j < now.len() implies (
        #[trigger] now[i]).folded.id.0 < (#[trigger] now[j]).folded.id.0 by {
            if j == left.len() {
                assert(rest.contains(left[i]));
                let k = choose|k: int| 0 <= k < rest.len() && rest[k] == left[i];
                assert(items[k].folded.id.0 < items[items.len() - 1].folded.id.0);
            }
        }
    }
}

/// What the steps leave is among what was there and what the folds stored.
proof fn lemma_steps(s: FoldModel, steps: Seq<StoreStep>)
    requires
        s.wf(),
        s.ordered(),
        s.next_id + steps.len() <= u64::MAX,
    ensures
        ({
            let after = after_steps(s, steps);
            let all = s.items + made(s.next_id, steps);
            &&& after.wf()
            &&& after.ordered()
            &&& after.cap == s.cap
            &&& after.ttl_nanos == s.ttl_nanos
            &&& after.next_id == s.next_id + made(s.next_id, steps).len()
            &&& made(s.next_id, steps).len() <= steps.len()
            &&& ids_grow(all)
            &&& forall|i: int|
                0 <= i < all.len() ==> (#[trigger] all[i]).folded.id.0 < after.next_id
            &&& forall|k: int|
                0 <= k < after.items.len() ==> all.contains(#[trigger] after.items[k])
        }),
    decreases steps.len(),
{
    let after = after_steps(s, steps);
    let all = s.items + made(s.next_id, steps);
    if steps.len() == 0 {
        assert(all =~= s.items);
        assert forall|k: int| 0 <= k < after.items.len() implies all.contains(
            #[trigger] after.items[k],
        ) by {
            assert(all[k] == after.items[k]);
        }
    } else {
        let b = after_steps(s, steps.drop_last());
        let old = s.items + made(s.next_id, steps.drop_last());
        lemma_steps(s, steps.drop_last());
        match steps.last() {
            StoreStep::Fold { subagent, outcome, text, at } => {
                law_folded_text_can_be_had_again(b, subagent, outcome, text, at);
                let item = StoredModel {
                    full_text: text,
                    folded: fold_of(b.next_id, subagent, outcome, text),
                    stored_at: at,
                };
                assert(all =~= old.push(item));
                assert forall|k: int| 0 <= k < after.items.len() implies all.contains(
                    #[trigger] after.items[k],
                ) by {
                    if k == after.items.len() - 1 {
                        assert(all[old.len() as int] == after.items[k]);
                    } else {
                        let j = if b.items.len() >= b.cap {
                            k + 1
                        } else {
                            k
                        };
                        assert(after.items[k] == b.items[j]);
                        assert(old.contains(b.items[j]));
                        let i = choose|i: int| 0 <= i < old.len() && old[i] == b.items[j];
                        assert(all[i] == after.items[k]);
                    }
                }
            },
            StoreStep::Purge { ages } => {
                assert(all =~= old);
                assert(ids_grow(b.items));
                lemma_alive(b.items, ages, b.ttl_nanos);
                assert forall|k: int| 0 <= k < after.items.len() implies all.contains(
                    #[trigger] after.items[k],
                ) && after.items[k].folded.id.0 < after.next_id by {
                    assert(b.items.contains(after.items[k]));
                    let j = choose|j: int| 0 <= j < b.items.len() && b.items[j] == after.items[k];
                    assert(old.contains(b.items[j]));
                }
            },
        }
    }
}

/// As long as nothing is purged, the youngest stay.
proof fn lemma_folds_only(s: FoldModel, steps: Seq<StoreStep>)
    requires
        s.wf(),
        s.ordered(),
        s.next_id + steps.len() <= u64::MAX,
        folds_only(steps),
    ensures
        ({
            let all = s.items + made(s.next_id, steps);
            &&& made(s.next_id, steps).len() == steps.len()
            &&& after_steps(s, steps).items == if all.len() > s.cap {
                all.skip(all.len() - s.cap)
            } else {
                all
            }
        }),
    decreases steps.len(),
{
    let all = s.items + made(s.next_id, steps);
    if steps.len() == 0 {
        assert(all =~= s.items);
    } else {
        let rest = steps.drop_last();
        assert(steps[steps.len() - 1] is Fold);
        assert(folds_only(rest)) by {
            assert forall|i: int| 0 <= i < rest.len() implies (#[trigger] rest[i]) is Fold by {
                assert(rest[i] == steps[i]);
            }
        }
        lemma_folds_only(s, rest);
        lemma_steps(s, rest);
        let old = s.items + made(s.next_id, rest);
        assert(all =~= old.push(made(s.next_id, steps).last()));
        let after = after_steps(s, steps).items;
        if all.len() > s.cap {
            assert(after =~= all.skip(all.len() - s.cap));
        } else {
            assert(after =~= all);
        }
    }
}

/// Whatever is folded and purged later, a transcript that can still be had is the
/// one that was stored, with its text and the short form that its fold returned.
/// Nothing else can be had, and no id is given out twice.
pub proof fn law_transcripts_stay_as_stored(s: FoldModel, steps: Seq<StoreStep>, id: TranscriptId)
    requires
        s.wf(),
        s.ordered(),
        s.next_id + steps.len() <= u64::MAX,
    ensures
        ({
            let after = after_steps(s, steps);
            let all = s.items + made(s.next_id, steps);
            &&& after.wf() && after.ordered()
            &&& ids_grow(all)
            &&& after.has(id) ==> exists|i: int|
                0 <= i < all.len() && (#[trigger] all[i]).folded.id == id && after.item(id)
                    == all[i]
        }),
{
    let after = after_steps(s, steps);
    let all = s.items + made(s.next_id, steps);
    lemma_steps(s, steps);
    lemma_fold_place(after.items, id);
    if after.has(id) {
        let k = fold_place(after.items, id);
        assert(all.contains(after.items[k]));
        let i = choose|i: int| 0 <= i < all.len() && all[i] == after.items[k];
        assert(all[i].folded.id == id && after.item(id) == all[i]);
    }
}

/// Of the texts that are folded in a new store, the last ones can be had by the ids
/// that their folds returned, as many as there is room for, until they expire; the
/// older ones are unknown, and so is every id that no fold returned.
pub proof fn law_the_last_folds_can_be_had(
    s: FoldModel,
    steps: Seq<StoreStep>,
    id: TranscriptId,
    age: u128,
)
    requires
        s.items.len() == 0,
        s.cap >= 1,
        s.next_id == 1,
        steps.len() < u64::MAX,
        folds_only(steps),
    ensures
        ({
            let after = after_steps(s, steps);
            let all = made(1, steps);
            let i = id.0 - 1;
            &&& all.len() == steps.len()
            &&& if 0 <= i < steps.len() && i + s.cap >= steps.len() {
                &&& all[i].folded.id == id
                &&& all[i].full_text == steps[i]->text
                &&& all[i].folded == fold_of(
                    id.0,
                    steps[i]->subagent,
                    steps[i]->outcome,
                    steps[i]->text,
                )
                &&& age <= s.ttl_nanos ==> after.text_after(id, age) == Ok::<
                    Seq<char>,
                    ExpandError,
                >(all[i].full_text) && after.short_after(id, age) == Ok::<
                    FoldedModel,
                    ExpandError,
                >(all[i].folded)
                &&& age > s.ttl_nanos ==> after.refusal(id, age) == Some(
                    ExpandError::Expired(id),
                )
            } else {
                after.refusal(id, age) == Some(ExpandError::Unknown(id))
            }
        }),
{
    lemma_last_items(s, steps);
    let items = after_steps(s, steps).items;
    lemma_fold_place(items, id);
    let gone = steps.len() - items.len();
    let i = id.0 - 1;
    let p = fold_place(items, id);
    if 0 <= i < steps.len() {
        lemma_made(1, steps, i);
    }
    if gone <= i < steps.len() {
        assert(items[i - gone].folded.id.0 == i + 1);
        assert(items[i - gone].folded.id == id);
    }
    if p < items.len() {
        assert(items[p].folded.id.0 == gone + p + 1);
    }
}

/// What is left in a new store after folds.
proof fn lemma_last_items(s: FoldModel, steps: Seq<StoreStep>)
    requires
        s.items.len() == 0,
        s.cap >= 1,
        s.next_id == 1,
        steps.len() < u64::MAX,
        folds_only(steps),
    ensures
        ({
            let after = after_steps(s, steps);
            let all = made(1, steps);
            let gone = steps.len() - after.items.len();
            &&& after.ttl_nanos == s.ttl_nanos
            &&& all.len() == steps.len()
            &&& gone == if steps.len() > s.cap {
                steps.len() - s.cap
            } else {
                0
            }
            &&& forall|k: int|
                0 <= k < after.items.len() ==> (#[trigger] after.items[k]) == all[gone + k]
                    && after.items[k].folded.id.0 == gone + k + 1
        }),
{
    let after = after_steps(s, steps);
    let all = made(1, steps);
    lemma_steps(s, steps);
    lemma_folds_only(s, steps);
    assert(s.items + all =~= all);
    let gone = steps.len() - after.items.len();
    assert forall|k: int| 0 <= k < after.items.len() implies (#[trigger] after.items[k])
        == all[gone + k] && after.items[k].folded.id.0 == gone + k + 1 by {
        lemma_made(1, steps, gone + k);
    }
}

/// What the `i`th fold stores.
proof fn lemma_made(first: u64, steps: Seq<StoreStep>, i: int)
    requires
        folds_only(steps),
        first + steps.len() <= u64::MAX,
        0 <= i < steps.len(),
    ensures
        made(first, steps).len() == steps.len(),
        made(first, steps)[i].folded == fold_of(
            (first + i) as u64,
            steps[i]->subagent,
            steps[i]->outcome,
            steps[i]->text,
        ),
        made(first, steps)[i].full_text == steps[i]->text,
        made(first, steps)[i].stored_at == steps[i]->at,
    decreases steps.len(),
{
    let rest = steps.drop_last();
    assert(steps[steps.len() - 1] is Fold);
    assert forall|k: int| 0 <= k < rest.len() implies (#[trigger] rest[k]) is Fold by {
        assert(rest[k] == steps[k]);
    }
    if rest.len() == 0 {
        assert(made(first, rest) =~= Seq::<StoredModel>::empty());
    } else {
        lemma_made(first, rest, if i < rest.len() {
            i
        } else {
            0
        });
    }
    if i < rest.len() {
        assert(rest[i] == steps[i]);
    }
}

/// A transcript and its short form can be had together, or neither of them for the
/// same reason.
pub proof fn law_text_and_short_form_go_together(s: FoldModel, id: TranscriptId, age: u128)
    ensures
        s.text_after(id, age) is Ok <==> s.short_after(id, age) is Ok,
        s.text_after(id, age) is Err ==> s.text_after(id, age)->Err_0 == s.short_after(
            id,
            age,
        )->Err_0,
{
}

/// The heading among the points is the first heading of the text.
pub proof fn law_the_first_heading_counts(ls: Seq<Seq<char>>, k: int)
    ensures
        0 <= k < ls.len() && is_heading(ls[k]) && (forall|i: int|
            0 <= i < k ==> !is_heading(#[trigger] ls[i])) ==> first_heading(ls) == seq![
            trim(ls[k]),
        ],
        (forall|i: int| 0 <= i < ls.len() ==> !is_heading(#[trigger] ls[i])) ==> first_heading(
            ls,
        ).len() == 0,
    decreases ls.len(),
{
    if ls.len() > 0 && !is_heading(ls[0]) {
        let rest = ls.subrange(1, ls.len() as int);
        law_the_first_heading_counts(rest, k - 1);
        if forall|i: int| 0 <= i < ls.len() ==> !is_heading(#[trigger] ls[i]) {
            assert forall|i: int| 0 <= i < rest.len() implies !is_heading(#[trigger] rest[i]) by {
                assert(rest[i] == ls[i + 1]);
            }
        }
        if 0 <= k < ls.len() && is_heading(ls[k]) && (forall|i: int|
            0 <= i < k ==> !is_heading(#[trigger] ls[i])) {
            assert(rest[k - 1] == ls[k]);
            assert forall|i: int| 0 <= i < k - 1 implies !is_heading(#[trigger] rest[i]) by {
                assert(rest[i] == ls[i + 1]);
            }
        }
    }
}

/// A key point is the first heading or a key line of the text, and a key line is left out
/// only for want of room.
pub proof fn law_key_points_are_lines_of_the_text(
    ls: Seq<Seq<char>>,
    start: Seq<Seq<char>>,
    n: nat,
    k: int,
)
    requires
        n <= ls.len(),
        0 <= k < n,
        is_key_line(ls[k]),
    ensures
        ({
            let points = picked(ls, start, n);
            &&& points.contains(trim_start(ls[k])) || points.len() >= 30 || point_bytes(points)
                + byte_len(trim_start(ls[k])) > 1000
            &&& forall|p: Seq<char>| #[trigger]
                points.contains(p) ==> start.contains(p) || exists|i: int|
                    0 <= i < n && is_key_line(#[trigger] ls[i]) && trim_start(ls[i]) == p
        }),
    decreases n,
{
    lemma_points_are_lines(ls, start, n);
    lemma_points_grow(ls, start, k + 1, n);
    let at = picked(ls, start, k as nat);
    let point = trim_start(ls[k]);
    let next = picked(ls, start, (k + 1) as nat);
    if at.len() < MAX_KEY_POINTS && point_bytes(at) + byte_len(point) <= MAX_KEY_BYTES {
        assert(next[at.len() as int] == point);
        assert(next.contains(point));
    }
}

proof fn lemma_points_grow(ls: Seq<Seq<char>>, start: Seq<Seq<char>>, a: int, n: nat)
    requires
        0 <= a <= n <= ls.len(),
    ensures
        picked(ls, start, a as nat).len() <= picked(ls, start, n).len(),
        point_bytes(picked(ls, start, a as nat)) <= point_bytes(picked(ls, start, n)),
        forall|p: Seq<char>|
            picked(ls, start, a as nat).contains(p) ==> #[trigger] picked(ls, start, n).contains(p),
    decreases n,
{
    if a < n {
        let m = (n - 1) as nat;
        lemma_points_grow(ls, start, a, m);
        let before = picked(ls, start, m);
        let all = picked(ls, start, n);
        if all != before {
            assert(all.drop_last() =~= before);
        }
        assert forall|p: Seq<char>| before.contains(p) implies #[trigger] all.contains(p) by {
            let j = choose|j: int| 0 <= j < before.len() && before[j] == p;
            assert(all[j] == p);
        }
    }
}

proof fn lemma_points_are_lines(ls: Seq<Seq<char>>, start: Seq<Seq<char>>, n: nat)
    requires
        n <= ls.len(),
    ensures
        forall|p: Seq<char>| #[trigger]
            picked(ls, start, n).contains(p) ==> start.contains(p) || exists|i: int|
                0 <= i < n && is_key_line(#[trigger] ls[i]) && trim_start(ls[i]) == p,
    decreases n,
{
    if n > 0 {
        let m = (n - 1) as nat;
        lemma_points_are_lines(ls, start, m);
        let before = picked(ls, start, m);
        let all = picked(ls, start, n);
        assert forall|p: Seq<char>| #[trigger] all.contains(p) implies start.contains(p)
            || exists|i: int|
            0 <= i < n && is_key_line(#[trigger] ls[i]) && trim_start(ls[i]) == p by {
            let j = choose|j: int| 0 <= j < all.len() && all[j] == p;
            if j < before.len() {
                assert(before[j] == p);
                assert(before.contains(p));
                if !start.contains(p) {
                    let i = choose|i: int|
                        0 <= i < m && is_key_line(#[trigger] ls[i]) && trim_start(ls[i]) == p;
                    assert(0 <= i < n && is_key_line(ls[i]));
                }
            } else {
                assert(is_key_line(ls[n - 1]));
            }
        }
    }
}

/// The item is one of those that have not been kept for longer than `ttl` nanoseconds.
pub open spec fn is_young(
    items: Seq<StoredModel>,
    ages: Seq<u128>,
    ttl: u128,
    item: StoredModel,
) -> bool {
    exists|i: int| 0 <= i < items.len() && #[trigger] items[i] == item && ages[i] <= ttl
}

/// What has been kept too long is dropped, and nothing else.
pub proof fn law_only_old_transcripts_are_dropped(
    items: Seq<StoredModel>,
    ages: Seq<u128>,
    ttl: u128,
)
    requires
        ages.len() == items.len(),
    ensures
        forall|i: int|
            0 <= i < items.len() && ages[i] <= ttl ==> alive(items, ages, ttl).contains(
                #[trigger] items[i],
            ),
        forall|k: int|
            0 <= k < alive(items, ages, ttl).len() ==> is_young(
                items,
                ages,
                ttl,
                #[trigger] alive(items, ages, ttl)[k],
            ),
{
    lemma_alive_ones(items, ages, ttl);
}

proof fn lemma_alive_ones(items: Seq<StoredModel>, ages: Seq<u128>, ttl: u128)
    requires
        items.len() <= ages.len(),
    ensures
        forall|i: int|
            0 <= i < items.len() && ages[i] <= ttl ==> alive(items, ages, ttl).contains(
                #[trigger] items[i],
            ),
        forall|k: int|
            0 <= k < alive(items, ages, ttl).len() ==> is_young(
                items,
                ages,
                ttl,
                #[trigger] alive(items, ages, ttl)[k],
            ),
    decreases items.len(),
{
    if items.len() > 0 {
        let rest = items.drop_last();
        let before = alive(rest, ages, ttl);
        let all = alive(items, ages, ttl);
        lemma_alive_ones(rest, ages, ttl);
        assert forall|i: int| 0 <= i < items.len() && ages[i] <= ttl implies all.contains(
            #[trigger] items[i],
        ) by {
            if i < rest.len() {
                assert(rest[i] == items[i]);
                assert(before.contains(rest[i]));
                let j = choose|j: int| 0 <= j < before.len() && before[j] == rest[i];
                assert(all[j] == items[i]);
            } else {
                assert(all[before.len() as int] == items[i]);
            }
        }
        assert forall|k: int| 0 <= k < all.len() implies is_young(
            items,
            ages,
            ttl,
            #[trigger] all[k],
        ) by {
            if k < before.len() {
                assert(all[k] == before[k]);
                assert(is_young(rest, ages, ttl, before[k]));
                let i = choose|i: int|
                    0 <= i < rest.len() && #[trigger] rest[i] == before[k] && ages[i] <= ttl;
                assert(items[i] == all[k]);
            } else {
                assert(items[items.len() - 1] == all[k]);
            }
        }
    }
}

} // verus!
