//! Search of code by meaning: the chunks that are indexed, and the order in
//! which they are found.

use crate::chunker::{can_chunk, chunk_models, file_chunks, ChunkModel, CodeChunk, CodeChunker};
use crate::delimiters::{detect_delimiter_errors, error_models, parse_errors, ParseError};
use crate::json::{json_text, push_entry, push_value, Json, JsonModel};
use crate::languages::{detect_language, extension, language_of};
use crate::sorting::{
    ahead, by_number, comes_before, is_order, law_sorting_sorts, law_texts_are_in_order,
    lemma_by_number_is_order, order_numbers, places, slot, sorted_order, text_less,
};
use crate::split::lines;
use crate::text::{lemma_texts_push, same_text};
use vstd::prelude::*;
use vstd::string::*;

verus! {

broadcast use lemma_texts_push;

// ── The tool ───────────────────────────────────────────────────────────────
/// What is searched for, and how much of it.
#[derive(Debug, Clone)]
pub struct SemanticSearchInput {
    pub query: String,
    pub top_k: usize,
}

/// How many results are returned if nothing is said of it.
pub fn default_top_k() -> (r: usize)
    ensures
        r == 10,
{
    10
}

/// A chunk that was found, and how well it fits.
#[derive(Debug)]
pub struct SearchResult<S> {
    pub chunk: CodeChunk,
    pub score: S,
}

/// What was found.
#[derive(Debug)]
pub struct SemanticSearchOutput<S> {
    pub results: Vec<SearchResult<S>>,
}

/// What the tool tells a model of itself.
pub open spec fn tool_spec() -> JsonModel {
    JsonModel::Object(
        seq![
            (
                "description"@,
                JsonModel::Text(
                    "Search code semantically using natural language queries. Returns matching code chunks ranked by relevance."@,
                ),
            ),
            ("name"@, JsonModel::Text("semantic_search"@)),
            (
                "parameters"@,
                JsonModel::Object(
                    seq![
                        (
                            "properties"@,
                            JsonModel::Object(
                                seq![
                                    (
                                        "query"@,
                                        JsonModel::Object(
                                            seq![
                                                (
                                                    "description"@,
                                                    JsonModel::Text(
                                                        "Natural language search query"@,
                                                    ),
                                                ),
                                                ("type"@, JsonModel::Text("string"@)),
                                            ],
                                        ),
                                    ),
                                    (
                                        "top_k"@,
                                        JsonModel::Object(
                                            seq![
                                                ("default"@, JsonModel::Number("10"@)),
                                                (
                                                    "description"@,
                                                    JsonModel::Text(
                                                        "Maximum number of results to return"@,
                                                    ),
                                                ),
                                                ("type"@, JsonModel::Text("integer"@)),
                                            ],
                                        ),
                                    ),
                                ],
                            ),
                        ),
                        ("required"@, JsonModel::List(seq![JsonModel::Text("query"@)])),
                        ("type"@, JsonModel::Text("object"@)),
                    ],
                ),
            ),
        ],
    )
}

/// What the tool tells a model of itself.
pub fn semantic_search_tool_spec() -> (r: Json)
    ensures
        r@ == tool_spec(),
{
    let mut query: Vec<(String, Json)> = Vec::new();
    push_entry(&mut query, "description", json_text("Natural language search query"));
    push_entry(&mut query, "type", json_text("string"));
    let mut top_k: Vec<(String, Json)> = Vec::new();
    push_entry(&mut top_k, "default", Json::Number("10".to_owned()));
    push_entry(&mut top_k, "description", json_text("Maximum number of results to return"));
    push_entry(&mut top_k, "type", json_text("integer"));
    let mut properties: Vec<(String, Json)> = Vec::new();
    push_entry(&mut properties, "query", Json::Object(query));
    push_entry(&mut properties, "top_k", Json::Object(top_k));
    let mut required: Vec<Json> = Vec::new();
    push_value(&mut required, json_text("query"));
    let mut parameters: Vec<(String, Json)> = Vec::new();
    push_entry(&mut parameters, "properties", Json::Object(properties));
    push_entry(&mut parameters, "required", Json::List(required));
    push_entry(&mut parameters, "type", json_text("object"));
    let mut v: Vec<(String, Json)> = Vec::new();
    push_entry(
        &mut v,
        "description",
        json_text(
            "Search code semantically using natural language queries. Returns matching code chunks ranked by relevance.",
        ),
    );
    push_entry(&mut v, "name", json_text("semantic_search"));
    push_entry(&mut v, "parameters", Json::Object(parameters));
    let r = Json::Object(v);
    proof {
        let all = tool_spec()->Object_0;
        let params = all[2].1->Object_0;
        let props = params[0].1->Object_0;
        let got = r@->Object_0[2].1->Object_0;
        assert(got[0].1->Object_0[0].1->Object_0 =~= props[0].1->Object_0);
        assert(got[0].1->Object_0[1].1->Object_0 =~= props[1].1->Object_0);
        assert(got[0].1->Object_0 =~= props);
        assert(got[1].1->List_0 =~= params[1].1->List_0);
        assert(got =~= params);
        assert(r@->Object_0 =~= all);
    }
    r
}

// ── The index ──────────────────────────────────────────────────────────────
/// A chunk, and the vector that stands for it.
pub struct EntryModel<E> {
    pub chunk: ChunkModel,
    pub vector: E,
}

/// Chunks with their vectors, as far as there are both.
pub open spec fn paired<E>(chunks: Seq<CodeChunk>, vectors: Seq<E>) -> Seq<EntryModel<E>>
    decreases chunks.len(),
{
    if chunks.len() == 0 || vectors.len() == 0 {
        Seq::empty()
    } else {
        seq![EntryModel { chunk: chunks[0]@, vector: vectors[0] }] + paired(
            chunks.skip(1),
            vectors.skip(1),
        )
    }
}

proof fn lemma_paired<E>(chunks: Seq<CodeChunk>, vectors: Seq<E>)
    ensures
        paired(chunks, vectors).len() == (if chunks.len() <= vectors.len() {
            chunks.len()
        } else {
            vectors.len()
        }),
        forall|i: int|
            0 <= i < paired(chunks, vectors).len() ==> #[trigger] paired(chunks, vectors)[i] == (
            EntryModel { chunk: chunks[i]@, vector: vectors[i] }),
    decreases chunks.len(),
{
    if chunks.len() > 0 && vectors.len() > 0 {
        let rest = paired(chunks.skip(1), vectors.skip(1));
        lemma_paired(chunks.skip(1), vectors.skip(1));
        assert forall|i: int| 0 <= i < paired(chunks, vectors).len() implies #[trigger] paired(
            chunks,
            vectors,
        )[i] == (EntryModel { chunk: chunks[i]@, vector: vectors[i] }) by {
            if i > 0 {
                assert(paired(chunks, vectors)[i] == rest[i - 1]);
            }
        }
    }
}

/// The entries of other files.
pub open spec fn of_other_files<E>(v: Seq<EntryModel<E>>, path: Seq<char>) -> Seq<EntryModel<E>>
    decreases v.len(),
{
    if v.len() == 0 {
        Seq::empty()
    } else if v[0].chunk.file_path == path {
        of_other_files(v.skip(1), path)
    } else {
        seq![v[0]] + of_other_files(v.skip(1), path)
    }
}

/// After a file was removed no entry is of it.
pub proof fn law_removed_files_are_gone<E>(v: Seq<EntryModel<E>>, path: Seq<char>)
    ensures
        of_other_files(v, path).len() <= v.len(),
        forall|i: int|
            0 <= i < of_other_files(v, path).len() ==> (#[trigger] of_other_files(
                v,
                path,
            )[i]).chunk.file_path != path,
    decreases v.len(),
{
    if v.len() > 0 {
        law_removed_files_are_gone(v.skip(1), path);
        let rest = of_other_files(v.skip(1), path);
        let all = of_other_files(v, path);
        assert forall|i: int| 0 <= i < all.len() implies (#[trigger] all[i]).chunk.file_path
            != path by {
            if v[0].chunk.file_path != path && i > 0 {
                assert(all[i] == rest[i - 1]);
            } else if v[0].chunk.file_path == path {
                assert(all[i] == rest[i]);
            }
        }
    }
}

/// The chunks that are indexed, each with a vector that stands for it.
#[derive(Debug)]
pub struct SemanticIndex<E> {
    chunks: Vec<CodeChunk>,
    vectors: Vec<E>,
    chunker: CodeChunker,
}

impl<E> View for SemanticIndex<E> {
    type V = Seq<EntryModel<E>>;

    closed spec fn view(&self) -> Seq<EntryModel<E>> {
        paired(self.chunks@, self.vectors@)
    }
}

/// What is found: the first `k` of the entries, those with the greatest keys
/// first.
pub open spec fn best<E>(v: Seq<EntryModel<E>>, keys: Seq<i64>, k: nat) -> Seq<int> {
    let order = sorted_order(keys.len(), by_number(keys));
    if order.len() <= k {
        order
    } else {
        order.take(k as int)
    }
}

impl<E> SemanticIndex<E> {
    /// There is a vector for each chunk.
    pub closed spec fn wf(&self) -> bool {
        self.chunks@.len() == self.vectors@.len()
    }

    /// How code is cut into chunks.
    pub closed spec fn cuts(&self) -> CodeChunker {
        self.chunker
    }

    /// Nothing is indexed.
    pub fn new() -> (r: SemanticIndex<E>)
        ensures
            r.wf(),
            r@.len() == 0,
            r.cuts() == (CodeChunker { fallback_chunk_size: 50, fallback_overlap: 10 }),
    {
        SemanticIndex { chunks: Vec::new(), vectors: Vec::new(), chunker: CodeChunker::default() }
    }

    /// The same with another way to cut code into chunks.
    pub fn with_chunker(self, chunker: CodeChunker) -> (r: SemanticIndex<E>)
        ensures
            r@ == self@,
            r.wf() == self.wf(),
            r.cuts() == chunker,
    {
        let mut r = self;
        r.chunker = chunker;
        r
    }

    /// The chunks of a file. Their contents are to be turned into vectors.
    pub fn chunks_of(&self, path: &str, content: &str) -> (r: Vec<CodeChunk>)
        requires
            can_chunk(self.cuts(), path@, language_of(extension(path@)), lines(content@)),
        ensures
            chunk_models(r@) == file_chunks(
                self.cuts(),
                path@,
                language_of(extension(path@)),
                lines(content@),
            ),
    {
        self.chunker.chunk_file(path, content)
    }

    /// Adds chunks, each with its vector, as far as there are both. Returns how
    /// many chunks there were.
    pub fn add(&mut self, chunks: Vec<CodeChunk>, vectors: Vec<E>) -> (r: usize)
        requires
            old(self).wf(),
        ensures
            final(self).wf(),
            final(self)@ == old(self)@ + paired(chunks@, vectors@),
            final(self).cuts() == old(self).cuts(),
            r == chunks@.len(),
    {
        let count: usize = chunks.len();
        let mut c = chunks;
        let mut v = vectors;
        let n: usize = if c.len() <= v.len() {
            c.len()
        } else {
            v.len()
        };
        let ghost before = self@;
        proof {
            lemma_paired(chunks@, vectors@);
            lemma_paired(self.chunks@, self.vectors@);
        }
        c.truncate(n);
        v.truncate(n);
        self.chunks.append(&mut c);
        self.vectors.append(&mut v);
        proof {
            lemma_paired(self.chunks@, self.vectors@);
            assert(self@ =~= before + paired(chunks@, vectors@));
        }
        count
    }

    /// Removes the chunks of a file.
    pub fn remove_file(&mut self, path: &str)
        requires
            old(self).wf(),
        ensures
            final(self).wf(),
            final(self)@ == of_other_files(old(self)@, path@),
            final(self).cuts() == old(self).cuts(),
    {
        let ghost goal = of_other_files(self@, path@);
        let mut i: usize = 0;
        proof {
            lemma_paired(self.chunks@, self.vectors@);
            assert(self@.skip(0) =~= self@);
            assert(self@.take(0) + goal =~= goal);
        }
        while i < self.chunks.len()
            invariant
                i <= self.chunks@.len() == self.vectors@.len(),
                self.chunker == old(self).chunker,
                self@.len() == self.chunks@.len(),
                self@.take(i as int) + of_other_files(self@.skip(i as int), path@) == goal,
            decreases self.chunks@.len() - i,
        {
            let ghost all = self@;
            let ghost rest = of_other_files(all.skip(i + 1), path@);
            proof {
                lemma_paired(self.chunks@, self.vectors@);
                assert(all.skip(i as int)[0] == all[i as int]);
                assert(all.skip(i as int).skip(1) =~= all.skip(i + 1));
            }
            if same_text(self.chunks[i].file_path.as_str(), path) {
                self.chunks.remove(i);
                self.vectors.remove(i);
                proof {
                    lemma_paired(self.chunks@, self.vectors@);
                    assert(self@ =~= all.remove(i as int));
                    assert(self@.take(i as int) =~= all.take(i as int));
                    assert(self@.skip(i as int) =~= all.skip(i + 1));
                }
            } else {
                proof {
                    assert(all.take(i as int) + (seq![all[i as int]] + rest) =~= all.take(i + 1)
                        + rest);
                }
                i += 1;
            }
        }
        proof {
            assert(self@.take(i as int) =~= self@);
            assert(self@.skip(i as int) =~= Seq::empty());
            assert(self@ + Seq::<EntryModel<E>>::empty() =~= self@);
        }
    }

    /// The vector of an entry.
    pub fn vector(&self, i: usize) -> (r: &E)
        requires
            self.wf(),
            i < self@.len(),
        ensures
            *r == self@[i as int].vector,
    {
        proof {
            lemma_paired(self.chunks@, self.vectors@);
        }
        &self.vectors[i]
    }

    /// How many chunks are indexed.
    pub fn chunk_count(&self) -> (r: usize)
        requires
            self.wf(),
        ensures
            r == self@.len(),
    {
        proof {
            lemma_paired(self.chunks@, self.vectors@);
        }
        self.chunks.len()
    }

    /// The first `top_k` entries, those with the greatest keys first, each with
    /// its score. Keys are in the order of scores.
    pub fn search<S: Copy>(&self, keys: &[i64], scores: &[S], top_k: usize) -> (r: Vec<
        SearchResult<S>,
    >)
        requires
            self.wf(),
            keys@.len() == self@.len(),
            scores@.len() == self@.len(),
        ensures
            r@.len() == best(self@, keys@, top_k as nat).len(),
            forall|i: int|
                0 <= i < r@.len() ==> (#[trigger] r@[i]).chunk@ == self@[best(
                    self@,
                    keys@,
                    top_k as nat,
                )[i]].chunk && r@[i].score == scores@[best(self@, keys@, top_k as nat)[i]],
    {
        let ghost all = self@;
        let order = order_numbers(keys);
        let ghost goal = best(all, keys@, top_k as nat);
        proof {
            lemma_paired(self.chunks@, self.vectors@);
            assert(places(order@).len() == order@.len());
        }
        let n: usize = if order.len() <= top_k {
            order.len()
        } else {
            top_k
        };
        let mut out: Vec<SearchResult<S>> = Vec::new();
        let mut i: usize = 0;
        while i < n
            invariant
                i <= n <= order@.len(),
                n == goal.len(),
                all == self@,
                all == paired(self.chunks@, self.vectors@),
                all.len() == self.chunks@.len() == self.vectors@.len() == keys@.len()
                    == scores@.len(),
                goal == best(all, keys@, top_k as nat),
                places(order@) == sorted_order(keys@.len(), by_number(keys@)),
                forall|a: int| 0 <= a < order@.len() ==> (#[trigger] order@[a]) < keys@.len(),
                out@.len() == i,
                forall|j: int|
                    0 <= j < i ==> (#[trigger] out@[j]).chunk@ == all[goal[j]].chunk
                        && out@[j].score == scores@[goal[j]],
            decreases n - i,
        {
            let at: usize = order[i];
            proof {
                lemma_paired(self.chunks@, self.vectors@);
                assert(places(order@)[i as int] == at);
                assert(goal[i as int] == at);
                assert(all[at as int].chunk == self.chunks@[at as int]@);
            }
            out.push(SearchResult { chunk: self.chunks[at].clone(), score: scores[at] });
            i += 1;
        }
        out
    }
}

// ── Ranking ────────────────────────────────────────────────────────────────
/// A chunk with its score. `score` stands for a number in the order of numbers.
#[derive(Debug, PartialEq, Eq)]
pub struct ScoredChunk {
    pub content: String,
    pub score: i64,
    pub has_errors: bool,
    pub file_path: String,
}

/// A chunk with its score.
pub struct ScoredModel {
    pub content: Seq<char>,
    pub score: i64,
    pub has_errors: bool,
    pub file_path: Seq<char>,
}

impl View for ScoredChunk {
    type V = ScoredModel;

    open spec fn view(&self) -> ScoredModel {
        ScoredModel {
            content: self.content@,
            score: self.score,
            has_errors: self.has_errors,
            file_path: self.file_path@,
        }
    }
}

impl Clone for ScoredChunk {
    fn clone(&self) -> (r: ScoredChunk)
        ensures
            r == *self,
    {
        ScoredChunk {
            content: self.content.clone(),
            score: self.score,
            has_errors: self.has_errors,
            file_path: self.file_path.clone(),
        }
    }
}

/// The chunks.
pub open spec fn scored_models(v: Seq<ScoredChunk>) -> Seq<ScoredModel> {
    v.map_values(|c: ScoredChunk| c@)
}

/// One chunk comes before another: by a greater score, then by path, then by
/// content.
pub open spec fn ranks_before(a: ScoredModel, b: ScoredModel) -> bool {
    a.score > b.score || a.score == b.score && (text_less(a.file_path, b.file_path) || a.file_path
        == b.file_path && text_less(a.content, b.content))
}

/// Places in the order of their chunks.
pub open spec fn by_rank(v: Seq<ScoredModel>) -> spec_fn(int, int) -> bool {
    |i: int, j: int| ranks_before(v[i], v[j])
}

/// The chunks in order.
pub open spec fn ranked(v: Seq<ScoredModel>) -> Seq<ScoredModel> {
    sorted_order(v.len(), by_rank(v)).map_values(|i: int| v[i])
}

/// To go by rank is an order.
pub proof fn law_ranks_are_an_order(v: Seq<ScoredModel>)
    ensures
        is_order(v.len(), by_rank(v)),
{
    let before = by_rank(v);
    let n = v.len();
    assert forall|i: int, j: int| 0 <= i < n && 0 <= j < n && #[trigger] before(i, j) implies
        !before(j, i) by {
        law_texts_are_in_order(v[i].file_path, v[j].file_path, v[i].file_path);
        law_texts_are_in_order(v[i].content, v[j].content, v[i].content);
    }
    assert forall|i: int, j: int, k: int|
        0 <= i < n && 0 <= j < n && 0 <= k < n && !(#[trigger] before(i, j)) && !(
        #[trigger] before(j, k)) implies !before(i, k) by {
        let (a, b, c) = (v[i], v[j], v[k]);
        law_texts_are_in_order(a.file_path, b.file_path, c.file_path);
        law_texts_are_in_order(b.file_path, a.file_path, c.file_path);
        law_texts_are_in_order(a.file_path, c.file_path, b.file_path);
        law_texts_are_in_order(c.file_path, b.file_path, a.file_path);
        law_texts_are_in_order(b.file_path, c.file_path, a.file_path);
        law_texts_are_in_order(a.content, b.content, c.content);
        law_texts_are_in_order(a.content, c.content, b.content);
        law_texts_are_in_order(c.content, b.content, a.content);
        law_texts_are_in_order(b.content, c.content, a.content);
    }
}

fn is_ranked_before(a: &ScoredChunk, b: &ScoredChunk) -> (r: bool)
    ensures
        r == ranks_before(a@, b@),
{
    if a.score != b.score {
        a.score > b.score
    } else if same_text(a.file_path.as_str(), b.file_path.as_str()) {
        proof {
            law_texts_are_in_order(a@.file_path, b@.file_path, a@.file_path);
        }
        comes_before(a.content.as_str(), b.content.as_str())
    } else {
        comes_before(a.file_path.as_str(), b.file_path.as_str())
    }
}

/// Ranks chunks, those that do not parse behind the others.
pub struct ParseErrorDownRanker;

impl ParseErrorDownRanker {
    /// The brackets, quotes and comments of a text that do not close.
    pub fn detect_parse_errors(content: &str, language: &str) -> (r: Vec<ParseError>)
        requires
            content@.len() < usize::MAX,
        ensures
            error_models(r@) == parse_errors(content@, language@),
    {
        detect_delimiter_errors(content, language)
    }

    /// Notes which chunks do not parse.
    pub fn flag_errors(chunks: &mut Vec<ScoredChunk>)
        requires
            forall|i: int|
                0 <= i < old(chunks)@.len() ==> (#[trigger] old(chunks)@[i]).content@.len()
                    < usize::MAX,
        ensures
            final(chunks)@.len() == old(chunks)@.len(),
            forall|i: int|
                0 <= i < old(chunks)@.len() ==> (#[trigger] final(chunks)@[i])@ == (ScoredModel {
                    has_errors: parse_errors(
                        old(chunks)@[i]@.content,
                        language_of(extension(old(chunks)@[i]@.file_path)),
                    ).len() > 0,
                    ..old(chunks)@[i]@
                }),
    {
        let ghost before = chunks@;
        let mut i: usize = 0;
        while i < chunks.len()
            invariant
                i <= chunks@.len() == before.len(),
                before == old(chunks)@,
                forall|j: int|
                    0 <= j < before.len() ==> (#[trigger] before[j]).content@.len() < usize::MAX,
                forall|j: int| i <= j < before.len() ==> #[trigger] chunks@[j] == before[j],
                forall|j: int|
                    0 <= j < i ==> (#[trigger] chunks@[j])@ == (ScoredModel {
                        has_errors: parse_errors(
                            before[j]@.content,
                            language_of(extension(before[j]@.file_path)),
                        ).len() > 0,
                        ..before[j]@
                    }),
            decreases chunks@.len() - i,
        {
            assert(chunks@[i as int] == before[i as int]);
            let language = detect_language(chunks[i].file_path.as_str());
            let errors = ParseErrorDownRanker::detect_parse_errors(
                chunks[i].content.as_str(),
                language.as_str(),
            );
            assert(error_models(errors@).len() == errors@.len());
            let c = ScoredChunk {
                content: chunks[i].content.clone(),
                score: chunks[i].score,
                has_errors: errors.len() > 0,
                file_path: chunks[i].file_path.clone(),
            };
            chunks.set(i, c);
            i += 1;
        }
    }

    /// Puts chunks in order: by score, the greatest first, then by path, then by
    /// content.
    pub fn rank_chunks(chunks: &mut Vec<ScoredChunk>)
        ensures
            scored_models(final(chunks)@) == ranked(scored_models(old(chunks)@)),
    {
        let ghost all = scored_models(chunks@);
        let ghost before = by_rank(all);
        let mut order: Vec<usize> = Vec::new();
        let mut n: usize = 0;
        assert(places(order@) =~= sorted_order(0, before));
        while n < chunks.len()
            invariant
                n <= chunks@.len(),
                all == scored_models(chunks@),
                before == by_rank(all),
                *chunks == *old(chunks),
                order@.len() == n,
                places(order@) == sorted_order(n as nat, before),
                forall|a: int| 0 <= a < n ==> (#[trigger] order@[a]) < chunks@.len(),
            decreases chunks@.len() - n,
        {
            let ghost rest = places(order@);
            let mut at: usize = n;
            assert(rest.take(n as int) =~= rest);
            while at > 0 && is_ranked_before(&chunks[n], &chunks[order[at - 1]])
                invariant
                    at <= n < chunks@.len(),
                    all == scored_models(chunks@),
                    before == by_rank(all),
                    *chunks == *old(chunks),
                    order@.len() == n,
                    rest == places(order@),
                    forall|a: int| 0 <= a < n ==> (#[trigger] order@[a]) < chunks@.len(),
                    slot(rest.take(at as int), n as int, before) == slot(rest, n as int, before),
                decreases at,
            {
                proof {
                    assert(rest.take(at as int).last() == order@[at - 1] as int);
                    assert(rest.take(at as int).drop_last() =~= rest.take(at - 1));
                    assert(before(n as int, order@[at - 1] as int));
                }
                at -= 1;
            }
            proof {
                if at > 0 {
                    assert(rest.take(at as int).last() == order@[at - 1] as int);
                    assert(!before(n as int, order@[at - 1] as int));
                }
            }
            order.insert(at, n);
            assert(places(order@) =~= rest.insert(at as int, n as int));
            n += 1;
        }
        let ghost goal = ranked(all);
        let mut out: Vec<ScoredChunk> = Vec::new();
        let mut i: usize = 0;
        assert(places(order@).len() == order@.len());
        assert(scored_models(out@) =~= goal.take(0));
        while i < order.len()
            invariant
                i <= order@.len() == chunks@.len() == goal.len(),
                all == scored_models(chunks@),
                goal == ranked(all),
                places(order@) == sorted_order(all.len(), by_rank(all)),
                forall|a: int| 0 <= a < order@.len() ==> (#[trigger] order@[a]) < chunks@.len(),
                scored_models(out@) == goal.take(i as int),
            decreases order@.len() - i,
        {
            let ghost sofar = scored_models(out@);
            out.push(chunks[order[i]].clone());
            proof {
                assert(places(order@)[i as int] == order@[i as int] as int);
                assert(scored_models(out@) =~= sofar.push(goal[i as int]));
                assert(scored_models(out@) =~= goal.take(i + 1));
            }
            i += 1;
        }
        assert(goal.take(i as int) =~= goal);
        *chunks = out;
    }
}

/// Each chunk goes with the vector at its own place.
pub proof fn law_chunks_go_with_their_vectors<E>(chunks: Seq<CodeChunk>, vectors: Seq<E>)
    ensures
        paired(chunks, vectors).len() == (if chunks.len() < vectors.len() {
            chunks.len()
        } else {
            vectors.len()
        }),
        forall|i: int|
            0 <= i < paired(chunks, vectors).len() ==> (#[trigger] paired(chunks, vectors)[i]).chunk
                == chunks[i]@ && paired(chunks, vectors)[i].vector == vectors[i],
    decreases chunks.len(),
{
    if chunks.len() > 0 && vectors.len() > 0 {
        law_chunks_go_with_their_vectors(chunks.skip(1), vectors.skip(1));
        let rest = paired(chunks.skip(1), vectors.skip(1));
        let all = paired(chunks, vectors);
        assert forall|i: int| 0 <= i < all.len() implies (#[trigger] all[i]).chunk == chunks[i]@
            && all[i].vector == vectors[i] by {
            if i > 0 {
                assert(all[i] == rest[i - 1]);
            }
        }
    }
}

/// Removing a file leaves what is known of the others, in its order.
pub proof fn law_removing_leaves_other_files<E>(
    a: Seq<EntryModel<E>>,
    b: Seq<EntryModel<E>>,
    e: EntryModel<E>,
    path: Seq<char>,
)
    ensures
        of_other_files(seq![e], path) == (if e.chunk.file_path == path {
            Seq::empty()
        } else {
            seq![e]
        }),
        of_other_files(a + b, path) == of_other_files(a, path) + of_other_files(b, path),
    decreases a.len(),
{
    let none = Seq::<EntryModel<E>>::empty();
    assert(seq![e].skip(1) =~= none);
    assert(of_other_files(none, path) == none);
    assert(seq![e] + none =~= seq![e]);
    if a.len() == 0 {
        assert(a + b =~= b);
        assert(of_other_files(a, path) + of_other_files(b, path) =~= of_other_files(b, path));
    } else {
        law_removing_leaves_other_files(a.skip(1), b, e, path);
        assert((a + b).skip(1) =~= a.skip(1) + b);
        assert((a + b)[0] == a[0]);
        assert(seq![a[0]] + (of_other_files(a.skip(1), path) + of_other_files(b, path)) =~= seq![
            a[0],
        ] + of_other_files(a.skip(1), path) + of_other_files(b, path));
    }
}

/// What is found comes with the greatest keys first, and nothing that is left out has a
/// greater one.
pub proof fn law_the_best_are_found<E>(v: Seq<EntryModel<E>>, keys: Seq<i64>, k: nat)
    ensures
        ({
            let found = best(v, keys, k);
            &&& found.len() == (if keys.len() < k {
                keys.len()
            } else {
                k
            })
            &&& forall|a: int| 0 <= a < found.len() ==> 0 <= #[trigger] found[a] < keys.len()
            &&& forall|a: int, b: int|
                0 <= a < b < found.len() ==> keys[#[trigger] found[a]] >= keys[#[trigger] found[b]]
            &&& forall|a: int, b: int|
                0 <= a < found.len() && k <= b < keys.len() ==> keys[#[trigger] found[a]]
                    >= keys[#[trigger] sorted_order(keys.len(), by_number(keys))[b]]
        }),
{
    lemma_by_number_is_order(keys);
    let before = by_number(keys);
    law_sorting_sorts(keys.len(), before);
    let order = sorted_order(keys.len(), before);
    assert forall|a: int, b: int| 0 <= a < b < order.len() implies keys[#[trigger] order[a]]
        >= keys[#[trigger] order[b]] by {
        assert(ahead(order[a], order[b], before));
    }
}

} // verus!
