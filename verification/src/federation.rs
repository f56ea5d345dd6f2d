//! Symbols of many projects, searched together.

use crate::keyed::{key_place, lemma_key_place, lemma_key_place_is};
use crate::sorting::{
    by_text, in_text_order, lemma_slot_bound, order_texts, places, slot, sort_texts, sorted_order,
};
use crate::text::{
    contains_text, lemma_texts_push, lowercase, occurs_at, same_text, str_has, texts,
};
use vstd::prelude::*;
use vstd::string::*;

verus! {

broadcast use lemma_texts_push;

/// A symbol of a project.
#[derive(Debug, Clone)]
pub struct IndexedSymbol {
    pub name: String,
    pub kind: String,
    pub file: String,
    pub line: u32,
}

/// A symbol of a project.
pub struct IndexedModel {
    pub name: Seq<char>,
    pub kind: Seq<char>,
    pub file: Seq<char>,
    pub line: u32,
}

impl View for IndexedSymbol {
    type V = IndexedModel;

    open spec fn view(&self) -> IndexedModel {
        IndexedModel { name: self.name@, kind: self.kind@, file: self.file@, line: self.line }
    }
}

/// The symbols.
pub open spec fn indexed_models(v: Seq<IndexedSymbol>) -> Seq<IndexedModel> {
    v.map_values(|s: IndexedSymbol| s@)
}

/// The symbols.
pub open spec fn indexed_ref_models(v: Seq<&IndexedSymbol>) -> Seq<IndexedModel> {
    v.map_values(|s: &IndexedSymbol| s@)
}

/// A project and its symbols.
#[derive(Debug, Clone)]
pub struct ProjectIndex {
    pub project_name: String,
    pub root_path: String,
    pub file_count: usize,
    pub last_indexed: u64,
    pub symbols: Vec<IndexedSymbol>,
}

/// A project and its symbols.
pub struct ProjectModel {
    pub project_name: Seq<char>,
    pub root_path: Seq<char>,
    pub file_count: usize,
    pub last_indexed: u64,
    pub symbols: Seq<IndexedModel>,
}

impl View for ProjectIndex {
    type V = ProjectModel;

    open spec fn view(&self) -> ProjectModel {
        ProjectModel {
            project_name: self.project_name@,
            root_path: self.root_path@,
            file_count: self.file_count,
            last_indexed: self.last_indexed,
            symbols: indexed_models(self.symbols@),
        }
    }
}

/// The projects.
pub open spec fn project_models(v: Seq<ProjectIndex>) -> Seq<ProjectModel> {
    v.map_values(|p: ProjectIndex| p@)
}

/// The names of projects.
pub open spec fn project_names(v: Seq<ProjectModel>) -> Seq<Seq<char>> {
    v.map_values(|p: ProjectModel| p.project_name)
}

/// The symbols whose names hold a text, whatever the case of either. `q` is the
/// text in lower case.
pub open spec fn matching(symbols: Seq<IndexedModel>, q: Seq<char>) -> Seq<IndexedModel>
    decreases symbols.len(),
{
    if symbols.len() == 0 {
        Seq::empty()
    } else if contains_text(lowercase(symbols.last().name), q) {
        matching(symbols.drop_last(), q).push(symbols.last())
    } else {
        matching(symbols.drop_last(), q)
    }
}

/// How many symbols the first `n` projects have.
pub open spec fn symbol_count(v: Seq<ProjectModel>, n: nat) -> nat
    decreases n,
{
    if n == 0 {
        0
    } else {
        symbol_count(v, (n - 1) as nat) + v[n - 1].symbols.len()
    }
}

/// The projects after one was added, in place of one of its name.
pub open spec fn with_project(v: Seq<ProjectModel>, p: ProjectModel) -> Seq<ProjectModel> {
    let at = key_place(project_names(v), p.project_name);
    if at < v.len() {
        v.update(at, p)
    } else {
        v.push(p)
    }
}

/// The projects after one was removed, if there was one of that name.
pub open spec fn without_project(v: Seq<ProjectModel>, name: Seq<char>) -> Seq<ProjectModel> {
    let at = key_place(project_names(v), name);
    if at < v.len() {
        v.remove(at)
    } else {
        v
    }
}

/// Each project has its own name.
pub open spec fn projects_differ(v: Seq<ProjectModel>) -> bool {
    project_names(v).no_duplicates()
}

/// A project that is added is there as it was added, one that is removed is not,
/// and names stay different.
pub proof fn law_projects_come_and_go(v: Seq<ProjectModel>, p: ProjectModel, name: Seq<char>)
    requires
        projects_differ(v),
    ensures
        projects_differ(with_project(v, p)),
        projects_differ(without_project(v, name)),
        ({
            let at = key_place(project_names(with_project(v, p)), p.project_name);
            at < with_project(v, p).len() && with_project(v, p)[at] == p
        }),
        !project_names(without_project(v, name)).contains(name),
{
    let names = project_names(v);
    lemma_key_place(names, p.project_name);
    lemma_key_place(names, name);
    let at = key_place(names, p.project_name);
    let next = project_names(with_project(v, p));
    if at < v.len() {
        assert(next =~= names);
    } else {
        assert(next =~= names.push(p.project_name));
    }
    assert forall|i: int| 0 <= i < at implies #[trigger] next[i] != p.project_name by {
        assert(names[i] != p.project_name);
    }
    lemma_key_place_is(next, p.project_name, at);
    let k = key_place(names, name);
    if k < v.len() {
        let left = project_names(without_project(v, name));
        assert(left =~= names.remove(k));
        assert forall|a: int, b: int| 0 <= a < left.len() && 0 <= b < left.len() && a
            != b implies left[a] != left[b] by {
            let x = if a < k {
                a
            } else {
                a + 1
            };
            let y = if b < k {
                b
            } else {
                b + 1
            };
            assert(left[a] == names[x] && left[b] == names[y]);
        }
        if left.contains(name) {
            let a = choose|a: int| 0 <= a < left.len() && left[a] == name;
            let x = if a < k {
                a
            } else {
                a + 1
            };
            assert(names[x] == names[k]);
        }
    }
}

/// What is found in one project.
pub struct HitModel {
    pub project: Seq<char>,
    pub symbols: Seq<IndexedModel>,
}

/// What is found in the projects at the first `n` places of an order; projects
/// in which nothing is found are left out.
pub open spec fn hits(v: Seq<ProjectModel>, order: Seq<int>, n: nat, q: Seq<char>) -> Seq<HitModel>
    decreases n,
{
    if n == 0 {
        Seq::empty()
    } else {
        let before = hits(v, order, (n - 1) as nat, q);
        let p = v[order[n - 1]];
        let found = matching(p.symbols, q);
        if found.len() == 0 {
            before
        } else {
            before.push(HitModel { project: p.project_name, symbols: found })
        }
    }
}

/// What is found in all projects, in the order of their names.
pub open spec fn all_hits(v: Seq<ProjectModel>, q: Seq<char>) -> Seq<HitModel> {
    let names = project_names(v);
    hits(v, sorted_order(names.len(), by_text(names)), names.len(), q)
}

/// How many symbols the first `n` hits hold.
pub open spec fn hit_count(h: Seq<HitModel>, n: nat) -> nat
    decreases n,
{
    if n == 0 {
        0
    } else {
        hit_count(h, (n - 1) as nat) + h[n - 1].symbols.len()
    }
}

/// How many symbols the projects at these places have.
spec fn count_at(v: Seq<ProjectModel>, order: Seq<int>) -> nat
    decreases order.len(),
{
    if order.len() == 0 {
        0
    } else {
        count_at(v, order.drop_last()) + v[order.last()].symbols.len()
    }
}

proof fn lemma_count_inserted(v: Seq<ProjectModel>, order: Seq<int>, p: int, x: int)
    requires
        0 <= p <= order.len(),
    ensures
        count_at(v, order.insert(p, x)) == count_at(v, order) + v[x].symbols.len(),
    decreases order.len(),
{
    let all = order.insert(p, x);
    if p == order.len() {
        assert(all.drop_last() =~= order);
    } else {
        assert(all.last() == order.last());
        assert(all.drop_last() =~= order.drop_last().insert(p, x));
        lemma_count_inserted(v, order.drop_last(), p, x);
    }
}

proof fn lemma_count_sorted(v: Seq<ProjectModel>, n: nat, before: spec_fn(int, int) -> bool)
    ensures
        count_at(v, sorted_order(n, before)) == symbol_count(v, n),
        sorted_order(n, before).len() == n,
    decreases n,
{
    if n > 0 {
        let rest = sorted_order((n - 1) as nat, before);
        lemma_count_sorted(v, (n - 1) as nat, before);
        lemma_slot_bound(rest, n - 1, before);
        lemma_count_inserted(v, rest, slot(rest, n - 1, before), n - 1);
    }
}

proof fn lemma_all_match(symbols: Seq<IndexedModel>)
    ensures
        matching(symbols, Seq::empty()) == symbols,
    decreases symbols.len(),
{
    if symbols.len() > 0 {
        lemma_all_match(symbols.drop_last());
        let name = lowercase(symbols.last().name);
        assert(name.subrange(0, 0) =~= Seq::<char>::empty());
        assert(occurs_at(name, Seq::empty(), 0));
        assert(symbols =~= symbols.drop_last().push(symbols.last()));
    } else {
        assert(symbols =~= Seq::empty());
    }
}

proof fn lemma_hit_count_prefix(a: Seq<HitModel>, b: Seq<HitModel>, n: nat)
    requires
        n <= a.len(),
        n <= b.len(),
        forall|i: int| 0 <= i < n ==> a[i] == b[i],
    ensures
        hit_count(a, n) == hit_count(b, n),
    decreases n,
{
    if n > 0 {
        lemma_hit_count_prefix(a, b, (n - 1) as nat);
    }
}

proof fn lemma_hits_count(v: Seq<ProjectModel>, order: Seq<int>, n: nat)
    requires
        n <= order.len(),
    ensures
        ({
            let h = hits(v, order, n, Seq::empty());
            hit_count(h, h.len()) == count_at(v, order.take(n as int))
        }),
    decreases n,
{
    if n > 0 {
        let m = (n - 1) as nat;
        lemma_hits_count(v, order, m);
        let part = order.take(n as int);
        assert(part.drop_last() =~= order.take(m as int));
        assert(part.last() == order[m as int]);
        lemma_all_match(v[order[m as int]].symbols);
        let before = hits(v, order, m, Seq::empty());
        let after = hits(v, order, n, Seq::empty());
        if v[order[m as int]].symbols.len() > 0 {
            lemma_hit_count_prefix(before, after, before.len());
        }
    }
}

/// A search for nothing finds every symbol: what it finds in all projects is as
/// much as there is.
pub proof fn law_empty_query_finds_all(v: Seq<ProjectModel>)
    ensures
        ({
            let found = all_hits(v, Seq::empty());
            hit_count(found, found.len()) == symbol_count(v, v.len())
        }),
        v.len() == 0 ==> symbol_count(v, v.len()) == 0,
{
    let names = project_names(v);
    let order = sorted_order(names.len(), by_text(names));
    lemma_count_sorted(v, names.len(), by_text(names));
    lemma_hits_count(v, order, order.len());
    assert(order.take(order.len() as int) =~= order);
}

/// What is found.
pub open spec fn hit_models(v: Seq<(&str, Vec<&IndexedSymbol>)>) -> Seq<HitModel> {
    v.map_values(
        |h: (&str, Vec<&IndexedSymbol>)|
            HitModel { project: h.0@, symbols: indexed_ref_models(h.1@) },
    )
}

fn find_matching<'a>(symbols: &'a [IndexedSymbol], q: &str) -> (r: Vec<&'a IndexedSymbol>)
    ensures
        indexed_ref_models(r@) == matching(indexed_models(symbols@), q@),
{
    let ghost all = indexed_models(symbols@);
    let mut out: Vec<&IndexedSymbol> = Vec::new();
    let mut i: usize = 0;
    assert(indexed_ref_models(out@) =~= matching(all.take(0), q@));
    while i < symbols.len()
        invariant
            i <= symbols@.len(),
            all == indexed_models(symbols@),
            indexed_ref_models(out@) == matching(all.take(i as int), q@),
        decreases symbols@.len() - i,
    {
        let ghost before = indexed_ref_models(out@);
        proof {
            assert(all.take(i + 1).drop_last() =~= all.take(i as int));
            assert(all.take(i + 1).last() == symbols@[i as int]@);
        }
        let name = symbols[i].name.as_str().to_lowercase();
        if str_has(name.as_str(), q) {
            out.push(&symbols[i]);
            assert(indexed_ref_models(out@) =~= before.push(all[i as int]));
        }
        i += 1;
    }
    assert(all.take(i as int) =~= all);
    out
}

/// The symbols of many projects.
#[derive(Debug)]
pub struct FederatedIndex {
    indices: Vec<ProjectIndex>,
}

impl View for FederatedIndex {
    type V = Seq<ProjectModel>;

    closed spec fn view(&self) -> Seq<ProjectModel> {
        project_models(self.indices@)
    }
}

impl FederatedIndex {
    /// No projects.
    pub fn new() -> (r: FederatedIndex)
        ensures
            r@.len() == 0,
            projects_differ(r@),
    {
        FederatedIndex { indices: Vec::new() }
    }

    fn place(&self, name: &str) -> (r: usize)
        ensures
            r == key_place(project_names(self@), name@),
            r <= self@.len() == self.indices@.len(),
    {
        let ghost all = project_names(self@);
        let mut i: usize = 0;
        assert(all.skip(0) =~= all);
        while i < self.indices.len()
            invariant
                i <= self.indices@.len(),
                self@.len() == self.indices@.len(),
                all == project_names(project_models(self.indices@)),
                key_place(all, name@) == i + key_place(all.skip(i as int), name@),
            decreases self.indices@.len() - i,
        {
            proof {
                assert(all.skip(i as int)[0] == self.indices@[i as int]@.project_name);
                assert(all.skip(i as int).skip(1) =~= all.skip(i + 1));
            }
            if same_text(self.indices[i].project_name.as_str(), name) {
                return i;
            }
            i += 1;
        }
        i
    }

    /// Adds a project, in place of one of its name.
    pub fn add_project(&mut self, index: ProjectIndex)
        requires
            projects_differ(old(self)@),
        ensures
            final(self)@ == with_project(old(self)@, index@),
            projects_differ(final(self)@),
    {
        let ghost before = self@;
        let ghost p = index@;
        let i: usize = self.place(index.project_name.as_str());
        proof {
            law_projects_come_and_go(before, p, p.project_name);
        }
        if i < self.indices.len() {
            self.indices.set(i, index);
            assert(self@ =~= before.update(i as int, p));
        } else {
            self.indices.push(index);
            assert(self@ =~= before.push(p));
        }
    }

    /// Removes a project, if there is one of that name.
    pub fn remove_project(&mut self, name: &str)
        requires
            projects_differ(old(self)@),
        ensures
            final(self)@ == without_project(old(self)@, name@),
            projects_differ(final(self)@),
    {
        let ghost before = self@;
        let i: usize = self.place(name);
        proof {
            law_projects_come_and_go(before, before[0], name@);
        }
        if i < self.indices.len() {
            self.indices.remove(i);
            assert(self@ =~= before.remove(i as int));
        }
    }

    fn names(&self) -> (r: Vec<String>)
        ensures
            texts(r@) == project_names(self@),
            r@.len() == self.indices@.len(),
    {
        let ghost all = project_names(self@);
        let mut out: Vec<String> = Vec::new();
        let mut i: usize = 0;
        assert(texts(out@) =~= all.take(0));
        while i < self.indices.len()
            invariant
                i <= self.indices@.len(),
                out@.len() == i,
                all == project_names(project_models(self.indices@)),
                texts(out@) == all.take(i as int),
            decreases self.indices@.len() - i,
        {
            out.push(self.indices[i].project_name.clone());
            assert(texts(out@) =~= all.take(i + 1));
            i += 1;
        }
        assert(all.take(i as int) =~= all);
        out
    }

    /// The symbols of all projects whose names hold a text, whatever the case,
    /// by project in the order of names.
    pub fn search_all(&self, query: &str) -> (r: Vec<(&str, Vec<&IndexedSymbol>)>)
        ensures
            hit_models(r@) == all_hits(self@, lowercase(query@)),
            query@.len() == 0 ==> hit_count(hit_models(r@), r@.len()) == symbol_count(
                self@,
                self@.len(),
            ),
    {
        let q = query.to_lowercase();
        proof {
            assert(query@.len() == 0 ==> q@ =~= Seq::empty());
            law_empty_query_finds_all(self@);
        }
        let names = self.names();
        let order = order_texts(names.as_slice());
        let ghost o = places(order@);
        let mut out: Vec<(&str, Vec<&IndexedSymbol>)> = Vec::new();
        let mut n: usize = 0;
        assert(hit_models(out@) =~= hits(self@, o, 0, q@));
        while n < order.len()
            invariant
                n <= order@.len() == self.indices@.len(),
                o == places(order@),
                forall|a: int| 0 <= a < order@.len() ==> (#[trigger] order@[a])
                    < self.indices@.len(),
                hit_models(out@) == hits(self@, o, n as nat, q@),
            decreases order@.len() - n,
        {
            let ghost before = hit_models(out@);
            let at: usize = order[n];
            proof {
                assert(o[n as int] == at);
                assert(self@[at as int] == self.indices@[at as int]@);
            }
            let found = find_matching(self.indices[at].symbols.as_slice(), q.as_str());
            let ghost h = HitModel {
                project: self@[at as int].project_name,
                symbols: indexed_ref_models(found@),
            };
            if found.len() > 0 {
                out.push((self.indices[at].project_name.as_str(), found));
                assert(hit_models(out@) =~= before.push(h));
            }
            n += 1;
        }
        out
    }

    /// The symbols of one project whose names hold a text, whatever the case.
    pub fn search_project(&self, project: &str, query: &str) -> (r: Vec<&IndexedSymbol>)
        ensures
            indexed_ref_models(r@) == ({
                let at = key_place(project_names(self@), project@);
                if at < self@.len() {
                    matching(self@[at].symbols, lowercase(query@))
                } else {
                    Seq::empty()
                }
            }),
    {
        let q = query.to_lowercase();
        let i: usize = self.place(project);
        if i < self.indices.len() {
            assert(self@[i as int] == self.indices@[i as int]@);
            find_matching(self.indices[i].symbols.as_slice(), q.as_str())
        } else {
            let none: Vec<&IndexedSymbol> = Vec::new();
            assert(indexed_ref_models(none@) =~= Seq::empty());
            none
        }
    }

    /// The names of the projects, in order.
    pub fn list_projects(&self) -> (r: Vec<String>)
        ensures
            texts(r@) == in_text_order(project_names(self@)),
    {
        let names = self.names();
        sort_texts(names.as_slice())
    }

    /// How many symbols there are.
    pub fn total_symbols(&self) -> (r: usize)
        requires
            symbol_count(self@, self@.len()) <= usize::MAX,
        ensures
            r == symbol_count(self@, self@.len()),
    {
        let mut n: usize = 0;
        let mut i: usize = 0;
        while i < self.indices.len()
            invariant
                i <= self.indices@.len() == self@.len(),
                n == symbol_count(self@, i as nat),
                symbol_count(self@, self@.len()) <= usize::MAX,
            decreases self.indices@.len() - i,
        {
            proof {
                lemma_symbol_count(self@, (i + 1) as nat, self@.len());
                assert(self@[i as int] == self.indices@[i as int]@);
            }
            n += self.indices[i].symbols.len();
            i += 1;
        }
        n
    }
}

proof fn lemma_symbol_count(v: Seq<ProjectModel>, n: nat, m: nat)
    requires
        n <= m,
    ensures
        symbol_count(v, n) <= symbol_count(v, m),
    decreases m,
{
    if n < m {
        lemma_symbol_count(v, n, (m - 1) as nat);
    }
}

impl Default for FederatedIndex {
    fn default() -> (r: FederatedIndex)
        ensures
            r@.len() == 0,
            projects_differ(r@),
    {
        FederatedIndex::new()
    }
}

/// A search finds the symbols whose names hold the text, in their order.
pub proof fn law_symbols_are_found_by_name(symbols: Seq<IndexedModel>, q: Seq<char>)
    ensures
        matching(symbols, q) == symbols.filter(
            |s: IndexedModel| contains_text(lowercase(s.name), q),
        ),
    decreases symbols.len(),
{
    reveal(Seq::filter);
    if symbols.len() > 0 {
        law_symbols_are_found_by_name(symbols.drop_last(), q);
    }
}

/// A hit is what is found in one project under its name, and it is never empty; every
/// project in which something is found has one.
pub proof fn law_hits_are_what_projects_hold(
    v: Seq<ProjectModel>,
    order: Seq<int>,
    n: nat,
    q: Seq<char>,
)
    requires
        n <= order.len(),
    ensures
        forall|k: int|
            0 <= k < hits(v, order, n, q).len() ==> (#[trigger] hits(v, order, n, q)[k]).symbols.len()
                > 0 && exists|i: int|
                0 <= i < n && v[#[trigger] order[i]].project_name == hits(
                    v,
                    order,
                    n,
                    q,
                )[k].project && matching(v[order[i]].symbols, q) == hits(v, order, n, q)[k].symbols,
        forall|i: int|
            0 <= i < n && matching(v[#[trigger] order[i]].symbols, q).len() > 0 ==> hits(
                v,
                order,
                n,
                q,
            ).contains(
                HitModel {
                    project: v[order[i]].project_name,
                    symbols: matching(v[order[i]].symbols, q),
                },
            ),
    decreases n,
{
    if n > 0 {
        let m = (n - 1) as nat;
        law_hits_are_what_projects_hold(v, order, m, q);
        let before = hits(v, order, m, q);
        let all = hits(v, order, n, q);
        assert forall|k: int| 0 <= k < all.len() implies (#[trigger] all[k]).symbols.len() > 0
            && exists|i: int|
            0 <= i < n && v[#[trigger] order[i]].project_name == all[k].project && matching(
                v[order[i]].symbols,
                q,
            ) == all[k].symbols by {
            if k < before.len() {
                assert(all[k] == before[k]);
                let i = choose|i: int|
                    0 <= i < m && v[#[trigger] order[i]].project_name == before[k].project
                        && matching(v[order[i]].symbols, q) == before[k].symbols;
                assert(0 <= i < n && v[order[i]].project_name == all[k].project);
            } else {
                assert(v[order[n - 1]].project_name == all[k].project);
            }
        }
        assert forall|i: int|
            0 <= i < n && matching(v[#[trigger] order[i]].symbols, q).len()
                > 0 implies all.contains(
            HitModel {
                project: v[order[i]].project_name,
                symbols: matching(v[order[i]].symbols, q),
            },
        ) by {
            let h = HitModel {
                project: v[order[i]].project_name,
                symbols: matching(v[order[i]].symbols, q),
            };
            if i < m {
                assert(before.contains(h));
                let k = choose|k: int| 0 <= k < before.len() && before[k] == h;
                assert(all[k] == h);
            } else {
                assert(all[before.len() as int] == h);
            }
        }
    }
}

} // verus!
