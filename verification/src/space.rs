//! A map of files as points in space. The coordinates are values that the map
//! only carries: whoever holds it measures them.

use crate::json::{json_text, list_models, push_entry, push_value, Json, JsonModel};
use crate::numeral::{decimal, decimal_text};
use crate::sorting::{
    ahead, by_number, is_sorted, law_sorting_sorts, lemma_by_number_is_order, order_numbers,
    places,
};
use crate::text::{contains_text, str_has};
use vstd::prelude::*;
use vstd::string::*;

verus! {

/// A file, or a part of one, as a point.
#[derive(Debug, Clone)]
pub struct SpacePoint<F> {
    pub id: String,
    pub label: String,
    pub x: F,
    pub y: F,
    pub z: F,
    pub cluster_id: Option<String>,
    pub file: String,
    pub relevance: F,
}

/// A group of points.
#[derive(Debug, Clone)]
pub struct SpaceCluster<F> {
    pub id: String,
    pub label: String,
    pub color: String,
    pub center_x: F,
    pub center_y: F,
    pub center_z: F,
    pub point_count: usize,
}

/// Points and their groups.
#[derive(Debug)]
pub struct VectorSpaceMap<F> {
    pub points: Vec<SpacePoint<F>>,
    pub clusters: Vec<SpaceCluster<F>>,
}

/// A point is about `query`: its file or its label holds the text.
pub open spec fn is_about<F>(p: SpacePoint<F>, query: Seq<char>) -> bool {
    contains_text(p.file@, query) || contains_text(p.label@, query)
}

/// A point with another relevance.
pub open spec fn with_relevance<F>(p: SpacePoint<F>, relevance: F) -> SpacePoint<F> {
    SpacePoint { relevance, ..p }
}

/// A point after a search: one about the query has the full relevance, a faint
/// other one has none, and the rest keep theirs.
pub open spec fn highlighted<F>(
    p: SpacePoint<F>,
    query: Seq<char>,
    faint: bool,
    full: F,
    none: F,
) -> SpacePoint<F> {
    if is_about(p, query) {
        with_relevance(p, full)
    } else if faint {
        with_relevance(p, none)
    } else {
        p
    }
}

/// Places with the least number first.
pub open spec fn by_distance(keys: Seq<i64>) -> spec_fn(int, int) -> bool {
    |i: int, j: int| keys[i] < keys[j]
}

impl<F: Copy> VectorSpaceMap<F> {
    /// A map without points.
    pub fn new() -> (r: VectorSpaceMap<F>)
        ensures
            r.points@ == Seq::<SpacePoint<F>>::empty(),
            r.clusters@ == Seq::<SpaceCluster<F>>::empty(),
    {
        VectorSpaceMap { points: Vec::new(), clusters: Vec::new() }
    }

    /// Adds a point.
    pub fn add_point(&mut self, point: SpacePoint<F>)
        ensures
            final(self).points@ == old(self).points@.push(point),
            final(self).clusters == old(self).clusters,
    {
        self.points.push(point);
    }

    /// Adds a group.
    pub fn add_cluster(&mut self, cluster: SpaceCluster<F>)
        ensures
            final(self).clusters@ == old(self).clusters@.push(cluster),
            final(self).points == old(self).points,
    {
        self.clusters.push(cluster);
    }

    /// Gives the points about `query` the full relevance, and takes it from the
    /// others that are faint.
    pub fn highlight_relevant(&mut self, query: &str, faint: &[bool], full: F, none: F)
        requires
            faint@.len() == old(self).points@.len(),
        ensures
            final(self).clusters == old(self).clusters,
            final(self).points@.len() == old(self).points@.len(),
            forall|i: int|
                0 <= i < old(self).points@.len() ==> #[trigger] final(self).points@[i]
                    == highlighted(old(self).points@[i], query@, faint@[i], full, none),
    {
        let ghost before = self.points@;
        let n: usize = self.points.len();
        let mut i: usize = 0;
        while i < n
            invariant
                n == before.len(),
                i <= n,
                faint@.len() == n,
                before == old(self).points@,
                self.clusters == old(self).clusters,
                self.points@.len() == n,
                forall|j: int|
                    0 <= j < i ==> #[trigger] self.points@[j] == highlighted(
                        before[j],
                        query@,
                        faint@[j],
                        full,
                        none,
                    ),
                forall|j: int| i <= j < n ==> #[trigger] self.points@[j] == before[j],
            decreases n - i,
        {
            assert(self.points@[i as int] == before[i as int]);
            let about = str_has(self.points[i].file.as_str(), query) || str_has(
                self.points[i].label.as_str(),
                query,
            );
            if about {
                self.points[i].relevance = full;
            } else if faint[i] {
                self.points[i].relevance = none;
            }
            i += 1;
        }
    }

    /// The `k` points with the least distances, the nearest first. Of points that
    /// are equally far the earlier one comes first.
    pub fn nearest_to_query(&self, distances: &[i64], k: usize) -> (r: Vec<&SpacePoint<F>>)
        requires
            distances@.len() == self.points@.len(),
        ensures
            r@.len() == (if k < self.points@.len() {
                k as nat
            } else {
                self.points@.len()
            }),
            exists|order: Seq<int>| #[trigger]
                is_sorted(order, self.points@.len(), by_distance(distances@)) && forall|a: int|
                    0 <= a < r@.len() ==> *(#[trigger] r@[a]) == self.points@[order[a]],
    {
        let n: usize = self.points.len();
        let mut keys: Vec<i64> = Vec::new();
        let mut i: usize = 0;
        while i < n
            invariant
                n == distances@.len(),
                i <= n,
                keys@.len() == i,
                forall|j: int| 0 <= j < i ==> #[trigger] keys@[j] == -1 - distances@[j],
            decreases n - i,
        {
            keys.push(-1 - distances[i]);
            i += 1;
        }
        let order = order_numbers(keys.as_slice());
        let ghost all = places(order@);
        proof {
            let before = by_number(keys@);
            let nearer = by_distance(distances@);
            lemma_by_number_is_order(keys@);
            law_sorting_sorts(n as nat, before);
            assert forall|a: int| 0 <= a < n implies 0 <= #[trigger] all[a] < n by {
                assert(all[a] == order@[a] as int);
            }
            assert forall|a: int, b: int| 0 <= a < b < n implies ahead(
                #[trigger] all[a],
                #[trigger] all[b],
                nearer,
            ) by {
                assert(ahead(all[a], all[b], before));
                assert(keys@[all[a]] == -1 - distances@[all[a]]);
                assert(keys@[all[b]] == -1 - distances@[all[b]]);
            }
            assert(is_sorted(all, n as nat, nearer));
        }
        let mut out: Vec<&SpacePoint<F>> = Vec::new();
        let mut a: usize = 0;
        while a < n && a < k
            invariant
                n == self.points@.len() == order@.len(),
                a <= n,
                a <= k,
                all == places(order@),
                forall|b: int| 0 <= b < n ==> (#[trigger] order@[b]) < n,
                out@.len() == a,
                forall|b: int| 0 <= b < a ==> *(#[trigger] out@[b]) == self.points@[all[b]],
            decreases n - a,
        {
            assert(all[a as int] == order@[a as int] as int);
            out.push(&self.points[order[a]]);
            a += 1;
        }
        out
    }
}

// ── The map as JSON ────────────────────────────────────────────────────────
/// Three coordinates, as JSON writes them.
#[derive(Debug)]
pub struct PositionText {
    pub x: String,
    pub y: String,
    pub z: String,
}

/// The numbers of a point, as JSON writes them.
#[derive(Debug)]
pub struct PointText {
    pub position: PositionText,
    pub relevance: String,
}

/// Three coordinates as a list.
pub open spec fn position_json(p: PositionText) -> JsonModel {
    JsonModel::List(
        seq![JsonModel::Number(p.x@), JsonModel::Number(p.y@), JsonModel::Number(p.z@)],
    )
}

/// A point for those who draw it.
pub open spec fn point_json<F>(p: SpacePoint<F>, n: PointText) -> JsonModel {
    JsonModel::Object(
        seq![
            (
                "clusterId"@,
                match p.cluster_id {
                    Some(c) => JsonModel::Text(c@),
                    None => JsonModel::Null,
                },
            ),
            ("file"@, JsonModel::Text(p.file@)),
            ("id"@, JsonModel::Text(p.id@)),
            ("label"@, JsonModel::Text(p.label@)),
            ("position"@, position_json(n.position)),
            ("relevance"@, JsonModel::Number(n.relevance@)),
        ],
    )
}

/// A group for those who draw it.
pub open spec fn cluster_json<F>(c: SpaceCluster<F>, center: PositionText) -> JsonModel {
    JsonModel::Object(
        seq![
            ("center"@, position_json(center)),
            ("color"@, JsonModel::Text(c.color@)),
            ("id"@, JsonModel::Text(c.id@)),
            ("label"@, JsonModel::Text(c.label@)),
            ("pointCount"@, JsonModel::Number(decimal(c.point_count as nat))),
        ],
    )
}

fn render_position(p: &PositionText) -> (r: Json)
    ensures
        r@ == position_json(*p),
{
    let mut v: Vec<Json> = Vec::new();
    push_value(&mut v, Json::Number(p.x.clone()));
    push_value(&mut v, Json::Number(p.y.clone()));
    push_value(&mut v, Json::Number(p.z.clone()));
    let r = Json::List(v);
    assert(r@->List_0 =~= position_json(*p)->List_0);
    r
}

fn render_point<F>(p: &SpacePoint<F>, n: &PointText) -> (r: Json)
    ensures
        r@ == point_json(*p, *n),
{
    let mut v: Vec<(String, Json)> = Vec::new();
    let group = match &p.cluster_id {
        Some(c) => json_text(c.as_str()),
        None => Json::Null,
    };
    push_entry(&mut v, "clusterId", group);
    push_entry(&mut v, "file", json_text(p.file.as_str()));
    push_entry(&mut v, "id", json_text(p.id.as_str()));
    push_entry(&mut v, "label", json_text(p.label.as_str()));
    push_entry(&mut v, "position", render_position(&n.position));
    push_entry(&mut v, "relevance", Json::Number(n.relevance.clone()));
    let r = Json::Object(v);
    assert(r@->Object_0 =~= point_json(*p, *n)->Object_0);
    r
}

fn render_cluster<F>(c: &SpaceCluster<F>, center: &PositionText) -> (r: Json)
    ensures
        r@ == cluster_json(*c, *center),
{
    let mut v: Vec<(String, Json)> = Vec::new();
    push_entry(&mut v, "center", render_position(center));
    push_entry(&mut v, "color", json_text(c.color.as_str()));
    push_entry(&mut v, "id", json_text(c.id.as_str()));
    push_entry(&mut v, "label", json_text(c.label.as_str()));
    push_entry(&mut v, "pointCount", Json::Number(decimal_text(c.point_count as u64)));
    let r = Json::Object(v);
    assert(r@->Object_0 =~= cluster_json(*c, *center)->Object_0);
    r
}

impl<F: Copy> VectorSpaceMap<F> {
    /// The map for those who draw it, with the numbers as they are to be written.
    pub open spec fn render_json(
        &self,
        points: Seq<PointText>,
        centers: Seq<PositionText>,
    ) -> JsonModel {
        JsonModel::Object(
            seq![
                (
                    "clusters"@,
                    JsonModel::List(
                        Seq::new(
                            self.clusters@.len(),
                            |i: int| cluster_json(self.clusters@[i], centers[i]),
                        ),
                    ),
                ),
                (
                    "points"@,
                    JsonModel::List(
                        Seq::new(
                            self.points@.len(),
                            |i: int| point_json(self.points@[i], points[i]),
                        ),
                    ),
                ),
            ],
        )
    }

    /// The map for those who draw it.
    pub fn to_render_json(&self, points: &[PointText], centers: &[PositionText]) -> (r: Json)
        requires
            points@.len() == self.points@.len(),
            centers@.len() == self.clusters@.len(),
        ensures
            r@ == self.render_json(points@, centers@),
    {
        let ghost goal = self.render_json(points@, centers@)->Object_0;
        let mut cs: Vec<Json> = Vec::new();
        let mut i: usize = 0;
        while i < self.clusters.len()
            invariant
                i <= self.clusters@.len() == centers@.len(),
                cs@.len() == i,
                goal == self.render_json(points@, centers@)->Object_0,
                list_models(cs@, cs@.len()) =~= goal[0].1->List_0.take(i as int),
            decreases self.clusters@.len() - i,
        {
            push_value(&mut cs, render_cluster(&self.clusters[i], &centers[i]));
            i += 1;
        }
        let mut ps: Vec<Json> = Vec::new();
        let mut j: usize = 0;
        while j < self.points.len()
            invariant
                j <= self.points@.len() == points@.len(),
                ps@.len() == j,
                goal == self.render_json(points@, centers@)->Object_0,
                list_models(ps@, ps@.len()) =~= goal[1].1->List_0.take(j as int),
            decreases self.points@.len() - j,
        {
            push_value(&mut ps, render_point(&self.points[j], &points[j]));
            j += 1;
        }
        proof {
            assert(goal[0].1->List_0.take(i as int) =~= goal[0].1->List_0);
            assert(goal[1].1->List_0.take(j as int) =~= goal[1].1->List_0);
        }
        let mut v: Vec<(String, Json)> = Vec::new();
        push_entry(&mut v, "clusters", Json::List(cs));
        push_entry(&mut v, "points", Json::List(ps));
        let r = Json::Object(v);
        assert(r@->Object_0 =~= goal);
        r
    }
}

impl<F: Copy> Default for VectorSpaceMap<F> {
    fn default() -> (r: VectorSpaceMap<F>)
        ensures
            r.points@ == Seq::<SpacePoint<F>>::empty(),
            r.clusters@ == Seq::<SpaceCluster<F>>::empty(),
    {
        VectorSpaceMap::new()
    }
}

// ── Laws ───────────────────────────────────────────────────────────────────
/// A search changes nothing of a point but its relevance: one that is about the query has
/// the full one, and only a faint one that is not loses its own.
pub proof fn law_searches_change_the_relevance_alone<F>(
    p: SpacePoint<F>,
    query: Seq<char>,
    faint: bool,
    full: F,
    none: F,
)
    ensures
        ({
            let h = highlighted(p, query, faint, full, none);
            &&& h.id == p.id
            &&& h.file == p.file
            &&& h.label == p.label
            &&& h.cluster_id == p.cluster_id
            &&& contains_text(p.file@, query) || contains_text(p.label@, query) ==> h.relevance
                == full
            &&& !(contains_text(p.file@, query) || contains_text(p.label@, query)) && faint
                ==> h.relevance == none
            &&& !(contains_text(p.file@, query) || contains_text(p.label@, query)) && !faint
                ==> h == p
        }),
{
}

} // verus!
