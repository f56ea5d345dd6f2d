use caduceus::json::Json;
use caduceus::space::{PointText, PositionText, SpaceCluster, SpacePoint, VectorSpaceMap};

fn make_point(id: &str, x: f64, y: f64, z: f64) -> SpacePoint<f64> {
    SpacePoint {
        id: id.to_string(),
        label: id.to_string(),
        x,
        y,
        z,
        cluster_id: None,
        file: format!("src/{id}.rs"),
        relevance: 0.5,
    }
}

/// How far the points are, in thousandths.
fn distances(m: &VectorSpaceMap<f64>, x: f64, y: f64, z: f64) -> Vec<i64> {
    m.points
        .iter()
        .map(|p| {
            let d = ((p.x - x).powi(2) + (p.y - y).powi(2) + (p.z - z).powi(2)).sqrt();
            (d * 1000.0).round() as i64
        })
        .collect()
}

fn highlight(m: &mut VectorSpaceMap<f64>, query: &str, threshold: f64) {
    let faint: Vec<bool> = m.points.iter().map(|p| p.relevance <= threshold).collect();
    m.highlight_relevant(query, &faint, 1.0, 0.0);
}

fn position(x: f64, y: f64, z: f64) -> PositionText {
    PositionText { x: format!("{x:?}"), y: format!("{y:?}"), z: format!("{z:?}") }
}

#[test]
fn vsm_add_points_and_clusters() {
    let mut m = VectorSpaceMap::new();
    m.add_point(make_point("p1", 0.0, 0.0, 0.0));
    m.add_point(make_point("p2", 1.0, 1.0, 1.0));
    m.add_cluster(SpaceCluster {
        id: "c1".to_string(),
        label: "cluster".to_string(),
        color: "#ff0000".to_string(),
        center_x: 0.5,
        center_y: 0.5,
        center_z: 0.5,
        point_count: 2,
    });
    assert_eq!(m.points.len(), 2);
    assert_eq!(m.clusters.len(), 1);
}

#[test]
fn vsm_nearest_to_query() {
    let mut m = VectorSpaceMap::new();
    m.add_point(make_point("near", 0.1, 0.0, 0.0));
    m.add_point(make_point("far", 100.0, 100.0, 100.0));
    let nearest = m.nearest_to_query(&distances(&m, 0.0, 0.0, 0.0), 1);
    assert_eq!(nearest.len(), 1);
    assert_eq!(nearest[0].id, "near");
}

#[test]
fn vsm_highlight_relevant() {
    let mut m = VectorSpaceMap::new();
    let mut p = make_point("auth", 0.0, 0.0, 0.0);
    p.file = "src/auth.rs".to_string();
    p.relevance = 0.1;
    m.add_point(p);
    m.add_point(make_point("other", 1.0, 1.0, 1.0));
    highlight(&mut m, "auth", 0.5);
    assert_eq!(m.points[0].relevance, 1.0); // matched
    assert_eq!(m.points[1].relevance, 0.0); // below threshold, set to 0
}

#[test]
fn vsm_render_json_structure() {
    let mut m = VectorSpaceMap::new();
    m.add_point(make_point("p1", 1.0, 2.0, 3.0));
    let numbers =
        vec![PointText { position: position(1.0, 2.0, 3.0), relevance: "0.5".to_string() }];
    let json = m.to_render_json(&numbers, &[]);
    let pts = json.get("points").unwrap().as_array().unwrap();
    assert_eq!(pts.len(), 1);
    assert_eq!(pts[0].get_str("id"), Some("p1"));
    let pos = pts[0].get("position").unwrap().as_array().unwrap();
    assert!(matches!(&pos[0], Json::Number(n) if n.parse::<f64>() == Ok(1.0)));
}

#[test]
fn equally_far_points_keep_their_order() {
    let mut m: VectorSpaceMap<f64> = VectorSpaceMap::default();
    for (id, x) in [("c", 3.0), ("a", 1.0), ("b", -1.0), ("d", 2.0)] {
        m.add_point(make_point(id, x, 0.0, 0.0));
    }
    let ids = |k: usize| -> Vec<String> {
        m.nearest_to_query(&distances(&m, 0.0, 0.0, 0.0), k).iter().map(|p| p.id.clone()).collect()
    };
    assert_eq!(ids(9), vec!["a", "b", "d", "c"]);
    assert_eq!(ids(2), vec!["a", "b"]);
    assert!(ids(0).is_empty());
    let extremes = m.nearest_to_query(&[i64::MIN, i64::MAX, 0, -1], 4);
    let ids: Vec<&str> = extremes.iter().map(|p| p.id.as_str()).collect();
    assert_eq!(ids, vec!["c", "d", "b", "a"]);
}

#[test]
fn strong_points_stay_as_they_are() {
    let mut m = VectorSpaceMap::new();
    m.add_point(make_point("plain", 0.0, 0.0, 0.0));
    highlight(&mut m, "other", 0.4);
    assert_eq!(m.points[0].relevance, 0.5);
    highlight(&mut m, "lai", 0.4);
    assert_eq!(m.points[0].relevance, 1.0);
}

#[test]
fn clusters_are_drawn() {
    let mut m: VectorSpaceMap<f64> = VectorSpaceMap::new();
    m.add_cluster(SpaceCluster {
        id: "c1".to_string(),
        label: "cluster".to_string(),
        color: "#ff0000".to_string(),
        center_x: 0.5,
        center_y: 0.5,
        center_z: 0.5,
        point_count: 2,
    });
    let json = m.to_render_json(&[], &[position(0.5, 0.5, 0.5)]);
    let c = &json.get("clusters").unwrap().as_array().unwrap()[0];
    assert_eq!(c.get_str("color"), Some("#ff0000"));
    assert_eq!(c.get("pointCount").unwrap().as_u64(), Some(2));
    assert_eq!(c.get("center").unwrap().as_array().unwrap().len(), 3);
}
