use caduceus::federation::{FederatedIndex, IndexedSymbol, ProjectIndex};

fn make_project(name: &str, symbols: Vec<(&str, &str)>) -> ProjectIndex {
    ProjectIndex {
        project_name: name.to_string(),
        root_path: format!("/projects/{name}"),
        file_count: symbols.len(),
        last_indexed: 0,
        symbols: symbols
            .into_iter()
            .map(|(sym, kind)| IndexedSymbol {
                name: sym.to_string(),
                kind: kind.to_string(),
                file: format!("src/{sym}.rs"),
                line: 1,
            })
            .collect(),
    }
}

#[test]
fn federated_index_empty() {
    let fi = FederatedIndex::new();
    assert_eq!(fi.total_symbols(), 0);
    assert!(fi.list_projects().is_empty());
}

#[test]
fn federated_index_add_and_list_projects() {
    let mut fi = FederatedIndex::new();
    fi.add_project(make_project("alpha", vec![("Foo", "struct")]));
    fi.add_project(make_project("beta", vec![("Bar", "fn")]));
    let projects = fi.list_projects();
    assert_eq!(projects, vec!["alpha", "beta"]);
}

#[test]
fn federated_index_total_symbols() {
    let mut fi = FederatedIndex::new();
    fi.add_project(make_project("a", vec![("X", "fn"), ("Y", "fn")]));
    fi.add_project(make_project("b", vec![("Z", "struct")]));
    assert_eq!(fi.total_symbols(), 3);
}

#[test]
fn federated_index_remove_project() {
    let mut fi = FederatedIndex::new();
    fi.add_project(make_project("a", vec![("X", "fn")]));
    fi.remove_project("a");
    assert!(fi.list_projects().is_empty());
    assert_eq!(fi.total_symbols(), 0);
}

#[test]
fn federated_index_search_all_finds_across_projects() {
    let mut fi = FederatedIndex::new();
    fi.add_project(make_project(
        "alpha",
        vec![("FooParser", "struct"), ("BarHelper", "fn")],
    ));
    fi.add_project(make_project("beta", vec![("FooBuilder", "struct")]));
    let results = fi.search_all("foo");
    assert_eq!(results.len(), 2);
    // Each project should have one match
    for (_, syms) in &results {
        assert!(!syms.is_empty());
        assert!(syms.iter().all(|s| s.name.to_lowercase().contains("foo")));
    }
}

#[test]
fn federated_index_search_all_empty_when_no_match() {
    let mut fi = FederatedIndex::new();
    fi.add_project(make_project("alpha", vec![("FooParser", "struct")]));
    assert!(fi.search_all("zzznomatch").is_empty());
}

#[test]
fn federated_index_search_project() {
    let mut fi = FederatedIndex::new();
    fi.add_project(make_project(
        "alpha",
        vec![("FooParser", "struct"), ("BarHelper", "fn")],
    ));
    let results = fi.search_project("alpha", "foo");
    assert_eq!(results.len(), 1);
    assert_eq!(results[0].name, "FooParser");
}

#[test]
fn federated_index_search_project_unknown_returns_empty() {
    let fi = FederatedIndex::new();
    assert!(fi.search_project("nonexistent", "foo").is_empty());
}

#[test]
fn projects_are_replaced_by_name_and_found_in_order() {
    let mut fi = FederatedIndex::new();
    fi.add_project(make_project("zeta", vec![("Find", "fn")]));
    fi.add_project(make_project("alpha", vec![("finder", "fn"), ("other", "fn")]));
    fi.add_project(make_project("zeta", vec![("FINDING", "fn"), ("x", "fn")]));
    assert_eq!(fi.list_projects(), vec!["alpha", "zeta"]);
    assert_eq!(fi.total_symbols(), 4);
    let found = fi.search_all("Find");
    let seen: Vec<(&str, &str)> = found.iter().map(|(p, s)| (*p, s[0].name.as_str())).collect();
    assert_eq!(seen, vec![("alpha", "finder"), ("zeta", "FINDING")]);
}

#[test]
fn a_search_for_nothing_finds_all() {
    let mut fi = FederatedIndex::new();
    fi.add_project(make_project("b", vec![("Z", "struct")]));
    fi.add_project(make_project("empty", vec![]));
    fi.add_project(make_project("a", vec![("X", "fn"), ("Y", "fn")]));
    let found: usize = fi.search_all("").iter().map(|(_, syms)| syms.len()).sum();
    assert_eq!(found, fi.total_symbols());
    assert_eq!(found, 3);
}
