use yantrikdb_explorer::namespaces::{can_count, list_namespaces, NamespaceRow, NamespaceRows};

fn row(namespace: &str, status: Option<&str>, memories: i64) -> NamespaceRow {
    NamespaceRow {
        namespace: namespace.to_string(),
        status: status.map(String::from),
        memories,
    }
}

fn listed(rows: &NamespaceRows) -> Vec<(String, i64)> {
    assert!(can_count(rows));
    list_namespaces(rows)
}

fn entries(list: &[(&str, i64)]) -> Vec<(String, i64)> {
    list.iter().map(|(n, c)| (n.to_string(), *c)).collect()
}

#[test]
fn all_comes_first_and_names_are_sorted() {
    let rows = NamespaceRows {
        memories: vec![
            row("work", Some("active"), 2),
            row("personal", None, 1),
            row("work", Some("consolidated"), 4),
            row("work", Some("tombstoned"), 100),
            row("gone", Some("tombstoned"), 7),
        ],
        tasks: Some(vec!["planning".into(), "work".into(), "planning".into()]),
    };
    assert_eq!(
        listed(&rows),
        entries(&[("(all)", 7), ("personal", 1), ("planning", 0), ("work", 6)])
    );
}

#[test]
fn a_store_without_tasks_lists_its_memories() {
    let rows = NamespaceRows {
        memories: vec![row("b", None, 3), row("", None, 1), row("B", None, 2)],
        tasks: None,
    };
    assert_eq!(listed(&rows), entries(&[("(all)", 6), ("", 1), ("B", 2), ("b", 3)]));
}

#[test]
fn an_empty_store_lists_all() {
    let rows = NamespaceRows {
        memories: Vec::new(),
        tasks: Some(Vec::new()),
    };
    assert_eq!(listed(&rows), entries(&[("(all)", 0)]));
}

#[test]
fn counts_out_of_range_are_noticed() {
    let too_many = NamespaceRows {
        memories: vec![row("a", None, i64::MAX), row("b", None, 1)],
        tasks: None,
    };
    assert!(!can_count(&too_many));
    let negative = NamespaceRows {
        memories: vec![row("a", None, -1)],
        tasks: None,
    };
    assert!(!can_count(&negative));
    let dead = NamespaceRows {
        memories: vec![row("a", None, i64::MAX), row("b", Some("tombstoned"), 1)],
        tasks: None,
    };
    assert_eq!(listed(&dead), entries(&[("(all)", i64::MAX), ("a", i64::MAX)]));
}
