use ftc_insights::team_table::TeamTable;

#[test]
fn insert_then_get() {
    let mut t = TeamTable::new();
    assert_eq!(t.get(1), None);
    t.insert(1, "a".to_string());
    t.insert(2, "b".to_string());
    assert_eq!(t.get(1), Some("a".to_string()));
    t.insert(1, "c".to_string());
    assert_eq!(t.get(1), Some("c".to_string()));
    assert_eq!(t.get(2), Some("b".to_string()));
    assert!(t.contains_key(2));
    assert!(!t.contains_key(3));
}

#[test]
fn rows_read_with_later_rows_winning() {
    let rows = vec![
        ("16236".to_string(), "Robo".to_string()),
        ("-5".to_string(), "Neg".to_string()),
        ("16236".to_string(), "Robo 2".to_string()),
    ];
    let t = TeamTable::from_rows(&rows);
    assert_eq!(t.get(16236), Some("Robo 2".to_string()));
    assert_eq!(t.get(-5), Some("Neg".to_string()));
    assert_eq!(t.get(5), None);
}
