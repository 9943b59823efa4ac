use ftc_insights::database::{events_from_rows, Event};

#[test]
fn event_from_row_parses_start() {
    let e = Event::from_row(&("USCAQ1".to_string(), "Qualifier".to_string(), "1667000000".to_string()));
    assert_eq!(e.eventcode, "USCAQ1");
    assert_eq!(e.eventname, "Qualifier");
    assert_eq!(e.timestart, 1667000000);
}

#[test]
fn events_in_row_order() {
    let rows = vec![
        ("A".to_string(), "a".to_string(), "1".to_string()),
        ("B".to_string(), "b".to_string(), "-2".to_string()),
    ];
    let evs = events_from_rows(&rows);
    assert_eq!(evs.len(), 2);
    assert_eq!(evs[0].eventcode, "A");
    assert_eq!(evs[1].timestart, -2);
    assert!(events_from_rows(&Vec::new()).is_empty());
}
