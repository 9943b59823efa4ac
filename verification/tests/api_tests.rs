use ftc_insights::api::{
    dev_keys_from_text, dev_matches_request, insight_teams_request, is_dev_key,
    predictions_request, team_request,
};

#[test]
fn teams_request_checks_year() {
    assert!(insight_teams_request(Some("2022")).is_ok());
    let e = insight_teams_request(Some("2021")).unwrap_err();
    assert_eq!((e.status, e.message.as_str()), (400, "Invalid year entered"));
    let e = insight_teams_request(None).unwrap_err();
    assert_eq!((e.status, e.message.as_str()), (400, "Invalid parameters entered"));
}

#[test]
fn team_request_parses_team() {
    assert_eq!(team_request(Some("2022"), Some("16236")).ok(), Some(16236));
    assert_eq!(team_request(Some("1999"), Some("5")).ok(), Some(5));
    for (y, t) in [(None, Some("1")), (Some("2022"), None), (Some("2022"), Some("abc")), (None, None)] {
        let e = team_request(y, t).unwrap_err();
        assert_eq!((e.status, e.message.as_str()), (400, "Invalid parameters entered"));
    }
}

#[test]
fn predictions_request_needs_both() {
    assert!(predictions_request(Some("2022"), Some("E")).is_ok());
    assert!(predictions_request(None, Some("E")).is_err());
    let e = predictions_request(Some("2022"), None).unwrap_err();
    assert_eq!(e.message, "Invalid parameters entered");
}

#[test]
fn dev_keys_and_authorization() {
    let keys = dev_keys_from_text("alpha\nbeta\n");
    assert_eq!(keys, vec!["alpha".to_string(), "beta".to_string(), String::new()]);
    assert!(is_dev_key(&keys, "beta"));
    assert!(!is_dev_key(&keys, "gamma"));
    assert!(dev_matches_request(&keys, Some("alpha"), Some("E")).is_ok());
    let e = dev_matches_request(&keys, Some("gamma"), Some("E")).unwrap_err();
    assert_eq!((e.status, e.message.as_str()), (400, "Invalid authorization entered"));
    let e = dev_matches_request(&keys, None, None).unwrap_err();
    assert_eq!(e.message, "Invalid authorization entered");
    let e = dev_matches_request(&keys, Some("alpha"), None).unwrap_err();
    assert_eq!(e.message, "Invalid parameters entered");
}
