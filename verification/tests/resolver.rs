use a11y_snapshot::resolve::{
    classify_match, interpret_yn, needs_confirmation, parse_bus_name, registry_well_known_name,
    require_matches, MatchKind, ResolveError, TargetMatch, TargetQuery,
};

#[test]
fn classify_exact_and_folded_matches() {
    assert_eq!(classify_match("Firefox", "Firefox"), MatchKind::Exact);
    // Differs only by case: real case folding must land here, not at NoMatch.
    assert_eq!(classify_match("FIREFOX", "firefox"), MatchKind::CaseInsensitive);
    assert_eq!(classify_match("Firefox Browser", "fire"), MatchKind::Partial);
    assert_eq!(classify_match("Text Editor", "EDIT"), MatchKind::Partial);
    assert_eq!(classify_match("gedit", "calculator"), MatchKind::NoMatch);
}

#[test]
fn classify_empty_sought_is_contained() {
    // An empty sought name is contained in any candidate.
    assert_eq!(classify_match("anything", ""), MatchKind::Partial);
    assert_eq!(classify_match("", ""), MatchKind::Exact);
}

#[test]
fn confirmation_only_for_inexact_matches() {
    assert!(!needs_confirmation(MatchKind::Exact));
    assert!(needs_confirmation(MatchKind::CaseInsensitive));
    assert!(needs_confirmation(MatchKind::Partial));
    assert!(!needs_confirmation(MatchKind::NoMatch));
}

#[test]
fn yn_answers() {
    assert_eq!(interpret_yn("y"), Ok(true));
    assert_eq!(interpret_yn("yes"), Ok(true));
    assert_eq!(interpret_yn(""), Ok(true));
    // Trimming and case folding must really happen.
    assert_eq!(interpret_yn("  Y \n"), Ok(true));
    assert_eq!(interpret_yn("YES"), Ok(true));
    assert_eq!(interpret_yn("n"), Ok(false));
    assert_eq!(interpret_yn(" NO "), Ok(false));
    assert_eq!(interpret_yn("maybe"), Err(ResolveError::InvalidResponse));
    assert_eq!(interpret_yn("yess"), Err(ResolveError::InvalidResponse));
}

#[test]
fn parse_target_queries() {
    assert_eq!(parse_bus_name(String::new()), TargetQuery::Registry);
    assert_eq!(
        parse_bus_name("org.a11y.atspi.Registry".to_string()),
        TargetQuery::Bus("org.a11y.atspi.Registry".to_string())
    );
    assert_eq!(
        parse_bus_name(":1.42".to_string()),
        TargetQuery::Bus(":1.42".to_string())
    );
    // No dot, so not a valid bus name: searched as an application name.
    assert_eq!(
        parse_bus_name("xfce4-panel".to_string()),
        TargetQuery::Application("xfce4-panel".to_string())
    );
    assert_eq!(
        parse_bus_name("not a bus name".to_string()),
        TargetQuery::Application("not a bus name".to_string())
    );
    assert_eq!(registry_well_known_name(), "org.a11y.atspi.Registry");
}

#[test]
fn empty_match_list_is_fatal() {
    assert_eq!(require_matches(Vec::new()), Err(ResolveError::NoApplicationFound));
    let one = vec![TargetMatch { label: "Firefox".to_string(), endpoint: ":1.7".to_string() }];
    assert_eq!(require_matches(one.clone()), Ok(one));
}
