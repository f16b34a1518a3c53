use astraea::ports::PortPattern;

#[test]
fn star_matches_every_port() {
    let p = PortPattern::parse("*");
    assert!(p.matches(0));
    assert!(p.matches(443));
    assert!(p.matches(65535));
}

#[test]
fn single_port() {
    let p = PortPattern::parse("443");
    assert!(p.matches(443));
    assert!(!p.matches(80));
    assert!(!p.matches(4430));
}

#[test]
fn port_range_is_inclusive() {
    let p = PortPattern::parse("8000-8100");
    assert!(p.matches(8000));
    assert!(p.matches(8050));
    assert!(p.matches(8100));
    assert!(!p.matches(7999));
    assert!(!p.matches(8101));
}

#[test]
fn comma_separated_parts() {
    let p = PortPattern::parse("80,443,9000-9001");
    assert!(p.matches(80));
    assert!(p.matches(443));
    assert!(p.matches(9001));
    assert!(!p.matches(8080));
}

#[test]
fn plus_sign_is_accepted_as_by_from_str() {
    let p = PortPattern::parse("+80");
    assert!(p.matches(80));
    assert_eq!("+80".parse::<u16>(), Ok(80));
}

#[test]
fn malformed_parts_are_ignored() {
    let p = PortPattern::parse("abc,70000,-5,22");
    assert!(p.matches(22));
    assert!(!p.matches(5));
    assert!(!p.matches(0));
    let q = PortPattern::parse("");
    assert!(!q.matches(0));
    let r = PortPattern::parse("10-x");
    assert!(!r.matches(10));
}

#[test]
fn reversed_range_matches_nothing() {
    let p = PortPattern::parse("100-50");
    assert!(!p.matches(75));
    assert!(!p.matches(100));
    assert!(!p.matches(50));
}

#[test]
fn star_inside_a_list_is_not_a_wildcard() {
    let p = PortPattern::parse("*,80");
    assert!(p.matches(80));
    assert!(!p.matches(81));
}
