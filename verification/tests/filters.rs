use uwu_infra::filter::{header_value, Filter};

fn headers(pairs: &[(&str, &str)]) -> Vec<(String, String)> {
    pairs.iter().map(|(k, v)| (k.to_string(), v.to_string())).collect()
}

#[test]
fn header_eq() {
    let h = headers(&[("region", "us")]);
    assert!(Filter::header("region".into(), "us".into()).matches(&h));
    assert!(!Filter::header("region".into(), "eu".into()).matches(&h));
}

#[test]
fn header_exists_ignores_the_value() {
    let h = headers(&[("tenant", "acme")]);
    assert!(Filter::header_exists("tenant".into()).matches(&h));
    assert!(!Filter::header_exists("region".into()).matches(&h));
    assert!(!Filter::header("tenant".into(), "acme".into()).matches(&headers(&[])));
}

#[test]
fn header_combinators_follow_boolean_logic() {
    let h = headers(&[("tenant", "acme")]);
    let f = Filter::all_of(vec![Filter::header("tenant".into(), "acme".into()), Filter::Known(true)]);
    assert!(f.matches(&h));
    let f = Filter::all_of(vec![Filter::header("tenant".into(), "acme".into()), Filter::Known(false)]);
    assert!(!f.matches(&h));
    let g = Filter::any_of(vec![Filter::header("tenant".into(), "other".into()), Filter::Known(true)]);
    assert!(g.matches(&h));
    let g = Filter::any_of(vec![Filter::header("tenant".into(), "other".into())]);
    assert!(!g.matches(&h));
    let n = Filter::header("tenant".into(), "other".into()).not();
    assert!(n.matches(&h));
    assert!(Filter::all_of(vec![]).matches(&h));
    assert!(!Filter::any_of(vec![]).matches(&h));
}

#[test]
fn header_lookup_takes_the_first_pair() {
    let h = headers(&[("a", "1"), ("b", "2"), ("a", "3")]);
    assert_eq!(header_value(&h, "a").map(|s| s.as_str()), Some("1"));
    assert_eq!(header_value(&h, "b").map(|s| s.as_str()), Some("2"));
    assert_eq!(header_value(&h, "c"), None);
}
