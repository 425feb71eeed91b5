use ec2pick::filter::{build_filter, build_filters, effective_filter_tokens};

#[test]
fn bare_token_has_no_values() {
    let p = build_filter("foo");
    assert_eq!(p.name, "foo");
    assert!(p.values.is_empty());
}

#[test]
fn token_with_separator_splits_once() {
    let p = build_filter("k=v");
    assert_eq!(p.name, "k");
    assert_eq!(p.values, vec!["v".to_string()]);
}

#[test]
fn token_with_trailing_separator_keeps_empty_value() {
    let p = build_filter("k=");
    assert_eq!(p.name, "k");
    assert_eq!(p.values, vec![String::new()]);
}

#[test]
fn token_splits_on_first_separator_only() {
    let p = build_filter("a=b=c");
    assert_eq!(p.name, "a");
    assert_eq!(p.values, vec!["b=c".to_string()]);
}

#[test]
fn one_predicate_per_token_in_order() {
    let tokens = vec!["tag:team=core".to_string(), "vpc-id".to_string(), "x=1".to_string()];
    let ps = build_filters(&tokens);
    assert_eq!(ps.len(), 3);
    assert_eq!(ps[0].name, "tag:team");
    assert_eq!(ps[0].values, vec!["core".to_string()]);
    assert_eq!(ps[1].name, "vpc-id");
    assert!(ps[1].values.is_empty());
    assert_eq!(ps[2].name, "x");
    assert_eq!(ps[2].values, vec!["1".to_string()]);
}

#[test]
fn duplicate_predicate_names_are_both_kept() {
    let tokens = vec!["tag:a=1".to_string(), "tag:a=2".to_string()];
    let ps = build_filters(&tokens);
    assert_eq!(ps.len(), 2);
    assert_eq!(ps[0].values, vec!["1".to_string()]);
    assert_eq!(ps[1].values, vec!["2".to_string()]);
}

#[test]
fn empty_token_list_gets_running_state_default() {
    let tokens = effective_filter_tokens(Vec::new());
    assert_eq!(tokens, vec!["instance-state-name=running".to_string()]);
    let ps = build_filters(&tokens);
    assert_eq!(ps.len(), 1);
    assert_eq!(ps[0].name, "instance-state-name");
    assert_eq!(ps[0].values, vec!["running".to_string()]);
}

#[test]
fn caller_tokens_are_kept_as_given() {
    let tokens = effective_filter_tokens(vec!["instance-type=t3.micro".to_string()]);
    assert_eq!(tokens, vec!["instance-type=t3.micro".to_string()]);
}
