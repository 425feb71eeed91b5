use ec2pick::bridge::{
    bridge_events, decide_selection, fetch_error_message, items_from_response, SelectionError,
};
use ec2pick::item::PickItem;
use ec2pick::name::NameRule;
use ec2pick::resource::{flatten_groups, FetchError, RawResource, ResourceGroup, Tag};

fn named_resource(id: &str, name: &str) -> RawResource {
    RawResource {
        id: Some(id.to_string()),
        instance_type: None,
        state: None,
        public_host: None,
        private_host: None,
        launch_secs: None,
        tags: vec![Tag { key: Some("Name".to_string()), value: Some(name.to_string()) }],
    }
}

#[test]
fn flattening_keeps_group_order_then_within_group_order() {
    let groups = vec![
        ResourceGroup { resources: vec![named_resource("i-1", "a"), named_resource("i-2", "b")] },
        ResourceGroup { resources: vec![] },
        ResourceGroup { resources: vec![named_resource("i-3", "c")] },
    ];
    let flat = flatten_groups(Some(groups)).unwrap();
    let ids: Vec<&str> = flat.iter().map(|r| r.id.as_deref().unwrap()).collect();
    assert_eq!(ids, vec!["i-1", "i-2", "i-3"]);
}

#[test]
fn a_response_with_no_groups_is_the_empty_failure() {
    let err = flatten_groups(None).unwrap_err();
    assert!(matches!(err, FetchError::Empty));
    assert_eq!(fetch_error_message(&err), "no reservations");
}

#[test]
fn two_resources_become_two_items_and_selection_yields_the_identifier() {
    let groups = vec![ResourceGroup {
        resources: vec![named_resource("i-aaa", "web-1"), named_resource("i-bbb", "web-2")],
    }];
    let rule = NameRule::ByTag("Name".to_string());
    let items = items_from_response(Some(groups), &rule).unwrap();
    let events = bridge_events(Ok(items));
    assert_eq!(events.len(), 2);
    assert_eq!(events[0].display_text(), "web-1");
    assert_eq!(events[1].display_text(), "web-2");
    let out = decide_selection(false, Some(&events[0])).unwrap();
    assert_eq!(out, "i-aaa");
}

#[test]
fn a_transport_failure_becomes_exactly_one_error_item() {
    let events = bridge_events(Err(FetchError::Transport("connector error".to_string())));
    assert_eq!(events.len(), 1);
    assert_eq!(events[0].display_text(), "error");
    assert_eq!(events[0].preview_text(0), "connector error");
    assert!(matches!(
        decide_selection(false, Some(&events[0])),
        Err(SelectionError::ErrorSelected)
    ));
}

#[test]
fn zero_matching_resources_close_the_channel_with_zero_items() {
    let rule = NameRule::ByHost;
    let items = items_from_response(Some(vec![]), &rule).unwrap();
    assert!(items.is_empty());
    let events = bridge_events(Ok(items));
    assert!(events.is_empty());
    assert!(matches!(decide_selection(false, None), Err(SelectionError::NoSelection)));
}

#[test]
fn an_aborted_picker_is_a_selection_failure() {
    assert!(matches!(decide_selection(true, None), Err(SelectionError::Aborted)));
}

#[test]
fn a_resource_without_identifier_cannot_be_output() {
    let mut r = named_resource("i-x", "web");
    r.id = None;
    let rule = NameRule::ByTag("Name".to_string());
    let events = bridge_events(items_from_response(
        Some(vec![ResourceGroup { resources: vec![r] }]),
        &rule,
    ));
    assert_eq!(events.len(), 1);
    assert!(matches!(
        decide_selection(false, Some(&events[0])),
        Err(SelectionError::MissingIdentifier)
    ));
}
