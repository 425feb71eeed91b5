use ec2pick::item::{ErrorItem, PickItem, SelectableItem};
use ec2pick::name::NameRule;
use ec2pick::resource::{RawResource, Tag};

fn full_resource() -> RawResource {
    RawResource {
        id: Some("i-0123".to_string()),
        instance_type: Some("t3.micro".to_string()),
        state: Some("running".to_string()),
        public_host: Some("ec2.example.com".to_string()),
        private_host: Some("ip-10-0-0-5.internal".to_string()),
        launch_secs: Some(989_200),
        tags: vec![
            Tag { key: Some("env".to_string()), value: Some("prod".to_string()) },
            Tag { key: Some("Name".to_string()), value: Some("web-1".to_string()) },
        ],
    }
}

#[test]
fn display_text_is_the_resolved_name() {
    let item = SelectableItem::new(full_resource(), &NameRule::ByTag("Name".to_string()));
    assert_eq!(item.display_text(), "web-1");
}

#[test]
fn unresolvable_display_falls_back_to_the_identifier() {
    let item = SelectableItem::new(full_resource(), &NameRule::ByTag("absent".to_string()));
    assert_eq!(item.display_text(), "i-0123");
}

#[test]
fn output_value_is_the_identifier_under_any_rule() {
    let by_tag = SelectableItem::new(full_resource(), &NameRule::ByTag("Name".to_string()));
    let by_host = SelectableItem::new(full_resource(), &NameRule::ByHost);
    let by_id = SelectableItem::new(full_resource(), &NameRule::ByInstanceId);
    assert_eq!(by_tag.output_value(), "i-0123");
    assert_eq!(by_host.output_value(), "i-0123");
    assert_eq!(by_id.output_value(), "i-0123");
}

#[test]
fn preview_is_structured_and_key_ordered() {
    let item = SelectableItem::new(full_resource(), &NameRule::ByTag("Name".to_string()));
    let now: i64 = 1_000_000;
    let expected = "instance_id: i-0123\n\
                    instance_type: t3.micro\n\
                    state: running\n\
                    uptime: 3 hours ago\n\
                    public_dns_name: ec2.example.com\n\
                    private_dns_name: ip-10-0-0-5.internal\n\
                    tags:\n  Name: web-1\n  env: prod";
    assert_eq!(item.preview_text(now), expected);
}

#[test]
fn preview_degrades_to_empty_fields_without_failing() {
    let bare = RawResource {
        id: None,
        instance_type: None,
        state: None,
        public_host: None,
        private_host: None,
        launch_secs: None,
        tags: vec![],
    };
    let item = SelectableItem::new(bare, &NameRule::ByHost);
    let expected = "instance_id: \n\
                    instance_type: \n\
                    state: \n\
                    uptime: \n\
                    public_dns_name: \n\
                    private_dns_name: \n\
                    tags:";
    assert_eq!(item.preview_text(0), expected);
}

#[test]
fn preview_twice_is_identical() {
    let item = SelectableItem::new(full_resource(), &NameRule::ByHost);
    let now: i64 = 1_000_000;
    assert_eq!(item.preview_text(now), item.preview_text(now));
}

#[test]
fn error_item_shows_its_message_verbatim() {
    let e = ErrorItem { message: "dispatch failure: timed out".to_string() };
    assert_eq!(e.display_text(), "error");
    assert_eq!(e.preview_text(), "dispatch failure: timed out");
}

#[test]
fn pick_item_exposes_the_same_contract_for_both_kinds() {
    let item = PickItem::Resource(SelectableItem::new(
        full_resource(),
        &NameRule::ByTag("Name".to_string()),
    ));
    assert_eq!(item.display_text(), "web-1");
    assert!(item.preview_text(1_000_000).contains("3 hours ago"));
    let err = PickItem::Error(ErrorItem { message: "boom".to_string() });
    assert_eq!(err.display_text(), "error");
    assert_eq!(err.preview_text(1_000_000), "boom");
}
