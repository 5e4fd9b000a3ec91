use bifrost_admin::replay::{KeyValueItem, ReplayBody, RequestSource, RequestType};
use bifrost_admin::replay_edit::{
    apply_group_update, apply_request_update, new_group, new_saved_request, CreateGroupRequest,
    CreateRequestRequest, UpdateGroupRequest, UpdateRequestRequest,
};

fn header(key: &str) -> KeyValueItem {
    KeyValueItem { key: key.to_string(), value: "v".to_string(), enabled: true, ..KeyValueItem::default() }
}

#[test]
fn requests_are_created_first_in_their_group_and_edited_field_by_field() {
    let create = CreateRequestRequest {
        group_id: Some("g".to_string()),
        name: None,
        request_type: RequestType::Http,
        method: "GET".to_string(),
        url: "http://a/".to_string(),
        headers: vec![header("x")],
        body: None,
        is_saved: true,
    };
    let mut r = new_saved_request(create, "id-1".to_string(), 10);
    assert_eq!(r.sort_order, 0);
    assert_eq!(r.source, RequestSource::Internal);
    assert_eq!((r.created_at, r.updated_at), (10, 10));
    let update = UpdateRequestRequest {
        group_id: None,
        name: Some("login".to_string()),
        request_type: None,
        method: Some("POST".to_string()),
        url: None,
        headers: None,
        body: Some(ReplayBody::default()),
        is_saved: None,
        sort_order: Some(3),
    };
    apply_request_update(&mut r, update, 20);
    assert_eq!(r.group_id.as_deref(), Some("g"));
    assert_eq!(r.name.as_deref(), Some("login"));
    assert_eq!(r.method, "POST");
    assert_eq!(r.url, "http://a/");
    assert_eq!(r.headers.len(), 1);
    assert!(r.body.is_some());
    assert!(r.is_saved);
    assert_eq!(r.sort_order, 3);
    assert_eq!((r.created_at, r.updated_at), (10, 20));
}

#[test]
fn groups_are_created_and_edited_field_by_field() {
    let mut g = new_group(CreateGroupRequest { name: "api".to_string(), parent_id: None }, "g1".to_string(), 5);
    assert_eq!((g.sort_order, g.created_at, g.updated_at), (0, 5, 5));
    apply_group_update(&mut g, UpdateGroupRequest { name: None, parent_id: Some("root".to_string()), sort_order: None }, 9);
    assert_eq!(g.name, "api");
    assert_eq!(g.parent_id.as_deref(), Some("root"));
    assert_eq!(g.updated_at, 9);
}
