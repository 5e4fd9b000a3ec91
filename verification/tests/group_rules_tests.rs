use bifrost_admin::groups::{
    count_rule_lines, group_rules_route, group_writable, group_write_check, rule_toggle_message, stale_rule_names,
    GroupRulesAction, RemotePeer,
};

fn route(path: &str, method: &str) -> (GroupRulesAction, Option<String>, Option<String>) {
    let r = group_rules_route(path, method);
    (r.action, r.group_id, r.rule_name)
}

fn s(x: &str) -> Option<String> {
    Some(x.to_string())
}

#[test]
fn group_rules_routes() {
    assert_eq!(route("/api/group-rules", "GET"), (GroupRulesAction::MissingGroup, None, None));
    assert_eq!(route("/api/group-rules//", "GET"), (GroupRulesAction::MissingGroup, None, None));
    assert_eq!(route("/api/group-rules/g1", "GET"), (GroupRulesAction::List, s("g1"), None));
    assert_eq!(route("/api/group-rules/g1/", "POST"), (GroupRulesAction::Create, s("g1"), None));
    assert_eq!(route("/api/group-rules/g1", "PUT"), (GroupRulesAction::MethodNotAllowed, None, None));
    assert_eq!(route("/api/group-rules/g1/my%20rule", "GET"), (GroupRulesAction::Get, s("g1"), s("my rule")));
    assert_eq!(route("/api/group-rules/g1/a/b", "PUT"), (GroupRulesAction::Update, s("g1"), s("a/b")));
    assert_eq!(route("/api/group-rules/g1/r", "DELETE"), (GroupRulesAction::Delete, s("g1"), s("r")));
    assert_eq!(route("/api/group-rules/g1/r/enable", "PUT"), (GroupRulesAction::Enable, s("g1"), s("r")));
    assert_eq!(route("/api/group-rules/g1/r/disable", "PUT"), (GroupRulesAction::Disable, s("g1"), s("r")));
    assert_eq!(route("/api/group-rules/g1/r/disable", "GET"), (GroupRulesAction::MethodNotAllowed, None, None));
    assert_eq!(route("/api/group-rules/g1/r", "POST"), (GroupRulesAction::Create, s("g1"), None));
}

#[test]
fn rule_lines_are_counted_without_blanks_and_comments() {
    assert_eq!(count_rule_lines("a.com 1.1.1.1\n\n# note\n  b.com file://x\r\n   \n"), 2);
    assert_eq!(count_rule_lines(""), 0);
    assert_eq!(count_rule_lines("  #x\nc"), 1);
}

#[test]
fn stale_rules_are_those_not_remote() {
    let existing = vec!["a".to_string(), "b".to_string(), "c".to_string()];
    let remote = vec!["c".to_string(), "d".to_string()];
    assert_eq!(stale_rule_names(&existing, &remote), vec!["a".to_string(), "b".to_string()]);
}

fn peer(editable: Option<bool>) -> RemotePeer {
    RemotePeer { user_id: "vu".to_string(), channel: 3, group_id: Some("g".to_string()), editable }
}

#[test]
fn writing_group_rules_needs_an_editable_virtual_user() {
    assert!(group_writable(Some(&peer(Some(true)))));
    assert!(!group_writable(Some(&peer(None))));
    assert!(!group_writable(None));
    assert_eq!(group_write_check(Some(&peer(Some(true)))).ok(), s("vu"));
    let e = group_write_check(None).err().unwrap();
    assert_eq!((e.status, e.message), (400, "No virtual user found for this group"));
    let e = group_write_check(Some(&peer(Some(false)))).err().unwrap();
    assert_eq!((e.status, e.message), (403, "No write permission for this group"));
    assert_eq!(rule_toggle_message("r1", true), "Rule 'r1' enabled successfully");
    assert_eq!(rule_toggle_message("r1", false), "Rule 'r1' disabled successfully");
}
