use bifrost_admin::rules_api::{
    create_rule_check, new_rule_enabled, new_rule_sort_order, rename_check, rename_failure_status, rule_done_message,
    rule_not_found_message, rule_renamed_message, rules_route, script_reference_warnings, updated_rule_fields,
    RulesAction, ScriptReference,
};

fn route(path: &str, method: &str) -> (RulesAction, Option<String>) {
    let r = rules_route(path, method);
    (r.action, r.name)
}

#[test]
fn rules_routes() {
    assert_eq!(route("/api/rules", "GET"), (RulesAction::List, None));
    assert_eq!(route("/api/rules/", "POST"), (RulesAction::Create, None));
    assert_eq!(route("/api/rules", "DELETE"), (RulesAction::MethodNotAllowed, None));
    assert_eq!(route("/api/rules/reorder", "PUT"), (RulesAction::Reorder, None));
    assert_eq!(route("/api/rules/validate", "POST"), (RulesAction::Validate, None));
    assert_eq!(route("/api/rules/my%20rule", "GET"), (RulesAction::Get, Some("my rule".to_string())));
    assert_eq!(route("/api/rules/a/enable", "PUT"), (RulesAction::Enable, Some("a".to_string())));
    assert_eq!(route("/api/rules/a/disable", "PUT"), (RulesAction::Disable, Some("a".to_string())));
    assert_eq!(route("/api/rules/a/rename", "PUT"), (RulesAction::Rename, Some("a".to_string())));
    assert_eq!(route("/api/rules/a/rename", "POST"), (RulesAction::MethodNotAllowed, None));
    assert_eq!(route("/api/rules/a", "PUT"), (RulesAction::Update, Some("a".to_string())));
    assert_eq!(route("/api/rules/a", "DELETE"), (RulesAction::Delete, Some("a".to_string())));
    assert_eq!(route("/api/rules/a", "PATCH"), (RulesAction::MethodNotAllowed, None));
    assert_eq!(route("/api/other", "GET"), (RulesAction::NotFound, None));
}

#[test]
fn creating_and_updating_rules() {
    assert!(create_rule_check("r", false).is_ok());
    let e = create_rule_check("", false).err().unwrap();
    assert_eq!((e.status, e.message.as_str()), (400, "Rule name is required"));
    let e = create_rule_check("r", true).err().unwrap();
    assert_eq!((e.status, e.message.as_str()), (409, "Rule with this name already exists"));
    assert_eq!(new_rule_sort_order(&vec![3, -2, 5]), -3);
    assert_eq!(new_rule_sort_order(&vec![]), 0);
    assert!(new_rule_enabled(None));
    assert!(!new_rule_enabled(Some(false)));
    let (c, e) = updated_rule_fields(None, Some(false), "old".to_string(), true);
    assert_eq!((c.as_str(), e), ("old", false));
    let (c, e) = updated_rule_fields(Some("new".to_string()), None, "old".to_string(), true);
    assert_eq!((c.as_str(), e), ("new", true));
    assert_eq!(rule_done_message("r", "created"), "Rule 'r' created successfully");
    assert_eq!(rule_not_found_message("r"), "Rule 'r' not found");
}

#[test]
fn renaming_rules() {
    assert!(rename_check("a", "b").is_ok());
    assert_eq!(rename_check("a", "").err().unwrap().message, "New rule name is required");
    assert_eq!(rename_check("a", "a").err().unwrap().message, "New name is the same as the old name");
    assert_eq!(rename_failure_status("rule b already exists"), 409);
    assert_eq!(rename_failure_status("rule a not found"), 404);
    assert_eq!(rename_failure_status("disk full"), 500);
    assert_eq!(rule_renamed_message("a", "b"), "Rule 'a' renamed to 'b' successfully");
}

#[test]
fn missing_scripts_are_warned_about() {
    let refs = vec![
        ScriptReference { name: "auth".to_string(), script_type: "request".to_string(), line: 3 },
        ScriptReference { name: "gone".to_string(), script_type: "request".to_string(), line: 5 },
        ScriptReference { name: "fmt".to_string(), script_type: "response".to_string(), line: 9 },
    ];
    let warnings = script_reference_warnings(&refs, &vec!["auth".to_string(), "sign".to_string()], &vec![]);
    assert_eq!(warnings.len(), 2);
    assert_eq!(warnings[0].line, 5);
    assert_eq!((warnings[0].start_column, warnings[0].end_column), (1, 19));
    assert_eq!(warnings[0].code, "W003");
    assert_eq!(warnings[0].message, "Script 'gone' not found. Available request scripts: auth, sign");
    assert_eq!(
        warnings[0].suggestion,
        "Create a request script named 'gone' in the scripts directory, or use an existing script."
    );
    assert_eq!(warnings[1].message, "Script 'fmt' not found. Available response scripts: (none)");
}

use bifrost_admin::scripts_api::{parse_script_path, script_deleted_message, scripts_action, ScriptKind, ScriptsAction};

#[test]
fn script_paths_and_operations() {
    let (k, n) = parse_script_path("/api/scripts/request/auth").ok().unwrap();
    assert_eq!((k, n.as_str()), (ScriptKind::Request, "auth"));
    let (k, n) = parse_script_path("/api/scripts/response//a/b").ok().unwrap();
    assert_eq!((k, n.as_str()), (ScriptKind::Response, "a/b"));
    assert_eq!(parse_script_path("/api/scripts/request").err().unwrap().message, "Invalid path: missing script name");
    assert_eq!(parse_script_path("/api/scripts/request/").err().unwrap().message, "Invalid path: empty script name");
    assert_eq!(parse_script_path("/api/scripts/other/x").err().unwrap().message, "Invalid script type");
    assert_eq!(parse_script_path("/api/scripts/other/x").err().unwrap().status, 400);
    assert_eq!(scripts_action("/api/scripts/", "GET"), ScriptsAction::List);
    assert_eq!(scripts_action("/api/scripts/request/a", "GET"), ScriptsAction::Get);
    assert_eq!(scripts_action("/api/scripts/request/a", "PUT"), ScriptsAction::Save);
    assert_eq!(scripts_action("/api/scripts/request/a", "DELETE"), ScriptsAction::Delete);
    assert_eq!(scripts_action("/api/scripts/test", "POST"), ScriptsAction::Test);
    assert_eq!(scripts_action("/api/scripts/x", "POST"), ScriptsAction::NotFound);
    assert_eq!(scripts_action("/api/scripts", "PATCH"), ScriptsAction::MethodNotAllowed);
    assert_eq!(script_deleted_message("auth"), "Script auth deleted");
}

use bifrost_admin::system_proxy::{
    bypass_or_default, requires_admin, set_proxy_failure, status_after_set, system_proxy_action, unsupported_status,
    SetProxyFailure, SystemProxyAction,
};

#[test]
fn system_proxy_operations() {
    assert_eq!(system_proxy_action("/api/proxy/system", "GET"), SystemProxyAction::GetStatus);
    assert_eq!(system_proxy_action("/api/proxy/system/", "PUT"), SystemProxyAction::Apply);
    assert_eq!(system_proxy_action("/api/proxy/system/support", "PUT"), SystemProxyAction::MethodNotAllowed);
    assert_eq!(system_proxy_action("/api/proxy/other", "GET"), SystemProxyAction::NotFound);
    assert_eq!(bypass_or_default(None), "localhost,127.0.0.1,::1,*.local");
    assert_eq!(bypass_or_default(Some("a".to_string())), "a");
    let s = status_after_set(true, 9900, "x".to_string());
    assert!(s.supported && s.enabled);
    assert_eq!((s.host.as_str(), s.port, s.bypass.as_str()), ("127.0.0.1", 9900, "x"));
    let s = status_after_set(false, 9900, "x".to_string());
    assert_eq!((s.host.as_str(), s.port, s.bypass.as_str()), ("", 0, ""));
    let u = unsupported_status();
    assert!(!u.supported && !u.enabled);
    assert!(requires_admin("Error: RequiresAdmin"));
    assert!(matches!(set_proxy_failure("UserCancelled by RequiresAdmin"), SetProxyFailure::UserCancelled));
    assert!(matches!(set_proxy_failure("RequiresAdmin"), SetProxyFailure::RequiresAdmin));
    match set_proxy_failure("boom") {
        SetProxyFailure::Other(m) => assert_eq!(m, "Failed to set system proxy: boom"),
        _ => panic!("other failure"),
    }
}
