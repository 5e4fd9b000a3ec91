use bifrost_admin::app_names::{matches_app_name, normalize_app_name, sanitize_app_name};
use bifrost_admin::groups::{find_virtual_user_for_group, sanitize_group_dir_name, RemotePeer};

#[test]
fn app_names_become_safe_file_names() {
    assert_eq!(sanitize_app_name("Google Chrome"), "Google_Chrome");
    assert_eq!(sanitize_app_name("a-b_c.d/e"), "a-b_c_d_e");
    assert_eq!(sanitize_app_name("微信"), "微信");
}

#[test]
fn helper_suffixes_are_dropped() {
    assert_eq!(normalize_app_name("Google Chrome Helper (Renderer)"), vec!["Google Chrome".to_string(), "Google".to_string()]);
    assert_eq!(normalize_app_name("Brave Browser"), vec!["Brave Browser".to_string(), "Brave".to_string(), "Brave".to_string()]);
    assert_eq!(normalize_app_name("Safari"), vec!["Safari".to_string()]);
}

#[test]
fn bundle_names_match_variants() {
    let variants = normalize_app_name("Google Chrome Helper");
    assert!(matches_app_name("Google Chrome", &variants, "Google Chrome Helper"));
    assert!(matches_app_name("google chrome canary", &variants, "x"));
    assert!(matches_app_name("Google Docs", &variants, "x"));
    assert!(!matches_app_name("Firefox", &variants, "Google Chrome Helper"));
}

#[test]
fn group_dir_names() {
    assert_eq!(sanitize_group_dir_name("a/b\\c:d"), "a_b_c_d");
}

#[test]
fn virtual_user_of_a_group() {
    let peers = vec![
        RemotePeer { user_id: "u1".to_string(), channel: 1, group_id: Some("g1".to_string()), editable: None },
        RemotePeer { user_id: "u2".to_string(), channel: 3, group_id: Some("g2".to_string()), editable: None },
        RemotePeer { user_id: "u3".to_string(), channel: 3, group_id: Some("g1".to_string()), editable: Some(true) },
    ];
    assert_eq!(find_virtual_user_for_group(&peers, "g1").map(|p| p.user_id.clone()), Some("u3".to_string()));
    assert!(find_virtual_user_for_group(&peers, "g9").is_none());
}
