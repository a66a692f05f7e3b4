use prio::services::work_branch_default::{
    email_local_part, fallback_name, is_yes, login_from_search, percent_encode_query, resolve,
    resolve_known, search_url,
};

#[test]
fn email_local_part_strips_domain() {
    assert_eq!(email_local_part("bfield@example.com").as_deref(), Some("bfield"));
}

#[test]
fn percent_encode_encodes_at_sign() {
    assert_eq!(percent_encode_query("a@b.com"), "a%40b.com");
}

#[test]
fn email_local_part_of_empty_or_blank_is_none() {
    assert_eq!(email_local_part(""), None);
    assert_eq!(email_local_part("  @example.com"), None);
    assert_eq!(email_local_part(" ann "), Some("ann".to_string()));
}

#[test]
fn percent_encode_keeps_unreserved_and_encodes_utf8_bytes() {
    assert_eq!(percent_encode_query("Az09-_.~"), "Az09-_.~");
    assert_eq!(percent_encode_query("a b+c"), "a%20b%2Bc");
    assert_eq!(percent_encode_query("é"), "%C3%A9");
}

#[test]
fn search_url_encodes_the_address() {
    assert_eq!(
        search_url("a@b.com"),
        "https://api.github.com/search/users?q=a%40b.com"
    );
}

#[test]
fn login_from_search_reads_first_item() {
    let json = r#"{"total_count":1,"items":[{"login":"octo"},{"login":"other"}]}"#;
    assert_eq!(login_from_search(json), Some("octo".to_string()));
    assert_eq!(login_from_search(r#"{"items":[]}"#), None);
    assert_eq!(login_from_search("not json"), None);
}

#[test]
fn resolve_prefers_override_then_prefix_then_logins() {
    let s = |x: &str| Some(x.to_string());
    assert_eq!(resolve(s("mine"), s("cfg"), s("gh"), s("api"), "e@x", "u"), "mine");
    assert_eq!(resolve(None, s("cfg"), s("gh"), s("api"), "e@x", "u"), "cfg");
    assert_eq!(resolve(None, None, s("gh"), s("api"), "e@x", "u"), "prio/gh");
    assert_eq!(resolve(None, None, None, s("api"), "e@x", "u"), "prio/api");
    assert_eq!(resolve(None, None, None, None, "e@x", "u"), "prio/e");
    assert_eq!(resolve(None, None, None, None, "", "u"), "prio/u");
    assert_eq!(resolve_known(None, None, None, None), None);
    assert_eq!(fallback_name("bob@x.org", "root"), "prio/bob");
}

#[test]
fn yes_answers() {
    assert!(is_yes("y"));
    assert!(is_yes(" YES\n"));
    assert!(is_yes("Yes"));
    assert!(!is_yes("no"));
    assert!(!is_yes("yess"));
    assert!(!is_yes(""));
}
