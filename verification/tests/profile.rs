use aws_profile_select::Profile;

fn make_profile(
    name: &str,
    sso_session: Option<&str>,
    sso_start_url: Option<&str>,
    duration: Option<&str>,
    readonly: bool,
) -> Profile {
    Profile {
        name: name.to_string(),
        environment: None,
        sso_session: sso_session.map(|s| s.to_string()),
        sso_start_url: sso_start_url.map(|s| s.to_string()),
        source_profile: None,
        duration: duration.map(|s| s.to_string()),
        readonly: if readonly { Some(true) } else { None },
    }
}

#[test]
fn display_name_plain_profile() {
    let p = make_profile("dev", None, None, None, false);
    assert_eq!(p.display_name(), "dev");
}

#[test]
fn display_name_with_duration() {
    let p = make_profile("dev", None, None, Some("8h"), false);
    assert_eq!(p.display_name(), "dev (8h)");
}

#[test]
fn display_name_with_readonly() {
    let p = make_profile("prod", None, None, None, true);
    assert_eq!(p.display_name(), "prod 👀");
}

#[test]
fn display_name_with_duration_and_readonly() {
    let p = make_profile("staging", None, None, Some("8h"), true);
    assert_eq!(p.display_name(), "staging (8h) 👀");
}

#[test]
fn display_name_with_sso_and_readonly() {
    let p = make_profile("sso-prod", Some("corp"), None, None, true);
    assert_eq!(p.display_name(), "sso-prod 👀");
}

#[test]
fn display_name_with_sso_duration_and_readonly() {
    let p = make_profile("sso-prod", Some("corp"), None, Some("2h"), true);
    assert_eq!(p.display_name(), "sso-prod (2h) 👀");
}

#[test]
fn display_name_not_readonly() {
    let p = make_profile("prod", None, None, None, false);
    assert_eq!(p.display_name(), "prod");
}

#[test]
fn display_name_with_sso_and_duration() {
    let p = make_profile("sso-dev", Some("my-sso"), None, Some("4h"), false);
    assert_eq!(p.display_name(), "sso-dev (4h)");
}

#[test]
fn is_sso_false_when_no_sso_fields() {
    let p = make_profile("dev", None, None, None, false);
    assert!(!p.is_sso());
}

#[test]
fn is_sso_true_with_sso_session() {
    let p = make_profile("sso-dev", Some("my-sso"), None, None, false);
    assert!(p.is_sso());
}

#[test]
fn is_sso_true_with_sso_start_url() {
    let p = make_profile(
        "sso-legacy",
        None,
        Some("https://example.awsapps.com/start"),
        None,
        false,
    );
    assert!(p.is_sso());
}

#[test]
fn is_sso_true_with_both_sso_fields() {
    let p = make_profile(
        "sso-both",
        Some("corp"),
        Some("https://corp.awsapps.com/start"),
        None,
        false,
    );
    assert!(p.is_sso());
}

#[test]
fn is_sso_false_with_duration_and_readonly_but_no_sso() {
    let p = make_profile("dev", None, None, Some("8h"), true);
    assert!(!p.is_sso());
}

#[test]
fn is_sso_true_with_sso_session_and_annotations() {
    let p = make_profile("sso-dev", Some("my-sso"), None, Some("4h"), true);
    assert!(p.is_sso());
}

// Further cases of the readonly marker.

#[test]
fn display_name_marks_explicitly_writable_profile() {
    let mut p = make_profile("prod-admin", None, None, Some("8h"), false);
    p.readonly = Some(false);
    assert_eq!(p.display_name(), "prod-admin (8h) 🔥");
}

#[test]
fn display_name_marks_readonly_profile() {
    let p = make_profile("prod-readonly", None, None, Some("4h"), true);
    assert_eq!(p.display_name(), "prod-readonly (4h) 👀");
}

#[test]
fn display_name_keeps_unicode_name() {
    let p = make_profile("prød", None, None, Some("1h"), false);
    assert_eq!(p.display_name(), "prød (1h)");
}
