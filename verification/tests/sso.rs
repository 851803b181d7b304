use aws_profile_select::{sso_login_profile, sso_login_step, Profile, SsoLoginError, SsoLoginEvent, SsoLoginStep};

fn iam_profile(name: &str) -> Profile {
    Profile {
        name: name.to_string(),
        environment: None,
        sso_session: None,
        sso_start_url: None,
        source_profile: None,
        duration: None,
        readonly: None,
    }
}

fn sso_session_profile(name: &str, session: &str) -> Profile {
    Profile {
        name: name.to_string(),
        environment: None,
        sso_session: Some(session.to_string()),
        sso_start_url: None,
        source_profile: None,
        duration: None,
        readonly: None,
    }
}

fn sso_url_profile(name: &str, url: &str) -> Profile {
    Profile {
        name: name.to_string(),
        environment: None,
        sso_session: None,
        sso_start_url: Some(url.to_string()),
        source_profile: None,
        duration: None,
        readonly: None,
    }
}

fn assume_role_profile(name: &str, source: &str) -> Profile {
    Profile {
        name: name.to_string(),
        environment: None,
        sso_session: None,
        sso_start_url: None,
        source_profile: Some(source.to_string()),
        duration: None,
        readonly: None,
    }
}

#[test]
fn none_for_empty_profile_list() {
    assert!(sso_login_profile(&[], "anything").is_none());
}

#[test]
fn none_for_iam_profile() {
    let profiles = vec![iam_profile("dev")];
    assert!(sso_login_profile(&profiles, "dev").is_none());
}

#[test]
fn none_when_profile_not_found() {
    let profiles = vec![iam_profile("dev")];
    assert!(sso_login_profile(&profiles, "prod").is_none());
}

#[test]
fn none_when_name_is_empty() {
    let profiles = vec![iam_profile("dev")];
    assert!(sso_login_profile(&profiles, "").is_none());
}

#[test]
fn returns_own_name_for_sso_session_profile() {
    let profiles = vec![sso_session_profile("sso-dev", "my-sso")];
    assert_eq!(sso_login_profile(&profiles, "sso-dev"), Some("sso-dev"));
}

#[test]
fn returns_own_name_for_sso_url_profile() {
    let profiles = vec![sso_url_profile(
        "sso-legacy",
        "https://example.awsapps.com/start",
    )];
    assert_eq!(
        sso_login_profile(&profiles, "sso-legacy"),
        Some("sso-legacy")
    );
}

#[test]
fn returns_own_name_when_both_sso_fields_present() {
    let profiles = vec![Profile {
        name: "full-sso".to_string(),
        environment: None,
        sso_session: Some("corp".to_string()),
        sso_start_url: Some("https://corp.awsapps.com/start".to_string()),
        source_profile: None,
        duration: None,
        readonly: None,
    }];
    assert_eq!(sso_login_profile(&profiles, "full-sso"), Some("full-sso"));
}

#[test]
fn returns_source_name_for_assume_role_with_sso_source() {
    let profiles = vec![
        sso_session_profile("app.admin", "corp-sso"),
        assume_role_profile("mongodb-prod", "app.admin"),
    ];
    assert_eq!(sso_login_profile(&profiles, "mongodb-prod"), Some("app.admin"));
}

#[test]
fn returns_source_name_for_assume_role_with_legacy_sso_source() {
    let profiles = vec![
        sso_url_profile("base-sso", "https://corp.awsapps.com/start"),
        assume_role_profile("prod-role", "base-sso"),
    ];
    assert_eq!(sso_login_profile(&profiles, "prod-role"), Some("base-sso"));
}

#[test]
fn none_for_assume_role_with_iam_source() {
    let profiles = vec![
        iam_profile("app.admin"),
        assume_role_profile("mongodb-prod", "app.admin"),
    ];
    assert!(sso_login_profile(&profiles, "mongodb-prod").is_none());
}

#[test]
fn none_for_assume_role_with_missing_source() {
    let profiles = vec![assume_role_profile("mongodb-prod", "nonexistent")];
    assert!(sso_login_profile(&profiles, "mongodb-prod").is_none());
}

#[test]
fn identifies_sso_profile_in_mixed_list() {
    let profiles = vec![
        iam_profile("iam-admin"),
        sso_session_profile("sso-prod", "corp-sso"),
        iam_profile("iam-readonly"),
    ];

    assert!(sso_login_profile(&profiles, "iam-admin").is_none());
    assert_eq!(sso_login_profile(&profiles, "sso-prod"), Some("sso-prod"));
    assert!(sso_login_profile(&profiles, "iam-readonly").is_none());
}

#[test]
fn non_existent_profile_in_mixed_list() {
    let profiles = vec![iam_profile("dev"), sso_session_profile("prod", "corp")];
    assert!(sso_login_profile(&profiles, "staging").is_none());
}

#[test]
fn does_not_match_substring() {
    let profiles = vec![sso_session_profile("sso-dev", "my-sso")];
    assert!(sso_login_profile(&profiles, "sso").is_none());
    assert!(sso_login_profile(&profiles, "sso-dev-extra").is_none());
    assert!(sso_login_profile(&profiles, "dev").is_none());
}

#[test]
fn matching_is_case_sensitive() {
    let profiles = vec![sso_session_profile("SSO-Dev", "my-sso")];
    assert_eq!(sso_login_profile(&profiles, "SSO-Dev"), Some("SSO-Dev"));
    assert!(sso_login_profile(&profiles, "sso-dev").is_none());
    assert!(sso_login_profile(&profiles, "SSO-DEV").is_none());
}

// The login flow.

#[test]
fn login_flow_done_for_non_sso_profile() {
    let profiles = vec![iam_profile("dev")];
    assert!(matches!(
        sso_login_step(&profiles, "dev", SsoLoginEvent::Start),
        SsoLoginStep::Done(Ok(()))
    ));
}

#[test]
fn login_flow_tests_session_of_source_profile() {
    let profiles = vec![
        sso_session_profile("app.admin", "corp-sso"),
        assume_role_profile("mongodb-prod", "app.admin"),
    ];
    match sso_login_step(&profiles, "mongodb-prod", SsoLoginEvent::Start) {
        SsoLoginStep::QuietLogin(p) => assert_eq!(p, "app.admin"),
        _ => panic!("expected a hidden login of the source profile"),
    }
}

#[test]
fn login_flow_done_when_session_valid() {
    let profiles = vec![sso_session_profile("sso-dev", "my-sso")];
    assert!(matches!(
        sso_login_step(&profiles, "sso-dev", SsoLoginEvent::QuietLoginExited { success: true }),
        SsoLoginStep::Done(Ok(()))
    ));
}

#[test]
fn login_flow_logs_in_source_profile_when_session_invalid() {
    let profiles = vec![
        sso_session_profile("app.admin", "corp-sso"),
        assume_role_profile("mongodb-prod", "app.admin"),
    ];
    match sso_login_step(&profiles, "mongodb-prod", SsoLoginEvent::QuietLoginExited { success: false }) {
        SsoLoginStep::Login(p) => assert_eq!(p, "app.admin"),
        _ => panic!("expected a visible login"),
    }
}

#[test]
fn login_flow_logs_in_chosen_sso_profile_when_session_invalid() {
    let profiles = vec![sso_session_profile("sso-dev", "my-sso")];
    match sso_login_step(&profiles, "sso-dev", SsoLoginEvent::QuietLoginExited { success: false }) {
        SsoLoginStep::Login(p) => assert_eq!(p, "sso-dev"),
        _ => panic!("expected a visible login"),
    }
}

#[test]
fn login_flow_reports_exit_code() {
    let profiles = vec![sso_session_profile("sso-dev", "my-sso")];
    match sso_login_step(
        &profiles,
        "sso-dev",
        SsoLoginEvent::LoginExited { profile: "sso-dev".to_string(), success: false, exit_code: Some(255) },
    ) {
        SsoLoginStep::Done(Err(SsoLoginError::LoginFailed { profile, exit_code })) => {
            assert_eq!(profile, "sso-dev");
            assert_eq!(exit_code, 255);
        }
        _ => panic!("expected a login failure"),
    }
}

#[test]
fn login_flow_reports_minus_one_without_exit_code() {
    let profiles = vec![sso_session_profile("sso-dev", "my-sso")];
    match sso_login_step(
        &profiles,
        "sso-dev",
        SsoLoginEvent::LoginExited { profile: "sso-dev".to_string(), success: false, exit_code: None },
    ) {
        SsoLoginStep::Done(Err(SsoLoginError::LoginFailed { exit_code, .. })) => {
            assert_eq!(exit_code, -1)
        }
        _ => panic!("expected a login failure"),
    }
}

#[test]
fn login_flow_done_after_successful_login() {
    let profiles = vec![sso_session_profile("sso-dev", "my-sso")];
    assert!(matches!(
        sso_login_step(
            &profiles,
            "sso-dev",
            SsoLoginEvent::LoginExited { profile: "sso-dev".to_string(), success: true, exit_code: Some(0) }
        ),
        SsoLoginStep::Done(Ok(()))
    ));
}

#[test]
fn login_flow_reports_missing_command() {
    let profiles = vec![sso_session_profile("sso-dev", "my-sso")];
    match sso_login_step(
        &profiles,
        "sso-dev",
        SsoLoginEvent::LoginNotStarted { detail: "No such file or directory".to_string() },
    ) {
        SsoLoginStep::Done(Err(SsoLoginError::CommandUnavailable { detail })) => {
            assert_eq!(detail, "No such file or directory")
        }
        _ => panic!("expected the command error"),
    }
}

#[test]
fn login_target_is_first_profile_of_that_name() {
    let profiles = vec![
        iam_profile("dup"),
        sso_session_profile("dup", "corp"),
    ];
    assert!(sso_login_profile(&profiles, "dup").is_none());
}

#[test]
fn login_failure_message() {
    let e = SsoLoginError::LoginFailed { profile: "sso-dev".to_string(), exit_code: 255 };
    assert_eq!(e.message(), "'aws sso login --profile sso-dev' failed with exit code: 255");
    let e = SsoLoginError::LoginFailed { profile: "p".to_string(), exit_code: -1 };
    assert_eq!(e.message(), "'aws sso login --profile p' failed with exit code: -1");
}

#[test]
fn command_unavailable_message() {
    let e = SsoLoginError::CommandUnavailable { detail: "No such file or directory (os error 2)".to_string() };
    assert_eq!(
        e.message(),
        "Failed to execute 'aws' command. Is it installed and in PATH? Error: No such file or directory (os error 2)"
    );
}
