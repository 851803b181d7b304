use aws_profile_select::{parse_profiles, Profile};

fn profiles_of(content: &str) -> Vec<Profile> {
    match parse_profiles(content) {
        Ok(profiles) => profiles,
        Err(_) => panic!("the configuration should load"),
    }
}

fn assert_profile_names(content: &str, expected: &[&str]) {
    let profiles = profiles_of(content);
    let names: Vec<&str> = profiles.iter().map(|p| p.name.as_str()).collect();
    assert_eq!(names, expected);
}

#[test]
fn reads_environment_field() {
    let content = "\
[profile prod-admin]
region = eu-central-1
environment = production

[profile dev-readonly]
region = eu-central-1
environment = development
";
    let profiles = profiles_of(content);

    assert_eq!(profiles[0].name, "dev-readonly");
    assert_eq!(profiles[0].environment, Some("development".to_string()));
    assert_eq!(profiles[1].name, "prod-admin");
    assert_eq!(profiles[1].environment, Some("production".to_string()));
}

#[test]
fn mixed_env_and_no_env() {
    let content = "\
[profile with-env]
region = eu-central-1
environment = staging

[profile without-env]
region = us-east-1
";
    let profiles = profiles_of(content);

    assert_eq!(profiles[0].environment, Some("staging".to_string()));
    assert_eq!(profiles[1].environment, None);
}

#[test]
fn filters_out_sso_session_sections() {
    let content = "\
[profile my-profile]
region = eu-central-1

[sso-session my-sso]
sso_start_url = https://example.awsapps.com/start
sso_region = eu-central-1
";
    assert_profile_names(content, &["my-profile"]);
}

#[test]
fn modern_sso_profile_detected() {
    let content = "\
[profile sso-dev]
sso_session = my-sso
sso_account_id = 123456789012
sso_role_name = DevAccess
region = eu-central-1
";
    let profiles = profiles_of(content);

    assert_eq!(profiles[0].sso_session, Some("my-sso".to_string()));
    assert_eq!(profiles[0].sso_start_url, None);
    assert!(profiles[0].is_sso());
}

#[test]
fn legacy_sso_profile_detected() {
    let content = "\
[profile sso-legacy]
sso_start_url = https://my-org.awsapps.com/start
sso_account_id = 123456789012
sso_role_name = ReadOnly
sso_region = eu-central-1
region = eu-central-1
";
    let profiles = profiles_of(content);

    assert_eq!(profiles[0].sso_session, None);
    assert_eq!(
        profiles[0].sso_start_url,
        Some("https://my-org.awsapps.com/start".to_string())
    );
    assert!(profiles[0].is_sso());
}

#[test]
fn iam_profile_is_not_sso() {
    let content = "\
[profile iam-only]
region = us-east-1
";
    let profiles = profiles_of(content);

    assert!(!profiles[0].is_sso());
    assert_eq!(profiles[0].sso_session, None);
    assert_eq!(profiles[0].sso_start_url, None);
    assert_eq!(profiles[0].environment, None);
}

#[test]
fn mixed_sso_and_non_sso() {
    let content = "\
[profile sso-prod]
sso_session = corp-sso
sso_account_id = 111111111111
sso_role_name = ProdAdmin
region = us-east-1

[profile iam-legacy]
region = eu-west-1
";
    let profiles = profiles_of(content);

    assert!(!profiles[0].is_sso()); // iam-legacy
    assert!(profiles[1].is_sso()); // sso-prod
}

#[test]
fn returns_profiles_sorted_alphabetically() {
    let content = "\
[profile zebra]
region = us-east-1

[profile alpha]
region = us-east-1

[profile middle]
region = us-east-1
";
    assert_profile_names(content, &["alpha", "middle", "zebra"]);
}

#[test]
fn default_section_parsed_without_profile_prefix() {
    let content = "\
[default]
region = us-east-1
";
    assert_profile_names(content, &["default"]);
}

#[test]
fn default_section_mixed_with_named_profiles() {
    let content = "\
[default]
region = us-east-1

[profile dev]
region = eu-central-1

[profile prod]
region = eu-west-1
";
    assert_profile_names(content, &["default", "dev", "prod"]);
}

#[test]
fn default_section_with_sso_and_environment() {
    let content = "\
[default]
sso_session = my-sso
sso_account_id = 123456789012
sso_role_name = AdminAccess
region = us-east-1
environment = production
";
    let profiles = profiles_of(content);

    assert_eq!(profiles[0].name, "default");
    assert_eq!(profiles[0].sso_session, Some("my-sso".to_string()));
    assert_eq!(profiles[0].environment, Some("production".to_string()));
    assert!(profiles[0].is_sso());
}

#[test]
fn empty_file_returns_empty_vec() {
    let profiles = profiles_of("");
    assert!(profiles.is_empty());
}

#[test]
fn file_with_only_comments_returns_empty_vec() {
    let content = "\
# This is a comment
; This is also a comment
";
    let profiles = profiles_of(content);
    assert!(profiles.is_empty());
}

#[test]
fn profile_with_all_fields() {
    let content = "\
[profile full]
region = us-west-2
output = json
sso_session = corp
sso_account_id = 999999999999
sso_role_name = FullAdmin
sso_start_url = https://corp.awsapps.com/start
environment = production
duration = 8h
readonly = true
";
    let profiles = profiles_of(content);

    assert_eq!(profiles.len(), 1);
    assert_eq!(profiles[0].name, "full");
    assert_eq!(profiles[0].environment, Some("production".to_string()));
    assert_eq!(profiles[0].sso_session, Some("corp".to_string()));
    assert_eq!(
        profiles[0].sso_start_url,
        Some("https://corp.awsapps.com/start".to_string())
    );
    assert!(profiles[0].is_sso());
    assert_eq!(profiles[0].duration, Some("8h".to_string()));
    assert_eq!(profiles[0].readonly, Some(true));
    assert_eq!(profiles[0].display_name(), "full (8h) 👀");
}

#[test]
fn reads_duration_field() {
    let content = "\
[profile short-lived]
region = us-east-1
duration = 1h

[profile long-lived]
region = us-east-1
duration = 12h
";
    let profiles = profiles_of(content);

    assert_eq!(profiles[0].name, "long-lived");
    assert_eq!(profiles[0].duration, Some("12h".to_string()));
    assert_eq!(profiles[1].name, "short-lived");
    assert_eq!(profiles[1].duration, Some("1h".to_string()));
}

#[test]
fn duration_defaults_to_none() {
    let content = "\
[profile no-duration]
region = us-east-1
";
    let profiles = profiles_of(content);

    assert_eq!(profiles[0].duration, None);
}

#[test]
fn reads_readonly_true() {
    let content = "\
[profile ro-profile]
region = us-east-1
readonly = true
";
    let profiles = profiles_of(content);

    assert_eq!(profiles[0].readonly, Some(true));
}

#[test]
fn reads_readonly_false() {
    let content = "\
[profile rw-profile]
region = us-east-1
readonly = false
";
    let profiles = profiles_of(content);

    assert_eq!(profiles[0].readonly, Some(false));
}

#[test]
fn readonly_defaults_to_none() {
    let content = "\
[profile no-readonly]
region = us-east-1
";
    let profiles = profiles_of(content);

    assert_eq!(profiles[0].readonly, None);
}

#[test]
fn display_name_no_annotations() {
    let content = "\
[profile plain]
region = us-east-1
";
    let profiles = profiles_of(content);

    assert_eq!(profiles[0].display_name(), "plain");
}

#[test]
fn display_name_duration_only() {
    let content = "\
[profile timed]
region = us-east-1
duration = 8h
";
    let profiles = profiles_of(content);

    assert_eq!(profiles[0].display_name(), "timed (8h)");
}

#[test]
fn display_name_readonly_only() {
    let content = "\
[profile locked]
region = us-east-1
readonly = true
";
    let profiles = profiles_of(content);

    assert_eq!(profiles[0].display_name(), "locked 👀");
}

#[test]
fn display_name_both_annotations() {
    let content = "\
[profile annotated]
region = us-east-1
duration = 4h
readonly = true
";
    let profiles = profiles_of(content);

    assert_eq!(profiles[0].display_name(), "annotated (4h) 👀");
}

#[test]
fn mixed_annotated_and_plain_profiles() {
    let content = "\
[profile admin]
region = us-east-1
duration = 8h

[profile reader]
region = us-east-1
readonly = true

[profile basic]
region = us-east-1
";
    let profiles = profiles_of(content);

    // sorted alphabetically: admin, basic, reader
    assert_eq!(profiles[0].display_name(), "admin (8h)");
    assert_eq!(profiles[1].display_name(), "basic");
    assert_eq!(profiles[2].display_name(), "reader 👀");
}

#[test]
fn reads_source_profile_field() {
    let content = "\
[profile app.admin]
sso_session = corp-sso
sso_account_id = 111111111111
sso_role_name = AdminAccess
region = us-east-1
 
[profile mongodb-prod]
role_arn = arn:aws:iam::222222222222:role/app-role
source_profile = app.admin
region = us-east-1
";
    let profiles = profiles_of(content);
    // sorted: app.admin, mongodb-prod
    assert_eq!(profiles[0].name, "app.admin");
    assert_eq!(profiles[0].source_profile, None);
    assert!(profiles[0].is_sso());
    assert_eq!(profiles[1].name, "mongodb-prod");
    assert_eq!(profiles[1].source_profile, Some("app.admin".to_string()));
    assert!(!profiles[1].is_sso());
}

#[test]
fn source_profile_defaults_to_none() {
    let content = "\
[profile no-source]
region = us-east-1
";
    let profiles = profiles_of(content);
    assert_eq!(profiles[0].source_profile, None);
}

// Further cases.

#[test]
fn unterminated_section_is_refused() {
    assert!(parse_profiles("[profile dev\nregion = us-east-1\n").is_err());
}

#[test]
fn key_without_name_is_refused() {
    assert!(parse_profiles("[profile dev]\n= us-east-1\n").is_err());
}

#[test]
fn readonly_other_text_is_false() {
    let profiles = profiles_of("[profile p]\nreadonly = yes\n");
    assert_eq!(profiles[0].readonly, Some(false));
    assert_eq!(profiles[0].display_name(), "p 🔥");
}

#[test]
fn sorting_is_by_character_order() {
    assert_profile_names(
        "[profile b]\n[profile B]\n[profile a-b]\n[profile ab]\n[profile a]\n",
        &["B", "a", "a-b", "ab", "b"],
    );
}

#[test]
fn top_level_value_becomes_profile_without_fields() {
    let profiles = profiles_of("region = us-east-1\n[profile dev]\nenvironment = x\n");
    let names: Vec<&str> = profiles.iter().map(|p| p.name.as_str()).collect();
    assert_eq!(names, ["dev", "region"]);
    assert_eq!(profiles[1].environment, None);
    assert_eq!(profiles[1].readonly, None);
}

#[test]
fn every_profile_prefix_is_removed() {
    assert_profile_names("[profile profile x]\nregion = a\n", &["x"]);
}

#[test]
fn profile_named_like_sso_session_is_kept() {
    let content = "\
[profile sso-session-admin]
region = us-east-1

[sso-session corp]
sso_region = us-east-1
";
    assert_profile_names(content, &["sso-session-admin"]);
}

#[test]
fn dotted_section_is_merged_under_its_first_segment() {
    let content = "\
[profile dev]
environment = development

[app.admin]
environment = production
";
    let profiles = profiles_of(content);
    let names: Vec<&str> = profiles.iter().map(|p| p.name.as_str()).collect();
    assert_eq!(names, ["app", "dev"]);
    assert_eq!(profiles[0].environment, None);
    assert_eq!(profiles[1].environment, Some("development".to_string()));
}

#[test]
fn section_that_is_no_path_is_kept_whole() {
    let content = "\
[profile dev.x]
environment = development

[a.]
environment = other
";
    let profiles = profiles_of(content);
    let names: Vec<&str> = profiles.iter().map(|p| p.name.as_str()).collect();
    assert_eq!(names, ["a.", "dev.x"]);
    assert_eq!(profiles[0].environment, Some("other".to_string()));
    assert_eq!(profiles[1].environment, Some("development".to_string()));
}
