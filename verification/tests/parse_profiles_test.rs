use aws_profile_select::{parse_profiles, Profile};

fn profiles_of(content: &str) -> Vec<Profile> {
    match parse_profiles(content) {
        Ok(profiles) => profiles,
        Err(_) => panic!("the configuration should load"),
    }
}

#[test]
fn parse_profiles_reads_environment_field() {
    let content = "\
[profile prod-admin]
region = eu-central-1
environment = production

[profile dev-readonly]
region = eu-central-1
environment = development
";
    let profiles = profiles_of(content);

    assert_eq!(profiles.len(), 2);
    // sorted alphabetically: dev-readonly < prod-admin
    assert_eq!(profiles[0].name, "dev-readonly");
    assert_eq!(profiles[0].environment, Some("development".to_string()));
    assert_eq!(profiles[1].name, "prod-admin");
    assert_eq!(profiles[1].environment, Some("production".to_string()));
}

#[test]
fn parse_profiles_environment_is_none_when_field_absent() {
    let content = "\
[profile legacy]
region = us-east-1
";
    let profiles = profiles_of(content);

    assert_eq!(profiles.len(), 1);
    assert_eq!(profiles[0].name, "legacy");
    assert_eq!(profiles[0].environment, None);
}

#[test]
fn parse_profiles_mixed_env_and_no_env() {
    let content = "\
[profile with-env]
region = eu-central-1
environment = staging

[profile without-env]
region = us-east-1
";
    let profiles = profiles_of(content);

    assert_eq!(profiles.len(), 2);
    // 'i' < 'o' at position 4, so "with-env" < "without-env"
    assert_eq!(profiles[0].name, "with-env");
    assert_eq!(profiles[0].environment, Some("staging".to_string()));
    assert_eq!(profiles[1].name, "without-env");
    assert_eq!(profiles[1].environment, None);
}

#[test]
fn parse_profiles_filters_out_sso_session_sections() {
    let content = "\
[profile my-profile]
region = eu-central-1

[sso-session my-sso]
sso_start_url = https://example.awsapps.com/start
sso_region = eu-central-1
";
    let profiles = profiles_of(content);

    assert_eq!(profiles.len(), 1);
    assert_eq!(profiles[0].name, "my-profile");
}

#[test]
fn parse_profiles_returns_profiles_sorted_alphabetically() {
    let content = "\
[profile zebra]
region = us-east-1

[profile alpha]
region = us-east-1

[profile middle]
region = us-east-1
";
    let profiles = profiles_of(content);

    assert_eq!(profiles.len(), 3);
    assert_eq!(profiles[0].name, "alpha");
    assert_eq!(profiles[1].name, "middle");
    assert_eq!(profiles[2].name, "zebra");
}
