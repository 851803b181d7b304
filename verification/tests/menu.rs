use aws_profile_select::{group_by_environment, MenuLevel, MenuStep, Profile, ProfileMenu};

fn profile(name: &str, environment: Option<&str>) -> Profile {
    Profile {
        name: name.to_string(),
        environment: environment.map(|e| e.to_string()),
        sso_session: None,
        sso_start_url: None,
        source_profile: None,
        duration: None,
        readonly: None,
    }
}

fn sample() -> Vec<Profile> {
    vec![
        profile("dev-admin", Some("development")),
        profile("legacy", None),
        profile("prod-admin", Some("production")),
        profile("prod-readonly", Some("production")),
    ]
}

#[test]
fn groups_sorted_by_environment_with_other() {
    let groups = group_by_environment(&sample());
    let envs: Vec<&str> = groups.iter().map(|g| g.environment.as_str()).collect();
    assert_eq!(envs, ["development", "other", "production"]);
    assert_eq!(groups[0].profiles, vec!["dev-admin".to_string()]);
    assert_eq!(groups[1].profiles, vec!["legacy".to_string()]);
    assert_eq!(
        groups[2].profiles,
        vec!["prod-admin".to_string(), "prod-readonly".to_string()]
    );
}

#[test]
fn no_environments_means_flat_menu() {
    let profiles = vec![profile("a", None), profile("b", None)];
    let menu = ProfileMenu::new(&profiles, "b");
    let level = menu.start();
    assert!(matches!(level, MenuLevel::Flat));
    assert_eq!(menu.items(&level), vec!["a".to_string(), "b".to_string()]);
    assert_eq!(menu.default_item(&level), 1);
    assert_eq!(menu.prompt(&level), "Select the AWS Profile to switch");
    match menu.answer(&level, Some(0)) {
        MenuStep::Chosen(name) => assert_eq!(name, "a"),
        _ => panic!("expected a choice"),
    }
    assert!(matches!(menu.answer(&level, None), MenuStep::Cancelled));
}

#[test]
fn grouped_menu_walks_environment_then_profile() {
    let profiles = sample();
    let menu = ProfileMenu::new(&profiles, "prod-readonly");
    let level = menu.start();
    assert!(matches!(level, MenuLevel::Environments));
    assert_eq!(menu.prompt(&level), "Select the environment");
    assert_eq!(
        menu.items(&level),
        vec!["development".to_string(), "other".to_string(), "production".to_string()]
    );
    assert_eq!(menu.default_item(&level), 0);
    let next = match menu.answer(&level, Some(2)) {
        MenuStep::Ask(next) => next,
        _ => panic!("expected the profiles of an environment"),
    };
    assert!(matches!(next, MenuLevel::Profiles(2)));
    assert_eq!(
        menu.items(&next),
        vec!["prod-admin".to_string(), "prod-readonly".to_string()]
    );
    assert_eq!(menu.default_item(&next), 1);
    match menu.answer(&next, Some(0)) {
        MenuStep::Chosen(name) => assert_eq!(name, "prod-admin"),
        _ => panic!("expected a choice"),
    }
}

#[test]
fn escape_in_profiles_goes_back_and_escape_in_environments_leaves() {
    let profiles = sample();
    let menu = ProfileMenu::new(&profiles, "");
    assert!(matches!(
        menu.answer(&MenuLevel::Profiles(0), None),
        MenuStep::Ask(MenuLevel::Environments)
    ));
    assert!(matches!(menu.answer(&MenuLevel::Environments, None), MenuStep::Cancelled));
}

#[test]
fn default_is_first_when_current_not_listed() {
    let profiles = sample();
    let menu = ProfileMenu::new(&profiles, "nowhere");
    assert_eq!(menu.default_item(&MenuLevel::Profiles(2)), 0);
}
