use clickcheck::context::{Context, ContextConfig, ContextError};
use clickcheck::model::{ContextProfile, Password, PrintableContextProfile};

/// Fails unless the two are equal. For values that hold a password and so
/// cannot be printed.
fn agree<T: PartialEq>(left: T, right: T) {
    assert!(left == right);
}

fn profile_of(user: &str) -> ContextProfile {
    ContextProfile {
        user: user.to_string(),
        password: Password::new(String::new()),
        urls: vec![format!("http://{user}:8123")],
        accept_invalid_certificate: false,
    }
}

fn two_profiles() -> ContextConfig {
    ContextConfig {
        current: Some("prod".to_string()),
        profiles: vec![
            ("prod".to_string(), profile_of("p")),
            ("dev".to_string(), profile_of("d")),
        ],
    }
}

fn opened(override_name: Option<&str>) -> Context {
    Context::new("/etc/clickcheck/config.toml".to_string(), two_profiles(), override_name).unwrap()
}

#[test]
fn a_chosen_name_has_to_be_a_profile() {
    let made = Context::new("p".to_string(), two_profiles(), Some("staging"));
    assert_eq!(made.err().unwrap(), ContextError::ProfileNotFound("staging".to_string()));
    assert!(Context::new("p".to_string(), two_profiles(), Some("dev")).is_ok());
    let empty = ContextConfig { current: None, profiles: Vec::new() };
    assert!(Context::new("p".to_string(), empty.clone(), None).is_ok());
    assert_eq!(
        Context::new("p".to_string(), empty, Some("")).err().unwrap(),
        ContextError::ProfileNotFound(String::new())
    );
}

#[test]
fn the_chosen_name_comes_before_the_stored_default() {
    assert_eq!(opened(None).active_profile_name(), Some("prod"));
    assert_eq!(opened(Some("dev")).active_profile_name(), Some("dev"));
    let none = Context::new(
        "p".to_string(),
        ContextConfig { current: None, profiles: Vec::new() },
        None,
    )
    .unwrap();
    assert_eq!(none.active_profile_name(), None);
    agree(none.profile(), Ok(None));
}

#[test]
fn the_profile_in_use_is_looked_up_by_name() {
    agree(opened(None).profile(), Ok(Some(profile_of("p"))));
    agree(opened(Some("dev")).profile(), Ok(Some(profile_of("d"))));
    let dangling = Context::new(
        "p".to_string(),
        ContextConfig { current: Some("gone".to_string()), profiles: Vec::new() },
        None,
    )
    .unwrap();
    agree(dangling.profile(), Err(ContextError::ProfileNotFound("gone".to_string())));
}

#[test]
fn names_are_listed_in_stored_order() {
    assert_eq!(opened(None).list(), vec!["prod".to_string(), "dev".to_string()]);
    assert_eq!(opened(None).get_config_path(), "/etc/clickcheck/config.toml");
}

#[test]
fn a_profile_is_stored_under_its_name() {
    let mut context = opened(None);
    context.set_profile(profile_of("s"), "staging");
    assert_eq!(context.list(), vec!["prod".to_string(), "dev".to_string(), "staging".to_string()]);
    agree(context.get_profile("staging"), Ok(profile_of("s")));
    context.set_profile(profile_of("new"), "prod");
    assert_eq!(context.list(), vec!["prod".to_string(), "dev".to_string(), "staging".to_string()]);
    agree(context.get_profile("prod"), Ok(profile_of("new")));
    agree(context.get_profile("dev"), Ok(profile_of("d")));
    assert_eq!(context.active_profile_name(), Some("prod"));
    assert_eq!(context.stored().profiles.len(), 3);
}

#[test]
fn a_profile_is_deleted_by_name() {
    let mut context = opened(None);
    assert_eq!(context.delete_profile("dev"), Ok(()));
    assert_eq!(context.list(), vec!["prod".to_string()]);
    assert_eq!(
        context.delete_profile("dev"),
        Err(ContextError::ProfileNotFound("dev".to_string()))
    );
    agree(context.get_profile("dev"), Err(ContextError::ProfileNotFound("dev".to_string())));
    assert_eq!(context.delete_profile("prod"), Ok(()));
    assert!(context.list().is_empty());
    assert_eq!(context.stored().current, Some("prod".to_string()));
}

#[test]
fn where_a_name_occurs_twice_the_first_profile_counts() {
    let config = ContextConfig {
        current: None,
        profiles: vec![
            ("a".to_string(), profile_of("first")),
            ("b".to_string(), profile_of("other")),
            ("a".to_string(), profile_of("second")),
        ],
    };
    let mut context = Context::new("p".to_string(), config, None).unwrap();
    agree(context.get_profile("a"), Ok(profile_of("first")));
    context.set_profile(profile_of("third"), "a");
    agree(context.get_profile("a"), Ok(profile_of("third")));
    assert_eq!(context.delete_profile("a"), Ok(()));
    assert_eq!(context.list(), vec!["b".to_string()]);
}

#[test]
fn the_default_has_to_be_a_profile() {
    let mut context = opened(None);
    assert_eq!(context.set_default("dev"), Ok(()));
    assert_eq!(context.active_profile_name(), Some("dev"));
    assert_eq!(context.stored().current, Some("dev".to_string()));
    assert_eq!(
        context.set_default("staging"),
        Err(ContextError::ProfileNotFound("staging".to_string()))
    );
    assert_eq!(context.active_profile_name(), Some("dev"));
}

#[test]
fn a_password_is_shown_only_on_request() {
    let profile = ContextProfile { password: Password::new("hunter2".to_string()), ..profile_of("u") };
    assert_eq!(
        profile.to_printable(true),
        PrintableContextProfile {
            user: "u",
            password: "hunter2",
            urls: &vec!["http://u:8123".to_string()],
            accept_invalid_certificate: false,
        }
    );
    let hidden = profile.to_printable(false);
    assert_eq!(hidden.password, "[REDACTED]");
    assert_eq!(hidden.user, "u");
}
