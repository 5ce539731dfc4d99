use reinfer_cli::config::{ContextConfig, ReinferConfig};
use reinfer_cli::connection::{
    check_context_required, check_uipath_user_context, resolve_connection, ConnectionArgs,
};

fn context(name: &str, endpoint: &str, token: Option<&str>) -> ContextConfig {
    ContextConfig {
        name: name.to_owned(),
        endpoint: url::Url::parse(endpoint).unwrap(),
        token: token.map(str::to_owned),
        accept_invalid_certificates: false,
        proxy: None,
    }
}

fn no_args() -> ConnectionArgs {
    ConnectionArgs {
        context: None,
        endpoint: None,
        token: None,
        accept_invalid_certificates: None,
        proxy: None,
    }
}

#[test]
fn set_context_adds_then_replaces() {
    let mut config = ReinferConfig::new();
    assert!(!config.set_context(context("prod", "https://a.example/", Some("t1"))));
    assert!(!config.set_context(context("dev", "https://b.example/", None)));
    assert_eq!(config.num_contexts(), 2);
    assert!(config.set_context(context("prod", "https://c.example/", Some("t2"))));
    assert_eq!(config.num_contexts(), 2);
    let prod = config.get_context("prod").unwrap();
    assert_eq!(prod.endpoint.as_str(), "https://c.example/");
    assert_eq!(prod.token.as_deref(), Some("t2"));
    assert_eq!(config.get_all_contexts()[0].name, "prod");
    assert!(config.get_context("staging").is_none());
}

#[test]
fn current_context_must_exist_and_is_cleared_on_delete() {
    let mut config = ReinferConfig::new();
    assert!(!config.set_current_context("prod"));
    assert!(config.get_current_context().is_none());
    config.set_context(context("prod", "https://a.example/", None));
    config.set_context(context("dev", "https://b.example/", None));
    assert!(config.set_current_context("prod"));
    assert_eq!(config.get_current_context().unwrap().name, "prod");

    assert!(!config.delete_context("staging"));
    assert!(config.delete_context("dev"));
    assert_eq!(config.get_current_context().unwrap().name, "prod");
    assert!(config.delete_context("prod"));
    assert!(config.get_current_context().is_none());
    assert_eq!(config.num_contexts(), 0);
    assert!(!config.delete_context("prod"));
}

#[test]
fn connection_prefers_arguments_then_context_then_defaults() {
    let mut config = ReinferConfig::new();
    config.set_context(context("prod", "https://a.example/", Some("t1")));
    config.set_current_context("prod");

    let defaults = no_args();
    let connection = resolve_connection(&defaults, &config).unwrap();
    assert_eq!(connection.endpoint.unwrap().as_str(), "https://a.example/");
    assert_eq!(connection.token.map(String::as_str), Some("t1"));
    assert!(!connection.accept_invalid_certificates);
    assert!(connection.proxy.is_none());

    let mut overrides = no_args();
    overrides.endpoint = Some(url::Url::parse("https://override.example/").unwrap());
    overrides.token = Some("t9".to_owned());
    overrides.accept_invalid_certificates = Some(true);
    let connection = resolve_connection(&overrides, &config).unwrap();
    assert_eq!(connection.endpoint.unwrap().as_str(), "https://override.example/");
    assert_eq!(connection.token.map(String::as_str), Some("t9"));
    assert!(connection.accept_invalid_certificates);

    let empty = ReinferConfig::new();
    let connection = resolve_connection(&defaults, &empty).unwrap();
    assert!(connection.endpoint.is_none());
    assert!(connection.token.is_none());
}

#[test]
fn unknown_context_is_refused() {
    let config = ReinferConfig::new();
    let mut args = no_args();
    args.context = Some("nope".to_owned());
    match resolve_connection(&args, &config) {
        Err(message) => assert_eq!(message, "Unknown context `nope`."),
        Ok(_) => panic!("an unknown context must be refused"),
    }
}

#[test]
fn context_requirements() {
    let mut config = ReinferConfig::new();
    assert!(check_context_required(&config, &no_args()).is_ok());
    config.context_is_required = true;
    assert_eq!(
        check_context_required(&config, &no_args()).unwrap_err(),
        "Please provide a context with the `re -c <context>` option or opt out with `re config set-context-required false`"
    );
    let mut with_endpoint = no_args();
    with_endpoint.endpoint = Some(url::Url::parse("https://x.example/").unwrap());
    assert!(check_context_required(&config, &with_endpoint).is_ok());
    assert!(check_uipath_user_context("someone@example.com", &no_args()).is_ok());
    let err = check_uipath_user_context("Someone@UiPath.com", &no_args()).unwrap_err();
    assert_eq!(
        err,
        "As a UiPath user, please provide a context with the `re -c <context>` option"
    );
    assert!(check_uipath_user_context("a@reinfer.dev", &no_args()).is_err());
    let mut args = no_args();
    args.context = Some("prod".to_owned());
    assert!(check_uipath_user_context("a@reinfer.dev", &args).is_ok());
}

#[test]
fn the_first_context_added_becomes_current() {
    let mut config = ReinferConfig::new();
    assert!(config.get_current_context().is_none());
    assert!(!config.add_context(context("prod", "https://a.example/", Some("t"))));
    assert_eq!(config.get_current_context().unwrap().name, "prod");
    assert!(!config.add_context(context("dev", "https://b.example/", None)));
    assert_eq!(config.get_current_context().unwrap().name, "prod");
    assert!(config.add_context(context("dev", "https://c.example/", None)));
    assert_eq!(config.get_context("dev").unwrap().endpoint.as_str(), "https://c.example/");
    assert_eq!(config.get_current_context().unwrap().name, "prod");
}

#[test]
fn a_file_is_taken_as_it_stands() {
    let config = ReinferConfig::from_parts(
        Some("gone".to_owned()),
        vec![context("a", "https://a.example/", None), context("a", "https://b.example/", None)],
        true,
    );
    assert_eq!(config.num_contexts(), 2);
    assert!(config.get_current_context().is_none());
    assert_eq!(config.current_context_name().map(String::as_str), Some("gone"));
    assert!(config.is_context_required());
    assert_eq!(config.get_context("a").unwrap().endpoint.as_str(), "https://a.example/");
}
