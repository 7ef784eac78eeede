use klask::app_state::AppState;
use klask::child_app::check_env_overrides;
use klask::descriptor::{ArgDescriptor, CommandDescriptor, ValueHint};
use klask::settings::Localization;

fn text_arg(id: &str) -> ArgDescriptor {
    ArgDescriptor {
        id: id.to_string(),
        long: Some(id.to_string()),
        short: None,
        help: None,
        long_help: None,
        required: false,
        forbid_empty: false,
        takes_value: true,
        multiple_values: false,
        multiple_occurrences: false,
        use_delimiter: false,
        require_delimiter: false,
        require_equals: false,
        default_values: vec![],
        possible_values: vec![],
        value_hint: ValueHint::Unspecified,
    }
}

#[test]
fn validation_error_lands_on_the_named_field() {
    let child = CommandDescriptor {
        name: "walk".to_string(),
        about: None,
        args: vec![text_arg("speed")],
        subcommands: vec![],
    };
    let root = CommandDescriptor {
        name: "root".to_string(),
        about: None,
        args: vec![text_arg("input"), text_arg("config")],
        subcommands: vec![child],
    };
    let loc = Localization::default();
    let mut st = AppState::new(&root, &loc);

    st.update_validation_error("Config", "must be a path");
    assert_eq!(st.args[0].validation_error, None);
    assert_eq!(st.args[1].validation_error.as_deref(), Some("must be a path"));
    assert_eq!(st.subcommands[0].1.args[0].validation_error, None);

    // the message follows the selected chain, and an earlier message is
    // cleared once the name no longer matches
    st.update_validation_error("Speed", "too fast");
    assert_eq!(st.args[1].validation_error, None);
    assert_eq!(
        st.subcommands[0].1.args[0].validation_error.as_deref(),
        Some("too fast")
    );
}

#[test]
fn empty_environment_keys_are_rejected_before_launch() {
    let loc = Localization::default();
    let ok_env = vec![("KEY".to_string(), "value".to_string())];
    assert!(check_env_overrides(&ok_env, &loc).is_ok());

    let bad_env = vec![
        ("KEY".to_string(), "value".to_string()),
        ("".to_string(), "anonymous".to_string()),
    ];
    let err = check_env_overrides(&bad_env, &loc).unwrap_err();
    assert_eq!(err, "Environment variable can't be empty");

    let empty: Vec<(String, String)> = vec![];
    assert!(check_env_overrides(&empty, &loc).is_ok());
}

#[test]
fn validation_name_is_extracted_from_context() {
    assert_eq!(
        klask::error::validation_name_from_context("--config <config_file>: oops").as_deref(),
        Some("Config file")
    );
    assert_eq!(klask::error::validation_name_from_context("no brackets here"), None);
    assert_eq!(klask::error::validation_name_from_context("only <open"), None);
}
