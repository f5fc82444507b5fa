use in_order::config::{
    ConfigError, decide_command, decide_config_path, decide_current_action, decide_root,
    is_current_action, parse_config_values, updated_config,
};
use in_order::config::text::{split_lines, split_words, starts_with, to_decimal};

fn s(t: &str) -> String {
    t.to_string()
}

#[test]
fn current_action_lines_are_recognised_ignoring_spaces() {
    assert!(is_current_action("current_action = 3"));
    assert!(is_current_action("  current_action=4"));
    assert!(is_current_action("cur rent_action = 1"));
    assert!(is_current_action("current_actions = 1"));
    assert!(!is_current_action("current = 3"));
    assert!(!is_current_action("#current_action = 3"));
    assert!(!is_current_action(""));
}

#[test]
fn updated_config_replaces_the_cursor_line_in_place() {
    let content = "command = \"sh\"\ncurrent_action = 1\nroot = \"seq\"\n";
    let out = updated_config(content, 2);
    assert_eq!(out, "command = \"sh\"\ncurrent_action = 2\nroot = \"seq\"\n");
}

#[test]
fn updated_config_appends_where_no_line_carried_the_cursor() {
    let out = updated_config("command = \"sh\"\n", 0);
    assert_eq!(out, "command = \"sh\"\ncurrent_action = 0\n");
    let out = updated_config("", 7);
    assert_eq!(out, "current_action = 7\n");
}

#[test]
fn updated_config_normalises_a_missing_final_newline() {
    let out = updated_config("command = \"sh\"", 12);
    assert_eq!(out, "command = \"sh\"\ncurrent_action = 12\n");
}

#[test]
fn to_decimal_renders_canonically() {
    assert_eq!(to_decimal(0), s("0"));
    assert_eq!(to_decimal(9), s("9"));
    assert_eq!(to_decimal(10539), s("10539"));
}

#[test]
fn split_helpers_behave_like_their_specs() {
    assert_eq!(split_words(" a  bc\t d "), vec![s("a"), s("bc"), s("d")]);
    assert_eq!(split_words(""), Vec::<String>::new());
    assert_eq!(split_lines("a\nb"), vec![s("a"), s("b")]);
    assert_eq!(split_lines("a\nb\n"), vec![s("a"), s("b")]);
    assert_eq!(split_lines("a\n\nb\n"), vec![s("a"), s(""), s("b")]);
    assert_eq!(split_lines(""), Vec::<String>::new());
    assert!(starts_with("do.sh", "do"));
    assert!(!starts_with("undo.sh", "do"));
    assert!(!starts_with("d", "do"));
}

#[test]
fn config_path_honours_explicit_and_default_locations() {
    assert_eq!(decide_config_path(Some(s("conf.toml")), false), Ok(s("conf.toml")));
    assert_eq!(decide_config_path(None, true), Ok(s("./in-order.toml")));
    assert_eq!(decide_config_path(None, false), Err(ConfigError::MissingConfig));
}

#[test]
fn field_decisions_match_their_defaults_and_errors() {
    assert_eq!(decide_root(None), Ok(s(".")));
    assert_eq!(decide_root(Some(None)), Err(ConfigError::InvalidRoot));
    assert_eq!(decide_root(Some(Some(s("seq")))), Ok(s("seq")));
    assert_eq!(decide_current_action(None), Ok(0));
    assert_eq!(decide_current_action(Some(Some(5))), Ok(5));
    assert_eq!(
        decide_current_action(Some(Some(-1))),
        Err(ConfigError::InvalidCurrentAction)
    );
    assert_eq!(
        decide_current_action(Some(None)),
        Err(ConfigError::InvalidCurrentAction)
    );
    assert_eq!(decide_command(None), Err(ConfigError::MissingCommand));
    assert_eq!(decide_command(Some(None)), Err(ConfigError::InvalidCommand));
    assert_eq!(decide_command(Some(Some(s("sh")))), Ok(s("sh")));
}

#[test]
fn parse_config_values_reads_every_field() {
    let text = "root = \"tests/sequence\"\ncommand = \"sh\"\ncurrent_action = 2\n\n[special.3]\ncommand = \"special\"\n";
    let values = parse_config_values(text).unwrap();
    assert_eq!(values.root, s("tests/sequence"));
    assert_eq!(values.command, s("sh"));
    assert_eq!(values.current_action, 2);
    assert_eq!(values.special.len(), 1);
    assert_eq!(values.special[0].key, s("3"));
    assert_eq!(values.special[0].command, Some(s("special")));
}

#[test]
fn parse_config_values_uses_defaults_for_absent_fields() {
    let values = parse_config_values("command = \"sh\"\n").unwrap();
    assert_eq!(values.root, s("."));
    assert_eq!(values.current_action, 0);
    assert_eq!(values.special.len(), 0);
}

#[test]
fn parse_config_values_reports_each_invalid_field() {
    assert_eq!(parse_config_values("root = 1\ncommand = \"sh\"\n"), Err(ConfigError::InvalidRoot));
    assert_eq!(parse_config_values("root = \".\"\n"), Err(ConfigError::MissingCommand));
    assert_eq!(parse_config_values("command = 5\n"), Err(ConfigError::InvalidCommand));
    assert_eq!(
        parse_config_values("command = \"sh\"\ncurrent_action = \"x\"\n"),
        Err(ConfigError::InvalidCurrentAction)
    );
    assert_eq!(
        parse_config_values("command = \"sh\"\nspecial = 3\n"),
        Err(ConfigError::InvalidSpecial)
    );
    assert_eq!(parse_config_values("= nonsense ="), Err(ConfigError::InvalidToml));
}

#[test]
fn override_entries_without_usable_commands_are_kept_as_such() {
    let text = "command = \"sh\"\n[special.4]\nnote = \"no command here\"\n";
    let values = parse_config_values(text).unwrap();
    assert_eq!(values.special.len(), 1);
    assert_eq!(values.special[0].key, s("4"));
    assert_eq!(values.special[0].command, None);
}
