use in_order::config::action::{
    Action, CommandPlan, DirEntry, ExitData, ScannedDir, SpecialEntry, handle_output, number,
    parse_command, select_action_dirs, select_first_prefix, valid_action_dir,
};
use in_order::config::ConfigError;

fn s(t: &str) -> String {
    t.to_string()
}

#[test]
fn number_sums_leading_digit_faces() {
    assert_eq!(number(&s("12-setup")), 3);
    assert_eq!(number(&s("9-x")), 9);
    assert_eq!(number(&s("007")), 7);
    assert_eq!(number(&s("42")), 6);
    assert_eq!(number(&s("abc")), 0);
    assert_eq!(number(&s("")), 0);
    assert_eq!(number(&s("1a2")), 1);
}

#[test]
fn only_digit_leading_directories_qualify() {
    let entries = vec![
        DirEntry { name: s("1-first"), is_dir: true },
        DirEntry { name: s("notes"), is_dir: true },
        DirEntry { name: s("2-second"), is_dir: false },
        DirEntry { name: s("3-third"), is_dir: true },
        DirEntry { name: s(""), is_dir: true },
    ];
    assert!(valid_action_dir(&entries[0]));
    assert!(!valid_action_dir(&entries[1]));
    assert!(!valid_action_dir(&entries[2]));
    assert!(!valid_action_dir(&entries[4]));
    let names = select_action_dirs(&entries);
    assert_eq!(names, vec![s("1-first"), s("3-third")]);
}

#[test]
fn first_do_and_undo_entries_are_picked() {
    let entries = vec![s("undo.sh"), s("readme"), s("do.sh"), s("do-extra.sh")];
    assert_eq!(select_first_prefix(&entries, "do"), Some(s("do.sh")));
    assert_eq!(select_first_prefix(&entries, "undo"), Some(s("undo.sh")));
    assert_eq!(select_first_prefix(&entries, "zz"), None);
    let none: Vec<String> = vec![s("readme")];
    assert_eq!(select_first_prefix(&none, "do"), None);
}

#[test]
fn actions_sort_ascending_with_stable_ties() {
    let dirs = vec![
        ScannedDir { name: s("9-last"), entries: vec![] },
        ScannedDir { name: s("2-b"), entries: vec![] },
        ScannedDir { name: s("11-a"), entries: vec![] },
        ScannedDir { name: s("12-c"), entries: vec![] },
    ];
    let actions = Action::find_actions(&dirs, &s("sh"), &vec![]).unwrap();
    let names: Vec<&str> = actions.iter().map(|a| a.name.as_str()).collect();
    // keys: 9, 2, 2, 3 - the two actions with key 2 keep discovery order
    assert_eq!(names, vec!["2-b", "11-a", "12-c", "9-last"]);
    assert_eq!(actions[0].sort_key, 2);
    assert_eq!(actions[1].sort_key, 2);
    assert_eq!(actions[2].sort_key, 3);
    assert_eq!(actions[3].sort_key, 9);
}

#[test]
fn override_picks_special_command_by_sort_key() {
    let special = vec![SpecialEntry { key: s("3"), command: Some(s("special")) }];
    let dirs = vec![
        ScannedDir { name: s("12-a"), entries: vec![s("do.sh")] },
        ScannedDir { name: s("4-b"), entries: vec![] },
    ];
    let actions = Action::find_actions(&dirs, &s("sh"), &special).unwrap();
    // "12-a" has sort key 3 and takes the override; "4-b" keeps the default
    assert_eq!(actions[0].name, s("12-a"));
    assert_eq!(actions[0].command, s("special"));
    assert_eq!(actions[0].do_file, Some(s("do.sh")));
    assert_eq!(actions[0].undo_file, None);
    assert_eq!(actions[1].command, s("sh"));
}

#[test]
fn override_key_must_match_canonical_decimal() {
    let special = vec![SpecialEntry { key: s("03"), command: Some(s("special")) }];
    let dirs = vec![ScannedDir { name: s("3-a"), entries: vec![] }];
    let actions = Action::find_actions(&dirs, &s("sh"), &special).unwrap();
    assert_eq!(actions[0].command, s("sh"));
}

#[test]
fn unusable_override_entry_aborts_discovery() {
    let special = vec![SpecialEntry { key: s("3"), command: None }];
    let dirs = vec![
        ScannedDir { name: s("1-ok"), entries: vec![] },
        ScannedDir { name: s("3-bad"), entries: vec![] },
    ];
    let r = Action::find_actions(&dirs, &s("sh"), &special);
    assert_eq!(r, Err(ConfigError::InvalidSpecial));
}

#[test]
fn missing_do_file_skips_with_fixed_message() {
    let action = Action {
        name: s("1-a"),
        sort_key: 1,
        command: s("sh"),
        do_file: None,
        undo_file: None,
    };
    assert_eq!(action.do_command(), CommandPlan::Skip(s("No 'do' file")));
    assert_eq!(action.undo_command(), CommandPlan::Skip(s("No 'undo' file")));
}

#[test]
fn present_do_file_builds_the_command_line() {
    let action = Action {
        name: s("1-a"),
        sort_key: 1,
        command: s("bash -e"),
        do_file: Some(s("do.sh")),
        undo_file: Some(s("undo.sh")),
    };
    assert_eq!(
        action.do_command(),
        CommandPlan::Run(vec![s("bash"), s("-e"), s("do.sh")])
    );
    assert_eq!(
        action.undo_command(),
        CommandPlan::Run(vec![s("bash"), s("-e"), s("undo.sh")])
    );
}

#[test]
fn parse_command_splits_on_whitespace_and_appends_file() {
    assert_eq!(parse_command("sh", "do.sh"), vec![s("sh"), s("do.sh")]);
    assert_eq!(
        parse_command("  env \t FOO=1  sh ", "do.sh"),
        vec![s("env"), s("FOO=1"), s("sh"), s("do.sh")]
    );
    assert_eq!(parse_command("", "undo"), vec![s("undo")]);
}

#[test]
fn handle_output_classifies_process_results() {
    assert_eq!(
        handle_output(Err(s("spawn failed"))),
        Err(s("spawn failed"))
    );
    assert_eq!(
        handle_output(Ok(ExitData { success: true, output: s("done"), error: s("") })),
        Ok(s("done"))
    );
    assert_eq!(
        handle_output(Ok(ExitData { success: false, output: s(""), error: s("boom") })),
        Err(s("boom"))
    );
}
