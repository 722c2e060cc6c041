use std::collections::HashMap;
use std::time::Duration;

use cosmic_ext_window_daemon::config::{
    accept_title_regex, from_env_source, parse, ConfigError, RawConfig, WorkspaceMode,
};

/// Helper: build a source from a map.
fn env<'a>(pairs: &'a [(&'a str, &'a str)]) -> impl Fn(&str) -> Option<String> + 'a {
    let map: HashMap<&str, &str> = pairs.iter().copied().collect();
    move |key: &str| map.get(key).map(|v| v.to_string())
}

#[test]
fn from_env_source_returns_defaults_when_no_env_vars_set() {
    let cfg = from_env_source(|_| None).unwrap();
    assert_eq!(cfg.workspace_mode, WorkspaceMode::NextFree);
    assert!(!cfg.maximize);
    assert!(!cfg.switch_to_workspace);
    assert_eq!(cfg.switch_verify_timeout, Some(Duration::from_millis(250)));
    assert!(cfg.excluded_app_ids.is_empty());
    assert!(cfg.excluded_title_regex.is_none());
    assert!(cfg.workspace_output.is_none());
    assert!(!cfg.jump_on_empty);
}

#[test]
fn from_env_source_parses_workspace_mode_next_free() {
    let cfg = from_env_source(env(&[("WORKSPACE_MODE", "next-free")])).unwrap();
    assert_eq!(cfg.workspace_mode, WorkspaceMode::NextFree);
}

#[test]
fn from_env_source_parses_workspace_mode_new_each() {
    let cfg = from_env_source(env(&[("WORKSPACE_MODE", "new-each")])).unwrap();
    assert_eq!(cfg.workspace_mode, WorkspaceMode::NewEach);
}

#[test]
fn from_env_source_parses_workspace_mode_same() {
    let cfg = from_env_source(env(&[("WORKSPACE_MODE", "same")])).unwrap();
    assert_eq!(cfg.workspace_mode, WorkspaceMode::Same);
}

#[test]
fn from_env_source_returns_err_when_workspace_mode_is_invalid() {
    let err = from_env_source(env(&[("WORKSPACE_MODE", "bogus")])).unwrap_err();
    let msg = err.message();
    assert!(msg.contains("WORKSPACE_MODE"), "error should mention the var: {msg}");
    assert!(msg.contains("bogus"), "error should echo the bad value: {msg}");
}

#[test]
fn from_env_source_parses_maximize_true() {
    let cfg = from_env_source(env(&[("MAXIMIZE", "1")])).unwrap();
    assert!(cfg.maximize);
}

#[test]
fn from_env_source_parses_maximize_false() {
    let cfg = from_env_source(env(&[("MAXIMIZE", "0")])).unwrap();
    assert!(!cfg.maximize);
}

#[test]
fn from_env_source_accepts_posix_truthy_spellings() {
    // POSIX-style admin convention: true/yes/on/1, case-insensitive, whitespace tolerated.
    for raw in ["1", "true", "TRUE", "True", "yes", "YES", "on", "ON", "  1  ", "\ttrue\n"] {
        let cfg = from_env_source(env(&[("MAXIMIZE", raw)])).unwrap_or_else(|e| {
            panic!("expected {:?} to parse as true, got error: {}", raw, e.message());
        });
        assert!(cfg.maximize, "{:?} should parse as true", raw);
    }
}

#[test]
fn from_env_source_accepts_posix_falsy_spellings() {
    for raw in ["0", "false", "FALSE", "no", "NO", "off", "OFF", "  0  ", "\tfalse\n"] {
        let cfg = from_env_source(env(&[("MAXIMIZE", raw)])).unwrap_or_else(|e| {
            panic!("expected {:?} to parse as false, got error: {}", raw, e.message());
        });
        assert!(!cfg.maximize, "{:?} should parse as false", raw);
    }
}

#[test]
fn from_env_source_returns_err_when_maximize_is_invalid() {
    let err = from_env_source(env(&[("MAXIMIZE", "bogus")])).unwrap_err();
    let msg = err.message();
    assert!(msg.contains("MAXIMIZE"), "error should name the var: {}", msg);
    assert!(
        msg.contains("0/1") || msg.contains("true/false"),
        "error should list accepted values: {}",
        msg,
    );
}

#[test]
fn from_env_source_parses_switch_to_workspace_true() {
    let cfg = from_env_source(env(&[("SWITCH_TO_WORKSPACE", "1")])).unwrap();
    assert!(cfg.switch_to_workspace);
}

#[test]
fn from_env_source_switch_to_workspace_honors_posix_spellings() {
    // Sanity check that SWITCH_TO_WORKSPACE goes through the same parser
    // (no per-var hardcoding regressions).
    let cfg = from_env_source(env(&[("SWITCH_TO_WORKSPACE", "yes")])).unwrap();
    assert!(cfg.switch_to_workspace);
    let cfg = from_env_source(env(&[("SWITCH_TO_WORKSPACE", "off")])).unwrap();
    assert!(!cfg.switch_to_workspace);
}

#[test]
fn from_env_source_parses_verify_timeout_zero_to_none() {
    let cfg = from_env_source(env(&[("SWITCH_VERIFY_TIMEOUT_MS", "0")])).unwrap();
    assert_eq!(cfg.switch_verify_timeout, None);
}

#[test]
fn from_env_source_parses_verify_timeout_nonzero() {
    let cfg = from_env_source(env(&[("SWITCH_VERIFY_TIMEOUT_MS", "500")])).unwrap();
    assert_eq!(cfg.switch_verify_timeout, Some(Duration::from_millis(500)));
}

#[test]
fn from_env_source_returns_err_when_verify_timeout_is_invalid() {
    let err =
        from_env_source(env(&[("SWITCH_VERIFY_TIMEOUT_MS", "not-a-number")])).unwrap_err();
    assert!(err.message().contains("SWITCH_VERIFY_TIMEOUT_MS"));
}

#[test]
fn from_env_source_parses_excluded_app_ids_comma_list() {
    let cfg =
        from_env_source(env(&[("EXCLUDED_APP_IDS", "org.kde.dolphin,foot")])).unwrap();
    assert_eq!(cfg.excluded_app_ids, vec!["org.kde.dolphin", "foot"]);
}

#[test]
fn from_env_source_drops_empty_entries_from_excluded_app_ids() {
    let cfg = from_env_source(env(&[("EXCLUDED_APP_IDS", "foo,,bar,")])).unwrap();
    assert_eq!(cfg.excluded_app_ids, vec!["foo", "bar"]);
}

#[test]
fn from_env_source_excluded_app_ids_trailing_comma_drops_empty() {
    let cfg =
        from_env_source(env(&[("EXCLUDED_APP_IDS", "foot,")])).unwrap();
    assert_eq!(cfg.excluded_app_ids, vec!["foot"]);
}

#[test]
fn from_env_source_parses_excluded_title_regex_when_set() {
    let cfg =
        from_env_source(env(&[("EXCLUDED_TITLE_REGEX", "^Picture-in-Picture")])).unwrap();
    assert!(cfg.excluded_title_regex.is_some());
}

#[test]
fn from_env_source_excluded_title_regex_is_none_when_empty() {
    let cfg =
        from_env_source(env(&[("EXCLUDED_TITLE_REGEX", "")])).unwrap();
    assert!(cfg.excluded_title_regex.is_none());
}

#[test]
fn from_env_source_returns_err_when_excluded_title_regex_is_invalid() {
    let err =
        from_env_source(env(&[("EXCLUDED_TITLE_REGEX", "[invalid")])).unwrap_err();
    let msg = err.message();
    assert!(msg.contains("EXCLUDED_TITLE_REGEX"), "error should mention the var: {msg}");
}

#[test]
fn from_env_source_parses_workspace_output_when_set() {
    let cfg =
        from_env_source(env(&[("WORKSPACE_OUTPUT", "HDMI-1")])).unwrap();
    assert_eq!(cfg.workspace_output, Some("HDMI-1".to_string()));
}

#[test]
fn from_env_source_workspace_output_is_none_when_empty() {
    let cfg =
        from_env_source(env(&[("WORKSPACE_OUTPUT", "")])).unwrap();
    assert!(cfg.workspace_output.is_none());
}

#[test]
fn from_env_source_workspace_output_is_none_when_absent() {
    let cfg = from_env_source(|_| None).unwrap();
    assert!(cfg.workspace_output.is_none());
}

#[test]
fn jump_on_empty_default_false() {
    let cfg = from_env_source(|_| None).unwrap();
    assert!(!cfg.jump_on_empty, "JUMP_ON_EMPTY absent => false");
}

#[test]
fn jump_on_empty_parses_true() {
    for raw in ["1", "true", "on", "yes", "TRUE", "YES", "ON"] {
        let cfg = from_env_source(env(&[("JUMP_ON_EMPTY", raw)])).unwrap_or_else(|e| {
            panic!("expected {:?} to parse as true, got error: {}", raw, e.message());
        });
        assert!(cfg.jump_on_empty, "{:?} should parse as true", raw);
    }
}

#[test]
fn jump_on_empty_parses_false() {
    for raw in ["0", "false", "off", "no", "FALSE", "NO", "OFF"] {
        let cfg = from_env_source(env(&[("JUMP_ON_EMPTY", raw)])).unwrap_or_else(|e| {
            panic!("expected {:?} to parse as false, got error: {}", raw, e.message());
        });
        assert!(!cfg.jump_on_empty, "{:?} should parse as false", raw);
    }
}

#[test]
fn jump_on_empty_invalid_errors() {
    let err = from_env_source(env(&[("JUMP_ON_EMPTY", "maybe")])).unwrap_err();
    let msg = err.message();
    assert!(msg.contains("JUMP_ON_EMPTY"), "error should mention the var: {msg}");
    assert!(
        msg.contains("unrecognized value"),
        "error should say 'unrecognized value': {msg}"
    );
}

fn refused(variable: &str, value: &str) -> ConfigError {
    from_env_source(env(&[(variable, value)])).unwrap_err()
}

#[test]
fn each_refusal_names_variable_and_value() {
    assert_eq!(
        refused("WORKSPACE_MODE", "Same").message(),
        "WORKSPACE_MODE: unrecognized value \"Same\"; expected one of: next-free, new-each, same"
    );
    assert_eq!(
        refused("SWITCH_TO_WORKSPACE", "  Maybe\t").message(),
        "SWITCH_TO_WORKSPACE: unrecognized value \"  Maybe\\t\"; \
         expected one of 0/1, true/false, yes/no, on/off (case-insensitive)"
    );
    assert_eq!(
        refused("SWITCH_VERIFY_TIMEOUT_MS", "5s").message(),
        "SWITCH_VERIFY_TIMEOUT_MS: \"5s\" is not a valid u64"
    );
    assert_eq!(
        refused("EXCLUDED_TITLE_REGEX", "a\"(").message(),
        "EXCLUDED_TITLE_REGEX: \"a\\\"(\" is not a valid regex"
    );
}

#[test]
fn a_message_can_be_made_from_a_quoted_value() {
    let error = ConfigError::VerifyTimeout { value: "x".to_string(), cause: String::new() };
    assert_eq!(error.message_with("<x>"), "SWITCH_VERIFY_TIMEOUT_MS: <x> is not a valid u64");
}

#[test]
fn a_refused_switch_is_named_as_it_was_given() {
    assert_eq!(
        refused("MAXIMIZE", "Bogus"),
        ConfigError::Switch { variable: "MAXIMIZE".to_string(), value: "Bogus".to_string() }
    );
    assert!(refused("MAXIMIZE", "Bogus").message().starts_with("MAXIMIZE: unrecognized value \"Bogus\";"));
}

#[test]
fn a_printable_value_is_shown_as_it_is() {
    let value: String = (' '..='~').filter(|c| !"\"'\\".contains(*c)).collect();
    let message = refused("WORKSPACE_MODE", &value).message();
    assert!(message.contains(&format!("\"{}\"", value)), "{}", message);
}

/// The refusal of the pattern `(`.
fn unclosed() -> ConfigError {
    ConfigError::TitleRegex {
        value: "(".to_string(),
        cause: regex::Regex::new("(").unwrap_err().to_string(),
    }
}

#[test]
fn a_refusal_keeps_its_cause() {
    for bad in ["", "+", "5s", "18446744073709551616"] {
        let cause = bad.parse::<u64>().unwrap_err().to_string();
        let error = refused("SWITCH_VERIFY_TIMEOUT_MS", bad);
        assert_eq!(error.cause(), Some(cause.as_str()));
        assert_eq!(
            error,
            ConfigError::VerifyTimeout { value: bad.to_string(), cause: cause.clone() }
        );
    }
    assert_eq!(refused("SWITCH_VERIFY_TIMEOUT_MS", "5s").cause(), Some("invalid digit found in string"));
    let error = refused("EXCLUDED_TITLE_REGEX", "(");
    assert_eq!(error, unclosed());
    assert!(error.cause().unwrap().contains("unclosed group"));
    assert_eq!(refused("WORKSPACE_MODE", "x").cause(), None);
    assert_eq!(refused("MAXIMIZE", "x").cause(), None);
}

#[test]
fn the_first_fault_counts() {
    let err = from_env_source(env(&[
        ("JUMP_ON_EMPTY", "x"),
        ("EXCLUDED_TITLE_REGEX", "("),
        ("SWITCH_VERIFY_TIMEOUT_MS", "x"),
        ("SWITCH_TO_WORKSPACE", "x"),
        ("MAXIMIZE", "x"),
    ]))
    .unwrap_err();
    assert_eq!(
        err,
        ConfigError::Switch { variable: "MAXIMIZE".to_string(), value: "x".to_string() }
    );
    let err = from_env_source(env(&[("JUMP_ON_EMPTY", "x"), ("EXCLUDED_TITLE_REGEX", "(")]))
        .unwrap_err();
    assert_eq!(err, unclosed());
}

#[test]
fn only_a_plain_zero_turns_the_check_off() {
    let timeout = |value| {
        from_env_source(env(&[("SWITCH_VERIFY_TIMEOUT_MS", value)])).unwrap().switch_verify_timeout
    };
    assert_eq!(timeout("0"), None);
    assert_eq!(timeout("00"), Some(Duration::from_millis(0)));
    assert_eq!(timeout("+0"), Some(Duration::from_millis(0)));
    assert_eq!(timeout("+12"), Some(Duration::from_millis(12)));
    assert_eq!(timeout("18446744073709551615"), Some(Duration::from_millis(u64::MAX)));
    for bad in ["", "+", "-1", " 1", "1 ", "1_0", "18446744073709551616"] {
        assert!(from_env_source(env(&[("SWITCH_VERIFY_TIMEOUT_MS", bad)])).is_err(), "{:?}", bad);
    }
}

#[test]
fn excluded_applications_are_trimmed_and_keep_their_case() {
    let cfg = from_env_source(env(&[("EXCLUDED_APP_IDS", " Foot ,\u{a0}, org.a b ,,\t")])).unwrap();
    assert_eq!(cfg.excluded_app_ids, vec!["Foot", "org.a b"]);
}

#[test]
fn a_mode_is_not_trimmed() {
    assert!(from_env_source(env(&[("WORKSPACE_MODE", " same")])).is_err());
    assert!(from_env_source(env(&[("WORKSPACE_MODE", "")])).is_err());
}

#[test]
fn an_empty_switch_is_refused() {
    assert_eq!(
        refused("MAXIMIZE", ""),
        ConfigError::Switch { variable: "MAXIMIZE".to_string(), value: String::new() }
    );
}

#[test]
fn the_compiled_pattern_is_the_one_that_was_given() {
    let cfg = from_env_source(env(&[("EXCLUDED_TITLE_REGEX", "^a+$")])).unwrap();
    let regex = cfg.excluded_title_regex.unwrap();
    assert_eq!(regex.as_str(), "^a+$");
    assert!(regex.is_match("aaa"));
    assert!(!regex.is_match("ab"));
}

#[test]
fn a_compiled_pattern_is_accepted_and_a_faulty_one_refused() {
    let accepted = accept_title_regex("x", regex::Regex::new("x")).unwrap();
    assert_eq!(accepted.unwrap().as_str(), "x");
    assert_eq!(
        accept_title_regex("(", regex::Regex::new("(")).unwrap_err(),
        unclosed()
    );
}

#[test]
fn parsing_values_gives_what_reading_them_gives() {
    let raw = RawConfig {
        workspace_mode: Some("new-each".to_string()),
        maximize: Some("ON".to_string()),
        switch_to_workspace: Some("no".to_string()),
        switch_verify_timeout_ms: Some("40".to_string()),
        excluded_app_ids: Some("a,b".to_string()),
        excluded_title_regex: None,
        workspace_output: Some("DP-1".to_string()),
        jump_on_empty: Some("1".to_string()),
    };
    let cfg = parse(&raw).unwrap();
    assert_eq!(cfg.workspace_mode, WorkspaceMode::NewEach);
    assert!(cfg.maximize);
    assert!(!cfg.switch_to_workspace);
    assert_eq!(cfg.switch_verify_timeout, Some(Duration::from_millis(40)));
    assert_eq!(cfg.excluded_app_ids, vec!["a", "b"]);
    assert!(cfg.excluded_title_regex.is_none());
    assert_eq!(cfg.workspace_output, Some("DP-1".to_string()));
    assert!(cfg.jump_on_empty);
}
