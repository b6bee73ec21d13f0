use rusky::{
    add_hook, dispatch_exit, finish_marker, hook_script, init, install_hooks, is_valid_hook_name,
    list_hooks, remove_hook, start_marker, uninstall_hooks, Config, SyncError,
};

#[test]
fn test_is_valid_hook_name() {
    assert!(is_valid_hook_name("pre-commit"));
    assert!(is_valid_hook_name("pre-push"));
    assert!(is_valid_hook_name("post-commit"));
    assert!(is_valid_hook_name("commit-msg"));

    assert!(!is_valid_hook_name("invalid-hook"));
    assert!(!is_valid_hook_name("random-name"));
    assert!(!is_valid_hook_name(""));
}

#[test]
fn every_recognized_hook_name_is_valid() {
    let names = [
        "applypatch-msg",
        "pre-applypatch",
        "post-applypatch",
        "pre-commit",
        "prepare-commit-msg",
        "commit-msg",
        "post-commit",
        "pre-rebase",
        "post-checkout",
        "post-merge",
        "pre-push",
        "pre-receive",
        "update",
        "post-receive",
        "post-update",
        "push-to-checkout",
        "pre-auto-gc",
        "post-rewrite",
    ];
    for name in names {
        assert!(is_valid_hook_name(name), "{}", name);
    }
    assert!(!is_valid_hook_name("Pre-Commit"));
    assert!(!is_valid_hook_name("pre-commit "));
    assert!(!is_valid_hook_name("pre"));
}

#[test]
fn init_fresh_gives_empty_default_config() {
    let config = init(None);
    assert!(!config.has_hooks());
    assert_eq!(config.version, "0.1.0");
}

#[test]
fn init_twice_keeps_existing_config() {
    let mut first = init(None);
    add_hook(&mut first, "pre-commit", "cargo test").unwrap();
    let second = init(Some(first));
    assert_eq!(second.hook_count(), 1);
    assert_eq!(second.get_hook("pre-commit"), Some(&"cargo test".to_string()));
    assert_eq!(second.version, "0.1.0");
}

#[test]
fn add_binds_command_and_returns_hook_file() {
    let mut config = Config::default();
    let (name, script) = add_hook(&mut config, "pre-commit", "echo 'test'").unwrap();
    assert_eq!(name, "pre-commit");
    assert_eq!(script, hook_script("pre-commit"));
    assert_eq!(config.get_hook("pre-commit"), Some(&"echo 'test'".to_string()));
}

#[test]
fn add_with_invalid_name_changes_nothing() {
    let mut config = Config::default();
    add_hook(&mut config, "pre-push", "echo hi").unwrap();
    let result = add_hook(&mut config, "invalid-hook", "echo 'test'");
    assert_eq!(result, Err(SyncError::InvalidHookName));
    assert_eq!(config.hook_count(), 1);
    assert_eq!(config.get_hook("invalid-hook"), None);
    assert_eq!(config.get_hook("pre-push"), Some(&"echo hi".to_string()));
}

#[test]
fn remove_bound_hook_returns_file_to_delete() {
    let mut config = Config::default();
    add_hook(&mut config, "pre-commit", "echo 'test'").unwrap();
    let removed = remove_hook(&mut config, "pre-commit");
    assert_eq!(removed, Some("pre-commit".to_string()));
    assert_eq!(config.get_hook("pre-commit"), None);
    assert!(!config.has_hooks());
}

#[test]
fn remove_unbound_hook_is_not_found_and_changes_nothing() {
    let mut config = Config::default();
    add_hook(&mut config, "pre-push", "echo hi").unwrap();
    let before = config.entries();
    assert_eq!(remove_hook(&mut config, "non-existent"), None);
    assert_eq!(remove_hook(&mut config, "pre-commit"), None);
    assert_eq!(config.entries(), before);
    assert_eq!(config.version, "0.1.0");
}

#[test]
fn add_then_list_gives_one_entry() {
    let mut config = init(None);
    add_hook(&mut config, "pre-push", "echo hi").unwrap();
    let listed = list_hooks(&config);
    assert_eq!(listed, vec![("pre-push".to_string(), "echo hi".to_string())]);
}

#[test]
fn list_of_empty_config_is_empty() {
    let config = Config::default();
    assert!(list_hooks(&config).is_empty());
}

#[test]
fn uninstall_then_install_covers_every_bound_hook() {
    let mut config = Config::default();
    add_hook(&mut config, "pre-commit", "echo 'test'").unwrap();
    add_hook(&mut config, "pre-push", "cargo test").unwrap();
    let before = config.entries();

    let mut deleted = uninstall_hooks(&config);
    deleted.sort();
    assert_eq!(deleted, vec!["pre-commit".to_string(), "pre-push".to_string()]);

    let mut written = install_hooks(&config);
    written.sort();
    assert_eq!(
        written,
        vec![
            ("pre-commit".to_string(), hook_script("pre-commit")),
            ("pre-push".to_string(), hook_script("pre-push")),
        ]
    );
    assert_eq!(config.entries(), before);
}

#[test]
fn hook_script_names_its_hook() {
    assert_eq!(
        hook_script("pre-commit"),
        "#!/bin/sh\n# managed by rusky: runs the command bound to this hook\nexec rusky run pre-commit \"$@\"\n"
    );
    assert!(hook_script("pre-push").starts_with("#!/bin/sh\n"));
}

#[test]
fn failing_command_status_is_propagated() {
    let e = dispatch_exit(Some(3));
    assert_eq!(e.exit_code, 3);
    assert!(!e.succeeded);
    let end = finish_marker("pre-commit", &e);
    assert!(!end.contains("completed"));
    assert_eq!(end, "\u{274c} rusky > hook pre-commit failed");
    assert!(start_marker("pre-commit").contains("\u{1f43a} rusky > hook"));
}

#[test]
fn false_command_exits_with_one() {
    let e = dispatch_exit(Some(1));
    assert_eq!(e.exit_code, 1);
    assert!(!e.succeeded);
}

#[test]
fn successful_command_completes() {
    let e = dispatch_exit(Some(0));
    assert_eq!(e.exit_code, 0);
    assert!(e.succeeded);
    assert_eq!(finish_marker("pre-commit", &e), "\u{2705} rusky > hook completed");
    assert_eq!(start_marker("pre-commit"), "\u{1f43a} rusky > hook pre-commit");
}

#[test]
fn command_ended_by_signal_fails() {
    let e = dispatch_exit(None);
    assert_eq!(e.exit_code, 1);
    assert!(!e.succeeded);
}

#[test]
fn dispatch_reads_bound_command() {
    let mut config = Config::default();
    add_hook(&mut config, "pre-commit", "exit 3").unwrap();
    assert_eq!(rusky::dispatch_command(&config, "pre-commit"), Some("exit 3".to_string()));
    assert_eq!(rusky::dispatch_command(&config, "pre-push"), None);
}

#[test]
fn dispatch_skips_empty_command() {
    let mut config = Config::default();
    add_hook(&mut config, "pre-commit", "").unwrap();
    assert_eq!(rusky::dispatch_command(&config, "pre-commit"), None);
}
