use rusky::{Git, GitError};

#[test]
fn git_root_is_trimmed_output() {
    assert_eq!(Git::get_git_root(true, "  /home/me/repo\n"), Ok("/home/me/repo".to_string()));
}

#[test]
fn git_root_outside_repository_fails() {
    assert_eq!(Git::get_git_root(false, ""), Err(GitError::NotARepository));
}

#[test]
fn git_config_value_is_trimmed_when_set() {
    assert_eq!(Git::get_config(true, "Test User\n"), Some("Test User".to_string()));
    assert_eq!(Git::get_config(false, ""), None);
}

#[test]
fn hooks_dir_and_hook_path() {
    assert_eq!(Git::get_hooks_dir("/repo"), "/repo/.git/hooks");
    assert_eq!(Git::get_hook_path("/repo", "pre-commit"), "/repo/.git/hooks/pre-commit");
}
