use wt::shell::{completion_path, resolve_shell, Shell};

#[test]
fn resolves_shell_from_env() {
    assert_eq!(resolve_shell(None, Some("/bin/zsh")).unwrap(), Shell::Zsh);
    assert_eq!(resolve_shell(None, Some("/usr/bin/bash")).unwrap(), Shell::Bash);
    assert_eq!(resolve_shell(None, Some("/opt/homebrew/bin/fish")).unwrap(), Shell::Fish);
    assert_eq!(resolve_shell(None, Some("/bin/-zsh")).unwrap(), Shell::Zsh);
}

#[test]
fn explicit_shell_overrides_env() {
    assert_eq!(resolve_shell(Some(Shell::Fish), Some("/bin/zsh")).unwrap(), Shell::Fish);
}

#[test]
fn unsupported_shell_returns_actionable_error() {
    let err = resolve_shell(None, Some("/bin/tcsh")).unwrap_err();
    assert_eq!(err, "cannot detect supported shell; use --shell zsh|bash|fish");
    assert!(resolve_shell(None, None).is_err());
}

#[test]
fn rejects_relative_xdg_paths() {
    let err = completion_path(Shell::Zsh, Some("/home/test"), Some("relative/data"), None)
        .unwrap_err();
    assert_eq!(err, "XDG_DATA_HOME must be an absolute path");

    let err = completion_path(Shell::Fish, Some("/home/test"), None, Some("relative/config"))
        .unwrap_err();
    assert_eq!(err, "XDG_CONFIG_HOME must be an absolute path");
}

#[test]
fn path_resolution_prefers_xdg_directories() {
    let home = Some("/home/test");
    assert_eq!(
        completion_path(Shell::Zsh, home, Some("/xdg/data"), Some("/xdg/config")).unwrap(),
        "/xdg/data/zsh/site-functions/_wt"
    );
    assert_eq!(
        completion_path(Shell::Bash, home, Some("/xdg/data"), Some("/xdg/config")).unwrap(),
        "/xdg/data/bash-completion/completions/wt"
    );
    assert_eq!(
        completion_path(Shell::Fish, home, Some("/xdg/data"), Some("/xdg/config")).unwrap(),
        "/xdg/config/fish/completions/wt.fish"
    );
    assert_eq!(
        completion_path(Shell::Zsh, home, Some(""), None).unwrap(),
        "/home/test/.local/share/zsh/site-functions/_wt"
    );
    assert_eq!(
        completion_path(Shell::Fish, home, None, None).unwrap(),
        "/home/test/.config/fish/completions/wt.fish"
    );
}

#[test]
fn requires_home_only_for_missing_xdg_fallbacks() {
    assert_eq!(
        completion_path(Shell::Fish, None, None, Some("/xdg/config")).unwrap(),
        "/xdg/config/fish/completions/wt.fish"
    );

    let err = completion_path(Shell::Zsh, None, None, None).unwrap_err();
    assert_eq!(err, "home directory is not set; set $HOME or XDG_DATA_HOME");
}
