use minicon::offline::{
    install_blocker, install_cli_permission_hint, link_outcome, offline_action, parse_install_args,
    replace_failed, uninstall_outcome, LinkState, OfflineAction, Outcome,
};
use minicon::terminal_replies::{csi_reply, window_title};

fn args(values: &[&str]) -> Vec<String> {
    values.iter().map(|value| (*value).to_owned()).collect()
}

#[test]
fn offline_help_and_version_are_solo() {
    assert_eq!(offline_action(&args(&["--version"])), OfflineAction::Version);
    assert_eq!(offline_action(&args(&["-V"])), OfflineAction::Version);
    assert_eq!(offline_action(&args(&["--help"])), OfflineAction::Help);
    assert_eq!(offline_action(&args(&["--status"])), OfflineAction::Status);
    assert_eq!(offline_action(&args(&["--version", "x"])), OfflineAction::NotAlone);
    assert_eq!(offline_action(&args(&["--status", "x"])), OfflineAction::NotAlone);
    assert_eq!(offline_action(&args(&["--help", "extra"])), OfflineAction::NotAlone);
    assert_eq!(offline_action(&args(&["--cols", "80", "--help"])), OfflineAction::Window);
    assert_eq!(offline_action(&args(&["cli", "list-commands"])), OfflineAction::Cli);
    assert_eq!(offline_action(&args(&["install-cli"])), OfflineAction::InstallCli(true));
    assert_eq!(offline_action(&args(&["uninstall-cli", "--prefix", "/x"])), OfflineAction::InstallCli(false));
    assert_eq!(offline_action(&[]), OfflineAction::Window);
}

#[test]
fn install_prefix_defaults_and_both_spellings() {
    assert_eq!(parse_install_args(&[]), Ok("/usr/local/bin".to_owned()));
    assert_eq!(parse_install_args(&args(&["--prefix", "/opt/bin"])), Ok("/opt/bin".to_owned()));
    assert_eq!(parse_install_args(&args(&["--prefix=/home/u/.local/bin"])), Ok("/home/u/.local/bin".to_owned()));
    assert_eq!(
        parse_install_args(&args(&["--prefix"])),
        Err(Outcome { code: 2, stdout: String::new(), stderr: "error: --prefix requires a directory\n".to_owned() })
    );
    assert_eq!(
        parse_install_args(&args(&["--force"])),
        Err(Outcome { code: 2, stdout: String::new(), stderr: "error: unknown argument '--force'\n".to_owned() })
    );
}

#[test]
fn uninstall_only_ever_removes_a_symlink() {
    let missing = uninstall_outcome("/p/minicon", "/p", LinkState::Missing, None);
    assert_eq!((missing.code, missing.stdout.as_str()), (0, "nothing to remove: /p/minicon does not exist\n"));
    let real = uninstall_outcome("/p/minicon", "/p", LinkState::Other, None);
    assert_eq!(real.code, 1);
    assert!(real.stderr.contains("refusing to delete a real file"));
    let removed = uninstall_outcome("/p/minicon", "/p", LinkState::Symlink, Some(Ok(())));
    assert_eq!((removed.code, removed.stdout.as_str()), (0, "removed /p/minicon\n"));
    let denied = uninstall_outcome("/p/minicon", "/p", LinkState::Symlink, Some(Err("denied".to_owned())));
    assert_eq!(denied.code, 1);
    assert_eq!(
        denied.stderr,
        format!("error: cannot remove /p/minicon: denied\n{}", install_cli_permission_hint("/p"))
    );
}

#[test]
fn install_refuses_before_changing_anything() {
    let unresolved = install_blocker("/p/minicon", "/p", Some("gone".to_owned()), true, LinkState::Missing);
    assert_eq!(unresolved.map(|o| o.stderr), Some("error: cannot resolve this executable: gone\n".to_owned()));
    let no_dir = install_blocker("/p/minicon", "/p", None, false, LinkState::Missing).unwrap();
    assert!(no_dir.stderr.starts_with("error: /p is not a directory\n"));
    let real = install_blocker("/p/minicon", "/p", None, true, LinkState::Other).unwrap();
    assert!(real.stderr.contains("already exists and is not a symlink"));
    assert_eq!(install_blocker("/p/minicon", "/p", None, true, LinkState::Symlink), None);
    assert_eq!(replace_failed("/p/minicon", "/p", "busy").code, 1);
    let linked = link_outcome("/p/minicon", "/opt/minicon", "/p", Ok(()));
    assert_eq!(linked.stdout, "linked /p/minicon -> /opt/minicon\nopen a new shell, then `minicon --version`\n");
    assert_eq!(link_outcome("/p/minicon", "/t", "/p", Err("x".to_owned())).code, 1);
}

#[test]
fn terminal_queries_are_answered() {
    assert_eq!(csi_reply(None, &[], 'c', 0, 0), b"\x1b[?1;2c".to_vec());
    assert_eq!(csi_reply(None, &[&[6]], 'n', 4, 9), b"\x1b[5;10R".to_vec());
    assert_eq!(csi_reply(None, &[&[5]], 'n', 4, 9), b"\x1b[0n".to_vec());
    assert!(csi_reply(Some(b'?'), &[&[6]], 'n', 4, 9).is_empty());
    assert!(csi_reply(None, &[], 'n', 0, 0).is_empty());
    assert!(csi_reply(None, &[&[6]], 'x', 0, 0).is_empty());
}

#[test]
fn a_window_title_is_trimmed_and_made_valid() {
    assert_eq!(window_title(b"  vim main.rs \n"), "vim main.rs");
    assert_eq!(window_title(&[b'a', 0xff]), "a\u{fffd}");
}
