use medulla::error::MedullaError;
use medulla::hook::{
    hook_status, install_action, is_medulla_hook_text, parse_gitdir, precommit_hook,
    uninstall_action, HookInstall, HookStatus,
};

#[test]
fn installed_hook_is_recognised() {
    let script = precommit_hook();
    assert!(script.starts_with("#!/bin/sh\n"));
    assert!(script.contains("medulla snapshot"));
    assert!(is_medulla_hook_text(script));
    assert!(!is_medulla_hook_text("#!/bin/sh\nexit 0\n"));
    assert!(is_medulla_hook_text("echo hi\n# MEDULLA_HOOK\n"));
}

#[test]
fn worktree_gitdir() {
    assert_eq!(parse_gitdir("gitdir: /repo/.git/worktrees/x\n"), Some("/repo/.git/worktrees/x".to_string()));
    assert_eq!(parse_gitdir("gitdir:   ../main/.git  "), Some("../main/.git".to_string()));
    assert_eq!(parse_gitdir("ref: refs/heads/main"), None);
    assert_eq!(parse_gitdir("GITDIR: x"), None);
}

#[test]
fn install_decisions() {
    assert_eq!(install_action(false, false, false).unwrap(), HookInstall::Write);
    assert_eq!(install_action(false, false, true).unwrap(), HookInstall::Write);
    assert_eq!(install_action(true, true, false).unwrap(), HookInstall::AlreadyInstalled);
    assert_eq!(install_action(true, false, true).unwrap(), HookInstall::BackupThenWrite);
    assert!(matches!(
        install_action(true, false, false),
        Err(MedullaError::Storage(m))
            if m == "A pre-commit hook already exists. Use --force to overwrite, or manually integrate medulla."
    ));
}

#[test]
fn uninstall_and_status_decisions() {
    assert_eq!(uninstall_action(false, false).unwrap(), false);
    assert_eq!(uninstall_action(true, true).unwrap(), true);
    assert!(matches!(
        uninstall_action(true, false),
        Err(MedullaError::Storage(m)) if m == "Pre-commit hook is not a Medulla hook. Remove it manually if needed."
    ));
    assert_eq!(hook_status(false, false, false), HookStatus::NotARepository);
    assert_eq!(hook_status(true, false, false), HookStatus::NotInstalled);
    assert_eq!(hook_status(true, true, true), HookStatus::Installed);
    assert_eq!(hook_status(true, true, false), HookStatus::CustomHook);
    let installed = is_medulla_hook_text(precommit_hook());
    assert_eq!(hook_status(true, true, installed), HookStatus::Installed);
}
