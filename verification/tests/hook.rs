use houndlens::hook::{
    custom_hooks_dir, git_dir_from_output, hook_script, is_omnilens_hook, run, HookAction, HookFile, HookKind, HookMessage,
    HookState, HookStatus, HookStep, PRE_COMMIT_HOOK, PRE_PUSH_HOOK,
};

const ABSENT: HookFile = HookFile { exists: false, backup_exists: false, ours: None };

fn foreign() -> HookFile {
    HookFile { exists: true, backup_exists: false, ours: Some(false) }
}

#[test]
fn install_backs_up_existing_hooks() {
    let st = HookState { pre_commit: foreign(), pre_push: ABSENT };
    assert_eq!(
        run(HookAction::Install, &st),
        vec![
            HookStep::CreateDir,
            HookStep::Backup(HookKind::PreCommit),
            HookStep::Say(HookMessage::BackedUp(HookKind::PreCommit)),
            HookStep::Write(HookKind::PreCommit),
            HookStep::Write(HookKind::PrePush),
            HookStep::MakeExecutable(HookKind::PreCommit),
            HookStep::MakeExecutable(HookKind::PrePush),
            HookStep::Say(HookMessage::Installed),
        ]
    );
}

#[test]
fn install_keeps_an_existing_backup() {
    let with_backup = HookFile { exists: true, backup_exists: true, ours: Some(false) };
    let st = HookState { pre_commit: with_backup, pre_push: with_backup };
    let plan = run(HookAction::Install, &st);
    assert!(!plan.iter().any(|s| matches!(s, HookStep::Backup(_))));
    assert_eq!(plan.len(), 6);
}

#[test]
fn uninstall_removes_only_our_hooks() {
    let ours_with_backup = HookFile { exists: true, backup_exists: true, ours: Some(true) };
    let st = HookState { pre_commit: ours_with_backup, pre_push: foreign() };
    assert_eq!(
        run(HookAction::Uninstall, &st),
        vec![
            HookStep::Remove(HookKind::PreCommit),
            HookStep::Restore(HookKind::PreCommit),
            HookStep::Say(HookMessage::Removed(HookKind::PreCommit, true)),
            HookStep::Say(HookMessage::RemovedCount(1)),
        ]
    );
    let ours = HookFile { exists: true, backup_exists: false, ours: Some(true) };
    let st = HookState { pre_commit: ours, pre_push: ours };
    assert_eq!(
        run(HookAction::Uninstall, &st),
        vec![
            HookStep::Remove(HookKind::PreCommit),
            HookStep::Say(HookMessage::Removed(HookKind::PreCommit, false)),
            HookStep::Remove(HookKind::PrePush),
            HookStep::Say(HookMessage::Removed(HookKind::PrePush, false)),
            HookStep::Say(HookMessage::RemovedCount(2)),
        ]
    );
}

#[test]
fn uninstall_with_nothing_to_remove() {
    let st = HookState { pre_commit: ABSENT, pre_push: foreign() };
    assert_eq!(run(HookAction::Uninstall, &st), vec![HookStep::Say(HookMessage::NoneFound)]);
}

#[test]
fn unreadable_hook_stops_the_command() {
    let unreadable = HookFile { exists: true, backup_exists: false, ours: None };
    let st = HookState { pre_commit: unreadable, pre_push: foreign() };
    assert_eq!(run(HookAction::Uninstall, &st), vec![HookStep::ReadFailed(HookKind::PreCommit)]);
    assert_eq!(
        run(HookAction::Status, &st),
        vec![HookStep::Say(HookMessage::HooksDir), HookStep::ReadFailed(HookKind::PreCommit)]
    );
}

#[test]
fn status_reports_each_hook() {
    let ours = HookFile { exists: true, backup_exists: false, ours: Some(true) };
    let st = HookState { pre_commit: ours, pre_push: ABSENT };
    assert_eq!(
        run(HookAction::Status, &st),
        vec![
            HookStep::Say(HookMessage::HooksDir),
            HookStep::Say(HookMessage::Status(HookKind::PreCommit, HookStatus::Ours)),
            HookStep::Say(HookMessage::Status(HookKind::PrePush, HookStatus::NotInstalled)),
        ]
    );
    let st = HookState { pre_commit: foreign(), pre_push: ours };
    assert_eq!(
        run(HookAction::Status, &st)[1],
        HookStep::Say(HookMessage::Status(HookKind::PreCommit, HookStatus::Other))
    );
}

#[test]
fn recognises_hooks_by_name() {
    assert!(is_omnilens_hook(PRE_COMMIT_HOOK));
    assert!(is_omnilens_hook(PRE_PUSH_HOOK));
    assert!(is_omnilens_hook("run omnilens verify"));
    assert!(!is_omnilens_hook("#!/bin/sh\nnpm test\n"));
    assert_eq!(hook_script(HookKind::PreCommit), PRE_COMMIT_HOOK);
    assert_eq!(hook_script(HookKind::PrePush), PRE_PUSH_HOOK);
    assert!(PRE_COMMIT_HOOK.starts_with("#!/bin/sh\n# omnilens pre-commit hook"));
    assert!(PRE_PUSH_HOOK.ends_with("exit 0\n"));
}

#[test]
fn hooks_directory_from_git_output() {
    assert_eq!(custom_hooks_dir(true, b"  .githooks\n"), Some(".githooks".to_string()));
    assert_eq!(custom_hooks_dir(true, b" \n"), None);
    assert_eq!(custom_hooks_dir(false, b".githooks\n"), None);
    assert_eq!(git_dir_from_output(b".git\n"), ".git");
    assert_eq!(git_dir_from_output(b"/repo/.git/worktrees/x\r\n"), "/repo/.git/worktrees/x");
}

// A hooks directory held in memory: contents of each hook and of its backup.
#[derive(Clone, Debug, PartialEq)]
struct Disk {
    hooks: [Option<String>; 2],
    backups: [Option<String>; 2],
}

fn index(k: HookKind) -> usize {
    match k {
        HookKind::PreCommit => 0,
        HookKind::PrePush => 1,
    }
}

fn observe(d: &Disk) -> HookState {
    let file = |i: usize| HookFile {
        exists: d.hooks[i].is_some(),
        backup_exists: d.backups[i].is_some(),
        ours: d.hooks[i].as_deref().map(is_omnilens_hook),
    };
    HookState { pre_commit: file(0), pre_push: file(1) }
}

fn carry_out(d: &mut Disk, plan: &[HookStep]) {
    for step in plan {
        match *step {
            HookStep::Backup(k) => d.backups[index(k)] = d.hooks[index(k)].clone(),
            HookStep::Write(k) => d.hooks[index(k)] = Some(hook_script(k).to_string()),
            HookStep::Remove(k) => d.hooks[index(k)] = None,
            HookStep::Restore(k) => d.hooks[index(k)] = d.backups[index(k)].take(),
            _ => {}
        }
    }
}

#[test]
fn uninstall_after_install_restores_the_directory() {
    let start = Disk { hooks: [Some("#!/bin/sh\nmake lint\n".to_string()), None], backups: [None, None] };
    let mut d = start.clone();
    let plan = run(HookAction::Install, &observe(&d));
    carry_out(&mut d, &plan);
    assert_eq!(d.hooks[0].as_deref(), Some(PRE_COMMIT_HOOK));
    assert_eq!(d.backups[0].as_deref(), Some("#!/bin/sh\nmake lint\n"));
    let st = observe(&d);
    assert_eq!(st.pre_commit.ours, Some(true));
    assert_eq!(st.pre_push.ours, Some(true));
    let plan = run(HookAction::Uninstall, &st);
    carry_out(&mut d, &plan);
    assert_eq!(d, start);
}

#[test]
fn install_twice_then_uninstall_leaves_no_hooks() {
    let start = Disk { hooks: [None, None], backups: [None, None] };
    let mut d = start.clone();
    for _ in 0..2 {
        let plan = run(HookAction::Install, &observe(&d));
        carry_out(&mut d, &plan);
    }
    assert_eq!(d.backups, [None, None]);
    let plan = run(HookAction::Uninstall, &observe(&d));
    carry_out(&mut d, &plan);
    assert_eq!(d, start);
}

#[test]
fn install_does_not_back_up_its_own_hook() {
    let ours = HookFile { exists: true, backup_exists: false, ours: Some(true) };
    let st = HookState { pre_commit: ours, pre_push: ABSENT };
    let plan = run(HookAction::Install, &st);
    assert!(!plan.iter().any(|s| matches!(s, HookStep::Backup(_))));
}
