//! Git hook management: what installing, removing or inspecting the hooks does,
//! given what the hooks directory holds.
use vstd::prelude::*;
use crate::text::{occurs_at, chars_of, contains_seq, decode_lossy, seq_contains, trim_bounds, trim_spec, utf8_lossy_spec, copy_range, string_of};

verus! {

/// The pre-commit hook this tool installs.
pub const PRE_COMMIT_HOOK: &'static str = r#"#!/bin/sh
# omnilens pre-commit hook — semantic verification before commit
# Installed by: omnilens hook install

# Get staged files
STAGED=$(git diff --cached --name-only --diff-filter=ACM)
if [ -z "$STAGED" ]; then
    exit 0
fi

echo "[omnilens] Verifying staged changes..."

# Run omnilens verify on staged changes
omnilens verify --format text 2>&1
EXIT_CODE=$?

if [ $EXIT_CODE -ne 0 ]; then
    echo ""
    echo "[omnilens] ❌ Verification failed. Fix issues above or commit with --no-verify to bypass."
    exit 1
fi

echo "[omnilens] ✅ Verification passed."
exit 0
"#;

/// The pre-push hook this tool installs.
pub const PRE_PUSH_HOOK: &'static str = r#"#!/bin/sh
# omnilens pre-push hook — full verification before push
# Installed by: omnilens hook install

REMOTE="$1"
URL="$2"

echo "[omnilens] Verifying changes before push..."

# Find the merge base with the remote branch
LOCAL_SHA=$(git rev-parse HEAD)
REMOTE_SHA=$(git rev-parse @{u} 2>/dev/null || echo "HEAD~10")

omnilens --format json verify --diff "$REMOTE_SHA" > /tmp/omnilens-push-result.json 2>/dev/null
EXIT_CODE=$?

if [ $EXIT_CODE -ne 0 ]; then
    BREAKING=$(cat /tmp/omnilens-push-result.json 2>/dev/null | grep -o '"breaking":[0-9]*' | grep -o '[0-9]*')
    if [ "${BREAKING:-0}" -gt 0 ]; then
        echo "[omnilens] ❌ Push blocked: $BREAKING breaking changes detected."
        echo "[omnilens] Run 'omnilens verify --diff $REMOTE_SHA' for details."
        exit 1
    fi
fi

echo "[omnilens] ✅ Push verification passed."
exit 0
"#;

/// What to do with the hooks.
#[derive(Debug, Clone, Copy, PartialEq, Eq, Structural)]
pub enum HookAction {
    Install,
    Uninstall,
    Status,
}

/// One of the two hooks the tool manages.
#[derive(Debug, Clone, Copy, PartialEq, Eq, Structural)]
pub enum HookKind {
    PreCommit,
    PrePush,
}

/// What a hook file is, as the status report shows it.
#[derive(Debug, Clone, Copy, PartialEq, Eq, Structural)]
pub enum HookStatus {
    /// Installed by this tool.
    Ours,
    /// Some other hook.
    Other,
    /// No hook of that name.
    NotInstalled,
}

/// A message for the user.
#[derive(Debug, Clone, Copy, PartialEq, Eq, Structural)]
pub enum HookMessage {
    /// An existing hook was saved as its `.backup`.
    BackedUp(HookKind),
    /// Both hooks were written.
    Installed,
    /// A hook was removed; `true` when its backup was put back.
    Removed(HookKind, bool),
    /// No hook of this tool was found.
    NoneFound,
    /// This many hooks were removed.
    RemovedCount(u32),
    /// The hooks directory, as the first line of the status report.
    HooksDir,
    /// The status of one hook.
    Status(HookKind, HookStatus),
}

/// One step of a hook command, to be carried out in order; the first that fails
/// ends the command with its error.
#[derive(Debug, Clone, Copy, PartialEq, Eq, Structural)]
pub enum HookStep {
    /// Create the hooks directory (and its parents).
    CreateDir,
    /// Copy the hook to its `.backup`.
    Backup(HookKind),
    /// Write this tool's script as the hook.
    Write(HookKind),
    /// Make the hook executable (on Unix).
    MakeExecutable(HookKind),
    /// Delete the hook.
    Remove(HookKind),
    /// Move the `.backup` back in place of the hook.
    Restore(HookKind),
    /// Reading the hook failed: end the command with that error.
    ReadFailed(HookKind),
    /// Tell the user.
    Say(HookMessage),
}

/// What the hooks directory holds for one hook.
#[derive(Debug, Clone, Copy, PartialEq, Eq, Structural)]
pub struct HookFile {
    /// The hook file exists.
    pub exists: bool,
    /// Its `.backup` exists.
    pub backup_exists: bool,
    /// Whether the hook's text mentions this tool (`None` when it could not be read).
    pub ours: Option<bool>,
}

/// What the hooks directory holds.
#[derive(Debug, Clone, Copy, PartialEq, Eq, Structural)]
pub struct HookState {
    pub pre_commit: HookFile,
    pub pre_push: HookFile,
}

/// An existing hook is saved before it is replaced, unless a backup exists
/// already or the hook is this tool's own.
pub open spec fn install_backup(k: HookKind, f: HookFile) -> Seq<HookStep> {
    if f.exists && !f.backup_exists && f.ours != Some(true) {
        seq![HookStep::Backup(k), HookStep::Say(HookMessage::BackedUp(k))]
    } else {
        seq![]
    }
}

/// Installing: create the directory, save each existing hook of another tool that
/// has no backup yet, write both hooks and make them executable.
pub open spec fn install_plan(st: HookState) -> Seq<HookStep> {
    seq![HookStep::CreateDir] + install_backup(HookKind::PreCommit, st.pre_commit)
        + install_backup(HookKind::PrePush, st.pre_push) + seq![
        HookStep::Write(HookKind::PreCommit),
        HookStep::Write(HookKind::PrePush),
        HookStep::MakeExecutable(HookKind::PreCommit),
        HookStep::MakeExecutable(HookKind::PrePush),
        HookStep::Say(HookMessage::Installed),
    ]
}

/// Removing one hook: only an existing hook of this tool goes, and its backup, if
/// any, comes back. `None` when the hook could not be read.
pub open spec fn uninstall_one(k: HookKind, f: HookFile) -> Option<(Seq<HookStep>, u32)> {
    if !f.exists {
        Some((seq![], 0))
    } else {
        match f.ours {
            None => None,
            Some(false) => Some((seq![], 0)),
            Some(true) => if f.backup_exists {
                Some((seq![HookStep::Remove(k), HookStep::Restore(k), HookStep::Say(HookMessage::Removed(k, true))], 1))
            } else {
                Some((seq![HookStep::Remove(k), HookStep::Say(HookMessage::Removed(k, false))], 1))
            },
        }
    }
}

/// Uninstalling: remove each hook of this tool (restoring backups), then report how
/// many went; a hook that cannot be read ends the command there.
pub open spec fn uninstall_plan(st: HookState) -> Seq<HookStep> {
    match uninstall_one(HookKind::PreCommit, st.pre_commit) {
        None => seq![HookStep::ReadFailed(HookKind::PreCommit)],
        Some((a, na)) => match uninstall_one(HookKind::PrePush, st.pre_push) {
            None => a + seq![HookStep::ReadFailed(HookKind::PrePush)],
            Some((b, nb)) => a + b + if na + nb == 0 {
                seq![HookStep::Say(HookMessage::NoneFound)]
            } else {
                seq![HookStep::Say(HookMessage::RemovedCount((na + nb) as u32))]
            },
        },
    }
}

pub open spec fn status_one(k: HookKind, f: HookFile) -> HookStep {
    if !f.exists {
        HookStep::Say(HookMessage::Status(k, HookStatus::NotInstalled))
    } else {
        match f.ours {
            None => HookStep::ReadFailed(k),
            Some(true) => HookStep::Say(HookMessage::Status(k, HookStatus::Ours)),
            Some(false) => HookStep::Say(HookMessage::Status(k, HookStatus::Other)),
        }
    }
}

/// The status report: the directory, then each hook; a hook that cannot be read
/// ends the command there.
pub open spec fn status_plan(st: HookState) -> Seq<HookStep> {
    let a = status_one(HookKind::PreCommit, st.pre_commit);
    if a is ReadFailed {
        seq![HookStep::Say(HookMessage::HooksDir), a]
    } else {
        seq![HookStep::Say(HookMessage::HooksDir), a, status_one(HookKind::PrePush, st.pre_push)]
    }
}

pub open spec fn hook_plan(action: HookAction, st: HookState) -> Seq<HookStep> {
    match action {
        HookAction::Install => install_plan(st),
        HookAction::Uninstall => uninstall_plan(st),
        HookAction::Status => status_plan(st),
    }
}

fn push_backup(plan: &mut Vec<HookStep>, k: HookKind, f: HookFile)
    ensures
        final(plan)@ == old(plan)@ + install_backup(k, f),
{
    let ours = match f.ours {
        Some(true) => true,
        _ => false,
    };
    if f.exists && !f.backup_exists && !ours {
        plan.push(HookStep::Backup(k));
        plan.push(HookStep::Say(HookMessage::BackedUp(k)));
    }
    assert(plan@ =~= old(plan)@ + install_backup(k, f));
}

fn push_uninstall(plan: &mut Vec<HookStep>, k: HookKind, f: HookFile) -> (r: Option<u32>)
    ensures
        match uninstall_one(k, f) {
            None => r is None && final(plan)@ == old(plan)@,
            Some((steps, n)) => r == Some(n) && final(plan)@ == old(plan)@ + steps,
        },
{
    if !f.exists {
        assert(plan@ =~= old(plan)@ + Seq::<HookStep>::empty());
        return Some(0);
    }
    match f.ours {
        None => None,
        Some(false) => {
            assert(plan@ =~= old(plan)@ + Seq::<HookStep>::empty());
            Some(0)
        },
        Some(true) => {
            plan.push(HookStep::Remove(k));
            if f.backup_exists {
                plan.push(HookStep::Restore(k));
                plan.push(HookStep::Say(HookMessage::Removed(k, true)));
            } else {
                plan.push(HookStep::Say(HookMessage::Removed(k, false)));
            }
            let ghost steps = uninstall_one(k, f)->0;
            assert(plan@ =~= old(plan)@ + steps.0);
            Some(1)
        },
    }
}

fn status_step(k: HookKind, f: HookFile) -> (r: HookStep)
    ensures
        r == status_one(k, f),
{
    if !f.exists {
        HookStep::Say(HookMessage::Status(k, HookStatus::NotInstalled))
    } else {
        match f.ours {
            None => HookStep::ReadFailed(k),
            Some(true) => HookStep::Say(HookMessage::Status(k, HookStatus::Ours)),
            Some(false) => HookStep::Say(HookMessage::Status(k, HookStatus::Other)),
        }
    }
}

/// The steps of a hook command, given what the hooks directory holds.
pub fn run(action: HookAction, state: &HookState) -> (plan: Vec<HookStep>)
    ensures
        plan@ == hook_plan(action, *state),
{
    let mut plan: Vec<HookStep> = Vec::new();
    match action {
        HookAction::Install => {
            plan.push(HookStep::CreateDir);
            push_backup(&mut plan, HookKind::PreCommit, state.pre_commit);
            push_backup(&mut plan, HookKind::PrePush, state.pre_push);
            plan.push(HookStep::Write(HookKind::PreCommit));
            plan.push(HookStep::Write(HookKind::PrePush));
            plan.push(HookStep::MakeExecutable(HookKind::PreCommit));
            plan.push(HookStep::MakeExecutable(HookKind::PrePush));
            plan.push(HookStep::Say(HookMessage::Installed));
            assert(plan@ =~= install_plan(*state));
        },
        HookAction::Uninstall => {
            match push_uninstall(&mut plan, HookKind::PreCommit, state.pre_commit) {
                None => {
                    plan.push(HookStep::ReadFailed(HookKind::PreCommit));
                    assert(plan@ =~= uninstall_plan(*state));
                },
                Some(na) => {
                    match push_uninstall(&mut plan, HookKind::PrePush, state.pre_push) {
                        None => {
                            plan.push(HookStep::ReadFailed(HookKind::PrePush));
                            assert(plan@ =~= uninstall_plan(*state));
                        },
                        Some(nb) => {
                            if na + nb == 0 {
                                plan.push(HookStep::Say(HookMessage::NoneFound));
                            } else {
                                plan.push(HookStep::Say(HookMessage::RemovedCount(na + nb)));
                            }
                            assert(plan@ =~= uninstall_plan(*state));
                        },
                    }
                },
            }
        },
        HookAction::Status => {
            plan.push(HookStep::Say(HookMessage::HooksDir));
            let a = status_step(HookKind::PreCommit, state.pre_commit);
            let stop = match a {
                HookStep::ReadFailed(_) => true,
                _ => false,
            };
            plan.push(a);
            if !stop {
                plan.push(status_step(HookKind::PrePush, state.pre_push));
            }
            assert(plan@ =~= status_plan(*state));
        },
    }
    plan
}

/// A hook file is this tool's when its text mentions the tool by name.
pub fn is_omnilens_hook(content: &str) -> (r: bool)
    ensures
        r == seq_contains(content@, "omnilens"@),
{
    let c = chars_of(content);
    let name = chars_of("omnilens");
    contains_seq(c.as_slice(), name.as_slice())
}

fn trimmed_text(bytes: &[u8]) -> (r: String)
    ensures
        r@ == trim_spec(utf8_lossy_spec(bytes@)),
{
    let t = chars_of(decode_lossy(bytes).as_str());
    let (a, b) = trim_bounds(t.as_slice(), 0, t.len());
    assert(t@.subrange(0, t@.len() as int) =~= t@);
    let v = copy_range(t.as_slice(), a, b);
    string_of(v.as_slice())
}

/// The hooks directory that `git config core.hooksPath` names: its output, trimmed,
/// when the command succeeded and printed something.
pub fn custom_hooks_dir(success: bool, stdout: &[u8]) -> (r: Option<String>)
    ensures
        match r {
            Some(d) => success && d@ == trim_spec(utf8_lossy_spec(stdout@)) && d@.len() > 0,
            None => !success || trim_spec(utf8_lossy_spec(stdout@)).len() == 0,
        },
{
    if !success {
        return None;
    }
    let d = trimmed_text(stdout);
    if d.as_str().is_empty() {
        None
    } else {
        Some(d)
    }
}

/// The git directory that `git rev-parse --git-dir` printed, trimmed; the hooks
/// directory is its `hooks` subdirectory.
pub fn git_dir_from_output(stdout: &[u8]) -> (r: String)
    ensures
        r@ == trim_spec(utf8_lossy_spec(stdout@)),
{
    trimmed_text(stdout)
}

// ─── What the steps do to the hooks directory ───────────────────

/// The script written for a hook.
pub open spec fn script_text(k: HookKind) -> Seq<char> {
    match k {
        HookKind::PreCommit => PRE_COMMIT_HOOK@,
        HookKind::PrePush => PRE_PUSH_HOOK@,
    }
}

/// The script of a hook, to be written by `Write`.
pub fn hook_script(k: HookKind) -> (s: &'static str)
    ensures
        s@ == script_text(k),
{
    match k {
        HookKind::PreCommit => PRE_COMMIT_HOOK,
        HookKind::PrePush => PRE_PUSH_HOOK,
    }
}

/// The contents of one hook file and of its `.backup` (`None`: no such file).
pub struct HookDisk {
    pub hook: Option<Seq<char>>,
    pub backup: Option<Seq<char>>,
}

/// The two hooks of a hooks directory, contents included.
pub struct HooksDir {
    pub pre_commit: HookDisk,
    pub pre_push: HookDisk,
}

/// A hook's text names this tool.
pub open spec fn names_tool(c: Seq<char>) -> bool {
    seq_contains(c, "omnilens"@)
}

/// What the commands read of a hook: whether it and its backup exist, and whether
/// its text names this tool.
pub open spec fn observe(d: HookDisk) -> HookFile {
    HookFile {
        exists: d.hook is Some,
        backup_exists: d.backup is Some,
        ours: match d.hook {
            Some(c) => Some(names_tool(c)),
            None => None,
        },
    }
}

pub open spec fn observe_dir(d: HooksDir) -> HookState {
    HookState { pre_commit: observe(d.pre_commit), pre_push: observe(d.pre_push) }
}

/// One step on the files of hook `k`: a backup copies the hook, a write puts the
/// script in place, a removal deletes the hook, and a restore moves the backup
/// back in place of the hook. Other steps leave the files as they are.
pub open spec fn step_hook(d: HookDisk, k: HookKind, s: HookStep) -> HookDisk {
    match s {
        HookStep::Backup(j) => if j == k { HookDisk { hook: d.hook, backup: d.hook } } else { d },
        HookStep::Write(j) => if j == k { HookDisk { hook: Some(script_text(k)), backup: d.backup } } else { d },
        HookStep::Remove(j) => if j == k { HookDisk { hook: None, backup: d.backup } } else { d },
        HookStep::Restore(j) => if j == k { HookDisk { hook: d.backup, backup: None } } else { d },
        _ => d,
    }
}

pub open spec fn step_dir(d: HooksDir, s: HookStep) -> HooksDir {
    HooksDir {
        pre_commit: step_hook(d.pre_commit, HookKind::PreCommit, s),
        pre_push: step_hook(d.pre_push, HookKind::PrePush, s),
    }
}

/// The hooks directory after the steps, carried out in order.
pub open spec fn apply_steps(d: HooksDir, steps: Seq<HookStep>) -> HooksDir
    decreases steps.len(),
{
    if steps.len() == 0 {
        d
    } else {
        apply_steps(step_dir(d, steps[0]), steps.drop_first())
    }
}

proof fn lemma_apply_concat(d: HooksDir, a: Seq<HookStep>, b: Seq<HookStep>)
    ensures
        apply_steps(d, a + b) == apply_steps(apply_steps(d, a), b),
    decreases a.len(),
{
    if a.len() > 0 {
        assert((a + b).drop_first() =~= a.drop_first() + b);
        assert((a + b)[0] == a[0]);
        lemma_apply_concat(step_dir(d, a[0]), a.drop_first(), b);
    } else {
        assert(a + b =~= b);
    }
}

proof fn lemma_scripts_name_tool()
    ensures
        names_tool(script_text(HookKind::PreCommit)),
        names_tool(script_text(HookKind::PrePush)),
{
    reveal_strlit(r#"#!/bin/sh
# omnilens pre-commit hook — semantic verification before commit
# Installed by: omnilens hook install

# Get staged files
STAGED=$(git diff --cached --name-only --diff-filter=ACM)
if [ -z "$STAGED" ]; then
    exit 0
fi

echo "[omnilens] Verifying staged changes..."

# Run omnilens verify on staged changes
omnilens verify --format text 2>&1
EXIT_CODE=$?

if [ $EXIT_CODE -ne 0 ]; then
    echo ""
    echo "[omnilens] ❌ Verification failed. Fix issues above or commit with --no-verify to bypass."
    exit 1
fi

echo "[omnilens] ✅ Verification passed."
exit 0
"#);
    reveal_strlit(r#"#!/bin/sh
# omnilens pre-push hook — full verification before push
# Installed by: omnilens hook install

REMOTE="$1"
URL="$2"

echo "[omnilens] Verifying changes before push..."

# Find the merge base with the remote branch
LOCAL_SHA=$(git rev-parse HEAD)
REMOTE_SHA=$(git rev-parse @{u} 2>/dev/null || echo "HEAD~10")

omnilens --format json verify --diff "$REMOTE_SHA" > /tmp/omnilens-push-result.json 2>/dev/null
EXIT_CODE=$?

if [ $EXIT_CODE -ne 0 ]; then
    BREAKING=$(cat /tmp/omnilens-push-result.json 2>/dev/null | grep -o '"breaking":[0-9]*' | grep -o '[0-9]*')
    if [ "${BREAKING:-0}" -gt 0 ]; then
        echo "[omnilens] ❌ Push blocked: $BREAKING breaking changes detected."
        echo "[omnilens] Run 'omnilens verify --diff $REMOTE_SHA' for details."
        exit 1
    fi
fi

echo "[omnilens] ✅ Push verification passed."
exit 0
"#);
    reveal_strlit("omnilens");
    assert(PRE_COMMIT_HOOK@.subrange(12, 20) =~= "omnilens"@);
    assert(occurs_at(PRE_COMMIT_HOOK@, "omnilens"@, 12));
    assert(PRE_PUSH_HOOK@.subrange(12, 20) =~= "omnilens"@);
    assert(occurs_at(PRE_PUSH_HOOK@, "omnilens"@, 12));
}

/// The hooks directory after a command, carried out on what it read of the directory.
pub open spec fn after_command(action: HookAction, d: HooksDir) -> HooksDir {
    apply_steps(d, hook_plan(action, observe_dir(d)))
}

/// The backup after installing: an existing backup stays; otherwise the hook that
/// was there is saved, unless it is this tool's own.
pub open spec fn saved_backup(d: HookDisk) -> Option<Seq<char>> {
    match d.backup {
        Some(b) => Some(b),
        None => match d.hook {
            Some(c) => if names_tool(c) { None } else { Some(c) },
            None => None,
        },
    }
}

proof fn lemma_after_install_one(d: HooksDir)
    ensures
        after_command(HookAction::Install, d).pre_commit == (HookDisk {
            hook: Some(script_text(HookKind::PreCommit)),
            backup: saved_backup(d.pre_commit),
        }),
        after_command(HookAction::Install, d).pre_push == (HookDisk {
            hook: Some(script_text(HookKind::PrePush)),
            backup: saved_backup(d.pre_push),
        }),
{
    let st = observe_dir(d);
    let a = seq![HookStep::CreateDir];
    let b = install_backup(HookKind::PreCommit, st.pre_commit);
    let c = install_backup(HookKind::PrePush, st.pre_push);
    let e = seq![
        HookStep::Write(HookKind::PreCommit),
        HookStep::Write(HookKind::PrePush),
        HookStep::MakeExecutable(HookKind::PreCommit),
        HookStep::MakeExecutable(HookKind::PrePush),
        HookStep::Say(HookMessage::Installed),
    ];
    reveal_with_fuel(apply_steps, 6);
    lemma_apply_concat(d, a, b);
    lemma_apply_concat(d, a + b, c);
    lemma_apply_concat(d, a + b + c, e);
}

/// After installing, both hooks are this tool's scripts, and each hook of another
/// tool that was there is kept as its backup unless a backup already existed,
/// which stays as it was; this tool's own hook is not saved.
pub proof fn law_install_writes_both_hooks(d: HooksDir)
    ensures
        after_command(HookAction::Install, d).pre_commit.hook == Some(script_text(HookKind::PreCommit)),
        after_command(HookAction::Install, d).pre_push.hook == Some(script_text(HookKind::PrePush)),
        after_command(HookAction::Install, d).pre_commit.backup == saved_backup(d.pre_commit),
        after_command(HookAction::Install, d).pre_push.backup == saved_backup(d.pre_push),
{
    lemma_after_install_one(d);
}

/// After installing, the status report shows both hooks as this tool's.
pub proof fn law_status_after_install(d: HooksDir)
    ensures
        hook_plan(HookAction::Status, observe_dir(after_command(HookAction::Install, d))) == seq![
            HookStep::Say(HookMessage::HooksDir),
            HookStep::Say(HookMessage::Status(HookKind::PreCommit, HookStatus::Ours)),
            HookStep::Say(HookMessage::Status(HookKind::PrePush, HookStatus::Ours)),
        ],
{
    lemma_after_install_one(d);
    lemma_scripts_name_tool();
}

proof fn lemma_after_uninstall(d: HooksDir)
    ensures
        ({
            let u = after_command(HookAction::Uninstall, d);
            &&& u.pre_commit == match d.pre_commit.hook {
                Some(c) => if names_tool(c) { HookDisk { hook: d.pre_commit.backup, backup: None } } else { d.pre_commit },
                None => d.pre_commit,
            }
            &&& u.pre_push == match d.pre_push.hook {
                Some(c) => if names_tool(c) { HookDisk { hook: d.pre_push.backup, backup: None } } else { d.pre_push },
                None => d.pre_push,
            }
        }),
{
    let st = observe_dir(d);
    reveal_with_fuel(apply_steps, 4);
    let (a, na) = uninstall_one(HookKind::PreCommit, st.pre_commit)->0;
    let (b, nb) = uninstall_one(HookKind::PrePush, st.pre_push)->0;
    let tail = if na + nb == 0 {
        seq![HookStep::Say(HookMessage::NoneFound)]
    } else {
        seq![HookStep::Say(HookMessage::RemovedCount((na + nb) as u32))]
    };
    assert(hook_plan(HookAction::Uninstall, st) == a + b + tail);
    lemma_apply_concat(d, a, b);
    lemma_apply_concat(d, a + b, tail);
}

/// Uninstalling touches only hooks of this tool: a hook whose text does not name
/// the tool, and its backup, stay as they were.
pub proof fn law_uninstall_spares_other_hooks(d: HooksDir)
    ensures
        d.pre_commit.hook matches Some(c) && !names_tool(c)
            ==> after_command(HookAction::Uninstall, d).pre_commit == d.pre_commit,
        d.pre_push.hook matches Some(c) && !names_tool(c)
            ==> after_command(HookAction::Uninstall, d).pre_push == d.pre_push,
        d.pre_commit.hook is None ==> after_command(HookAction::Uninstall, d).pre_commit == d.pre_commit,
        d.pre_push.hook is None ==> after_command(HookAction::Uninstall, d).pre_push == d.pre_push,
{
    lemma_after_uninstall(d);
}

/// No hook of this tool beside no backup: the hook is another tool's, or absent.
pub open spec fn foreign_without_backup(d: HookDisk) -> bool {
    &&& d.backup is None
    &&& d.hook matches Some(c) ==> !names_tool(c)
}

/// Installing and then uninstalling gives the hooks directory back as it was when
/// neither hook was this tool's and neither had a backup: each replaced hook was
/// saved, and comes back when this tool's hook is removed.
pub proof fn law_uninstall_undoes_install(d: HooksDir)
    requires
        foreign_without_backup(d.pre_commit),
        foreign_without_backup(d.pre_push),
    ensures
        after_command(HookAction::Uninstall, after_command(HookAction::Install, d)) == d,
{
    let i = after_command(HookAction::Install, d);
    lemma_after_install_one(d);
    lemma_scripts_name_tool();
    lemma_after_uninstall(i);
}

/// Installing a second time changes nothing.
pub proof fn law_install_twice_is_install_once(d: HooksDir)
    ensures
        after_command(HookAction::Install, after_command(HookAction::Install, d)) == after_command(HookAction::Install, d),
{
    let i = after_command(HookAction::Install, d);
    lemma_after_install_one(d);
    lemma_after_install_one(i);
    lemma_scripts_name_tool();
}

/// After installing and then uninstalling, no hook of this tool is left, as long as
/// no backup beforehand was one of this tool's hooks.
pub proof fn law_uninstall_leaves_no_hook_of_the_tool(d: HooksDir)
    requires
        d.pre_commit.backup matches Some(b) ==> !names_tool(b),
        d.pre_push.backup matches Some(b) ==> !names_tool(b),
    ensures
        after_command(HookAction::Uninstall, after_command(HookAction::Install, d)).pre_commit.hook matches Some(c)
            ==> !names_tool(c),
        after_command(HookAction::Uninstall, after_command(HookAction::Install, d)).pre_push.hook matches Some(c)
            ==> !names_tool(c),
{
    let i = after_command(HookAction::Install, d);
    lemma_after_install_one(d);
    lemma_scripts_name_tool();
    lemma_after_uninstall(i);
}

} // verus!
