//! The git pre-commit hook that keeps the snapshot current: its script, how an
//! installed hook is recognised, where a worktree keeps its git directory, and
//! what installing, uninstalling and asking for the status decide.
use vstd::prelude::*;
use vstd::string::StringExecFns;
use crate::error::MedullaError;
use crate::text::{contains_seq, contains_str, is_prefix, strip_prefix, trim, trim_seq};

verus! {

/// The comment that marks a pre-commit hook as Medulla's.
pub open spec fn hook_marker() -> Seq<char> {
    "# MEDULLA_HOOK"@
}

/// Whether the text of a pre-commit hook is Medulla's: it holds the marker.
pub fn is_medulla_hook_text(content: &str) -> (r: bool)
    ensures
        r == contains_seq(content@, hook_marker()),
{
    contains_str(content, "# MEDULLA_HOOK")
}

/// The text of the pre-commit hook Medulla installs.
pub open spec fn precommit_text() -> Seq<char> {
    "#!/bin/sh
# MEDULLA_HOOK - Auto-generated by medulla. Do not edit.
# This hook regenerates markdown snapshots when loro.db changes.

# Fast-path: skip if loro.db not staged
if ! git diff --cached --name-only | grep -q '\\.medulla/loro\\.db'; then
    exit 0
fi

# Generate snapshot
if ! medulla snapshot; then
    echo \"\"
    echo \"Error: Medulla snapshot generation failed.\"
    echo \"Fix the issue or use 'git commit --no-verify' to skip.\"
    exit 1
fi

# Stage generated snapshot files
git add .medulla/snapshot/

exit 0
"@
}

/// The pre-commit hook Medulla installs: when `.medulla/loro.db` is staged it
/// regenerates the snapshot (refusing the commit if that fails) and stages it.
/// It carries the marker, so an installed hook is recognised as Medulla's.
pub fn precommit_hook() -> (r: &'static str)
    ensures
        r@ == precommit_text(),
        contains_seq(r@, hook_marker()),
{
    let s = "#!/bin/sh
# MEDULLA_HOOK - Auto-generated by medulla. Do not edit.
# This hook regenerates markdown snapshots when loro.db changes.

# Fast-path: skip if loro.db not staged
if ! git diff --cached --name-only | grep -q '\\.medulla/loro\\.db'; then
    exit 0
fi

# Generate snapshot
if ! medulla snapshot; then
    echo \"\"
    echo \"Error: Medulla snapshot generation failed.\"
    echo \"Fix the issue or use 'git commit --no-verify' to skip.\"
    exit 1
fi

# Stage generated snapshot files
git add .medulla/snapshot/

exit 0
";
    proof {
        reveal_strlit("#!/bin/sh
# MEDULLA_HOOK - Auto-generated by medulla. Do not edit.
# This hook regenerates markdown snapshots when loro.db changes.

# Fast-path: skip if loro.db not staged
if ! git diff --cached --name-only | grep -q '\\.medulla/loro\\.db'; then
    exit 0
fi

# Generate snapshot
if ! medulla snapshot; then
    echo \"\"
    echo \"Error: Medulla snapshot generation failed.\"
    echo \"Fix the issue or use 'git commit --no-verify' to skip.\"
    exit 1
fi

# Stage generated snapshot files
git add .medulla/snapshot/

exit 0
");
        reveal_strlit("# MEDULLA_HOOK");
        assert(s@.subrange(10, 24) =~= hook_marker());
        assert(s@.subrange(10, 10 + hook_marker().len() as int) == hook_marker());
    }
    s
}

/// Where a `.git` file of a worktree points: the text after `gitdir: `, trimmed;
/// nothing when the file does not begin so.
pub open spec fn gitdir_target(content: Seq<char>) -> Option<Seq<char>> {
    if is_prefix("gitdir: "@, content) {
        Some(trim_seq(content.subrange(8, content.len() as int)))
    } else {
        None
    }
}

/// Reads the `.git` file of a worktree (see `gitdir_target`).
pub fn parse_gitdir(content: &str) -> (r: Option<String>)
    ensures
        match r {
            Some(p) => gitdir_target(content@) == Some(p@),
            None => gitdir_target(content@) is None,
        },
{
    proof {
        reveal_strlit("gitdir: ");
    }
    match strip_prefix(content, "gitdir: ") {
        Some(rest) => Some(trim(rest.as_str())),
        None => None,
    }
}

/// What installing the hook does, given whether a pre-commit hook exists,
/// whether it is Medulla's, and whether `--force` was given.
#[derive(Debug, Clone, Copy, PartialEq, Eq, Structural)]
pub enum HookInstall {
    /// Medulla's hook is there already: nothing is written.
    AlreadyInstalled,
    /// Another hook is moved aside, then Medulla's is written.
    BackupThenWrite,
    /// Medulla's hook is written.
    Write,
}

/// The refusal to overwrite another pre-commit hook without `--force`.
pub open spec fn foreign_hook_text() -> Seq<char> {
    "A pre-commit hook already exists. Use --force to overwrite, or manually integrate medulla."@
}

/// Decides an install: with no hook, write; over Medulla's own, do nothing; over
/// another, move it aside with `--force` and refuse without.
pub fn install_action(exists: bool, ours: bool, force: bool) -> (r: Result<HookInstall, MedullaError>)
    ensures
        !exists ==> r == Ok::<HookInstall, MedullaError>(HookInstall::Write),
        exists && ours ==> r == Ok::<HookInstall, MedullaError>(HookInstall::AlreadyInstalled),
        exists && !ours && force ==> r == Ok::<HookInstall, MedullaError>(HookInstall::BackupThenWrite),
        exists && !ours && !force ==> (r matches Err(MedullaError::Storage(m)) && m@ == foreign_hook_text()),
{
    if !exists {
        Ok(HookInstall::Write)
    } else if ours {
        Ok(HookInstall::AlreadyInstalled)
    } else if force {
        Ok(HookInstall::BackupThenWrite)
    } else {
        Err(MedullaError::Storage(String::from_str("A pre-commit hook already exists. Use --force to overwrite, or manually integrate medulla.")))
    }
}

/// The refusal to remove a pre-commit hook that is not Medulla's.
pub open spec fn not_ours_text() -> Seq<char> {
    "Pre-commit hook is not a Medulla hook. Remove it manually if needed."@
}

/// Decides an uninstall: `false` (nothing to do) when there is no hook, `true`
/// (remove it) when it is Medulla's, and a refusal when it is another.
pub fn uninstall_action(exists: bool, ours: bool) -> (r: Result<bool, MedullaError>)
    ensures
        !exists ==> r == Ok::<bool, MedullaError>(false),
        exists && ours ==> r == Ok::<bool, MedullaError>(true),
        exists && !ours ==> (r matches Err(MedullaError::Storage(m)) && m@ == not_ours_text()),
{
    if !exists {
        Ok(false)
    } else if ours {
        Ok(true)
    } else {
        Err(MedullaError::Storage(String::from_str("Pre-commit hook is not a Medulla hook. Remove it manually if needed.")))
    }
}

/// The state of the pre-commit hook.
#[derive(Debug, Clone, Copy, PartialEq, Eq, Structural)]
pub enum HookStatus {
    NotARepository,
    NotInstalled,
    Installed,
    CustomHook,
}

/// The status reported from whether there is a git directory, whether a
/// pre-commit hook exists, and whether it is Medulla's.
pub fn hook_status(repository: bool, exists: bool, ours: bool) -> (r: HookStatus)
    ensures
        !repository ==> r == HookStatus::NotARepository,
        repository && !exists ==> r == HookStatus::NotInstalled,
        repository && exists && ours ==> r == HookStatus::Installed,
        repository && exists && !ours ==> r == HookStatus::CustomHook,
{
    if !repository {
        HookStatus::NotARepository
    } else if !exists {
        HookStatus::NotInstalled
    } else if ours {
        HookStatus::Installed
    } else {
        HookStatus::CustomHook
    }
}

} // verus!
