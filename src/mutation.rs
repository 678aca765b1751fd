//! The backup / mutate / restore protocol that guards every destructive edit.
//!
//! A [`Mutation`] copies the target file into the backup directory, runs its
//! commands one after another, and on the first failure copies the backup
//! back over the target. The caller performs each [`Step`] and reports
//! whether it succeeded; the mutation decides what comes next.

use vstd::prelude::*;

use crate::path::{file_name, file_name_spec, join_spec};
use crate::tools::{command_views, copy_command, CommandView, ToolCommand};
use crate::format::MetadataError;

verus! {

/// Where a mutation stands.
#[derive(Clone, Copy, Debug, PartialEq, Eq, Structural)]
pub enum Phase {
    /// The target is to be copied into the backup directory.
    BackingUp,
    /// The command of this index is to be run.
    Mutating(usize),
    /// A command failed: the backup is to be copied back over the target.
    Restoring,
    /// Every command succeeded.
    Committed,
    /// A command failed and the target holds its old bytes again.
    Restored,
    /// The backup could not be made; nothing was run.
    BackupFailed,
    /// A command failed and so did the copy back.
    RestoreFailed,
}

/// What the caller is to do next.
#[derive(Debug, PartialEq, Eq)]
pub enum Step {
    /// Copy the file at `from` to `to`, replacing what is there.
    Copy { from: String, to: String },
    /// Run the command and see whether it exits with status zero.
    Run(ToolCommand),
    /// The mutation is over, with this outcome.
    Done(Result<(), MetadataError>),
}

/// A mutation as plain values.
pub struct MutationView {
    pub target: Seq<char>,
    pub backup: Seq<char>,
    pub commands: Seq<CommandView>,
    pub phase: Phase,
}

/// A guarded edit of one file.
pub struct Mutation {
    target: String,
    backup: String,
    commands: Vec<ToolCommand>,
    phase: Phase,
}

impl View for Mutation {
    type V = MutationView;

    closed spec fn view(&self) -> MutationView {
        MutationView {
            target: self.target@,
            backup: self.backup@,
            commands: command_views(self.commands@),
            phase: self.phase,
        }
    }
}

pub open spec fn is_finished(p: Phase) -> bool {
    match p {
        Phase::Committed | Phase::Restored | Phase::BackupFailed | Phase::RestoreFailed => true,
        _ => false,
    }
}

/// The phase that follows `p` in a mutation of `n` commands, when the step of
/// `p` succeeded (`ok`) or failed.
pub open spec fn next_phase(p: Phase, n: nat, ok: bool) -> Phase {
    match p {
        Phase::BackingUp => if !ok {
            Phase::BackupFailed
        } else if n == 0 {
            Phase::Committed
        } else {
            Phase::Mutating(0)
        },
        Phase::Mutating(i) => if !ok {
            Phase::Restoring
        } else if i + 1 < n {
            Phase::Mutating((i + 1) as usize)
        } else {
            Phase::Committed
        },
        Phase::Restoring => if ok {
            Phase::Restored
        } else {
            Phase::RestoreFailed
        },
        _ => p,
    }
}

/// The outcome that a finished phase reports.
pub open spec fn outcome_matches(r: Result<(), MetadataError>, p: Phase) -> bool {
    match p {
        Phase::Committed => r is Ok,
        Phase::Restored => r matches Err(MetadataError::ToolInvocationFailed),
        Phase::BackupFailed => r matches Err(MetadataError::IoError),
        Phase::RestoreFailed => r matches Err(MetadataError::RestoreFailed),
        _ => false,
    }
}

/// The step that a mutation in view `m` asks for.
pub open spec fn step_matches(s: Step, m: MutationView) -> bool {
    match m.phase {
        Phase::BackingUp => s matches Step::Copy { from, to } && from@ == m.target && to@ == m.backup,
        Phase::Mutating(i) => s matches Step::Run(c) && c@ == m.commands[i as int],
        Phase::Restoring => s matches Step::Copy { from, to } && from@ == m.backup && to@ == m.target,
        _ => s matches Step::Done(r) && outcome_matches(r, m.phase),
    }
}

/// The backup of `target` in directory `dir`: a file of the same name there.
/// There is none where `target` names no file, or where that file would be
/// `target` itself (`dir` is the target's own directory): a copy of a file
/// over itself keeps nothing.
pub open spec fn backup_path(dir: Seq<char>, target: Seq<char>) -> Option<Seq<char>> {
    match file_name_spec(target) {
        Some(n) => if join_spec(dir, n) != target {
            Some(join_spec(dir, n))
        } else {
            None
        },
        None => None,
    }
}

/// Where the backup of `target` in directory `dir` goes, if it can be made.
pub fn backup_location(dir: &str, target: &str) -> (r: Option<String>)
    ensures
        match r {
            Some(b) => backup_path(dir@, target@) == Some(b@),
            None => backup_path(dir@, target@) is None,
        },
{
    match file_name(target) {
        None => None,
        Some(n) => {
            let b = crate::path::join(dir, n.as_str());
            let t = String::from_str(target);
            if b == t {
                None
            } else {
                Some(b)
            }
        },
    }
}

/// What `Mutation::guard` gives: a fresh mutation of `target` backed up in
/// `dir`, or an I/O error where no backup can be made there.
pub open spec fn guarded(r: Result<Mutation, MetadataError>, target: Seq<char>, dir: Seq<char>, commands: Seq<CommandView>) -> bool {
    match backup_path(dir, target) {
        Some(b) => r matches Ok(m) && m@ == (MutationView { target, backup: b, commands, phase: Phase::BackingUp }),
        None => r matches Err(MetadataError::IoError),
    }
}

impl Mutation {
    #[verifier::type_invariant]
    spec fn inv(&self) -> bool {
        match self.phase {
            Phase::Mutating(i) => i < self.commands@.len(),
            _ => true,
        }
    }

    /// A mutation that runs `commands` on `target`, backing it up first under
    /// its own file name in `backup_dir`.
    pub fn guard(target: &str, backup_dir: &str, commands: Vec<ToolCommand>) -> (r: Result<Mutation, MetadataError>)
        ensures
            guarded(r, target@, backup_dir@, command_views(commands@)),
    {
        match backup_location(backup_dir, target) {
            None => Err(MetadataError::IoError),
            Some(backup) => Ok(Mutation { target: String::from_str(target), backup, commands, phase: Phase::BackingUp }),
        }
    }

    pub fn phase(&self) -> (r: Phase)
        ensures
            r == self@.phase,
    {
        self.phase
    }

    /// The file that the mutation edits.
    pub fn target(&self) -> (r: &String)
        ensures
            r@ == self@.target,
    {
        &self.target
    }

    /// Where the target's old bytes are kept.
    pub fn backup(&self) -> (r: &String)
        ensures
            r@ == self@.backup,
    {
        &self.backup
    }

    /// What the caller is to do next.
    pub fn next_step(&self) -> (r: Step)
        ensures
            step_matches(r, self@),
    {
        proof {
            use_type_invariant(self);
        }
        match self.phase {
            Phase::BackingUp => Step::Copy {
                from: String::from_str(self.target.as_str()),
                to: String::from_str(self.backup.as_str()),
            },
            Phase::Mutating(i) => Step::Run(copy_command(&self.commands[i])),
            Phase::Restoring => Step::Copy {
                from: String::from_str(self.backup.as_str()),
                to: String::from_str(self.target.as_str()),
            },
            Phase::Committed => Step::Done(Ok(())),
            Phase::Restored => Step::Done(Err(MetadataError::ToolInvocationFailed)),
            Phase::BackupFailed => Step::Done(Err(MetadataError::IoError)),
            Phase::RestoreFailed => Step::Done(Err(MetadataError::RestoreFailed)),
        }
    }

    /// Records whether the step last asked for succeeded. A finished mutation
    /// stays as it is.
    pub fn advance(&mut self, succeeded: bool)
        ensures
            final(self)@ == (MutationView {
                phase: next_phase(old(self)@.phase, old(self)@.commands.len(), succeeded),
                ..old(self)@
            }),
    {
        proof {
            use_type_invariant(&*self);
        }
        let n = self.commands.len();
        let next = match self.phase {
            Phase::BackingUp => if !succeeded {
                Phase::BackupFailed
            } else if n == 0 {
                Phase::Committed
            } else {
                Phase::Mutating(0)
            },
            Phase::Mutating(i) => if !succeeded {
                Phase::Restoring
            } else if i + 1 < n {
                Phase::Mutating(i + 1)
            } else {
                Phase::Committed
            },
            Phase::Restoring => if succeeded {
                Phase::Restored
            } else {
                Phase::RestoreFailed
            },
            p => p,
        };
        self.phase = next;
    }
}

/// The files on a disk: the bytes held at each path.
pub type Disk = Map<Seq<char>, Seq<u8>>;

/// `after` holds at `p` what `before` holds there, or holds nothing there as `before` does.
pub open spec fn keeps(p: Seq<char>, before: Disk, after: Disk) -> bool {
    &&& before.contains_key(p) == after.contains_key(p)
    &&& before.contains_key(p) ==> after[p] == before[p]
}

/// What a copy from `from` to `to` may do to the disk: when it succeeds, `to`
/// holds the bytes of `from` and nothing else changes; when it fails, any file
/// but `to` is left as it was.
pub open spec fn copy_effect(from: Seq<char>, to: Seq<char>, ok: bool, before: Disk, after: Disk) -> bool {
    if ok {
        before.contains_key(from) && after == before.insert(to, before[from])
    } else {
        forall|p: Seq<char>| p != to ==> #[trigger] keeps(p, before, after)
    }
}

/// What performing the step of a mutation in view `m` may do to the disk. A
/// command may change any file but the backup, whether it succeeds or not.
pub open spec fn step_effect(m: MutationView, ok: bool, before: Disk, after: Disk) -> bool {
    match m.phase {
        Phase::BackingUp => copy_effect(m.target, m.backup, ok, before, after),
        Phase::Restoring => copy_effect(m.backup, m.target, ok, before, after),
        Phase::Mutating(_) => keeps(m.backup, before, after),
        _ => after == before,
    }
}

/// The phase that `m` reaches when its steps have these outcomes.
pub open spec fn phase_after(m: MutationView, outcomes: Seq<bool>) -> Phase
    decreases outcomes.len(),
{
    if outcomes.len() == 0 {
        m.phase
    } else {
        next_phase(phase_after(m, outcomes.drop_last()), m.commands.len(), outcomes.last())
    }
}

/// `m` after the first `i` of these outcomes.
pub open spec fn view_after(m: MutationView, outcomes: Seq<bool>, i: int) -> MutationView {
    MutationView { phase: phase_after(m, outcomes.take(i)), ..m }
}

/// A run of `m`: its steps had these outcomes, and `disks` holds the disk
/// before the first step and after each.
pub open spec fn is_run(m: MutationView, outcomes: Seq<bool>, disks: Seq<Disk>) -> bool {
    &&& disks.len() == outcomes.len() + 1
    &&& forall|i: int|
        0 <= i < outcomes.len() ==> step_effect(view_after(m, outcomes, i), outcomes[i], #[trigger] disks[i], disks[i + 1])
}

spec fn holds_original(p: Phase, m: MutationView, d: Disk, original: Seq<u8>) -> bool {
    match p {
        Phase::BackingUp | Phase::Restored | Phase::BackupFailed => d.contains_key(m.target) && d[m.target] == original,
        Phase::Mutating(_) | Phase::Restoring => d.contains_key(m.backup) && d[m.backup] == original,
        _ => true,
    }
}

proof fn lemma_run_keeps_original(m: MutationView, outcomes: Seq<bool>, disks: Seq<Disk>, i: int)
    requires
        m.phase == Phase::BackingUp,
        m.target != m.backup,
        is_run(m, outcomes, disks),
        disks[0].contains_key(m.target),
        0 <= i <= outcomes.len(),
    ensures
        holds_original(phase_after(m, outcomes.take(i)), m, disks[i], disks[0][m.target]),
    decreases i,
{
    if i == 0 {
        assert(outcomes.take(0) =~= Seq::<bool>::empty());
    } else {
        lemma_run_keeps_original(m, outcomes, disks, i - 1);
        assert(outcomes.take(i).drop_last() =~= outcomes.take(i - 1));
        assert(outcomes.take(i).last() == outcomes[i - 1]);
        assert(step_effect(view_after(m, outcomes, i - 1), outcomes[i - 1], disks[i - 1], disks[i]));
        let before = disks[i - 1];
        let after = disks[i];
        if phase_after(m, outcomes.take(i - 1)) == Phase::BackingUp && !outcomes[i - 1] {
            assert(keeps(m.target, before, after));
        }
    }
}

/// A mutation that fails leaves the file as it found it. Whatever its commands
/// did to the file, once it has ended in `Restored` (a command failed and the
/// backup was copied back) or `BackupFailed` (nothing was run), the target
/// holds the bytes it held before the mutation began.
pub proof fn lemma_failed_mutation_leaves_file_unchanged(m: MutationView, outcomes: Seq<bool>, disks: Seq<Disk>)
    requires
        m.phase == Phase::BackingUp,
        m.target != m.backup,
        is_run(m, outcomes, disks),
        disks[0].contains_key(m.target),
        phase_after(m, outcomes) == Phase::Restored || phase_after(m, outcomes) == Phase::BackupFailed,
    ensures
        disks.last().contains_key(m.target),
        disks.last()[m.target] == disks[0][m.target],
{
    lemma_run_keeps_original(m, outcomes, disks, outcomes.len() as int);
    assert(outcomes.take(outcomes.len() as int) =~= outcomes);
}

spec fn progress_so_far(m: MutationView, outcomes: Seq<bool>) -> bool {
    let n = m.commands.len();
    match phase_after(m, outcomes) {
        Phase::BackingUp => outcomes.len() == 0,
        Phase::Mutating(i) => i < n && outcomes.len() == i + 1 && forall|j: int| 0 <= j < outcomes.len() ==> outcomes[j],
        Phase::Committed => outcomes.len() >= n + 1 && forall|j: int| 0 <= j <= n ==> outcomes[j],
        _ => true,
    }
}

proof fn lemma_progress(m: MutationView, outcomes: Seq<bool>)
    requires
        m.phase == Phase::BackingUp,
        m.commands.len() <= usize::MAX,
    ensures
        progress_so_far(m, outcomes),
    decreases outcomes.len(),
{
    if outcomes.len() > 0 {
        let d = outcomes.drop_last();
        let x = outcomes.last();
        let n = m.commands.len();
        lemma_progress(m, d);
        assert(outcomes =~= d.push(x));
        assert(phase_after(m, outcomes) == next_phase(phase_after(m, d), n, x));
        match phase_after(m, d) {
            Phase::BackingUp => {
                if x {
                    assert(outcomes[0] == x);
                }
            },
            Phase::Mutating(i) => {
                if x {
                    assert forall|j: int| 0 <= j < outcomes.len() implies outcomes[j] by {
                        if j < d.len() {
                            assert(outcomes[j] == d[j]);
                        }
                    }
                }
            },
            Phase::Committed => {
                assert forall|j: int| 0 <= j <= n implies outcomes[j] by {
                    assert(outcomes[j] == d[j]);
                }
            },
            _ => {},
        }
    }
}

/// A mutation commits only when its backup was made and every one of its
/// commands, in order, succeeded.
pub proof fn lemma_committed_only_when_all_succeed(m: MutationView, outcomes: Seq<bool>)
    requires
        m.phase == Phase::BackingUp,
        m.commands.len() <= usize::MAX,
        phase_after(m, outcomes) == Phase::Committed,
    ensures
        outcomes.len() >= m.commands.len() + 1,
        forall|j: int| 0 <= j <= m.commands.len() ==> outcomes[j],
{
    lemma_progress(m, outcomes);
}

} // verus!
