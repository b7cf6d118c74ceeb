//! The atomic replacement plan: the order of filesystem steps that commit
//! converted bytes to storage — write a temporary file, carry over
//! permissions and timestamps, copy a backup, rename — together with a
//! model of the touched paths and a proof that a failure or a stop at any
//! step leaves the original content and attributes untouched.
//!
//! The caller performs each directed action on the real filesystem and
//! reports its outcome; the plan decides what comes next. The model takes
//! a rename to be all-or-nothing, as the platforms in use guarantee, and
//! takes a failed step to leave the paths as they were — a partly written
//! temporary file differs only at the temporary path, which the plan then
//! removes.

use vstd::prelude::*;
use crate::options::{ConversionOptions, OutputPlacement};

verus! {

/// One filesystem action the plan directs.
#[derive(Copy, Clone, PartialEq, Eq, Structural, Debug)]
pub enum ReplaceAction {
    /// Write the converted bytes to the temporary path.
    WriteTemp,
    /// Copy the original's permission bits onto the temporary file.
    SetPermissions,
    /// Copy the original's access and modification times onto it.
    SetTimestamps,
    /// Copy the original's content to the backup path.
    CopyBackup,
    /// Rename the temporary file onto its final path in one step.
    RenameTemp,
    /// Remove the temporary file after a failure.
    RemoveTemp,
}

/// Where the plan stands. Optional phases are skipped when the options do
/// not ask for them.
#[derive(Copy, Clone, PartialEq, Eq, Structural, Debug)]
pub enum ReplacePhase {
    Writing,
    Permissions,
    Timestamps,
    Backup,
    Renaming,
    Cleanup,
    Done,
    Failed,
}

/// What stands at the paths one replacement touches: content of the
/// original file and of whatever is at the temporary, backup and
/// new-file paths, with each file's permission bits and timestamps as
/// opaque values. `None` content means no file; `None` attributes mean
/// the platform's own, not carried over from anywhere.
pub struct FsState {
    pub original: Seq<u8>,
    pub original_perms: Option<u32>,
    pub original_times: Option<u64>,
    pub temp: Option<Seq<u8>>,
    pub temp_perms: Option<u32>,
    pub temp_times: Option<u64>,
    pub backup: Option<Seq<u8>>,
    pub target: Option<Seq<u8>>,
    pub target_perms: Option<u32>,
    pub target_times: Option<u64>,
}

/// What one successful action does to the paths. Only `RenameTemp` under
/// overwrite placement ever changes the original path; the renamed file
/// keeps the content and attributes the temporary file had.
pub open spec fn apply_action(
    fs: FsState,
    a: ReplaceAction,
    payload: Seq<u8>,
    placement: OutputPlacement,
) -> FsState {
    match a {
        ReplaceAction::WriteTemp => FsState {
            temp: Some(payload),
            temp_perms: None,
            temp_times: None,
            ..fs
        },
        ReplaceAction::SetPermissions => FsState { temp_perms: fs.original_perms, ..fs },
        ReplaceAction::SetTimestamps => FsState { temp_times: fs.original_times, ..fs },
        ReplaceAction::CopyBackup => FsState { backup: Some(fs.original), ..fs },
        ReplaceAction::RenameTemp => match placement {
            OutputPlacement::Overwrite => match fs.temp {
                Some(t) => FsState {
                    original: t,
                    original_perms: fs.temp_perms,
                    original_times: fs.temp_times,
                    temp: None,
                    temp_perms: None,
                    temp_times: None,
                    ..fs
                },
                None => FsState { temp: None, temp_perms: None, temp_times: None, ..fs },
            },
            OutputPlacement::NewFile => FsState {
                target: fs.temp,
                target_perms: fs.temp_perms,
                target_times: fs.temp_times,
                temp: None,
                temp_perms: None,
                temp_times: None,
                ..fs
            },
        },
        ReplaceAction::RemoveTemp => FsState {
            temp: None,
            temp_perms: None,
            temp_times: None,
            ..fs
        },
    }
}

/// The action each phase directs; the two final phases direct none.
pub open spec fn action_of(phase: ReplacePhase) -> Option<ReplaceAction> {
    match phase {
        ReplacePhase::Writing => Some(ReplaceAction::WriteTemp),
        ReplacePhase::Permissions => Some(ReplaceAction::SetPermissions),
        ReplacePhase::Timestamps => Some(ReplaceAction::SetTimestamps),
        ReplacePhase::Backup => Some(ReplaceAction::CopyBackup),
        ReplacePhase::Renaming => Some(ReplaceAction::RenameTemp),
        ReplacePhase::Cleanup => Some(ReplaceAction::RemoveTemp),
        ReplacePhase::Done => None,
        ReplacePhase::Failed => None,
    }
}

/// After the temporary file holds the payload: the first of the optional
/// phases that the options ask for, else the rename.
pub open spec fn after_write(opts: ConversionOptions) -> ReplacePhase {
    if opts.preserve_permissions {
        ReplacePhase::Permissions
    } else {
        after_permissions(opts)
    }
}

/// After permissions are carried over.
pub open spec fn after_permissions(opts: ConversionOptions) -> ReplacePhase {
    if opts.preserve_timestamps {
        ReplacePhase::Timestamps
    } else {
        after_timestamps(opts)
    }
}

/// After timestamps are carried over.
pub open spec fn after_timestamps(opts: ConversionOptions) -> ReplacePhase {
    if opts.make_backup {
        ReplacePhase::Backup
    } else {
        ReplacePhase::Renaming
    }
}

/// The phase after one action's outcome: forward on success, to the
/// cleanup of the temporary file on any failure, and from cleanup to
/// `Failed` whatever the removal's own outcome.
pub open spec fn next_phase(phase: ReplacePhase, opts: ConversionOptions, ok: bool) -> ReplacePhase {
    match phase {
        ReplacePhase::Writing => if ok {
            after_write(opts)
        } else {
            ReplacePhase::Cleanup
        },
        ReplacePhase::Permissions => if ok {
            after_permissions(opts)
        } else {
            ReplacePhase::Cleanup
        },
        ReplacePhase::Timestamps => if ok {
            after_timestamps(opts)
        } else {
            ReplacePhase::Cleanup
        },
        ReplacePhase::Backup => if ok {
            ReplacePhase::Renaming
        } else {
            ReplacePhase::Cleanup
        },
        ReplacePhase::Renaming => if ok {
            ReplacePhase::Done
        } else {
            ReplacePhase::Cleanup
        },
        ReplacePhase::Cleanup => ReplacePhase::Failed,
        ReplacePhase::Done => ReplacePhase::Done,
        ReplacePhase::Failed => ReplacePhase::Failed,
    }
}

/// Runs the plan from `phase` over a sequence of step outcomes: each
/// directed action is applied to the model when its outcome is true, and
/// the phase advances by `next_phase`. A sequence that runs out before
/// the plan ends models a crash mid-way.
pub open spec fn run(
    phase: ReplacePhase,
    opts: ConversionOptions,
    fs: FsState,
    payload: Seq<u8>,
    outcomes: Seq<bool>,
) -> (ReplacePhase, FsState)
    decreases outcomes.len(),
{
    if outcomes.len() == 0 {
        (phase, fs)
    } else {
        match action_of(phase) {
            None => (phase, fs),
            Some(a) => {
                let ok = outcomes[0];
                let fs2 = if ok {
                    apply_action(fs, a, payload, opts.placement)
                } else {
                    fs
                };
                run(next_phase(phase, opts, ok), opts, fs2, payload, outcomes.skip(1))
            },
        }
    }
}

/// What holds of the paths in each phase of an unfailed plan: past the
/// write the temporary file holds the payload, past the permissions step
/// it carries the original's permission bits, past the timestamps step
/// the original's times.
pub open spec fn plan_inv(
    phase: ReplacePhase,
    opts: ConversionOptions,
    fs: FsState,
    payload: Seq<u8>,
) -> bool {
    &&& ((phase == ReplacePhase::Permissions || phase == ReplacePhase::Timestamps || phase
        == ReplacePhase::Backup || phase == ReplacePhase::Renaming) ==> fs.temp == Some(payload))
    &&& ((phase == ReplacePhase::Timestamps || phase == ReplacePhase::Backup || phase
        == ReplacePhase::Renaming) && opts.preserve_permissions ==> fs.temp_perms
        == fs.original_perms)
    &&& ((phase == ReplacePhase::Backup || phase == ReplacePhase::Renaming)
        && opts.preserve_timestamps ==> fs.temp_times == fs.original_times)
}

/// The inductive heart of the atomicity argument, stated from any phase
/// whose state satisfies [`plan_inv`].
proof fn lemma_run_preserves(
    phase: ReplacePhase,
    opts: ConversionOptions,
    fs: FsState,
    payload: Seq<u8>,
    outcomes: Seq<bool>,
)
    requires
        plan_inv(phase, opts, fs, payload),
    ensures
        ({
            let (ph, fs2) = run(phase, opts, fs, payload, outcomes);
            &&& ph != ReplacePhase::Done ==> fs2.original == fs.original && fs2.original_perms
                == fs.original_perms && fs2.original_times == fs.original_times
            &&& opts.placement == OutputPlacement::NewFile ==> fs2.original == fs.original
                && fs2.original_perms == fs.original_perms && fs2.original_times
                == fs.original_times
            &&& (ph == ReplacePhase::Done && phase != ReplacePhase::Done) ==> fs2.temp == None::<
                Seq<u8>,
            > && (opts.placement == OutputPlacement::Overwrite ==> fs2.original == payload && (
            opts.preserve_permissions ==> fs2.original_perms == fs.original_perms) && (
            opts.preserve_timestamps ==> fs2.original_times == fs.original_times)) && (
            opts.placement == OutputPlacement::NewFile ==> fs2.target == Some(payload) && (
            opts.preserve_permissions ==> fs2.target_perms == fs.original_perms) && (
            opts.preserve_timestamps ==> fs2.target_times == fs.original_times))
        }),
    decreases outcomes.len(),
{
    if outcomes.len() == 0 {
    } else {
        match action_of(phase) {
            None => {},
            Some(a) => {
                let ok = outcomes[0];
                let fs2 = if ok {
                    apply_action(fs, a, payload, opts.placement)
                } else {
                    fs
                };
                let ph2 = next_phase(phase, opts, ok);
                assert(plan_inv(ph2, opts, fs2, payload));
                lemma_run_preserves(ph2, opts, fs2, payload, outcomes.skip(1));
            },
        }
    }
}

/// Atomicity of the replacement protocol: run the plan from its start
/// with any outcome sequence — including one that stops short, a crash —
/// and the content, permission bits and times at the original path are
/// unchanged unless the plan ended in `Done`. Under new-file placement
/// the original never changes at all; when the plan does end in `Done`,
/// the converted bytes stand at the chosen destination, that file
/// carries the original's permission bits and times where the options
/// asked for them, and no temporary file is left behind.
pub proof fn lemma_replacement_atomic(
    opts: ConversionOptions,
    fs: FsState,
    payload: Seq<u8>,
    outcomes: Seq<bool>,
)
    ensures
        ({
            let (ph, fs2) = run(ReplacePhase::Writing, opts, fs, payload, outcomes);
            &&& ph != ReplacePhase::Done ==> fs2.original == fs.original && fs2.original_perms
                == fs.original_perms && fs2.original_times == fs.original_times
            &&& opts.placement == OutputPlacement::NewFile ==> fs2.original == fs.original
                && fs2.original_perms == fs.original_perms && fs2.original_times
                == fs.original_times
            &&& ph == ReplacePhase::Done ==> fs2.temp == None::<Seq<u8>> && (opts.placement
                == OutputPlacement::Overwrite ==> fs2.original == payload && (
            opts.preserve_permissions ==> fs2.original_perms == fs.original_perms) && (
            opts.preserve_timestamps ==> fs2.original_times == fs.original_times)) && (
            opts.placement == OutputPlacement::NewFile ==> fs2.target == Some(payload) && (
            opts.preserve_permissions ==> fs2.target_perms == fs.original_perms) && (
            opts.preserve_timestamps ==> fs2.target_times == fs.original_times))
        }),
{
    lemma_run_preserves(ReplacePhase::Writing, opts, fs, payload, outcomes);
}

/// The plan a caller drives: ask for the next action, perform it on the
/// real filesystem, report the outcome, repeat until no action is left.
pub struct ReplacePlan {
    /// The conversion's configuration; fixed for the plan's lifetime.
    pub options: ConversionOptions,
    /// Where the plan stands.
    pub phase: ReplacePhase,
}

impl ReplacePlan {
    /// A plan at its start, before anything touched the filesystem.
    pub fn new(options: ConversionOptions) -> (r: ReplacePlan)
        ensures
            r.options == options,
            r.phase == ReplacePhase::Writing,
    {
        ReplacePlan { options, phase: ReplacePhase::Writing }
    }

    /// The action to perform next, or `None` when the plan has ended in
    /// `Done` or `Failed`.
    pub fn next_action(&self) -> (a: Option<ReplaceAction>)
        ensures
            a == action_of(self.phase),
    {
        match self.phase {
            ReplacePhase::Writing => Some(ReplaceAction::WriteTemp),
            ReplacePhase::Permissions => Some(ReplaceAction::SetPermissions),
            ReplacePhase::Timestamps => Some(ReplaceAction::SetTimestamps),
            ReplacePhase::Backup => Some(ReplaceAction::CopyBackup),
            ReplacePhase::Renaming => Some(ReplaceAction::RenameTemp),
            ReplacePhase::Cleanup => Some(ReplaceAction::RemoveTemp),
            ReplacePhase::Done => None,
            ReplacePhase::Failed => None,
        }
    }

    /// Records the outcome of the action last directed and moves to the
    /// next phase.
    pub fn advance(&mut self, ok: bool)
        ensures
            final(self).options == old(self).options,
            final(self).phase == next_phase(old(self).phase, old(self).options, ok),
    {
        let next = match self.phase {
            ReplacePhase::Writing => if ok {
                if self.options.preserve_permissions {
                    ReplacePhase::Permissions
                } else if self.options.preserve_timestamps {
                    ReplacePhase::Timestamps
                } else if self.options.make_backup {
                    ReplacePhase::Backup
                } else {
                    ReplacePhase::Renaming
                }
            } else {
                ReplacePhase::Cleanup
            },
            ReplacePhase::Permissions => if ok {
                if self.options.preserve_timestamps {
                    ReplacePhase::Timestamps
                } else if self.options.make_backup {
                    ReplacePhase::Backup
                } else {
                    ReplacePhase::Renaming
                }
            } else {
                ReplacePhase::Cleanup
            },
            ReplacePhase::Timestamps => if ok {
                if self.options.make_backup {
                    ReplacePhase::Backup
                } else {
                    ReplacePhase::Renaming
                }
            } else {
                ReplacePhase::Cleanup
            },
            ReplacePhase::Backup => if ok {
                ReplacePhase::Renaming
            } else {
                ReplacePhase::Cleanup
            },
            ReplacePhase::Renaming => if ok {
                ReplacePhase::Done
            } else {
                ReplacePhase::Cleanup
            },
            ReplacePhase::Cleanup => ReplacePhase::Failed,
            ReplacePhase::Done => ReplacePhase::Done,
            ReplacePhase::Failed => ReplacePhase::Failed,
        };
        self.phase = next;
    }
}

/// An in-memory stand-in for the four paths, for exercising the plan
/// without a filesystem.
pub struct FileModel {
    pub original: Vec<u8>,
    pub original_perms: Option<u32>,
    pub original_times: Option<u64>,
    pub temp: Option<Vec<u8>>,
    pub temp_perms: Option<u32>,
    pub temp_times: Option<u64>,
    pub backup: Option<Vec<u8>>,
    pub target: Option<Vec<u8>>,
    pub target_perms: Option<u32>,
    pub target_times: Option<u64>,
}

impl FileModel {
    /// The content and attributes this stand-in holds.
    pub open spec fn model(&self) -> FsState {
        FsState {
            original: self.original@,
            original_perms: self.original_perms,
            original_times: self.original_times,
            temp: match self.temp {
                Some(v) => Some(v@),
                None => None,
            },
            temp_perms: self.temp_perms,
            temp_times: self.temp_times,
            backup: match self.backup {
                Some(v) => Some(v@),
                None => None,
            },
            target: match self.target {
                Some(v) => Some(v@),
                None => None,
            },
            target_perms: self.target_perms,
            target_times: self.target_times,
        }
    }

    /// A fresh stand-in: the original path holds `original` with the
    /// given permission bits and times; the other paths hold nothing.
    pub fn new(original: Vec<u8>, perms: u32, times: u64) -> (r: FileModel)
        ensures
            r.model() == (FsState {
                original: original@,
                original_perms: Some(perms),
                original_times: Some(times),
                temp: None,
                temp_perms: None,
                temp_times: None,
                backup: None,
                target: None,
                target_perms: None,
                target_times: None,
            }),
    {
        FileModel {
            original,
            original_perms: Some(perms),
            original_times: Some(times),
            temp: None,
            temp_perms: None,
            temp_times: None,
            backup: None,
            target: None,
            target_perms: None,
            target_times: None,
        }
    }

    /// Performs one action on the stand-in, exactly as [`apply_action`]
    /// says.
    pub fn apply(&mut self, a: ReplaceAction, payload: &[u8], placement: OutputPlacement)
        ensures
            final(self).model() == apply_action(old(self).model(), a, payload@, placement),
    {
        match a {
            ReplaceAction::WriteTemp => {
                self.temp = Some(vstd::slice::slice_to_vec(payload));
                self.temp_perms = None;
                self.temp_times = None;
            },
            ReplaceAction::SetPermissions => {
                self.temp_perms = self.original_perms;
            },
            ReplaceAction::SetTimestamps => {
                self.temp_times = self.original_times;
            },
            ReplaceAction::CopyBackup => {
                self.backup = Some(vstd::slice::slice_to_vec(self.original.as_slice()));
            },
            ReplaceAction::RenameTemp => {
                match placement {
                    OutputPlacement::Overwrite => {
                        match &self.temp {
                            Some(t) => {
                                self.original = vstd::slice::slice_to_vec(t.as_slice());
                                self.original_perms = self.temp_perms;
                                self.original_times = self.temp_times;
                            },
                            None => {},
                        }
                        self.temp = None;
                        self.temp_perms = None;
                        self.temp_times = None;
                    },
                    OutputPlacement::NewFile => {
                        match &self.temp {
                            Some(t) => {
                                self.target = Some(vstd::slice::slice_to_vec(t.as_slice()));
                            },
                            None => {
                                self.target = None;
                            },
                        }
                        self.target_perms = self.temp_perms;
                        self.target_times = self.temp_times;
                        self.temp = None;
                        self.temp_perms = None;
                        self.temp_times = None;
                    },
                }
            },
            ReplaceAction::RemoveTemp => {
                self.temp = None;
                self.temp_perms = None;
                self.temp_times = None;
            },
        }
    }
}

} // verus!
