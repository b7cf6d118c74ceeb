use dos2unix_lib::options::{ConversionOptions, OutputPlacement};
use dos2unix_lib::replace::{FileModel, ReplaceAction, ReplacePlan};

fn all_on(placement: OutputPlacement) -> ConversionOptions {
    ConversionOptions {
        keep_bom: false,
        remove_bom: false,
        add_bom: false,
        force_binary: false,
        add_missing_eol: false,
        preserve_permissions: true,
        preserve_timestamps: true,
        make_backup: true,
        placement,
    }
}

const PERMS: u32 = 0o644;
const TIMES: u64 = 1_700_000_000;

/// Drives the plan against the in-memory stand-in, failing the step whose
/// index is `fail_at` (if any); returns the stand-in and how many steps ran.
fn drive(
    options: ConversionOptions,
    original: &[u8],
    payload: &[u8],
    fail_at: Option<usize>,
) -> (FileModel, usize) {
    let mut plan = ReplacePlan::new(options);
    let mut fs = FileModel::new(original.to_vec(), PERMS, TIMES);
    let mut step = 0;
    while let Some(action) = plan.next_action() {
        let ok = fail_at != Some(step);
        if ok {
            fs.apply(action, payload, options.placement);
        }
        plan.advance(ok);
        step += 1;
    }
    (fs, step)
}

#[test]
fn all_steps_succeed_replaces_original() {
    let (fs, steps) = drive(all_on(OutputPlacement::Overwrite), b"old", b"new", None);
    assert_eq!(fs.original, b"new".to_vec());
    assert_eq!(fs.original_perms, Some(PERMS));
    assert_eq!(fs.original_times, Some(TIMES));
    assert_eq!(fs.temp, None);
    assert_eq!(fs.backup, Some(b"old".to_vec()));
    assert_eq!(steps, 5);
}

#[test]
fn minimal_plan_skips_optional_steps() {
    let opts = ConversionOptions {
        preserve_permissions: false,
        preserve_timestamps: false,
        make_backup: false,
        ..all_on(OutputPlacement::Overwrite)
    };
    let (fs, steps) = drive(opts, b"old", b"new", None);
    assert_eq!(fs.original, b"new".to_vec());
    // nothing carried anything over: the renamed file keeps whatever
    // attributes the platform gave the temporary file
    assert_eq!(fs.original_perms, None);
    assert_eq!(fs.original_times, None);
    assert_eq!(fs.backup, None);
    assert_eq!(steps, 2);
}

#[test]
fn failure_before_rename_leaves_original() {
    // fail each of the five steps in turn; up to the rename the original
    // must stay byte-identical and the temporary file must be removed
    for fail_at in 0..5 {
        let (fs, _) = drive(
            all_on(OutputPlacement::Overwrite),
            b"precious",
            b"replacement",
            Some(fail_at),
        );
        assert_eq!(fs.original, b"precious".to_vec());
        assert_eq!(fs.original_perms, Some(PERMS));
        assert_eq!(fs.original_times, Some(TIMES));
        assert_eq!(fs.temp, None);
    }
}

#[test]
fn failure_after_temp_written_removes_temp() {
    // the temporary file exists once the write succeeded; a later failure
    // must not leave it behind
    let (fs, _) = drive(
        all_on(OutputPlacement::Overwrite),
        b"keep me",
        b"half done",
        Some(3),
    );
    assert_eq!(fs.original, b"keep me".to_vec());
    assert_eq!(fs.temp, None);
    assert_eq!(fs.target, None);
}

#[test]
fn new_file_placement_never_touches_original() {
    let (fs, _) = drive(all_on(OutputPlacement::NewFile), b"old", b"new", None);
    assert_eq!(fs.original, b"old".to_vec());
    assert_eq!(fs.original_perms, Some(PERMS));
    assert_eq!(fs.target, Some(b"new".to_vec()));
    assert_eq!(fs.target_perms, Some(PERMS));
    assert_eq!(fs.target_times, Some(TIMES));
    assert_eq!(fs.temp, None);
}

#[test]
fn permissions_carried_onto_replacement() {
    let opts = ConversionOptions {
        preserve_timestamps: false,
        make_backup: false,
        ..all_on(OutputPlacement::Overwrite)
    };
    let (fs, steps) = drive(opts, b"old", b"new", None);
    assert_eq!(fs.original_perms, Some(PERMS));
    assert_eq!(fs.original_times, None);
    assert_eq!(steps, 3);
}

#[test]
fn backup_holds_pre_conversion_content() {
    let opts = ConversionOptions {
        preserve_permissions: false,
        preserve_timestamps: false,
        ..all_on(OutputPlacement::Overwrite)
    };
    let (fs, steps) = drive(opts, b"before", b"after", None);
    assert_eq!(fs.backup, Some(b"before".to_vec()));
    assert_eq!(fs.original, b"after".to_vec());
    assert_eq!(steps, 3);
}

#[test]
fn plan_directs_write_first_and_rename_last() {
    let mut plan = ReplacePlan::new(all_on(OutputPlacement::Overwrite));
    assert_eq!(plan.next_action(), Some(ReplaceAction::WriteTemp));
    plan.advance(true);
    assert_eq!(plan.next_action(), Some(ReplaceAction::SetPermissions));
    plan.advance(true);
    assert_eq!(plan.next_action(), Some(ReplaceAction::SetTimestamps));
    plan.advance(true);
    assert_eq!(plan.next_action(), Some(ReplaceAction::CopyBackup));
    plan.advance(true);
    assert_eq!(plan.next_action(), Some(ReplaceAction::RenameTemp));
    plan.advance(true);
    assert_eq!(plan.next_action(), None);
}

#[test]
fn failed_step_leads_to_cleanup() {
    let mut plan = ReplacePlan::new(all_on(OutputPlacement::Overwrite));
    plan.advance(true);
    plan.advance(false);
    assert_eq!(plan.next_action(), Some(ReplaceAction::RemoveTemp));
    plan.advance(true);
    assert_eq!(plan.next_action(), None);
}
