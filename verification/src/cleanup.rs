//! What the deleter does with each confirmed item, and what it reports.
use vstd::prelude::*;

use crate::models::{CleanupEntry, DeletionResult};
use crate::text::{
    chars_contain, chars_of, has_infix, push_chars, push_str, string_from_chars, trim, trimmed,
};

verus! {

/// What to do for one item.
pub enum CleanupStep {
    /// Report, without touching anything, what would happen.
    Preview(String),
    /// Run `docker system prune -af`.
    DockerPrune,
    /// Nothing to remove.
    Skip,
    /// Remove this path: to the Trash, or with `rm -rf` where `trash` cannot run.
    Remove(String),
}

/// The preview text for `item`.
pub open spec fn preview_text(item: CleanupEntry) -> Seq<char> {
    if item.path@.len() == 0 {
        "[DRY RUN] Would execute: docker system prune -af"@
    } else {
        "[DRY RUN] Would delete: "@ + item.path@
    }
}

/// `step` is the step for `item`: a preview in a dry run; otherwise the
/// Docker prune for a path-less item whose label mentions Docker, nothing for
/// other path-less items, and removing the path for the rest.
pub open spec fn is_step_for(step: CleanupStep, item: CleanupEntry, dry_run: bool) -> bool {
    if dry_run {
        step matches CleanupStep::Preview(m) && m@ == preview_text(item)
    } else if item.path@.len() == 0 && has_infix(item.label@, "Docker"@) {
        step is DockerPrune
    } else if item.path@.len() == 0 {
        step is Skip
    } else {
        step matches CleanupStep::Remove(p) && p@ == item.path@
    }
}

/// The step for `item`.
pub fn plan_cleanup(item: &CleanupEntry, dry_run: bool) -> (r: CleanupStep)
    ensures
        is_step_for(r, *item, dry_run),
        !dry_run && item.path@.len() > 0 ==> (r matches CleanupStep::Remove(p) && p@ == item.path@),
        r is DockerPrune ==> !dry_run && item.path@.len() == 0,
{
    let path = chars_of(item.path.as_str());
    if dry_run {
        let mut msg: Vec<char> = Vec::new();
        if path.len() == 0 {
            push_str(&mut msg, "[DRY RUN] Would execute: docker system prune -af");
        } else {
            push_str(&mut msg, "[DRY RUN] Would delete: ");
            push_chars(&mut msg, &path);
        }
        return CleanupStep::Preview(string_from_chars(&msg));
    }
    if path.len() == 0 {
        if chars_contain(&chars_of(item.label.as_str()), &chars_of("Docker")) {
            CleanupStep::DockerPrune
        } else {
            CleanupStep::Skip
        }
    } else {
        CleanupStep::Remove(item.path.clone())
    }
}

/// How running a command went.
pub enum CommandOutcome {
    /// It ran; whether it succeeded, and what it wrote to standard error.
    Finished(bool, String),
    /// It could not be started; why.
    NotStarted(String),
}

/// The report for the Docker prune of `item`.
pub fn docker_prune_result(item: &CleanupEntry, outcome: CommandOutcome) -> (r: DeletionResult)
    ensures
        match outcome {
            CommandOutcome::Finished(true, _) => r matches DeletionResult::Deleted(p, id) && p@
                == item.path@ && id == item.id,
            CommandOutcome::Finished(false, err) => r matches DeletionResult::Error(m) && m@
                == "docker prune failed: "@ + trim(err@),
            CommandOutcome::NotStarted(why) => r matches DeletionResult::Error(m) && m@
                == "docker prune error: "@ + why@,
        },
{
    match outcome {
        CommandOutcome::Finished(ok, err) => {
            if ok {
                DeletionResult::Deleted(item.path.clone(), item.id)
            } else {
                let mut msg: Vec<char> = Vec::new();
                push_str(&mut msg, "docker prune failed: ");
                push_chars(&mut msg, &trimmed(&chars_of(err.as_str())));
                DeletionResult::Error(string_from_chars(&msg))
            }
        },
        CommandOutcome::NotStarted(why) => {
            let mut msg: Vec<char> = Vec::new();
            push_str(&mut msg, "docker prune error: ");
            push_chars(&mut msg, &chars_of(why.as_str()));
            DeletionResult::Error(string_from_chars(&msg))
        },
    }
}

/// Whether `rm -rf` is tried after `trash`: only when `trash` could not be
/// started at all (`None`); a `trash` that ran and failed is final.
pub fn needs_rm_fallback(trash: Option<bool>) -> (r: bool)
    ensures
        r == (trash is None),
{
    trash.is_none()
}

/// The report for removing the path of `item`, given whether the removal
/// ran and succeeded.
pub fn removal_result(item: &CleanupEntry, succeeded: Option<bool>) -> (r: DeletionResult)
    ensures
        succeeded == Some(true) ==> (r matches DeletionResult::Deleted(p, id) && p@ == item.path@
            && id == item.id),
        succeeded != Some(true) ==> (r matches DeletionResult::Error(m) && m@
            == "Failed to delete: "@ + item.path@),
{
    match succeeded {
        Some(true) => DeletionResult::Deleted(item.path.clone(), item.id),
        _ => {
            let mut msg: Vec<char> = Vec::new();
            push_str(&mut msg, "Failed to delete: ");
            push_chars(&mut msg, &chars_of(item.path.as_str()));
            DeletionResult::Error(string_from_chars(&msg))
        },
    }
}

/// A dry run never removes anything: whatever the item, its step is a preview.
pub proof fn law_dry_run_removes_nothing(item: CleanupEntry, step: CleanupStep)
    requires
        is_step_for(step, item, true),
    ensures
        step is Preview,
        !(step is Remove),
        !(step is DockerPrune),
{
}

/// In a real run an item that has a path is removed, exactly at that path,
/// whatever its label says (an application bundle named "Docker" included);
/// the Docker prune and the skip are only for items without a path, and the
/// prune only for those whose label mentions Docker.
pub proof fn law_real_run_removes_the_path(item: CleanupEntry, step: CleanupStep)
    requires
        is_step_for(step, item, false),
    ensures
        item.path@.len() > 0 ==> (step matches CleanupStep::Remove(p) && p@ == item.path@),
        step is DockerPrune ==> item.path@.len() == 0 && has_infix(item.label@, "Docker"@),
        step is Skip ==> item.path@.len() == 0 && !has_infix(item.label@, "Docker"@),
        !(step is Preview),
{
}

} // verus!
