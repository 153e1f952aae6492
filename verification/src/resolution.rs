//! The conflict resolver: for every planned file whose content differs
//! from the disk, decide whether to overwrite, and describe the conflict
//! so a presentation layer can render it.
//!
//! The prompt itself is the caller's collaborator; decisions arrive here
//! as plain values.

use vstd::prelude::*;

use crate::planner::{AddPlan, PlannedFile, PlannedFileV, PlannedFileStatus, pf_views};
use crate::text::utf8_ok;

verus! {

/// How overwrite conflicts are resolved.
#[derive(Clone, Copy, PartialEq, Eq, Debug, Structural)]
pub enum ResolutionMode {
    DryRun,
    Interactive,
    AssumeYes,
}

/// The mode a command runs its conflict resolution in: dry-run wins, then
/// an explicit or environment-supplied assume-yes, then detected CI (also
/// automatic), then a real terminal makes it interactive; the default is
/// automatic overwrite.
pub open spec fn spec_select_mode(
    dry_run: bool,
    assume_yes_flag: bool,
    env_assume_yes: bool,
    ci_detected: bool,
    stdin_interactive: bool,
) -> ResolutionMode {
    if dry_run {
        ResolutionMode::DryRun
    } else if assume_yes_flag || env_assume_yes {
        ResolutionMode::AssumeYes
    } else if ci_detected {
        ResolutionMode::AssumeYes
    } else if stdin_interactive {
        ResolutionMode::Interactive
    } else {
        ResolutionMode::AssumeYes
    }
}

/// Selects the resolution mode from the command flags and what the
/// environment reported.
pub fn select_resolution_mode(
    dry_run: bool,
    assume_yes_flag: bool,
    env_assume_yes: bool,
    ci_detected: bool,
    stdin_interactive: bool,
) -> (r: ResolutionMode)
    ensures
        r == spec_select_mode(dry_run, assume_yes_flag, env_assume_yes, ci_detected,
            stdin_interactive),
{
    if dry_run {
        ResolutionMode::DryRun
    } else if assume_yes_flag || env_assume_yes {
        ResolutionMode::AssumeYes
    } else if ci_detected {
        ResolutionMode::AssumeYes
    } else if stdin_interactive {
        ResolutionMode::Interactive
    } else {
        ResolutionMode::AssumeYes
    }
}

/// What a conflict's diff can show.
#[derive(Clone, Copy, PartialEq, Eq, Debug, Structural)]
pub enum ConflictDiff {
    Text,
    Binary,
    Unreadable,
}

/// One overwrite conflict, as handed to the presentation layer.
pub struct ConflictPrompt {
    pub component_name: String,
    pub destination: String,
    pub diff: ConflictDiff,
}

/// How many of the first `i` planned files are updates.
pub open spec fn updates_before(s: Seq<PlannedFileV>, i: int) -> int
    decreases i,
{
    if i <= 0 {
        0
    } else {
        updates_before(s, i - 1) + (if s[i - 1].status == PlannedFileStatus::Update {
            1int
        } else {
            0int
        })
    }
}

/// The diff a conflict shows: a text diff when both sides are valid
/// UTF-8, a binary note otherwise, and an unreadable note when the
/// existing content could not be captured.
pub open spec fn spec_conflict_diff(pf: PlannedFileV) -> ConflictDiff {
    match pf.existing_contents {
        None => ConflictDiff::Unreadable,
        Some(cur) => {
            if vstd::utf8::valid_utf8(cur) && vstd::utf8::valid_utf8(pf.contents) {
                ConflictDiff::Text
            } else {
                ConflictDiff::Binary
            }
        },
    }
}

/// The apply flag a file carries after resolution: only an interactive
/// decline withdraws an update; dry-run and automatic modes leave every
/// flag alone.
pub open spec fn spec_resolved_apply(
    pf: PlannedFileV,
    mode: ResolutionMode,
    decisions: Seq<bool>,
    update_index: int,
) -> bool {
    if pf.status == PlannedFileStatus::Update && mode == ResolutionMode::Interactive {
        decisions[update_index]
    } else {
        pf.apply
    }
}

/// Walks the plan's update conflicts in order: reports one prompt per
/// update, flips `apply` flags per the interactive decisions, and says
/// whether the automatic-overwrite notice is due (exactly once, when the
/// mode is automatic and there is at least one conflict).
#[verifier::rlimit(60)]
pub fn resolve_conflicts(plan: &mut AddPlan, mode: ResolutionMode, decisions: &Vec<bool>) -> (r: (
    Vec<ConflictPrompt>,
    bool,
))
    requires
        decisions@.len() >= updates_before(
            pf_views(old(plan).planned_files@),
            old(plan).planned_files@.len() as int,
        ),
    ensures
        ({
            let before = pf_views(old(plan).planned_files@);
            let after = pf_views(final(plan).planned_files@);
            &&& after.len() == before.len()
            &&& forall|i: int|
                0 <= i < before.len() ==> {
                    let pv = #[trigger] before[i];
                    &&& after[i].component_name == pv.component_name
                    &&& after[i].registry_path == pv.registry_path
                    &&& after[i].destination == pv.destination
                    &&& after[i].contents == pv.contents
                    &&& after[i].existing_contents == pv.existing_contents
                    &&& after[i].status == pv.status
                    &&& after[i].apply == spec_resolved_apply(pv, mode, decisions@,
                        updates_before(before, i))
                }
            &&& r.0@.len() == updates_before(before, before.len() as int)
            &&& forall|i: int|
                0 <= i < before.len() && (#[trigger] before[i]).status
                    == PlannedFileStatus::Update ==> {
                    let k = updates_before(before, i);
                    &&& r.0@[k].component_name@ == before[i].component_name
                    &&& r.0@[k].destination@ == before[i].destination
                    &&& r.0@[k].diff == spec_conflict_diff(before[i])
                }
            &&& r.1 == (mode == ResolutionMode::AssumeYes && updates_before(
                before,
                before.len() as int,
            ) > 0)
            &&& final(plan).config == old(plan).config
            &&& final(plan).workspace_root == old(plan).workspace_root
            &&& final(plan).requested_components == old(plan).requested_components
            &&& final(plan).install_order == old(plan).install_order
            &&& final(plan).installed_components == old(plan).installed_components
            &&& final(plan).registered_type_exports == old(plan).registered_type_exports
            &&& final(plan).runtime_requirements == old(plan).runtime_requirements
            &&& final(plan).dev_requirements == old(plan).dev_requirements
            &&& final(plan).barrel_path == old(plan).barrel_path
            &&& final(plan).existing_barrel == old(plan).existing_barrel
            &&& final(plan).package_manager == old(plan).package_manager
            &&& final(plan).package_snapshot == old(plan).package_snapshot
            &&& final(plan).missing_entry_components == old(plan).missing_entry_components
        }),
{
    let ghost before = pf_views(old(plan).planned_files@);
    let n = plan.planned_files.len();
    let mut rebuilt: Vec<PlannedFile> = Vec::new();
    let mut prompts: Vec<ConflictPrompt> = Vec::new();
    let mut updates: usize = 0;
    let mut i: usize = 0;
    while i < n
        invariant
            plan.planned_files == old(plan).planned_files,
            plan == old(plan),
            before == pf_views(old(plan).planned_files@),
            n == plan.planned_files@.len(),
            before.len() == n,
            i <= n,
            decisions@.len() >= updates_before(before, n as int),
            updates == updates_before(before, i as int),
            prompts@.len() == updates,
            rebuilt@.len() == i,
            forall|j: int|
                0 <= j < i ==> {
                    let pv = #[trigger] before[j];
                    &&& rebuilt@[j]@.component_name == pv.component_name
                    &&& rebuilt@[j]@.registry_path == pv.registry_path
                    &&& rebuilt@[j]@.destination == pv.destination
                    &&& rebuilt@[j]@.contents == pv.contents
                    &&& rebuilt@[j]@.existing_contents == pv.existing_contents
                    &&& rebuilt@[j]@.status == pv.status
                    &&& rebuilt@[j]@.apply == spec_resolved_apply(pv, mode, decisions@,
                        updates_before(before, j))
                },
            forall|j: int|
                0 <= j < i && (#[trigger] before[j]).status == PlannedFileStatus::Update ==> {
                    let k = updates_before(before, j);
                    &&& prompts@[k].component_name@ == before[j].component_name
                    &&& prompts@[k].destination@ == before[j].destination
                    &&& prompts@[k].diff == spec_conflict_diff(before[j])
                },
        decreases n - i,
    {
        proof {
            assert(before[i as int] == plan.planned_files@[i as int]@);
            lemma_updates_before_mono(before, i as int);
        }
        let pf = &plan.planned_files[i];
        let is_update = pf.status == PlannedFileStatus::Update;
        let mut apply_flag = pf.apply;
        if is_update {
            let diff = match &pf.existing_contents {
                None => ConflictDiff::Unreadable,
                Some(cur) => {
                    if utf8_ok(cur) && utf8_ok(&pf.contents) {
                        ConflictDiff::Text
                    } else {
                        ConflictDiff::Binary
                    }
                },
            };
            let ghost p0 = prompts@;
            prompts.push(
                ConflictPrompt {
                    component_name: pf.component_name.clone(),
                    destination: pf.destination.clone(),
                    diff,
                },
            );
            proof {
                assert(prompts@ == p0.push(prompts@.last()));
                assert(prompts@[updates_before(before, i as int)] == prompts@.last());
                assert(prompts@.last().component_name@ == before[i as int].component_name);
                assert(prompts@.last().destination@ == before[i as int].destination);
                assert(prompts@.last().diff == spec_conflict_diff(before[i as int]));
                assert forall|j: int|
                    0 <= j < i + 1 && (#[trigger] before[j]).status
                        == PlannedFileStatus::Update implies {
                    let k = updates_before(before, j);
                    &&& prompts@[k].component_name@ == before[j].component_name
                    &&& prompts@[k].destination@ == before[j].destination
                    &&& prompts@[k].diff == spec_conflict_diff(before[j])
                } by {
                    let k = updates_before(before, j);
                    if j < i {
                        lemma_updates_before_mono(before, j);
                        lemma_updates_before_bound(before, j, i as int);
                        assert(k < p0.len());
                        assert(prompts@[k] == p0[k]);
                    } else {
                        assert(k == updates_before(before, i as int));
                    }
                }
            }
            if mode == ResolutionMode::Interactive {
                proof {
                    lemma_updates_before_bound(before, i as int, n as int);
                }
                apply_flag = decisions[updates];
            }
            updates = updates + 1;
        }
        let new_pf = PlannedFile {
            component_name: pf.component_name.clone(),
            registry_path: pf.registry_path.clone(),
            destination: pf.destination.clone(),
            contents: crate::text::clone_bytes(&pf.contents),
            existing_contents: match &pf.existing_contents {
                Some(b) => Some(crate::text::clone_bytes(b)),
                None => None,
            },
            status: pf.status,
            apply: apply_flag,
        };
        proof {
            assert(new_pf@.component_name == before[i as int].component_name);
            assert(new_pf@.apply == spec_resolved_apply(before[i as int], mode, decisions@,
                updates_before(before, i as int)));
        }
        let ghost r0 = rebuilt@;
        rebuilt.push(new_pf);
        proof {
            assert(rebuilt@ == r0.push(rebuilt@.last()));
            assert forall|j: int| 0 <= j < i + 1 implies #[trigger] rebuilt@[j]@.component_name
                == before[j].component_name && rebuilt@[j]@.registry_path
                == before[j].registry_path && rebuilt@[j]@.destination == before[j].destination
                && rebuilt@[j]@.contents == before[j].contents
                && rebuilt@[j]@.existing_contents == before[j].existing_contents
                && rebuilt@[j]@.status == before[j].status && rebuilt@[j]@.apply
                == spec_resolved_apply(before[j], mode, decisions@, updates_before(before, j))
                by {
                if j < i {
                    assert(rebuilt@[j] == r0[j]);
                }
            }
        }
        i = i + 1;
    }
    plan.planned_files = rebuilt;
    let notice = mode == ResolutionMode::AssumeYes && updates > 0;
    proof {
        assert(pf_views(plan.planned_files@).len() == plan.planned_files@.len());
        assert forall|j: int|
            0 <= j < before.len() implies {
            let pv = #[trigger] before[j];
            &&& pf_views(plan.planned_files@)[j].component_name == pv.component_name
            &&& pf_views(plan.planned_files@)[j].registry_path == pv.registry_path
            &&& pf_views(plan.planned_files@)[j].destination == pv.destination
            &&& pf_views(plan.planned_files@)[j].contents == pv.contents
            &&& pf_views(plan.planned_files@)[j].existing_contents == pv.existing_contents
            &&& pf_views(plan.planned_files@)[j].status == pv.status
            &&& pf_views(plan.planned_files@)[j].apply == spec_resolved_apply(pv, mode,
                decisions@, updates_before(before, j))
        } by {
            assert(pf_views(plan.planned_files@)[j] == plan.planned_files@[j]@);
        }
    }
    (prompts, notice)
}

/// The update count over a prefix never exceeds the prefix length and is
/// monotone.
proof fn lemma_updates_before_mono(s: Seq<PlannedFileV>, i: int)
    requires
        0 <= i,
    ensures
        0 <= updates_before(s, i) <= i,
    decreases i,
{
    if i > 0 {
        lemma_updates_before_mono(s, i - 1);
    }
}

/// The update count of a prefix is below the whole sequence's count.
proof fn lemma_updates_before_bound(s: Seq<PlannedFileV>, i: int, n: int)
    requires
        0 <= i < n,
        s[i].status == PlannedFileStatus::Update,
    ensures
        updates_before(s, i) < updates_before(s, n),
    decreases n - i,
{
    if i + 1 == n {
    } else {
        lemma_updates_before_bound_step(s, i + 1, n);
    }
}

/// Counts never decrease along prefixes.
proof fn lemma_updates_before_bound_step(s: Seq<PlannedFileV>, i: int, n: int)
    requires
        0 <= i <= n,
    ensures
        updates_before(s, i) <= updates_before(s, n),
    decreases n - i,
{
    if i < n {
        lemma_updates_before_bound_step(s, i + 1, n);
    }
}

} // verus!
