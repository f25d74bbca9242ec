//! The batch driver's decisions: what to do with each candidate archive at
//! the top of the loop, and which actions one item's computed output paths
//! call for. The surrounding application performs the decided work — reading
//! archives, printing, creating directories, extracting — and owns the loop.

use vstd::prelude::*;
use crate::progress::{spec_recorded, is_recorded};
use crate::strtools::{spec_normalize, normalize_separators};

verus! {

/// The driver's verdict on one candidate archive.
#[derive(Clone, Copy, Debug, PartialEq, Eq, Structural)]
pub enum ArchiveDecision {
    /// A stop was requested: leave the loop; the archive is not touched.
    Interrupted,
    /// The progress store already records the archive: report and move on.
    Skip,
    /// Work on the archive.
    Process,
}

/// The decision taken at the top of the per-archive loop: an interruption
/// request wins; otherwise an archive whose normalized path the progress
/// store records is skipped; everything else is processed.
pub open spec fn spec_decide(stop: bool, recorded: Seq<Seq<char>>, raw: Seq<char>) -> ArchiveDecision {
    if stop {
        ArchiveDecision::Interrupted
    } else if spec_recorded(recorded, spec_normalize(raw)) {
        ArchiveDecision::Skip
    } else {
        ArchiveDecision::Process
    }
}

/// Decides one candidate archive, returning the decision together with the
/// archive's normalized path (the form both the progress store and the
/// `bundle_path` placeholder use).
pub fn decide_archive(stop: bool, recorded: &Vec<String>, raw: &str) -> (r: (
    ArchiveDecision,
    String,
))
    ensures
        r.0 == spec_decide(stop, recorded.deep_view(), raw@),
        r.1@ == spec_normalize(raw@),
{
    let normalized = normalize_separators(raw);
    if stop {
        (ArchiveDecision::Interrupted, normalized)
    } else if is_recorded(recorded, &normalized) {
        (ArchiveDecision::Skip, normalized)
    } else {
        (ArchiveDecision::Process, normalized)
    }
}

/// What the driver plans for each computed output path: the path is always
/// reported, and extracted exactly when the run is not dry.
pub open spec fn spec_plan(dry: bool, paths: Seq<Seq<char>>) -> Seq<(Seq<char>, bool)> {
    paths.map_values(|p: Seq<char>| (p, !dry))
}

/// One planned action for one computed output path.
pub struct PlannedOutput {
    /// The output path, always reported.
    pub path: String,
    /// Whether the item is actually extracted to the path: exactly when the
    /// run is not dry.
    pub extract: bool,
}

/// Plans the actions for one item's computed output paths.
pub fn plan_item_actions(dry: bool, paths: &Vec<String>) -> (plan: Vec<PlannedOutput>)
    ensures
        plan@.map_values(|po: PlannedOutput| (po.path@, po.extract)) == spec_plan(
            dry,
            paths.deep_view(),
        ),
        plan@.len() == paths@.len(),
        forall|i: int| 0 <= i < plan@.len() ==> plan@[i].path@ == paths@[i]@ && plan@[i].extract
            == !dry,
{
    let n = paths.len();
    let mut plan: Vec<PlannedOutput> = Vec::new();
    let mut i: usize = 0;
    while i < n
        invariant
            0 <= i <= n,
            n == paths@.len(),
            plan@.len() == i,
            forall|k: int| 0 <= k < i ==> plan@[k].path@ == paths@[k]@ && plan@[k].extract == !dry,
        decreases n - i,
    {
        let p = paths[i].clone();
        plan.push(PlannedOutput { path: p, extract: !dry });
        i = i + 1;
    }
    proof {
        assert(plan@.map_values(|po: PlannedOutput| (po.path@, po.extract)) =~~= spec_plan(
            dry,
            paths.deep_view(),
        ));
    }
    plan
}

/// Law: a dry run mutates nothing — every planned action merely reports its
/// path; none extracts.
pub proof fn lemma_dry_run_non_mutation(paths: Seq<Seq<char>>, i: int)
    requires
        0 <= i < paths.len(),
    ensures
        spec_plan(true, paths)[i].0 == paths[i],
        !spec_plan(true, paths)[i].1,
{
}

/// Law: the incremental run is idempotent. When the progress store records
/// the normalized path of every input archive — as it does after a completed
/// run over those inputs — a second run decides to skip each of them, so no
/// archive is processed again.
pub proof fn lemma_incremental_idempotent(recorded: Seq<Seq<char>>, paths: Seq<Seq<char>>, i: int)
    requires
        0 <= i < paths.len(),
        forall|j: int| 0 <= j < paths.len() ==> recorded.contains(spec_normalize(paths[j])),
    ensures
        spec_decide(false, recorded, paths[i]) == ArchiveDecision::Skip,
{
    assert(recorded.contains(spec_normalize(paths[i])));
    let k = choose|k: int| 0 <= k < recorded.len() && recorded[k] == spec_normalize(paths[i]);
    assert(spec_recorded(recorded, spec_normalize(paths[i])));
}

/// Law: recording an archive makes the very next decision on it a skip — no
/// completed archive is ever redone within or after a run.
pub proof fn lemma_record_then_skip(recorded: Seq<Seq<char>>, raw: Seq<char>)
    ensures
        spec_decide(false, recorded.push(spec_normalize(raw)), raw) == ArchiveDecision::Skip,
{
    let extended = recorded.push(spec_normalize(raw));
    assert(extended[recorded.len() as int] == spec_normalize(raw));
    assert(spec_recorded(extended, spec_normalize(raw)));
}

} // verus!
