//! Per-file conversion: the plan for one candidate, the transcoder's fixed
//! command line, and the bookkeeping after the transcoder exits.
//!
//! The transcoder itself is an external process run outside the library; it
//! is handed the planned argument list and reports back nothing but an exit
//! status. The library decides everything around that call: which output
//! path the transcoder writes to, in which order the arguments stand, and —
//! the one rule the whole program exists for — that the input file is
//! deleted exactly when the transcoder exited successfully.

use vstd::prelude::*;

use crate::path_model::{
    copy_bytes, derive_output_path, is_ts_path, lemma_output_path_differs, normalize_separators,
    normalized, output_path_of,
};

verus! {

/// The plan for one candidate file: the raw input path (used for the
/// delete-on-success step), and the separator-normalized input and output
/// paths handed to the transcoder.
pub struct ConvertPlan {
    pub input: Vec<u8>,
    pub arg_input: Vec<u8>,
    pub arg_output: Vec<u8>,
}

/// A well-formed plan: both command-line paths are the separator-normalized
/// forms of the input path and of its derived output path.
pub open spec fn plan_ok(plan: ConvertPlan) -> bool {
    plan.arg_input@ == normalized(plan.input@) && plan.arg_output@ == normalized(
        output_path_of(plan.input@),
    )
}

/// Builds the plan for one input path: derive the output path by replacing
/// the extension, normalize both paths for the transcoder's command line,
/// and keep the raw input path for the cleanup step.
pub fn plan_for(input: &Vec<u8>) -> (r: ConvertPlan)
    ensures
        r.input@ == input@,
        plan_ok(r),
{
    let output = derive_output_path(input);
    let arg_input = normalize_separators(input);
    let arg_output = normalize_separators(&output);
    ConvertPlan { input: copy_bytes(input), arg_input, arg_output }
}

/// One token of the transcoder's command line. The flag tokens are a fixed
/// policy blob (hardware-accelerated decode, stream copy); their textual
/// rendering belongs to whoever launches the process.
pub enum Arg {
    /// The hardware-acceleration flag.
    HwAccel,
    /// The hardware-acceleration backend name.
    Cuda,
    /// The flag introducing the input path.
    InputFlag,
    /// The codec selection flag.
    Codec,
    /// The codec policy: copy the streams without re-encoding.
    CopyStreams,
    /// A path argument.
    PathArg(Vec<u8>),
}

/// The transcoder's fixed argument list: acceleration hints, then the input
/// path, then the codec policy, then the output path.
pub fn transcode_argv(plan: &ConvertPlan) -> (r: Vec<Arg>)
    ensures
        r@.len() == 7,
        r@[0] is HwAccel,
        r@[1] is Cuda,
        r@[2] is InputFlag,
        (r@[3] matches Arg::PathArg(p) && p@ == plan.arg_input@),
        r@[4] is Codec,
        r@[5] is CopyStreams,
        (r@[6] matches Arg::PathArg(p) && p@ == plan.arg_output@),
{
    let mut v: Vec<Arg> = Vec::new();
    v.push(Arg::HwAccel);
    v.push(Arg::Cuda);
    v.push(Arg::InputFlag);
    v.push(Arg::PathArg(copy_bytes(&plan.arg_input)));
    v.push(Arg::Codec);
    v.push(Arg::CopyStreams);
    v.push(Arg::PathArg(copy_bytes(&plan.arg_output)));
    v
}

/// The tri-state outcome of one walked entry; a skipped entry never reaches
/// the converter, so a conversion attempt ends converted or failed.
#[derive(PartialEq, Eq, Structural, Clone, Copy, Debug)]
pub enum FileOutcome {
    Converted,
    Failed,
}

/// What to do after the transcoder exited: the outcome to report, and the
/// path to delete, if any.
pub struct StepResult {
    pub outcome: FileOutcome,
    pub delete: Option<Vec<u8>>,
}

/// The bookkeeping after the transcoder exits: on success the conversion is
/// reported as converted and the raw input path — and nothing else — is
/// deleted; on a non-success exit status nothing at all is deleted and the
/// attempt is reported as failed.
pub fn after_transcode(plan: &ConvertPlan, exit_success: bool) -> (r: StepResult)
    ensures
        exit_success ==> r.outcome is Converted && (r.delete matches Some(d) && d@
            == plan.input@),
        !exit_success ==> r.outcome is Failed && r.delete is None,
{
    if exit_success {
        StepResult { outcome: FileOutcome::Converted, delete: Some(copy_bytes(&plan.input)) }
    } else {
        StepResult { outcome: FileOutcome::Failed, delete: None }
    }
}

/// The abstract effect of one conversion attempt on the set of paths
/// present on disk: on success the transcoder has written the derived
/// output path and the input path is deleted; on failure nothing is deleted
/// and nothing is taken to appear.
pub open spec fn files_after_step(files: Set<Seq<u8>>, input: Seq<u8>, exit_success: bool) -> Set<
    Seq<u8>,
> {
    if exit_success {
        files.insert(output_path_of(input)).remove(input)
    } else {
        files
    }
}

/// The effect of a whole run: the conversion attempts applied one after the
/// other, in walk order, each with its own exit status.
pub open spec fn files_after_run(
    files: Set<Seq<u8>>,
    inputs: Seq<Seq<u8>>,
    statuses: Seq<bool>,
) -> Set<Seq<u8>>
    recommends
        inputs.len() == statuses.len(),
    decreases inputs.len(),
{
    if inputs.len() == 0 {
        files
    } else {
        files_after_step(
            files_after_run(files, inputs.drop_last(), statuses.drop_last()),
            inputs.last(),
            statuses.last(),
        )
    }
}

/// After a successful conversion of a candidate the input path is gone and
/// a file stands at the derived output path.
pub proof fn lemma_success_replaces_input(files: Set<Seq<u8>>, input: Seq<u8>)
    requires
        is_ts_path(input),
    ensures
        !files_after_step(files, input, true).contains(input),
        files_after_step(files, input, true).contains(output_path_of(input)),
{
    lemma_output_path_differs(input);
}

/// A failed conversion deletes nothing: the paths on disk are exactly those
/// present before the attempt.
pub proof fn lemma_failure_preserves_files(files: Set<Seq<u8>>, input: Seq<u8>)
    ensures
        files_after_step(files, input, false) == files,
{
}

/// No conversion ever touches a bystander: a path that is neither one of
/// the planned inputs nor one of their derived output paths is present
/// after the whole run exactly when it was present before it.
pub proof fn lemma_run_spares_other_paths(
    files: Set<Seq<u8>>,
    inputs: Seq<Seq<u8>>,
    statuses: Seq<bool>,
    p: Seq<u8>,
)
    requires
        forall|i: int|
            0 <= i < inputs.len() ==> (#[trigger] inputs[i]) != p && output_path_of(inputs[i])
                != p,
    ensures
        files_after_run(files, inputs, statuses).contains(p) == files.contains(p),
    decreases inputs.len(),
{
    if inputs.len() > 0 {
        assert(forall|i: int|
            0 <= i < inputs.len() - 1 ==> inputs.drop_last()[i] == inputs[i]);
        lemma_run_spares_other_paths(files, inputs.drop_last(), statuses.drop_last(), p);
        assert(inputs.last() == inputs[inputs.len() - 1]);
    }
}

/// A run over a walk that yields no candidate performs no write and no
/// deletion: the disk is untouched.
pub proof fn lemma_no_candidates_leave_disk_untouched(
    files: Set<Seq<u8>>,
    entries: Seq<crate::walker::WalkEntry>,
    recursive: bool,
    statuses: Seq<bool>,
)
    requires
        forall|i: int|
            0 <= i < entries.len() ==> !crate::walker::is_candidate(
                #[trigger] entries[i],
                recursive,
            ),
    ensures
        files_after_run(
            files,
            crate::walker::candidate_paths(entries, recursive),
            statuses,
        ) == files,
{
    crate::walker::lemma_no_candidates_no_work(entries, recursive);
    assert(crate::walker::candidate_paths(entries, recursive).len() == 0);
}

} // verus!
