//! Per-file decisions of a copy worker: whether a file is rejected,
//! skipped or copied, which outcomes signal a progress unit, and how
//! many units and copies a run of outcomes produces.

use vstd::prelude::*;
use crate::fs_path::FsPath;
use crate::fs_path::is_prefix;
use crate::partition::WorkChunk;

verus! {

/// What a worker decides to do with one file before touching its bytes.
#[derive(Clone, Copy, PartialEq, Eq, Structural, Debug)]
pub enum FileAction {
    /// The file does not lie under the source root: log and move on.
    RejectOutsideRoot,
    /// A destination entry already exists: count the file as transferred.
    SkipExisting,
    /// Copy the file's contents to the mirrored destination path.
    CopyFile,
}

/// How one file's processing ended.
#[derive(Clone, Copy, PartialEq, Eq, Structural, Debug)]
pub enum FileOutcome {
    /// Rejected: the file was not under the source root.
    OutsideRoot,
    /// An existing destination was left untouched.
    Skipped,
    /// The contents were copied to the destination.
    Copied,
    /// The copy was attempted and failed.
    Failed,
}

/// The action taken for a file that does (not) lie under the source
/// root and whose destination does (not) already exist.
pub open spec fn spec_action(under_root: bool, dest_exists: bool) -> FileAction {
    if !under_root {
        FileAction::RejectOutsideRoot
    } else if dest_exists {
        FileAction::SkipExisting
    } else {
        FileAction::CopyFile
    }
}

/// The outcome of an action, given whether the copy (if one was
/// attempted) succeeded.
pub open spec fn spec_outcome(action: FileAction, copy_succeeded: bool) -> FileOutcome {
    match action {
        FileAction::RejectOutsideRoot => FileOutcome::OutsideRoot,
        FileAction::SkipExisting => FileOutcome::Skipped,
        FileAction::CopyFile => if copy_succeeded {
            FileOutcome::Copied
        } else {
            FileOutcome::Failed
        },
    }
}

/// The outcome of one file, from the three facts that decide it.
pub open spec fn file_outcome(under_root: bool, dest_exists: bool, copy_succeeded: bool) -> FileOutcome {
    spec_outcome(spec_action(under_root, dest_exists), copy_succeeded)
}

/// An outcome signals one progress unit exactly when the file was
/// copied or skipped; rejections and failed copies signal nothing.
pub open spec fn spec_emits(o: FileOutcome) -> bool {
    o is Skipped || o is Copied
}

/// Decide what to do with one file: reject it when it does not lie
/// under the source root, skip it when its destination already exists,
/// copy it otherwise.
pub fn plan_action(under_root: bool, dest_exists: bool) -> (a: FileAction)
    ensures
        a == spec_action(under_root, dest_exists),
{
    if !under_root {
        FileAction::RejectOutsideRoot
    } else if dest_exists {
        FileAction::SkipExisting
    } else {
        FileAction::CopyFile
    }
}

/// Resolve an action into its outcome, given whether the copy (if one
/// was attempted) succeeded.
pub fn resolve_outcome(action: FileAction, copy_succeeded: bool) -> (o: FileOutcome)
    ensures
        o == spec_outcome(action, copy_succeeded),
{
    match action {
        FileAction::RejectOutsideRoot => FileOutcome::OutsideRoot,
        FileAction::SkipExisting => FileOutcome::Skipped,
        FileAction::CopyFile => if copy_succeeded {
            FileOutcome::Copied
        } else {
            FileOutcome::Failed
        },
    }
}

/// Whether a worker sends one progress unit for this outcome.
pub fn emits_progress_unit(o: FileOutcome) -> (b: bool)
    ensures
        b == spec_emits(o),
{
    match o {
        FileOutcome::Skipped => true,
        FileOutcome::Copied => true,
        FileOutcome::OutsideRoot => false,
        FileOutcome::Failed => false,
    }
}

/// How many outcomes of `s` signal a progress unit.
pub open spec fn units_of(s: Seq<FileOutcome>) -> nat
    decreases s.len(),
{
    if s.len() == 0 {
        0
    } else {
        units_of(s.drop_last()) + if spec_emits(s.last()) {
            1nat
        } else {
            0nat
        }
    }
}

/// How many outcomes of `s` actually copied bytes.
pub open spec fn copies_of(s: Seq<FileOutcome>) -> nat
    decreases s.len(),
{
    if s.len() == 0 {
        0
    } else {
        copies_of(s.drop_last()) + if s.last() is Copied {
            1nat
        } else {
            0nat
        }
    }
}

/// The outcome of every file of a list, each decided by whether it
/// lies under the source root, whether its destination exists, and
/// whether its copy would succeed.
pub open spec fn outcome_seq(
    files: Seq<Seq<Seq<char>>>,
    source: Seq<Seq<char>>,
    dest_exists: Seq<bool>,
    copy_ok: Seq<bool>,
) -> Seq<FileOutcome> {
    Seq::new(files.len(), |i: int| file_outcome(is_prefix(source, files[i]), dest_exists[i], copy_ok[i]))
}

/// Process one chunk of the file list, outcome by outcome, against a
/// given picture of the destination: which destination paths already
/// exist and which copies would succeed. Files are handled in chunk
/// order, each resolving to exactly one outcome.
pub fn simulate_chunk(
    files: &Vec<FsPath>,
    chunk: WorkChunk,
    source: &FsPath,
    dest_exists: &Vec<bool>,
    copy_ok: &Vec<bool>,
) -> (outcomes: Vec<FileOutcome>)
    requires
        chunk.start <= chunk.end,
        chunk.end <= files@.len(),
        dest_exists@.len() == files@.len(),
        copy_ok@.len() == files@.len(),
    ensures
        outcomes@.len() == chunk.end - chunk.start,
        forall|k: int|
            0 <= k < outcomes@.len() ==> #[trigger] outcomes@[k] == file_outcome(
                is_prefix(source@, files@[chunk.start + k]@),
                dest_exists@[chunk.start + k],
                copy_ok@[chunk.start + k],
            ),
{
    let mut outcomes: Vec<FileOutcome> = Vec::new();
    let mut i: usize = chunk.start;
    while i < chunk.end
        invariant
            chunk.start <= i <= chunk.end,
            chunk.end <= files@.len(),
            dest_exists@.len() == files@.len(),
            copy_ok@.len() == files@.len(),
            outcomes@.len() == i - chunk.start,
            forall|k: int|
                0 <= k < outcomes@.len() ==> #[trigger] outcomes@[k] == file_outcome(
                    is_prefix(source@, files@[chunk.start + k]@),
                    dest_exists@[chunk.start + k],
                    copy_ok@[chunk.start + k],
                ),
        decreases chunk.end - i,
    {
        let under_root = files[i].starts_with(source);
        let action = plan_action(under_root, dest_exists[i]);
        let outcome = resolve_outcome(action, copy_ok[i]);
        outcomes.push(outcome);
        i += 1;
    }
    outcomes
}

/// How many of the given outcomes signal a progress unit: the number
/// of units the aggregator receives from a worker that produced them.
pub fn count_progress_units(outcomes: &Vec<FileOutcome>) -> (n: usize)
    ensures
        n == units_of(outcomes@),
{
    let mut n: usize = 0;
    let mut i: usize = 0;
    while i < outcomes.len()
        invariant
            i <= outcomes@.len(),
            n == units_of(outcomes@.take(i as int)),
            n <= i,
        decreases outcomes@.len() - i,
    {
        proof {
            assert(outcomes@.take(i + 1).drop_last() =~= outcomes@.take(i as int));
            assert(outcomes@.take(i + 1).last() == outcomes@[i as int]);
        }
        if emits_progress_unit(outcomes[i]) {
            n += 1;
        }
        i += 1;
    }
    proof {
        assert(outcomes@.take(outcomes@.len() as int) =~= outcomes@);
    }
    n
}

/// Every outcome that signals progress contributes exactly one unit.
proof fn lemma_units_when_all_emit(s: Seq<FileOutcome>)
    requires
        forall|i: int| 0 <= i < s.len() ==> spec_emits(#[trigger] s[i]),
    ensures
        units_of(s) == s.len(),
    decreases s.len(),
{
    if s.len() > 0 {
        lemma_units_when_all_emit(s.drop_last());
    }
}

/// No outcome copied, so the copy tally is zero.
proof fn lemma_copies_when_none_copied(s: Seq<FileOutcome>)
    requires
        forall|i: int| 0 <= i < s.len() ==> !((#[trigger] s[i]) is Copied),
    ensures
        copies_of(s) == 0,
    decreases s.len(),
{
    if s.len() > 0 {
        lemma_copies_when_none_copied(s.drop_last());
    }
}

/// Progress units add up across a split of the work: counting units
/// chunk by chunk, as the workers do, reaches the same total as
/// counting over all outcomes at once.
pub proof fn lemma_units_add_across_split(a: Seq<FileOutcome>, b: Seq<FileOutcome>)
    ensures
        units_of(a + b) == units_of(a) + units_of(b),
    decreases b.len(),
{
    if b.len() == 0 {
        assert(a + b =~= a);
    } else {
        lemma_units_add_across_split(a, b.drop_last());
        assert((a + b).drop_last() =~= a + b.drop_last());
        assert((a + b).last() == b.last());
    }
}

/// Progress completion: when every file lies under the source root and
/// no attempted copy fails, every file yields exactly one progress
/// unit, so the received count reaches exactly the file count.
pub proof fn lemma_progress_completion(
    files: Seq<Seq<Seq<char>>>,
    source: Seq<Seq<char>>,
    dest_exists: Seq<bool>,
    copy_ok: Seq<bool>,
)
    requires
        dest_exists.len() == files.len(),
        copy_ok.len() == files.len(),
        forall|i: int| 0 <= i < files.len() ==> is_prefix(source, #[trigger] files[i]),
        forall|i: int| 0 <= i < files.len() ==> #[trigger] dest_exists[i] || copy_ok[i],
    ensures
        units_of(outcome_seq(files, source, dest_exists, copy_ok)) == files.len(),
{
    let s = outcome_seq(files, source, dest_exists, copy_ok);
    assert forall|i: int| 0 <= i < s.len() implies spec_emits(#[trigger] s[i]) by {
        assert(is_prefix(source, files[i]));
        assert(dest_exists[i] || copy_ok[i]);
    }
    lemma_units_when_all_emit(s);
}

/// Idempotent re-run: when a destination entry already exists for
/// every file of the list, no bytes are copied and every file still
/// yields a progress unit.
pub proof fn lemma_rerun_copies_nothing(
    files: Seq<Seq<Seq<char>>>,
    source: Seq<Seq<char>>,
    dest_exists: Seq<bool>,
    copy_ok: Seq<bool>,
)
    requires
        dest_exists.len() == files.len(),
        copy_ok.len() == files.len(),
        forall|i: int| 0 <= i < files.len() ==> is_prefix(source, #[trigger] files[i]),
        forall|i: int| 0 <= i < files.len() ==> #[trigger] dest_exists[i],
    ensures
        copies_of(outcome_seq(files, source, dest_exists, copy_ok)) == 0,
        units_of(outcome_seq(files, source, dest_exists, copy_ok)) == files.len(),
{
    let s = outcome_seq(files, source, dest_exists, copy_ok);
    assert forall|i: int| 0 <= i < s.len() implies !((#[trigger] s[i]) is Copied) by {
        assert(dest_exists[i]);
    }
    lemma_copies_when_none_copied(s);
    lemma_progress_completion(files, source, dest_exists, copy_ok);
}

/// An existing destination is never overwritten: whatever the copy
/// primitive would have reported, a file whose destination already
/// exists resolves to a skip, never to a copy.
pub proof fn lemma_existing_destination_never_copied(under_root: bool, copy_succeeded: bool)
    ensures
        file_outcome(under_root, true, copy_succeeded) != FileOutcome::Copied,
        under_root ==> file_outcome(under_root, true, copy_succeeded) == FileOutcome::Skipped,
{
}

} // verus!
