//! The session controller's decisions: configuration validation, the
//! full plan of a transfer (total, directories to create, file list,
//! chunks), and the elapsed-time breakdown of the final report.

use vstd::prelude::*;
use vstd::arithmetic::div_mod::lemma_fundamental_div_mod;
use crate::fs_path::FsPath;
use crate::fs_path::is_prefix;
use crate::fs_path::mirror_view;
use crate::fs_path::paths_view;
use crate::partition::WorkChunk;
use crate::partition::chunks_cover;
use crate::partition::partition;
use crate::replicate::mirror_dirs;
use crate::scan::ScanEntry;
use crate::scan::count_files_in_dir;
use crate::scan::dir_paths;
use crate::scan::file_paths;
use crate::scan::get_directories;
use crate::scan::get_files;
use crate::scan::spec_file_count;

verus! {

/// A configuration the run must reject before any work begins.
#[derive(Clone, Copy, PartialEq, Eq, Structural, Debug)]
pub enum ConfigError {
    /// A worker count of zero: no pool could make progress.
    ZeroWorkers,
}

/// A run is configured correctly only with at least one worker.
pub fn validate_worker_count(workers: u32) -> (r: Result<(), ConfigError>)
    ensures
        r is Ok <==> workers >= 1,
        r matches Err(e) ==> e == ConfigError::ZeroWorkers,
{
    if workers == 0 {
        Err(ConfigError::ZeroWorkers)
    } else {
        Ok(())
    }
}

/// Everything decided before the workers start: the progress target,
/// the destination directories to create, the flat file list, and its
/// split into chunks.
pub struct SessionPlan {
    pub total_files: usize,
    pub dirs_to_create: Vec<FsPath>,
    pub files: Vec<FsPath>,
    pub chunks: Vec<WorkChunk>,
}

/// `plan` is the plan that a scan yielding `entries` demands, for the
/// given roots and worker count.
pub open spec fn plan_matches(
    plan: SessionPlan,
    entries: Seq<ScanEntry>,
    source: Seq<Seq<char>>,
    target: Seq<Seq<char>>,
    workers: int,
) -> bool {
    &&& plan.total_files == spec_file_count(entries)
    &&& paths_view(plan.dirs_to_create@) == dir_paths(entries).map_values(
        |d: Seq<Seq<char>>| mirror_view(source, target, d),
    )
    &&& paths_view(plan.files@) == file_paths(entries)
    &&& plan.files@.len() == plan.total_files
    &&& forall|i: int|
        0 <= i < plan.files@.len() ==> is_prefix(source, (#[trigger] plan.files@[i])@)
    &&& chunks_cover(plan.chunks@, plan.total_files as int, workers)
    &&& plan.chunks@.len() <= workers
}

/// Turn a scan of the source tree into the full plan of the run, or
/// reject the configuration: a worker count of zero is refused before
/// any other work.
pub fn plan_session(
    entries: &Vec<ScanEntry>,
    source: &FsPath,
    target: &FsPath,
    workers: u32,
) -> (r: Result<SessionPlan, ConfigError>)
    requires
        forall|i: int|
            0 <= i < entries@.len() ==> is_prefix(source@, (#[trigger] entries@[i]).path@),
    ensures
        r is Ok <==> workers >= 1,
        r matches Ok(plan) ==> plan_matches(plan, entries@, source@, target@, workers as int),
        r matches Err(e) ==> e == ConfigError::ZeroWorkers,
{
    match validate_worker_count(workers) {
        Err(e) => Err(e),
        Ok(()) => {
            let total_files = count_files_in_dir(entries);
            let dirs = get_directories(entries);
            proof {
                assert forall|i: int| 0 <= i < dirs@.len() implies is_prefix(
                    source@,
                    (#[trigger] dirs@[i])@,
                ) by {
                    lemma_dir_paths_are_entry_paths(entries@, source@);
                    assert(paths_view(dirs@)[i] == dirs@[i]@);
                }
            }
            let dirs_to_create = mirror_dirs(&dirs, source, target);
            let files = get_files(entries);
            proof {
                assert(paths_view(files@).len() == files@.len());
                lemma_file_paths_are_entry_paths(entries@, source@);
                assert forall|i: int| 0 <= i < files@.len() implies is_prefix(
                    source@,
                    (#[trigger] files@[i])@,
                ) by {
                    assert(paths_view(files@)[i] == files@[i]@);
                }
            }
            let chunks = partition(files.len(), workers as usize);
            Ok(SessionPlan { total_files, dirs_to_create, files, chunks })
        },
    }
}

/// Every path that `dir_paths` draws from entries under the source
/// root lies under the source root itself.
proof fn lemma_dir_paths_are_entry_paths(entries: Seq<ScanEntry>, source: Seq<Seq<char>>)
    requires
        forall|i: int|
            0 <= i < entries.len() ==> is_prefix(source, (#[trigger] entries[i]).path@),
    ensures
        forall|j: int|
            0 <= j < dir_paths(entries).len() ==> is_prefix(
                source,
                #[trigger] dir_paths(entries)[j],
            ),
    decreases entries.len(),
{
    if entries.len() > 0 {
        let prefix = entries.drop_last();
        assert forall|i: int| 0 <= i < prefix.len() implies is_prefix(
            source,
            (#[trigger] prefix[i]).path@,
        ) by {
            assert(prefix[i] == entries[i]);
        }
        lemma_dir_paths_are_entry_paths(prefix, source);
        let rest = dir_paths(prefix);
        assert(is_prefix(source, entries[entries.len() - 1].path@));
        assert forall|j: int| 0 <= j < dir_paths(entries).len() implies is_prefix(
            source,
            #[trigger] dir_paths(entries)[j],
        ) by {
            if entries.last().kind is Directory {
                assert(dir_paths(entries) == rest.push(entries.last().path@));
                if j < rest.len() {
                    assert(dir_paths(entries)[j] == rest[j]);
                } else {
                    assert(dir_paths(entries)[j] == entries.last().path@);
                }
            } else {
                assert(dir_paths(entries) == rest);
            }
        }
    }
}

/// Every path that `file_paths` draws from entries under the source
/// root lies under the source root itself.
proof fn lemma_file_paths_are_entry_paths(entries: Seq<ScanEntry>, source: Seq<Seq<char>>)
    requires
        forall|i: int|
            0 <= i < entries.len() ==> is_prefix(source, (#[trigger] entries[i]).path@),
    ensures
        forall|j: int|
            0 <= j < file_paths(entries).len() ==> is_prefix(
                source,
                #[trigger] file_paths(entries)[j],
            ),
    decreases entries.len(),
{
    if entries.len() > 0 {
        let prefix = entries.drop_last();
        assert forall|i: int| 0 <= i < prefix.len() implies is_prefix(
            source,
            (#[trigger] prefix[i]).path@,
        ) by {
            assert(prefix[i] == entries[i]);
        }
        lemma_file_paths_are_entry_paths(prefix, source);
        let rest = file_paths(prefix);
        assert(is_prefix(source, entries[entries.len() - 1].path@));
        assert forall|j: int| 0 <= j < file_paths(entries).len() implies is_prefix(
            source,
            #[trigger] file_paths(entries)[j],
        ) by {
            if entries.last().kind is File {
                assert(file_paths(entries) == rest.push(entries.last().path@));
                if j < rest.len() {
                    assert(file_paths(entries)[j] == rest[j]);
                } else {
                    assert(file_paths(entries)[j] == entries.last().path@);
                }
            } else {
                assert(file_paths(entries) == rest);
            }
        }
    }
}

/// The elapsed-time report's breakdown of a duration in milliseconds
/// into hours, minutes, seconds and milliseconds.
pub fn split_elapsed_millis(total_ms: u64) -> (r: (u64, u64, u64, u64))
    ensures
        r.0 * 3600000 + r.1 * 60000 + r.2 * 1000 + r.3 == total_ms,
        r.1 < 60,
        r.2 < 60,
        r.3 < 1000,
{
    let total_secs = total_ms / 1000;
    let millis = total_ms % 1000;
    let hours = total_secs / 3600;
    let sub_hour = total_secs % 3600;
    let minutes = sub_hour / 60;
    let seconds = sub_hour % 60;
    proof {
        lemma_fundamental_div_mod(total_ms as int, 1000);
        lemma_fundamental_div_mod(total_secs as int, 3600);
        lemma_fundamental_div_mod(sub_hour as int, 60);
    }
    (hours, minutes, seconds, millis)
}

} // verus!
