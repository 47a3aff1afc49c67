use mirror_copy::fs_path::FsPath;
use mirror_copy::partition::WorkChunk;
use mirror_copy::progress::ProgressAggregator;
use mirror_copy::replicate::mirror_dirs;
use mirror_copy::scan::EntryKind;
use mirror_copy::scan::ScanEntry;
use mirror_copy::session::ConfigError;
use mirror_copy::session::plan_session;
use mirror_copy::session::split_elapsed_millis;
use mirror_copy::session::validate_worker_count;
use mirror_copy::worker::FileOutcome;
use mirror_copy::worker::count_progress_units;
use mirror_copy::worker::simulate_chunk;

fn p(parts: &[&str]) -> FsPath {
    FsPath { parts: parts.iter().map(|s| s.to_string()).collect() }
}

fn scan_of_sample_tree() -> Vec<ScanEntry> {
    vec![
        ScanEntry { path: p(&["src"]), kind: EntryKind::Directory },
        ScanEntry { path: p(&["src", "a.txt"]), kind: EntryKind::File },
        ScanEntry { path: p(&["src", "sub"]), kind: EntryKind::Directory },
        ScanEntry { path: p(&["src", "sub", "b.txt"]), kind: EntryKind::File },
        ScanEntry { path: p(&["src", "sub", "c.txt"]), kind: EntryKind::File },
    ]
}

#[test]
fn mirror_dirs_substitutes_roots() {
    let dirs = vec![p(&["src"]), p(&["src", "sub"])];
    let mirrored = mirror_dirs(&dirs, &p(&["src"]), &p(&["dst"]));
    assert_eq!(mirrored.len(), 2);
    assert_eq!(mirrored[0].parts, vec!["dst".to_string()]);
    assert_eq!(mirrored[1].parts, vec!["dst".to_string(), "sub".to_string()]);
}

#[test]
fn mirror_dirs_twice_yields_same_plan() {
    let dirs = vec![p(&["src"]), p(&["src", "sub"])];
    let first = mirror_dirs(&dirs, &p(&["src"]), &p(&["dst"]));
    let second = mirror_dirs(&dirs, &p(&["src"]), &p(&["dst"]));
    let first_parts: Vec<_> = first.iter().map(|d| d.parts.clone()).collect();
    let second_parts: Vec<_> = second.iter().map(|d| d.parts.clone()).collect();
    assert_eq!(first_parts, second_parts);
}

#[test]
fn two_workers_copy_three_files() {
    let entries = scan_of_sample_tree();
    let source = p(&["src"]);
    let target = p(&["dst"]);
    let plan = plan_session(&entries, &source, &target, 2).unwrap();

    assert_eq!(plan.total_files, 3);
    assert_eq!(plan.dirs_to_create.len(), 2);
    assert_eq!(plan.dirs_to_create[0].parts, vec!["dst".to_string()]);
    assert_eq!(
        plan.dirs_to_create[1].parts,
        vec!["dst".to_string(), "sub".to_string()],
    );
    assert_eq!(plan.files.len(), 3);
    assert_eq!(plan.chunks.len(), 2);
    assert_eq!(plan.chunks[0], WorkChunk { start: 0, end: 2 });
    assert_eq!(plan.chunks[1], WorkChunk { start: 2, end: 3 });

    // Nothing exists at the destination and every copy succeeds.
    let dest_exists = vec![false, false, false];
    let copy_ok = vec![true, true, true];
    let mut agg = ProgressAggregator::new(plan.total_files as u64);
    for chunk in &plan.chunks {
        let outcomes = simulate_chunk(&plan.files, *chunk, &source, &dest_exists, &copy_ok);
        assert!(outcomes.iter().all(|o| *o == FileOutcome::Copied));
        for _ in 0..count_progress_units(&outcomes) {
            assert!(!agg.is_complete());
            agg.record_unit();
        }
    }
    assert!(agg.is_complete());
    assert_eq!(agg.received, 3);
    assert_eq!(agg.total, 3);
}

#[test]
fn existing_destination_file_is_skipped_but_counted() {
    let entries = scan_of_sample_tree();
    let source = p(&["src"]);
    let target = p(&["dst"]);
    let plan = plan_session(&entries, &source, &target, 2).unwrap();

    // A destination entry already exists for a.txt with other content:
    // it must be skipped, never overwritten, and still count.
    let dest_exists = vec![true, false, false];
    let copy_ok = vec![true, true, true];
    let mut units = 0;
    let mut all_outcomes = Vec::new();
    for chunk in &plan.chunks {
        let outcomes = simulate_chunk(&plan.files, *chunk, &source, &dest_exists, &copy_ok);
        units += count_progress_units(&outcomes);
        all_outcomes.extend(outcomes);
    }
    assert_eq!(all_outcomes[0], FileOutcome::Skipped);
    assert_eq!(all_outcomes[1], FileOutcome::Copied);
    assert_eq!(all_outcomes[2], FileOutcome::Copied);
    assert_eq!(units, 3);
}

#[test]
fn zero_workers_is_a_fatal_configuration_error() {
    assert_eq!(validate_worker_count(0), Err(ConfigError::ZeroWorkers));
    assert!(validate_worker_count(1).is_ok());

    let entries = scan_of_sample_tree();
    let r = plan_session(&entries, &p(&["src"]), &p(&["dst"]), 0);
    assert_eq!(r.err(), Some(ConfigError::ZeroWorkers));
}

#[test]
fn elapsed_time_breakdown() {
    assert_eq!(split_elapsed_millis(0), (0, 0, 0, 0));
    assert_eq!(split_elapsed_millis(59_999), (0, 0, 59, 999));
    assert_eq!(split_elapsed_millis(3_725_004), (1, 2, 5, 4));
    assert_eq!(split_elapsed_millis(86_400_000), (24, 0, 0, 0));
}

#[test]
fn aggregator_counts_to_total() {
    let mut agg = ProgressAggregator::new(2);
    assert!(!agg.is_complete());
    agg.record_unit();
    assert!(!agg.is_complete());
    agg.record_unit();
    assert!(agg.is_complete());
    assert_eq!((agg.received, agg.total), (2, 2));
}

#[test]
fn empty_source_completes_immediately() {
    let entries = vec![ScanEntry { path: p(&["src"]), kind: EntryKind::Directory }];
    let plan = plan_session(&entries, &p(&["src"]), &p(&["dst"]), 3).unwrap();
    assert_eq!(plan.total_files, 0);
    assert!(plan.chunks.is_empty());
    let agg = ProgressAggregator::new(plan.total_files as u64);
    assert!(agg.is_complete());
}
