//! The export pipeline driven as the I/O loop drives it, with the copy
//! outcomes played in by hand.

use image_favourites::export::{begin_export, copy_failure, replay_export, Export, ExportError};
use image_favourites::store::FavouritesStore;

#[test]
fn exporting_two_favourites_yields_names_and_progress_in_order() {
    let mut store = FavouritesStore::new();
    store.add_favourite("/pics/a.png".to_string());
    store.add_favourite("/pics/b.jpg".to_string());

    let mut run = begin_export(&store, "/out".to_string());
    let mut progress_seen: Vec<usize> = Vec::new();

    while !run.finished() {
        let _job = run.next_job().expect("both paths have base names");
        // In the application the file at the job's source is copied to
        // its target here; this test plays a copy that succeeds.
        progress_seen.push(run.record_copied());
    }
    let names = run.into_names();

    assert_eq!(names, vec!["a.png".to_string(), "b.jpg".to_string()]);
    assert_eq!(progress_seen, vec![1, 2]);
}

#[test]
fn jobs_carry_flat_destination_targets() {
    let files = vec!["/pics/a.png".to_string(), "/pics/deep/b.jpg".to_string()];
    let mut run = Export::new("/out".to_string(), files);

    let first = run.next_job().unwrap();
    assert_eq!(first.source, "/pics/a.png".to_string());
    assert_eq!(first.name, "a.png".to_string());
    assert_eq!(first.target, "/out/a.png".to_string());
    run.record_copied();

    let second = run.next_job().unwrap();
    assert_eq!(second.source, "/pics/deep/b.jpg".to_string());
    assert_eq!(second.name, "b.jpg".to_string());
    assert_eq!(second.target, "/out/b.jpg".to_string());
}

#[test]
fn a_path_without_a_base_name_aborts_the_export() {
    let files = vec!["/pics/ok.png".to_string(), "/broken/..".to_string()];
    let mut run = Export::new("/out".to_string(), files);

    let first = run.next_job().unwrap();
    assert_eq!(first.name, "ok.png".to_string());
    assert_eq!(run.record_copied(), 1);

    let err = run.next_job().unwrap_err();
    assert_eq!(err, ExportError::InvalidPath { path: "/broken/..".to_string() });
    assert!(!run.finished());
}

#[test]
fn a_copy_failure_stops_the_run_after_the_earlier_files() {
    let files = vec![
        "/pics/a.png".to_string(),
        "/pics/gone.jpg".to_string(),
        "/pics/c.gif".to_string(),
    ];
    let mut run = Export::new("/out".to_string(), files);

    let first = run.next_job().unwrap();
    assert_eq!(first.target, "/out/a.png".to_string());
    assert_eq!(run.record_copied(), 1);

    // The second copy fails at the I/O layer (say the source was deleted
    // between the scan and the export): the run stops, one file copied.
    let second = run.next_job().unwrap();
    let err = copy_failure(second);
    assert_eq!(err, ExportError::CopyFailed { path: "/pics/gone.jpg".to_string() });
    assert!(!run.finished());
}

#[test]
fn an_export_of_nothing_finishes_at_once_with_no_names() {
    let run = Export::new("/out".to_string(), Vec::new());
    assert!(run.finished());
    assert!(run.into_names().is_empty());
}

#[test]
fn duplicate_base_names_both_target_the_same_file() {
    let files = vec!["/one/same.png".to_string(), "/two/same.png".to_string()];
    let mut run = Export::new("/out".to_string(), files);

    let first = run.next_job().unwrap();
    assert_eq!(first.target, "/out/same.png".to_string());
    run.record_copied();

    // The second favourite has the same base name: it targets the same
    // destination path and silently overwrites the first.
    let second = run.next_job().unwrap();
    assert_eq!(second.target, "/out/same.png".to_string());
    run.record_copied();

    assert_eq!(run.into_names(), vec!["same.png".to_string(), "same.png".to_string()]);
}

#[test]
fn export_resolves_the_distinct_favourite_set() {
    let mut store = FavouritesStore::new();
    store.add_favourite("/pics/a.png".to_string());
    store.add_favourite("/pics/a.png".to_string());
    let mut run = begin_export(&store, "/out".to_string());

    let job = run.next_job().unwrap();
    assert_eq!(job.source, "/pics/a.png".to_string());
    assert_eq!(run.record_copied(), 1);
    assert!(run.finished());
    assert_eq!(run.into_names(), vec!["a.png".to_string()]);
}

#[test]
fn replaying_a_clean_run_logs_every_count_in_order() {
    let files = vec![
        "/pics/a.png".to_string(),
        "/pics/b.jpg".to_string(),
        "/pics/c.gif".to_string(),
    ];
    let outcomes = vec![true, true, true];
    let mut log: Vec<usize> = Vec::new();
    let names = replay_export("/out".to_string(), files, &outcomes, &mut log).unwrap();
    assert_eq!(names, vec!["a.png".to_string(), "b.jpg".to_string(), "c.gif".to_string()]);
    assert_eq!(log, vec![1, 2, 3]);
}

#[test]
fn replaying_a_failed_copy_keeps_only_the_earlier_counts() {
    let files = vec![
        "/pics/a.png".to_string(),
        "/pics/b.jpg".to_string(),
        "/pics/c.gif".to_string(),
    ];
    let outcomes = vec![true, false, true];
    let mut log: Vec<usize> = Vec::new();
    let err = replay_export("/out".to_string(), files, &outcomes, &mut log).unwrap_err();
    assert_eq!(err, ExportError::CopyFailed { path: "/pics/b.jpg".to_string() });
    assert_eq!(log, vec![1]);
}

#[test]
fn replaying_an_invalid_path_stops_before_its_copy() {
    let files = vec!["/pics/a.png".to_string(), "/x/..".to_string()];
    let outcomes = vec![true, true];
    let mut log: Vec<usize> = Vec::new();
    let err = replay_export("/out".to_string(), files, &outcomes, &mut log).unwrap_err();
    assert_eq!(err, ExportError::InvalidPath { path: "/x/..".to_string() });
    assert_eq!(log, vec![1]);
}
