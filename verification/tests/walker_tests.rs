use picture_namer::driver::outcome_message;
use picture_namer::errors::Error;
use picture_namer::filetypes::FiletypeSet;
use picture_namer::renamer::FileEntry;
use picture_namer::walker::{plan_walk, DirListing};

fn file(name: &str, mtime: u64) -> FileEntry {
    FileEntry { name: name.to_string(), mtime, is_file: true }
}

fn listing(path: &str, name: &str, entries: Vec<FileEntry>) -> DirListing {
    DirListing { path: path.to_string(), name: name.to_string(), entries }
}

#[test]
fn empty_walk_plans_nothing_and_is_no_error() {
    let set = FiletypeSet::parse_default(".jpg");
    let listings: Vec<DirListing> = Vec::new();
    let walk = plan_walk(&listings, &set);
    assert_eq!(walk.passes.len(), 0);
    assert_eq!(walk.planned, 0);
    assert!(walk.error.is_none());
}

#[test]
fn walk_accumulates_counts_over_directories() {
    let set = FiletypeSet::parse_default(".jpg");
    let listings = vec![
        listing("/root/Trip", "Trip", vec![file("a.jpg", 1), file("b.jpg", 2)]),
        listing("/root/Trip/Sub", "Sub", vec![file("c.jpg", 1)]),
    ];
    let walk = plan_walk(&listings, &set);
    assert!(walk.error.is_none());
    assert_eq!(walk.passes.len(), 2);
    assert_eq!(walk.planned, 3);
    assert_eq!(walk.passes[0].dir_path, "/root/Trip");
    assert_eq!(walk.passes[0].plan.ops[0].new_name, "Trip_00000_a.jpg");
    assert_eq!(walk.passes[1].dir_path, "/root/Trip/Sub");
    assert_eq!(walk.passes[1].plan.ops[0].new_name, "Sub_00000_c.jpg");
}

#[test]
fn first_failing_directory_stops_the_walk() {
    let set = FiletypeSet::parse_default(".jpg");
    let listings = vec![
        listing("/r/A", "A", vec![file("a.jpg", 1)]),
        listing("/r/B", "B", vec![file("README", 1)]),
        listing("/r/C", "C", vec![file("c.jpg", 1)]),
    ];
    let walk = plan_walk(&listings, &set);
    assert_eq!(walk.passes.len(), 1);
    assert_eq!(walk.planned, 1);
    assert_eq!(walk.error, Some(Error::Metadata("README".to_string())));
}

#[test]
fn no_directories_is_reported_as_informational_success() {
    let (ok, msg) = outcome_message(0, 0, &None);
    assert!(ok);
    assert_eq!(msg, "no directories found");
}

#[test]
fn successful_run_reports_its_count() {
    let (ok, msg) = outcome_message(3, 17, &None);
    assert!(ok);
    assert_eq!(msg, "renamed 17 files");
}

#[test]
fn failed_run_reports_the_error_message() {
    let err = Some(Error::Rename("a.jpg".to_string()));
    let (ok, msg) = outcome_message(2, 1, &err);
    assert!(!ok);
    assert_eq!(msg, "file could not be renamed: a.jpg");
}
