use picture_namer::errors::Error;
use picture_namer::filetypes::FiletypeSet;
use picture_namer::renamer::{plan_pass, FileEntry};

fn file(name: &str, mtime: u64) -> FileEntry {
    FileEntry { name: name.to_string(), mtime, is_file: true }
}

fn subdir(name: &str) -> FileEntry {
    FileEntry { name: name.to_string(), mtime: 0, is_file: false }
}

#[test]
fn scenario_two_photos_and_a_text_file() {
    let set = FiletypeSet::parse_default(".jpg");
    let entries = vec![file("a.jpg", 1), file("b.jpg", 2), file("c.txt", 3)];
    let plan = plan_pass("Trip", &entries, &set).unwrap();
    assert_eq!(plan.already_count, 0);
    assert_eq!(plan.total, 2);
    assert_eq!(plan.width, 5);
    assert_eq!(plan.ops.len(), 2);
    assert_eq!(plan.ops[0].old_name, "a.jpg");
    assert_eq!(plan.ops[0].new_name, "Trip_00000_a.jpg");
    assert_eq!(plan.ops[1].old_name, "b.jpg");
    assert_eq!(plan.ops[1].new_name, "Trip_00001_b.jpg");
    assert!(plan.ops.iter().all(|op| op.old_name != "c.txt"));
}

#[test]
fn scenario_already_labelled_file_continues_the_sequence() {
    let set = FiletypeSet::parse_default(".jpg");
    let entries = vec![file("Trip_00000_a.jpg", 1), file("b.jpg", 2)];
    let plan = plan_pass("Trip", &entries, &set).unwrap();
    assert_eq!(plan.already_count, 1);
    assert_eq!(plan.total, 2);
    assert_eq!(plan.ops.len(), 1);
    assert_eq!(plan.ops[0].old_name, "b.jpg");
    assert_eq!(plan.ops[0].new_name, "Trip_00001_b.jpg");
}

#[test]
fn scenario_hundred_thousand_files_get_wide_indices() {
    let set = FiletypeSet::parse_default(".jpg");
    let mut entries = Vec::new();
    for i in 0..100000u64 {
        entries.push(file(&format!("f{}.jpg", i), i));
    }
    let plan = plan_pass("Trip", &entries, &set).unwrap();
    assert_eq!(plan.total, 100000);
    assert_eq!(plan.width, 7);
    assert_eq!(plan.ops.len(), 100000);
    assert_eq!(plan.ops[0].new_name, "Trip_0000000_f0.jpg");
    assert_eq!(plan.ops[1].new_name, "Trip_0000001_f1.jpg");
}

#[test]
fn files_are_ordered_by_modification_time() {
    let set = FiletypeSet::parse_default(".jpg");
    let entries = vec![file("late.jpg", 30), file("early.jpg", 10), file("mid.jpg", 20)];
    let plan = plan_pass("Pics", &entries, &set).unwrap();
    assert_eq!(plan.ops[0].old_name, "early.jpg");
    assert_eq!(plan.ops[0].new_name, "Pics_00000_early.jpg");
    assert_eq!(plan.ops[1].old_name, "mid.jpg");
    assert_eq!(plan.ops[1].new_name, "Pics_00001_mid.jpg");
    assert_eq!(plan.ops[2].old_name, "late.jpg");
    assert_eq!(plan.ops[2].new_name, "Pics_00002_late.jpg");
}

#[test]
fn equal_stamps_keep_enumeration_order() {
    let set = FiletypeSet::parse_default(".jpg");
    let entries = vec![file("first.jpg", 5), file("second.jpg", 5), file("third.jpg", 5)];
    let plan = plan_pass("Pics", &entries, &set).unwrap();
    assert_eq!(plan.ops[0].old_name, "first.jpg");
    assert_eq!(plan.ops[1].old_name, "second.jpg");
    assert_eq!(plan.ops[2].old_name, "third.jpg");
}

#[test]
fn spaces_in_directory_name_become_underscores() {
    let set = FiletypeSet::parse_default(".jpg");
    let entries = vec![file("a.jpg", 1)];
    let plan = plan_pass("My Trip", &entries, &set).unwrap();
    assert_eq!(plan.ops[0].new_name, "My_Trip_00000_a.jpg");
}

#[test]
fn unmatched_extensions_are_never_renamed_or_counted() {
    let set = FiletypeSet::parse_default(".jpg");
    let entries = vec![file("a.txt", 1), file("b.png", 2), file("c.jpg", 3)];
    let plan = plan_pass("Trip", &entries, &set).unwrap();
    assert_eq!(plan.total, 1);
    assert_eq!(plan.ops.len(), 1);
    assert_eq!(plan.ops[0].old_name, "c.jpg");
}

#[test]
fn empty_directory_plans_nothing() {
    let set = FiletypeSet::parse_default(".jpg");
    let entries: Vec<FileEntry> = Vec::new();
    let plan = plan_pass("Trip", &entries, &set).unwrap();
    assert_eq!(plan.total, 0);
    assert_eq!(plan.already_count, 0);
    assert_eq!(plan.ops.len(), 0);
}

#[test]
fn subdirectories_are_ignored() {
    let set = FiletypeSet::parse_default(".jpg");
    let entries = vec![subdir("nested"), file("a.jpg", 1)];
    let plan = plan_pass("Trip", &entries, &set).unwrap();
    assert_eq!(plan.total, 1);
    assert_eq!(plan.ops[0].old_name, "a.jpg");
}

#[test]
fn file_without_extension_fails_the_pass() {
    let set = FiletypeSet::parse_default(".jpg");
    let entries = vec![file("a.jpg", 1), file("README", 2)];
    let err = plan_pass("Trip", &entries, &set).unwrap_err();
    assert_eq!(err, Error::Metadata("README".to_string()));
}

#[test]
fn leading_dot_alone_is_no_extension() {
    let set = FiletypeSet::parse_default(".jpg");
    let entries = vec![file(".bashrc", 1)];
    let err = plan_pass("Trip", &entries, &set).unwrap_err();
    assert_eq!(err, Error::Metadata(".bashrc".to_string()));
}

#[test]
fn second_run_on_renamed_directory_plans_nothing() {
    let set = FiletypeSet::parse_default(".jpg");
    let entries = vec![file("a.jpg", 1), file("b.jpg", 2), file("c.txt", 3)];
    let plan = plan_pass("Trip", &entries, &set).unwrap();
    let mut renamed = Vec::new();
    for e in &entries {
        let new_name = plan
            .ops
            .iter()
            .find(|op| op.old_name == e.name)
            .map(|op| op.new_name.clone())
            .unwrap_or_else(|| e.name.clone());
        renamed.push(FileEntry { name: new_name, mtime: e.mtime, is_file: e.is_file });
    }
    let second = plan_pass("Trip", &renamed, &set).unwrap();
    assert_eq!(second.ops.len(), 0);
    assert_eq!(second.already_count, 2);
    assert_eq!(second.total, 2);
}

#[test]
fn error_messages_name_their_cause() {
    let err = Error::Metadata("README".to_string());
    assert_eq!(err.message(), "file metadata could not be resolved: README");
    let err = Error::Rename("disk full".to_string());
    assert_eq!(err.message(), "file could not be renamed: disk full");
    let err = Error::Argument;
    assert_eq!(err.message(), "wrong number of arguments");
    let err = Error::Enumeration("p".to_string());
    assert_eq!(err.message(), "directory could not be listed: p");
    let err = Error::FiletypeParse("f".to_string());
    assert_eq!(err.message(), "list of filetypes could not be read: f");
    let err = Error::LogWrite("w".to_string());
    assert_eq!(err.message(), "failure log could not be written: w");
}
