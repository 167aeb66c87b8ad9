use picture_namer::driver::{interpret_request, pass_to_picture_namer, PictureNamerGUI};
use picture_namer::errors::Error;

#[test]
fn request_collects_the_present_paths_in_order() {
    let req = pass_to_picture_namer(
        &Some("/photos".to_string()),
        true,
        &Some("/lists/types.txt".to_string()),
    );
    assert_eq!(req.paths, vec!["/photos".to_string(), "/lists/types.txt".to_string()]);
    assert!(req.use_alternate);

    let req = pass_to_picture_namer(&Some("/photos".to_string()), false, &None);
    assert_eq!(req.paths, vec!["/photos".to_string()]);
    assert!(!req.use_alternate);

    let req = pass_to_picture_namer(&None, false, &None);
    assert!(req.paths.is_empty());
}

#[test]
fn interpret_accepts_folder_with_default_list() {
    let req = pass_to_picture_namer(&Some("/photos".to_string()), false, &None);
    let cfg = interpret_request(&req).unwrap();
    assert_eq!(cfg.root, "/photos");
    assert!(cfg.filetype_source.is_none());
}

#[test]
fn interpret_accepts_folder_with_alternate_list() {
    let req = pass_to_picture_namer(
        &Some("/photos".to_string()),
        true,
        &Some("/lists/types.txt".to_string()),
    );
    let cfg = interpret_request(&req).unwrap();
    assert_eq!(cfg.root, "/photos");
    assert_eq!(cfg.filetype_source, Some("/lists/types.txt".to_string()));
}

#[test]
fn interpret_rejects_missing_or_excess_paths() {
    let req = pass_to_picture_namer(&None, false, &None);
    assert_eq!(interpret_request(&req).unwrap_err(), Error::Argument);

    let req = pass_to_picture_namer(&None, true, &Some("/lists/types.txt".to_string()));
    assert_eq!(interpret_request(&req).unwrap_err(), Error::Argument);
}

#[test]
fn interface_state_records_choices_and_results() {
    let mut gui = PictureNamerGUI::new();
    assert!(!gui.folder_selected);
    assert!(!gui.use_alternate);
    assert_eq!(gui.result.1, "Filenamer has not ran.");

    gui.pick_folder("/photos".to_string());
    assert!(gui.folder_selected);
    assert_eq!(gui.picked_path, Some("/photos".to_string()));

    gui.pick_filetypes_file("/lists/types.txt".to_string());
    assert_eq!(gui.list_of_filetypes_path, Some("/lists/types.txt".to_string()));

    gui.record_result((true, "renamed 2 files".to_string()));
    assert_eq!(gui.result, (true, "renamed 2 files".to_string()));
}
