use picture_namer::report::{compose_report, compose_report_at, log_file_name, Timestamp};

fn ts() -> Timestamp {
    Timestamp { year: 2022, month: 3, day: 5, hour: 7, minute: 8, second: 9 }
}

#[test]
fn log_name_carries_the_timestamp() {
    assert_eq!(log_file_name(&ts()), "rusty_picture_namer_2022-03-05_070809.log");
}

#[test]
fn log_name_pads_every_field() {
    let t = Timestamp { year: 999, month: 12, day: 31, hour: 23, minute: 59, second: 58 };
    assert_eq!(log_file_name(&t), "rusty_picture_namer_0999-12-31_235958.log");
}

#[test]
fn report_lists_folder_source_and_message() {
    let (name, text) = compose_report(
        &"/photos/Trip".to_string(),
        &Some("/lists/types.txt".to_string()),
        &"file could not be renamed: b.jpg".to_string(),
        &ts(),
    );
    assert_eq!(name, "rusty_picture_namer_2022-03-05_070809.log");
    assert_eq!(
        text,
        "2022-03-05_070809\n/photos/Trip\n/lists/types.txt\nfile could not be renamed: b.jpg\n"
    );
}

#[test]
fn report_without_source_says_none() {
    let (_, text) = compose_report(
        &"/photos/Trip".to_string(),
        &None,
        &"wrong number of arguments".to_string(),
        &ts(),
    );
    assert_eq!(text, "2022-03-05_070809\n/photos/Trip\nnone\nwrong number of arguments\n");
}

#[test]
fn report_at_epoch_instant_carries_its_calendar_stamp() {
    let (name, text) = compose_report_at(
        &"/photos/Trip".to_string(),
        &None,
        &"wrong number of arguments".to_string(),
        1646464089,
    );
    assert_eq!(name, "rusty_picture_namer_2022-03-05_070809.log");
    assert!(text.starts_with("2022-03-05_070809\n"));
}

#[test]
fn report_at_epoch_zero_is_the_first_instant() {
    let (name, _) = compose_report_at(
        &"/photos".to_string(),
        &None,
        &"m".to_string(),
        0,
    );
    assert_eq!(name, "rusty_picture_namer_1970-01-01_000000.log");
}
