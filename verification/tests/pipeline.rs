use log_exporter::date::Date;
use log_exporter::export::concat_file_contents;
use log_exporter::paths::{
    export_output_file, export_output_folder, get_full_path, split_folder_names, trim_string,
};
use log_exporter::validate::{validate_supplied_date, DateRange, ValidationError};

fn d(year: u32, month: u32, day: u32) -> Date {
    Date { year, month, day }
}

#[test]
fn resolves_partition_paths() {
    assert_eq!(get_full_path("app", &d(2024, 3, 7)), "logs/app/2024/03/07");
    assert_eq!(get_full_path("web", &d(999, 11, 1)), "logs/web/0999/11/01");
}

#[test]
fn export_locations_sit_under_the_exported_root() {
    assert_eq!(
        export_output_folder("logs/app/2024/03/07"),
        "logs/exported/logs/app/2024/03/07"
    );
    assert_eq!(
        export_output_file("logs/app/2024/03/07"),
        "logs/exported/logs/app/2024/03/07/raw_log.txt"
    );
}

#[test]
fn validate_accepts_ordered_ranges() {
    assert_eq!(
        validate_supplied_date("2024-03-06", "2024-03-07"),
        Ok(DateRange { start: d(2024, 3, 6), end: d(2024, 3, 7) })
    );
    assert_eq!(
        validate_supplied_date("2024-03-07", "2024-03-07"),
        Ok(DateRange { start: d(2024, 3, 7), end: d(2024, 3, 7) })
    );
}

#[test]
fn validate_rejects_end_before_start() {
    assert_eq!(
        validate_supplied_date("2024-03-07", "2024-03-06"),
        Err(ValidationError::EndBeforeStart)
    );
    assert_eq!(
        validate_supplied_date("2024-01-01", "2023-12-31"),
        Err(ValidationError::EndBeforeStart)
    );
}

#[test]
fn validate_rejects_malformed_dates() {
    assert_eq!(
        validate_supplied_date("2024-13-40", "2024-03-07"),
        Err(ValidationError::InvalidStartDate)
    );
    assert_eq!(
        validate_supplied_date("2024-03-07", "2024-13-40"),
        Err(ValidationError::InvalidEndDate)
    );
    assert_eq!(
        validate_supplied_date("nonsense", "also nonsense"),
        Err(ValidationError::InvalidStartDate)
    );
}

#[test]
fn concatenates_file_contents_in_order() {
    let files = vec![b"AB".to_vec(), b"CD".to_vec()];
    assert_eq!(concat_file_contents(&files), b"ABCD".to_vec());
}

#[test]
fn concatenation_inserts_no_delimiter_and_keeps_empty_files() {
    let files = vec![b"".to_vec(), b"x".to_vec(), b"".to_vec(), b"yz".to_vec()];
    assert_eq!(concat_file_contents(&files), b"xyz".to_vec());
    let none: Vec<Vec<u8>> = vec![];
    assert_eq!(concat_file_contents(&none), Vec::<u8>::new());
}

#[test]
fn splits_and_trims_folder_names() {
    assert_eq!(split_folder_names("app,web, db"), vec!["app", "web", "db"]);
    assert_eq!(split_folder_names("  app  "), vec!["app"]);
    assert_eq!(split_folder_names("a,,b"), vec!["a", "", "b"]);
    assert_eq!(split_folder_names(""), vec![""]);
    assert_eq!(split_folder_names("app,app"), vec!["app", "app"]);
}

#[test]
fn trims_surrounding_whitespace_only() {
    assert_eq!(trim_string("  a b \t\n"), "a b");
    assert_eq!(trim_string("ab"), "ab");
    assert_eq!(trim_string("   "), "");
    assert_eq!(trim_string(""), "");
}
