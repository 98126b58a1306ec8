use trashctl::datetime::datetime_from_parts;
use trashctl::datetime::DateTime;
use trashctl::info::ParseError;
use trashctl::info::TrashInfo;

fn dt(year: u16, month: u8, day: u8, hour: u8, minute: u8, second: u8) -> DateTime {
    DateTime { year, month, day, hour, minute, second }
}

#[test]
fn test_parse_date() {
    let date = "2022-06-28T09:40:03";
    let date_result = TrashInfo::parse_date(date.to_string());
    assert_eq!(date_result.unwrap(), dt(2022, 6, 28, 9, 40, 3));
}

#[test]
fn test_new_trash_info() {
    let path = "/home/user/test-need-to-go-to-trash-lol.md";
    let deletion_date = "2022-06-28T09:40:03";
    let trash_info = TrashInfo::new(path.to_string(), deletion_date.to_string());
    assert_eq!(trash_info.path, path.to_string());
    assert_eq!(trash_info.deletion_date, dt(2022, 6, 28, 9, 40, 3));
}

#[test]
fn datetime_format_canonical() {
    assert_eq!(dt(2022, 6, 28, 9, 40, 3).format(), "2022-06-28T09:40:03");
    assert_eq!(dt(0, 1, 1, 0, 0, 0).format(), "0000-01-01T00:00:00");
    assert_eq!(dt(9999, 12, 31, 23, 59, 59).format(), "9999-12-31T23:59:59");
}

#[test]
fn datetime_parse_round_trip() {
    let d = dt(2022, 6, 28, 9, 40, 3);
    assert_eq!(DateTime::parse(d.format().as_str()), Some(d));
    let edge = dt(9999, 12, 31, 23, 59, 59);
    assert_eq!(DateTime::parse(edge.format().as_str()), Some(edge));
}

#[test]
fn datetime_parse_rejects_bad_shapes() {
    assert_eq!(DateTime::parse(""), None);
    assert_eq!(DateTime::parse("2022-06-28"), None);
    assert_eq!(DateTime::parse("2022-06-28 09:40:03"), None);
    assert_eq!(DateTime::parse("2022-06-28T09:40:0x"), None);
    assert_eq!(DateTime::parse("2022-06-28T09:40:033"), None);
}

#[test]
fn datetime_parse_rejects_bad_calendar() {
    assert_eq!(DateTime::parse("2022-00-28T09:40:03"), None);
    assert_eq!(DateTime::parse("2022-13-01T09:40:03"), None);
    assert_eq!(DateTime::parse("2022-06-31T09:40:03"), None);
    assert_eq!(DateTime::parse("2022-06-28T24:00:00"), None);
    assert_eq!(DateTime::parse("2022-06-28T09:60:03"), None);
    assert_eq!(DateTime::parse("2022-06-28T09:40:60"), None);
}

#[test]
fn datetime_leap_years() {
    assert!(DateTime::parse("2020-02-29T00:00:00").is_some());
    assert_eq!(DateTime::parse("2021-02-29T00:00:00"), None);
    assert!(DateTime::parse("2000-02-29T00:00:00").is_some());
    assert_eq!(DateTime::parse("1900-02-29T00:00:00"), None);
}

#[test]
fn datetime_from_parts_validates_fields() {
    assert_eq!(datetime_from_parts(2022, 6, 28, 9, 40, 3), Some(dt(2022, 6, 28, 9, 40, 3)));
    assert_eq!(datetime_from_parts(-1, 6, 28, 9, 40, 3), None);
    assert_eq!(datetime_from_parts(10000, 6, 28, 9, 40, 3), None);
    assert_eq!(datetime_from_parts(2022, 13, 1, 0, 0, 0), None);
    assert_eq!(datetime_from_parts(2021, 2, 29, 0, 0, 0), None);
    assert_eq!(datetime_from_parts(2020, 2, 29, 0, 0, 0), Some(dt(2020, 2, 29, 0, 0, 0)));
    assert_eq!(datetime_from_parts(2022, 6, 28, 24, 0, 0), None);
    assert_eq!(datetime_from_parts(2022, 6, 28, 9, 60, 0), None);
    assert_eq!(datetime_from_parts(2022, 6, 28, 9, 40, 60), None);
}

#[test]
fn info_serialize_canonical_text() {
    let rec = TrashInfo { path: "/home/u/report.md".to_string(), deletion_date: dt(2022, 6, 28, 9, 40, 3) };
    assert_eq!(
        rec.serialize(),
        "[Trash Info]\nPath=/home/u/report.md\nDeletionDate=2022-06-28T09:40:03\n"
    );
}

#[test]
fn info_parse_serialize_round_trip() {
    let rec = TrashInfo { path: "/home/u/report.md".to_string(), deletion_date: dt(2022, 6, 28, 9, 40, 3) };
    let back = TrashInfo::parse(rec.serialize().as_str()).unwrap();
    assert_eq!(back.path, rec.path);
    assert_eq!(back.deletion_date, rec.deletion_date);
}

#[test]
fn info_parse_missing_header() {
    assert_eq!(
        TrashInfo::parse("Path=/a\nDeletionDate=2022-06-28T09:40:03\n").unwrap_err(),
        ParseError::MissingHeader
    );
    assert_eq!(TrashInfo::parse("").unwrap_err(), ParseError::MissingHeader);
}

#[test]
fn info_parse_missing_path() {
    assert_eq!(
        TrashInfo::parse("[Trash Info]\nXath=/a\nDeletionDate=2022-06-28T09:40:03\n").unwrap_err(),
        ParseError::MissingPath
    );
}

#[test]
fn info_parse_missing_deletion_date() {
    assert_eq!(
        TrashInfo::parse("[Trash Info]\nPath=/a\n").unwrap_err(),
        ParseError::MissingDeletionDate
    );
}

#[test]
fn info_parse_malformed_path() {
    assert_eq!(
        TrashInfo::parse("[Trash Info]\nPath=relative.md\nDeletionDate=2022-06-28T09:40:03\n")
            .unwrap_err(),
        ParseError::MalformedPath
    );
    assert_eq!(
        TrashInfo::parse(
            "[Trash Info]\nPath=/a\nExtra=1\nDeletionDate=2022-06-28T09:40:03\n"
        )
        .unwrap_err(),
        ParseError::MalformedPath
    );
}

#[test]
fn info_parse_bad_date() {
    assert_eq!(
        TrashInfo::parse("[Trash Info]\nPath=/a\nDeletionDate=2022-06-31T09:40:03\n").unwrap_err(),
        ParseError::BadDate
    );
}
