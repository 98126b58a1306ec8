use trashctl::clock::now_datetime;
use trashctl::datetime::DateTime;
use trashctl::locator::LocatorError;
use trashctl::locator::home_trash_dir_path;
use trashctl::locator::home_trash_dir_path_from_env;
use trashctl::locator::resolve_volume_trash;
use trashctl::locator::shared_volume_trash_usable;
use trashctl::locator::volume_trash_dir_1;
use trashctl::locator::volume_trash_dir_2;
use trashctl::ops::PutError;
use trashctl::trash::Trash;

#[test]
fn test_volume_trash_dir_1() {
    let volume = "/run/mount/user/volume";
    let uid = 123;
    let trash_dir = volume_trash_dir_1(volume, uid);
    assert_eq!(trash_dir, "/run/mount/user/volume/.Trash/123");
}

#[test]
fn test_volume_trash_dir_2() {
    let volume = "/run/mount/user/volume";
    let uid = 123;
    let trash_dir = volume_trash_dir_2(volume, uid);
    assert_eq!(trash_dir, "/run/mount/user/volume/.Trash-123");
}

#[test]
fn home_trash_prefers_data_home_override() {
    let r = home_trash_dir_path_from_env(Some("/home/user/.local/share"));
    assert_eq!(r.unwrap(), "/home/user/.local/share/Trash");
    let r = home_trash_dir_path(Some("/data"), Some("/home/user"));
    assert_eq!(r.unwrap(), "/data/Trash");
}

#[test]
fn home_trash_rejects_unset_or_empty_override() {
    assert_eq!(home_trash_dir_path_from_env(None).unwrap_err(), LocatorError::HomeUnresolvable);
    assert_eq!(home_trash_dir_path_from_env(Some("")).unwrap_err(), LocatorError::HomeUnresolvable);
}

#[test]
fn home_trash_falls_back_to_home_directory() {
    let r = home_trash_dir_path(None, Some("/home/user"));
    assert_eq!(r.unwrap(), "/home/user/.local/share/Trash");
    let r = home_trash_dir_path(Some(""), Some("/home/user"));
    assert_eq!(r.unwrap(), "/home/user/.local/share/Trash");
    assert_eq!(home_trash_dir_path(None, None).unwrap_err(), LocatorError::HomeUnresolvable);
}

#[test]
fn volume_trash_two_step_decision() {
    assert!(shared_volume_trash_usable(true, false, true));
    assert!(!shared_volume_trash_usable(true, true, true));
    assert!(!shared_volume_trash_usable(false, false, true));
    assert!(!shared_volume_trash_usable(true, false, false));
    assert_eq!(resolve_volume_trash("/vol", 7, true, false, true), "/vol/.Trash/7");
    assert_eq!(resolve_volume_trash("/vol", 7, true, true, true), "/vol/.Trash-7");
    assert_eq!(resolve_volume_trash("/vol", 7, false, false, false), "/vol/.Trash-7");
}

#[test]
fn trash_add_destination() {
    let trash = Trash::new("/home/user/.local/share/Trash".to_string());
    let dest = trash.add("/home/user/report.md", true).unwrap();
    assert_eq!(dest, "/home/user/.local/share/Trash/files/report.md");
    let err = trash.add("/home/user/report.md", false).unwrap_err();
    assert_eq!(err, PutError::SourceMissing { path: "/home/user/report.md".to_string() });
}

#[test]
fn trash_auto_recon_collects_names_and_records() {
    let date = DateTime { year: 2022, month: 6, day: 28, hour: 9, minute: 40, second: 3 };
    let record = trashctl::info::TrashInfo { path: "/home/u/report.md".to_string(), deletion_date: date };
    let files = vec![("report.md".to_string(), false), ("orphan.txt".to_string(), false)];
    let infos = vec![("report.md.trashinfo".to_string(), record.serialize())];
    let trash = Trash::auto_recon_trash("/root/Trash".to_string(), files, infos);
    assert_eq!(trash.path, "/root/Trash");
    assert_eq!(trash.files, vec!["report.md".to_string(), "orphan.txt".to_string()]);
    assert_eq!(trash.info.len(), 1);
    assert_eq!(trash.info[0].path, "/home/u/report.md");
    assert_eq!(trash.info[0].deletion_date, date);
}

#[test]
fn now_datetime_is_well_formed() {
    let now = now_datetime().unwrap();
    assert!(1 <= now.month && now.month <= 12);
    assert!(1 <= now.day && now.day <= 31);
    assert!(now.hour <= 23 && now.minute <= 59 && now.second <= 59);
    assert!(now.year >= 2024);
    let text = now.format();
    assert_eq!(DateTime::parse(text.as_str()), Some(now));
}
