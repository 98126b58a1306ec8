use trashctl::datetime::DateTime;
use trashctl::index::EntryKind;
use trashctl::index::reconcile;
use trashctl::info::TrashInfo;
use trashctl::ops::PurgeError;
use trashctl::ops::PutError;
use trashctl::ops::RestoreError;
use trashctl::ops::empty_targets;
use trashctl::ops::next_free_id;
use trashctl::ops::plan_purge;
use trashctl::ops::plan_put;
use trashctl::ops::plan_restore;
use trashctl::ops::put_outcome;
use trashctl::ops::restore_outcome;
use trashctl::ops::is_valid_source_path;

fn dt(year: u16, month: u8, day: u8, hour: u8, minute: u8, second: u8) -> DateTime {
    DateTime { year, month, day, hour, minute, second }
}

fn record_text(path: &str, date: DateTime) -> String {
    TrashInfo { path: path.to_string(), deletion_date: date }.serialize()
}

fn file(name: &str) -> (String, bool) {
    (name.to_string(), false)
}

fn info_pair(id: &str, path: &str, date: DateTime) -> (String, String) {
    (format!("{}.trashinfo", id), record_text(path, date))
}

#[test]
fn reconcile_pairs_healthy_entry() {
    let files = vec![file("report.md")];
    let infos = vec![info_pair("report.md", "/home/u/report.md", dt(2022, 6, 28, 9, 40, 3))];
    let (entries, degraded) = reconcile(&files, &infos);
    assert_eq!(entries.len(), 1);
    assert!(degraded.is_empty());
    assert_eq!(entries[0].id, "report.md");
    assert_eq!(entries[0].kind, EntryKind::File);
    assert_eq!(entries[0].info.path, "/home/u/report.md");
    assert_eq!(entries[0].info.deletion_date, dt(2022, 6, 28, 9, 40, 3));
}

#[test]
fn reconcile_reports_directory_kind() {
    let files = vec![("photos".to_string(), true)];
    let infos = vec![info_pair("photos", "/home/u/photos", dt(2022, 1, 1, 0, 0, 0))];
    let (entries, _) = reconcile(&files, &infos);
    assert_eq!(entries[0].kind, EntryKind::Directory);
}

#[test]
fn reconcile_flags_missing_info_as_degraded() {
    let files = vec![file("orphan.txt")];
    let infos: Vec<(String, String)> = Vec::new();
    let (entries, degraded) = reconcile(&files, &infos);
    assert!(entries.is_empty());
    assert_eq!(degraded, vec!["orphan.txt".to_string()]);
}

#[test]
fn reconcile_flags_missing_content_as_degraded() {
    let files: Vec<(String, bool)> = Vec::new();
    let infos = vec![info_pair("gone.txt", "/home/u/gone.txt", dt(2022, 1, 1, 0, 0, 0))];
    let (entries, degraded) = reconcile(&files, &infos);
    assert!(entries.is_empty());
    assert_eq!(degraded, vec!["gone.txt".to_string()]);
}

#[test]
fn reconcile_corrupt_record_degrades_only_its_id() {
    let files = vec![file("good.txt"), file("bad.txt")];
    let infos = vec![
        info_pair("good.txt", "/home/u/good.txt", dt(2022, 1, 1, 0, 0, 0)),
        ("bad.txt.trashinfo".to_string(), "not a record".to_string()),
    ];
    let (entries, degraded) = reconcile(&files, &infos);
    assert_eq!(entries.len(), 1);
    assert_eq!(entries[0].id, "good.txt");
    assert_eq!(degraded, vec!["bad.txt".to_string()]);
}

#[test]
fn reconcile_reports_suffixless_info_name() {
    let files: Vec<(String, bool)> = Vec::new();
    let infos = vec![("stray".to_string(), "junk".to_string())];
    let (entries, degraded) = reconcile(&files, &infos);
    assert!(entries.is_empty());
    assert_eq!(degraded, vec!["stray".to_string()]);
}

#[test]
fn reconcile_sorts_by_date_then_id() {
    let files = vec![file("b.txt"), file("c.txt"), file("a.txt")];
    let infos = vec![
        info_pair("b.txt", "/u/b.txt", dt(2022, 5, 1, 0, 0, 0)),
        info_pair("c.txt", "/u/c.txt", dt(2021, 5, 1, 0, 0, 0)),
        info_pair("a.txt", "/u/a.txt", dt(2022, 5, 1, 0, 0, 0)),
    ];
    let (entries, _) = reconcile(&files, &infos);
    let ids: Vec<&str> = entries.iter().map(|e| e.id.as_str()).collect();
    assert_eq!(ids, vec!["c.txt", "a.txt", "b.txt"]);
}

#[test]
fn deleting_metadata_half_degrades_entry() {
    let files = vec![file("report.md")];
    let infos = vec![info_pair("report.md", "/home/u/report.md", dt(2022, 6, 28, 9, 40, 3))];
    let (entries, degraded) = reconcile(&files, &infos);
    assert_eq!(entries.len(), 1);
    assert!(degraded.is_empty());
    let infos_after: Vec<(String, String)> = Vec::new();
    let (entries_after, degraded_after) = reconcile(&files, &infos_after);
    assert!(entries_after.is_empty());
    assert_eq!(degraded_after, vec!["report.md".to_string()]);
}

#[test]
fn next_free_id_without_collision() {
    let existing: Vec<String> = Vec::new();
    assert_eq!(next_free_id("report.md", &existing), "report.md");
}

#[test]
fn next_free_id_probes_numeric_suffixes() {
    let existing = vec!["report.md".to_string()];
    assert_eq!(next_free_id("report.md", &existing), "report.md.2");
    let existing = vec!["report.md".to_string(), "report.md.2".to_string()];
    assert_eq!(next_free_id("report.md", &existing), "report.md.3");
    let existing = vec!["report.md".to_string(), "report.md.3".to_string()];
    assert_eq!(next_free_id("report.md", &existing), "report.md.2");
}

#[test]
fn two_puts_same_base_name_get_distinct_ids() {
    let mut existing: Vec<String> = Vec::new();
    let first = next_free_id("report.md", &existing);
    existing.push(first.clone());
    let second = next_free_id("report.md", &existing);
    assert_ne!(first, second);
    assert_eq!(first, "report.md");
    assert_eq!(second, "report.md.2");
}

#[test]
fn plan_put_renders_record_and_paths() {
    let existing: Vec<String> = Vec::new();
    let plan = plan_put("/home/u/report.md", true, &existing, dt(2022, 6, 28, 9, 40, 3)).unwrap();
    assert_eq!(plan.id, "report.md");
    assert_eq!(plan.stored_rel, "files/report.md");
    assert_eq!(plan.info_rel, "info/report.md.trashinfo");
    assert_eq!(
        plan.info_text,
        "[Trash Info]\nPath=/home/u/report.md\nDeletionDate=2022-06-28T09:40:03\n"
    );
}

#[test]
fn plan_put_missing_source() {
    let existing: Vec<String> = Vec::new();
    let err = plan_put("/home/u/report.md", false, &existing, dt(2022, 6, 28, 9, 40, 3))
        .unwrap_err();
    assert_eq!(err, PutError::SourceMissing { path: "/home/u/report.md".to_string() });
}

#[test]
fn valid_source_paths() {
    assert!(is_valid_source_path("/home/u/report.md"));
    assert!(!is_valid_source_path("report.md"));
    assert!(!is_valid_source_path(""));
    assert!(!is_valid_source_path("/home/u/dir/"));
}

#[test]
fn put_outcome_maps_each_failure() {
    let p = "/home/u/report.md";
    assert_eq!(
        put_outcome(p, false, false, false, false).unwrap_err(),
        PutError::SourceMissing { path: p.to_string() }
    );
    assert_eq!(
        put_outcome(p, true, false, false, false).unwrap_err(),
        PutError::MoveFailed { path: p.to_string() }
    );
    assert_eq!(
        put_outcome(p, true, true, false, true).unwrap_err(),
        PutError::MetadataWriteFailed { path: p.to_string() }
    );
    assert_eq!(
        put_outcome(p, true, true, false, false).unwrap_err(),
        PutError::RollbackFailed { path: p.to_string() }
    );
    assert!(put_outcome(p, true, true, true, false).is_ok());
}

#[test]
fn restore_outcome_maps_each_step() {
    assert_eq!(restore_outcome(false, false), Err(RestoreError::MoveFailed));
    assert_eq!(restore_outcome(true, true), Ok(true));
    assert_eq!(restore_outcome(true, false), Ok(false));
}

#[test]
fn plan_restore_happy_path() {
    let files = vec![file("report.md")];
    let infos = vec![info_pair("report.md", "/home/u/report.md", dt(2022, 6, 28, 9, 40, 3))];
    let (entries, _) = reconcile(&files, &infos);
    let plan = plan_restore(&entries, "report.md", false, false).unwrap();
    assert_eq!(plan.id, "report.md");
    assert_eq!(plan.stored_rel, "files/report.md");
    assert_eq!(plan.info_rel, "info/report.md.trashinfo");
    assert_eq!(plan.dest, "/home/u/report.md");
}

#[test]
fn plan_restore_not_found_for_missing_and_degraded() {
    let files = vec![file("orphan.txt")];
    let infos: Vec<(String, String)> = Vec::new();
    let (entries, degraded) = reconcile(&files, &infos);
    assert_eq!(degraded.len(), 1);
    assert_eq!(plan_restore(&entries, "orphan.txt", false, false).unwrap_err(), RestoreError::NotFound);
    assert_eq!(plan_restore(&entries, "absent", true, false).unwrap_err(), RestoreError::NotFound);
}

#[test]
fn plan_restore_destination_exists() {
    let files = vec![file("report.md")];
    let infos = vec![info_pair("report.md", "/home/u/report.md", dt(2022, 6, 28, 9, 40, 3))];
    let (entries, _) = reconcile(&files, &infos);
    assert_eq!(
        plan_restore(&entries, "report.md", false, true).unwrap_err(),
        RestoreError::DestinationExists
    );
    assert!(plan_restore(&entries, "report.md", true, true).is_ok());
}

#[test]
fn purge_isolates_per_item_failures() {
    let files = vec![file("a.txt"), file("c.txt")];
    let infos = vec![
        info_pair("a.txt", "/u/a.txt", dt(2022, 1, 1, 0, 0, 0)),
        info_pair("c.txt", "/u/c.txt", dt(2022, 1, 2, 0, 0, 0)),
    ];
    let ids = vec!["a.txt".to_string(), "missing.txt".to_string(), "c.txt".to_string()];
    let results = plan_purge(&files, &infos, &ids);
    assert_eq!(results.len(), 3);
    assert_eq!(results[0].0, "a.txt");
    assert!(results[0].1.is_ok());
    assert_eq!(results[1].0, "missing.txt");
    assert_eq!(results[1].1, Err(PurgeError::NotFound));
    assert_eq!(results[2].0, "c.txt");
    assert!(results[2].1.is_ok());
    let not_found = results.iter().filter(|r| r.1 == Err(PurgeError::NotFound)).count();
    assert_eq!(not_found, 1);
}

#[test]
fn purge_plans_cover_both_halves() {
    let files = vec![file("both.txt"), file("content.only")];
    let infos = vec![
        info_pair("both.txt", "/u/both.txt", dt(2022, 1, 1, 0, 0, 0)),
        info_pair("meta.only", "/u/meta.only", dt(2022, 1, 1, 0, 0, 0)),
    ];
    let ids = vec!["both.txt".to_string(), "content.only".to_string(), "meta.only".to_string()];
    let results = plan_purge(&files, &infos, &ids);
    let both = results[0].1.as_ref().unwrap();
    assert!(both.remove_stored && both.remove_info && !both.remove_raw_info);
    let content_only = results[1].1.as_ref().unwrap();
    assert!(content_only.remove_stored && !content_only.remove_info);
    let meta_only = results[2].1.as_ref().unwrap();
    assert!(!meta_only.remove_stored && meta_only.remove_info);
}

#[test]
fn empty_targets_cover_everything_once() {
    let files = vec![file("a.txt"), file("orphan.txt")];
    let infos = vec![
        info_pair("a.txt", "/u/a.txt", dt(2022, 1, 1, 0, 0, 0)),
        info_pair("gone.txt", "/u/gone.txt", dt(2022, 1, 1, 0, 0, 0)),
        ("stray".to_string(), "junk".to_string()),
    ];
    let mut targets = empty_targets(&files, &infos);
    targets.sort();
    assert_eq!(
        targets,
        vec![
            "a.txt".to_string(),
            "gone.txt".to_string(),
            "orphan.txt".to_string(),
            "stray".to_string()
        ]
    );
}

#[test]
fn trash_lifecycle_scenario() {
    let date1 = dt(2022, 6, 28, 9, 40, 3);
    let date2 = dt(2022, 6, 28, 10, 0, 0);
    let mut files: Vec<(String, bool)> = Vec::new();
    let mut infos: Vec<(String, String)> = Vec::new();

    let names = |files: &Vec<(String, bool)>| files.iter().map(|f| f.0.clone()).collect::<Vec<_>>();

    let plan1 = plan_put("/home/u/report.md", true, &names(&files), date1).unwrap();
    assert_eq!(plan1.id, "report.md");
    files.push((plan1.id.clone(), false));
    infos.push((format!("{}.trashinfo", plan1.id), plan1.info_text.clone()));

    let (entries, _) = reconcile(&files, &infos);
    assert_eq!(entries.len(), 1);
    assert_eq!(entries[0].info.path, "/home/u/report.md");
    assert_eq!(entries[0].info.deletion_date, date1);

    let plan2 = plan_put("/home/u/report.md", true, &names(&files), date2).unwrap();
    assert_eq!(plan2.id, "report.md.2");
    files.push((plan2.id.clone(), false));
    infos.push((format!("{}.trashinfo", plan2.id), plan2.info_text.clone()));

    let (entries, degraded) = reconcile(&files, &infos);
    assert!(degraded.is_empty());
    assert_eq!(entries.len(), 2);
    assert_eq!(entries[0].id, "report.md");
    assert_eq!(entries[1].id, "report.md.2");

    assert_eq!(
        plan_restore(&entries, "report.md", false, true).unwrap_err(),
        RestoreError::DestinationExists
    );

    let restore = plan_restore(&entries, "report.md", false, false).unwrap();
    assert_eq!(restore.dest, "/home/u/report.md");
    files.retain(|f| f.0 != "report.md");
    infos.retain(|i| i.0 != "report.md.trashinfo");

    let (entries, degraded) = reconcile(&files, &infos);
    assert_eq!(entries.len(), 1);
    assert_eq!(entries[0].id, "report.md.2");
    assert!(degraded.is_empty());
    assert!(!entries.iter().any(|e| e.id == "report.md"));
}
