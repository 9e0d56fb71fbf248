use sts2_mod_sync::listing::{
    find_backup_directories, find_latest_backup, has_backup_directory, list_directory_items,
    BackupInfo, DirEntryInfo, DownloadProgress, NO_BACKUP_FOUND,
};
use sts2_mod_sync::order::{sort_by_name, str_le};

fn info(name: &str, size: u64) -> BackupInfo {
    BackupInfo { name: name.to_string(), size_bytes: size }
}

fn dir(name: &str, is_dir: bool) -> DirEntryInfo {
    DirEntryInfo { name: name.to_string(), is_dir }
}

#[test]
fn string_order_matches_str_order() {
    let words = ["", "a", "ab", "b", "B", "é", "中", "a\u{0}"];
    for x in words {
        for y in words {
            assert_eq!(str_le(x, y), x <= y, "{:?} {:?}", x, y);
        }
    }
}

#[test]
fn sorting_by_name_orders_and_keeps_everything() {
    let v = vec!["c".to_string(), "a".to_string(), "b".to_string(), "a".to_string()];
    assert_eq!(sort_by_name(v), vec!["a", "a", "b", "c"]);
    let items = sort_by_name(vec![info("b", 1), info("a", 2), info("b", 3)]);
    let names: Vec<&str> = items.iter().map(|i| i.name.as_str()).collect();
    assert_eq!(names, vec!["a", "b", "b"]);
    let sizes: Vec<u64> = items.iter().map(|i| i.size_bytes).collect();
    assert_eq!(sizes, vec![2, 1, 3]);
}

#[test]
fn listing_a_missing_directory_is_empty() {
    let r = list_directory_items("/g/mods_common", false, false, false, vec![info("x", 1)]);
    assert!(r.unwrap().is_empty());
}

#[test]
fn listing_a_file_is_an_error() {
    let r = list_directory_items("/g/file", true, false, false, vec![]);
    assert_eq!(r.err(), Some("指定路径不是目录：/g/file".to_string()));
    let r = list_directory_items("C:/g/file", true, false, true, vec![]);
    assert_eq!(r.err(), Some("指定路径不是目录：C:\\g\\file".to_string()));
}

#[test]
fn listing_keeps_safe_names_in_order() {
    let r = list_directory_items(
        "/g/mods_common",
        true,
        true,
        false,
        vec![info("Zeta", 5), info(".", 0), info("alpha", 7), info("  ", 1), info("Beta", 3)],
    )
    .unwrap();
    let names: Vec<&str> = r.iter().map(|i| i.name.as_str()).collect();
    assert_eq!(names, vec!["Beta", "Zeta", "alpha"]);
    assert_eq!(r[0].size_bytes, 3);
}

fn backup_entries() -> Vec<DirEntryInfo> {
    vec![
        dir("mods_backup_202401011200", true),
        dir("mods", true),
        dir("mods_backup_202312311159", true),
        dir("mods_backup_2024", true),
        dir("mods_backup_202401011300", false),
        dir("mods_backup_202402020000", true),
    ]
}

#[test]
fn backups_are_found_in_name_order() {
    assert_eq!(
        find_backup_directories("/g", &backup_entries(), false),
        vec!["/g/mods_backup_202312311159", "/g/mods_backup_202401011200", "/g/mods_backup_202402020000"]
    );
}

#[test]
fn latest_backup_is_the_greatest_name() {
    assert_eq!(find_latest_backup("/g", &backup_entries(), false), Ok("/g/mods_backup_202402020000".to_string()));
    assert!(has_backup_directory("/g", &backup_entries(), false));
}

#[test]
fn no_backup_means_no_latest() {
    let entries = vec![dir("mods", true), dir("mods_backup_202401011300", false)];
    assert!(!has_backup_directory("/g", &entries, false));
    assert_eq!(find_latest_backup("/g", &entries, false), Err(NO_BACKUP_FOUND.to_string()));
    assert_eq!(find_latest_backup("/g", &vec![], false), Err("没有找到任何备份目录。".to_string()));
}

#[test]
fn progress_records_its_fields() {
    let p = DownloadProgress::new("downloading", 5, 10);
    assert_eq!(p.phase, "downloading");
    assert_eq!((p.downloaded, p.total), (5, 10));
}

#[test]
fn a_fresh_backup_allows_a_sync() {
    let name = sts2_mod_sync::names::backup_dir_name("202501010000");
    let entries = vec![dir("mods", true), DirEntryInfo { name: name.clone(), is_dir: true }];
    assert!(has_backup_directory("/g", &entries, false));
    assert_eq!(sts2_mod_sync::workflows::require_backup(has_backup_directory("/g", &entries, false)), Ok(()));
    assert_eq!(find_latest_backup("/g", &entries, false), Ok(format!("/g/{}", name)));
}
