use sts2_mod_sync::paths::join_path;
use sts2_mod_sync::workflows::{copy_tree_steps, restore_steps, RestoreStep, TreeStep};
use sts2_mod_sync::archive::{plan_zip_extraction, validate_zip_archive, ArchiveEntry};
use sts2_mod_sync::extraction::{
    resolve_extraction_source, ExtractedChild, ExtractionFlow, FlowStep, FsAction, Outcome,
};
use sts2_mod_sync::workflows::{
    backup_message, backup_to_delete, check_mod_source, check_open_directory, common_mod_destination,
    common_mod_to_delete, common_mods_status, copy_path_overwrite, plan_backup,
    plan_common_mod_copies, plan_restore, require_backup, restore_message, zip_files_to_back_up,
    CopyStep, PathEntry,
};

fn child(path: &str, name: Option<&str>, is_dir: bool) -> ExtractedChild {
    ExtractedChild { path: path.to_string(), name: name.map(|n| n.to_string()), is_dir }
}

#[test]
fn a_single_mods_folder_holds_the_mods() {
    let root = "/g/mods.__extract__";
    assert_eq!(
        resolve_extraction_source(root, &vec![child("/g/mods.__extract__/MODS", Some("MODS"), true)]),
        Ok("/g/mods.__extract__/MODS".to_string())
    );
    assert_eq!(resolve_extraction_source(root, &vec![child("/x/a", Some("a"), true)]), Ok(root.to_string()));
    assert_eq!(resolve_extraction_source(root, &vec![child("/x/mods", Some("mods"), false)]), Ok(root.to_string()));
    assert_eq!(
        resolve_extraction_source(root, &vec![child("/x/a", Some("mods"), true), child("/x/b", Some("b"), true)]),
        Ok(root.to_string())
    );
    assert_eq!(resolve_extraction_source(root, &vec![child("/x/?", None, true)]), Err("解压后的目录名称无效。".to_string()));
    assert_eq!(resolve_extraction_source(root, &vec![]), Ok(root.to_string()));
}

fn action(step: FlowStep) -> FsAction {
    match step {
        FlowStep::Do(a) => a,
        FlowStep::Finish(r) => panic!("finished early: {:?}", r),
    }
}

fn path_of(a: &FsAction) -> String {
    match a {
        FsAction::RemoveIfExists(p) | FsAction::CreateDirAll(p) | FsAction::ResolveSource(p)
        | FsAction::CheckNotEmpty(p) | FsAction::Exists(p) => p.clone(),
        FsAction::ExtractArchive { target, .. } => target.clone(),
        FsAction::Rename { from, to } => format!("{} -> {}", from, to),
    }
}

#[test]
fn extraction_swaps_in_the_new_mods() {
    let (mut f, step) = ExtractionFlow::start("/g", "/g/mods.zip".to_string(), false);
    let mut seen = vec![path_of(&action(step))];
    let outcomes = vec![
        Outcome::Done,
        Outcome::Done,
        Outcome::Done,
        Outcome::Source("/g/mods.__extract__/mods".to_string()),
        Outcome::Flag(true),
        Outcome::Done,
        Outcome::Done,
        Outcome::Done,
        Outcome::Done,
        Outcome::Flag(true),
        Outcome::Done,
        Outcome::Done,
        Outcome::Done,
    ];
    let mut last = None;
    for o in outcomes {
        assert!(f.accepts(&o));
        match f.on_outcome(o) {
            FlowStep::Do(a) => seen.push(path_of(&a)),
            FlowStep::Finish(r) => last = Some(r),
        }
    }
    assert_eq!(
        seen,
        vec![
            "/g/mods.__extract__",
            "/g/mods.__extract__",
            "/g/mods.__extract__",
            "/g/mods.__extract__",
            "/g/mods.__extract__/mods",
            "/g/mods.__incoming__",
            "/g/mods.__extract__/mods -> /g/mods.__incoming__",
            "/g/mods.__extract__",
            "/g/mods.__previous__",
            "/g/mods",
            "/g/mods -> /g/mods.__previous__",
            "/g/mods.__incoming__ -> /g/mods",
            "/g/mods.__previous__",
        ]
    );
    assert_eq!(last, Some(Ok("/g/mods".to_string())));
}

#[test]
fn extraction_rolls_back_when_the_swap_fails() {
    let (mut f, _) = ExtractionFlow::start("/g", "/g/mods.zip".to_string(), false);
    for o in [Outcome::Done, Outcome::Done, Outcome::Done] {
        f.on_outcome(o);
    }
    f.on_outcome(Outcome::Source("/g/mods.__extract__".to_string()));
    f.on_outcome(Outcome::Flag(true));
    f.on_outcome(Outcome::Done);
    // the scratch directory is itself the source: no separate clean-up
    assert!(matches!(action(f.on_outcome(Outcome::Done)), FsAction::RemoveIfExists(p) if p == "/g/mods.__previous__"));
    f.on_outcome(Outcome::Done);
    f.on_outcome(Outcome::Flag(true));
    f.on_outcome(Outcome::Done);
    assert!(matches!(action(f.on_outcome(Outcome::Failed("busy".to_string()))), FsAction::Exists(p) if p == "/g/mods.__previous__"));
    assert!(!f.accepts(&Outcome::Done));
    assert!(matches!(action(f.on_outcome(Outcome::Flag(true))), FsAction::Rename { from, to } if from == "/g/mods.__previous__" && to == "/g/mods"));
    assert!(matches!(f.on_outcome(Outcome::Failed("ignored".to_string())), FlowStep::Finish(Err(e)) if e == "busy"));
    assert!(!f.accepts(&Outcome::Done));
}

#[test]
fn extraction_cleans_up_after_a_bad_archive() {
    let (mut f, _) = ExtractionFlow::start("/g", "/a.zip".to_string(), false);
    f.on_outcome(Outcome::Done);
    assert!(matches!(action(f.on_outcome(Outcome::Done)), FsAction::ExtractArchive { archive, target } if archive == "/a.zip" && target == "/g/mods.__extract__"));
    assert!(matches!(action(f.on_outcome(Outcome::Failed("broken".to_string()))), FsAction::RemoveIfExists(p) if p == "/g/mods.__extract__"));
    assert!(matches!(f.on_outcome(Outcome::Failed("cleanup failed too".to_string())), FlowStep::Finish(Err(e)) if e == "broken"));
}

#[test]
fn extraction_refuses_an_empty_archive() {
    let (mut f, _) = ExtractionFlow::start("/g", "/a.zip".to_string(), false);
    f.on_outcome(Outcome::Done);
    f.on_outcome(Outcome::Done);
    f.on_outcome(Outcome::Done);
    f.on_outcome(Outcome::Source("/g/mods.__extract__".to_string()));
    assert!(matches!(action(f.on_outcome(Outcome::Flag(false))), FsAction::RemoveIfExists(p) if p == "/g/mods.__extract__"));
    assert!(matches!(f.on_outcome(Outcome::Done), FlowStep::Finish(Err(e)) if e == "mods.zip 中没有可用内容。"));
}

#[test]
fn extraction_stops_at_the_first_failure_before_unpacking() {
    let (mut f, _) = ExtractionFlow::start("/g", "/a.zip".to_string(), false);
    assert!(matches!(f.on_outcome(Outcome::Failed("denied".to_string())), FlowStep::Finish(Err(e)) if e == "denied"));
}

fn entry(name: Option<&str>, is_dir: bool) -> ArchiveEntry {
    ArchiveEntry { enclosed_name: name.map(|n| n.to_string()), is_dir }
}

#[test]
fn archive_checks() {
    assert_eq!(validate_zip_archive(0, &vec![], None), Err("mods.zip 是空压缩包。".to_string()));
    assert_eq!(validate_zip_archive(2, &vec![Some("a".to_string()), Some("b/c".to_string())], None), Ok(()));
    assert_eq!(validate_zip_archive(2, &vec![Some("a".to_string()), None], None), Err("压缩包包含非法路径。".to_string()));
    assert_eq!(
        validate_zip_archive(3, &vec![Some("a".to_string())], Some("读取压缩包内容失败：eof".to_string())),
        Err("读取压缩包内容失败：eof".to_string())
    );
    assert_eq!(
        validate_zip_archive(3, &vec![None], Some("later".to_string())),
        Err("压缩包包含非法路径。".to_string())
    );
}

#[test]
fn unpacking_plan_stops_at_an_unsafe_entry() {
    let (plan, err) = plan_zip_extraction("/t", &vec![entry(Some("d/"), true), entry(Some("d/f.txt"), false), entry(None, false), entry(Some("x"), false)], false);
    assert_eq!(plan.len(), 2);
    assert_eq!((plan[0].index, plan[0].path.as_str(), plan[0].is_dir), (0, "/t/d/", true));
    assert_eq!((plan[1].index, plan[1].path.as_str(), plan[1].is_dir), (1, "/t/d/f.txt", false));
    assert_eq!(err, Some("压缩包包含非法路径。".to_string()));
    let (plan, err) = plan_zip_extraction("/t/", &vec![entry(Some("a"), false)], false);
    assert_eq!(plan[0].path, "/t/a");
    assert_eq!(err, None);
}

#[test]
fn sync_needs_a_backup() {
    assert_eq!(require_backup(true), Ok(()));
    assert_eq!(require_backup(false), Err("请先备份当前 mods 后再同步。".to_string()));
}

#[test]
fn backup_plan_and_archives_to_move() {
    let p = plan_backup("/g", "mods_backup_202401011200", false);
    assert_eq!(p.directory, "/g/mods_backup_202401011200");
    assert_eq!(p.mods_target, "/g/mods_backup_202401011200/mods");
    let entries = vec![
        PathEntry { path: "/g/mods.zip".to_string(), name: "mods.zip".to_string() },
        PathEntry { path: "/g/readme.txt".to_string(), name: "readme.txt".to_string() },
        PathEntry { path: "/g/Extra.ZIP".to_string(), name: "Extra.ZIP".to_string() },
    ];
    let moves = zip_files_to_back_up(&p.directory, &entries, false);
    let pairs: Vec<(&str, &str)> = moves.iter().map(|m| (m.from.as_str(), m.to.as_str())).collect();
    assert_eq!(
        pairs,
        vec![
            ("/g/mods.zip", "/g/mods_backup_202401011200/mods.zip"),
            ("/g/Extra.ZIP", "/g/mods_backup_202401011200/Extra.ZIP"),
        ]
    );
    assert_eq!(backup_message("mods_backup_202401011200"), "已备份到：mods_backup_202401011200");
}

#[test]
fn restore_moves_items_back_by_name() {
    let items = vec!["/g/b/mods".to_string(), "/g/b/x.zip".to_string()];
    let (moves, err) = plan_restore("/g", &items, false);
    let pairs: Vec<(&str, &str)> = moves.iter().map(|m| (m.from.as_str(), m.to.as_str())).collect();
    assert_eq!(pairs, vec![("/g/b/mods", "/g/mods"), ("/g/b/x.zip", "/g/x.zip")]);
    assert_eq!(err, None);
    let (moves, err) = plan_restore("/g", &vec!["/g/b/a".to_string(), "/g/b/..".to_string(), "/g/b/c".to_string()], false);
    assert_eq!(moves.len(), 1);
    assert_eq!(err, Some("备份目录中存在无效文件名。".to_string()));
    assert_eq!(restore_message("/g/mods_backup_202401011200", false), "已从 mods_backup_202401011200 还原。");
    assert_eq!(restore_message("/", false), "已从  还原。");
    assert_eq!(restore_message("C:\\g\\mods_backup_202401011200", true), "已从 mods_backup_202401011200 还原。");
}

#[test]
fn restore_keeps_backslash_names_on_unix() {
    let (moves, err) = plan_restore("g", &vec!["g/n/a\\b".to_string()], false);
    assert_eq!((moves[0].from.as_str(), moves[0].to.as_str()), ("g/n/a\\b", "g/a\\b"));
    assert_eq!(err, None);
    let (moves, _) = plan_restore("g", &vec!["g/n/a\\b".to_string()], true);
    assert_eq!(moves[0].to, "g\\b");
}

#[test]
fn restoring_undoes_backing_up() {
    for windows in [false, true] {
        let backup = plan_backup("/g", "mods_backup_202401011200", windows);
        let entries = vec![
            PathEntry { path: join_path("/g", "a\\b.zip", windows), name: "a\\b.zip".to_string() },
            PathEntry { path: join_path("/g", "m.zip", windows), name: "m.zip".to_string() },
        ];
        let moves = zip_files_to_back_up(&backup.directory, &entries, windows);
        let mut items: Vec<String> = moves.iter().map(|m| m.to.clone()).collect();
        items.push(backup.mods_target.clone());
        let (back, err) = plan_restore("/g", &items, windows);
        assert_eq!(err, None);
        let targets: Vec<&str> = back.iter().map(|m| m.to.as_str()).collect();
        if windows {
            assert_eq!(targets, vec!["/g\\b.zip", "/g\\m.zip", "/g\\mods"]);
        } else {
            assert_eq!(targets, vec!["/g/a\\b.zip", "/g/m.zip", "/g/mods"]);
        }
    }
}

#[test]
fn windows_paths_in_plans() {
    let p = plan_backup("C:\\g", "mods_backup_202401011200", true);
    assert_eq!(p.directory, "C:\\g\\mods_backup_202401011200");
    assert_eq!(p.mods_target, "C:\\g\\mods_backup_202401011200\\mods");
    assert_eq!(common_mod_to_delete("C:\\g\\mods_common", "ModA", true), Ok("C:\\g\\mods_common\\ModA".to_string()));
    assert_eq!(common_mod_to_delete("C:\\g\\mods_common", "D:x", true), Err("无效的模组名称。".to_string()));
    assert_eq!(
        common_mod_destination("C:/g/mods\\ModA", "C:\\g\\mods", "C:\\g\\mods_common", true),
        Ok(("ModA".to_string(), "C:\\g\\mods_common\\ModA".to_string()))
    );
    assert_eq!(
        common_mod_destination("/g/mods/a\\b", "/g/mods", "/g/mods_common", false),
        Err("文件夹名称无效。".to_string())
    );
}

#[test]
fn common_mods_are_copied_by_name() {
    assert_eq!(common_mods_status(false, false), Ok(false));
    assert_eq!(common_mods_status(true, true), Ok(true));
    assert_eq!(common_mods_status(true, false), Err("mods_common 不是目录。".to_string()));
    let (copies, err) = plan_common_mod_copies("/g/mods", &vec!["/g/mods_common/A".to_string(), "/g/mods_common/B".to_string()], false);
    let pairs: Vec<(&str, &str)> = copies.iter().map(|m| (m.from.as_str(), m.to.as_str())).collect();
    assert_eq!(pairs, vec![("/g/mods_common/A", "/g/mods/A"), ("/g/mods_common/B", "/g/mods/B")]);
    assert_eq!(err, None);
    let (copies, err) = plan_common_mod_copies("/g/mods", &vec!["/g/mods_common/A".to_string(), "/g/mods_common/ ".to_string()], false);
    assert_eq!(copies.len(), 1);
    assert_eq!(err, Some("文件夹名称无效。".to_string()));
}

#[test]
fn copying_over_removes_the_target_first() {
    let steps = copy_path_overwrite("/s", "/t");
    assert_eq!(steps.len(), 2);
    assert!(matches!(&steps[0], CopyStep::RemoveIfExists(p) if p == "/t"));
    assert!(matches!(&steps[1], CopyStep::CopyRecursive { from, to } if from == "/s" && to == "/t"));
}

#[test]
fn adding_a_common_mod() {
    assert_eq!(check_mod_source(false, false), Err("选择的模组不存在。".to_string()));
    assert_eq!(check_mod_source(true, false), Err("请选择模组文件夹。".to_string()));
    assert_eq!(check_mod_source(true, true), Ok(()));
    assert_eq!(
        common_mod_destination("/g/mods/ModA", "/g/mods", "/g/mods_common", false),
        Ok(("ModA".to_string(), "/g/mods_common/ModA".to_string()))
    );
    assert_eq!(
        common_mod_destination("/g/mods/ModA/sub", "/g/mods", "/g/mods_common", false),
        Err("请选择当前 mods 目录下的一级模组文件夹。".to_string())
    );
    assert_eq!(
        common_mod_destination("/elsewhere/ModA", "/g/mods", "/g/mods_common", false),
        Err("请选择当前 mods 目录下的一级模组文件夹。".to_string())
    );
}

#[test]
fn deleting_common_mods_and_backups() {
    assert_eq!(common_mod_to_delete("/g/mods_common", "  ModA ", false), Ok("/g/mods_common/ModA".to_string()));
    assert_eq!(common_mod_to_delete("/g/mods_common", "../x", false), Err("无效的模组名称。".to_string()));
    assert_eq!(common_mod_to_delete("/g/mods_common", "..", false), Err("无效的模组名称。".to_string()));
    assert_eq!(backup_to_delete("/g", " mods_backup_202401011200", false), Ok("/g/mods_backup_202401011200".to_string()));
    assert_eq!(backup_to_delete("/g", "mods", false), Err("无效的备份目录名称。".to_string()));
}

#[test]
fn opening_needs_a_directory() {
    assert_eq!(check_open_directory(false, false), Err("目录不存在。".to_string()));
    assert_eq!(check_open_directory(true, false), Err("指定路径不是目录。".to_string()));
    assert_eq!(check_open_directory(true, true), Ok(()));
}

#[test]
fn restore_steps_clear_each_target_then_move() {
    let items = vec!["/g/b/mods".to_string(), "/g/b/x.zip".to_string()];
    let (steps, err) = restore_steps("/g", "/g/b", &items, false);
    assert_eq!(err, None);
    assert_eq!(steps.len(), 5);
    assert!(matches!(&steps[0], RestoreStep::RemoveIfExists(p) if p == "/g/mods"));
    assert!(matches!(&steps[1], RestoreStep::Rename { from, to } if from == "/g/b/mods" && to == "/g/mods"));
    assert!(matches!(&steps[2], RestoreStep::RemoveIfExists(p) if p == "/g/x.zip"));
    assert!(matches!(&steps[3], RestoreStep::Rename { from, to } if from == "/g/b/x.zip" && to == "/g/x.zip"));
    assert!(matches!(&steps[4], RestoreStep::RemoveDirIfEmpty(p) if p == "/g/b"));
    let (steps, err) = restore_steps("/g", "/g/b", &vec!["/g/b/a".to_string(), "/g/b/..".to_string()], false);
    assert_eq!(steps.len(), 2);
    assert_eq!(err, Some("备份目录中存在无效文件名。".to_string()));
}

#[test]
fn copying_a_tree_one_level_at_a_time() {
    let children = vec![
        PathEntry { path: "/s/a".to_string(), name: "a".to_string() },
        PathEntry { path: "/s/b.txt".to_string(), name: "b.txt".to_string() },
    ];
    let steps = copy_tree_steps("/s", "/t", true, &children, false);
    assert_eq!(steps.len(), 3);
    assert!(matches!(&steps[0], TreeStep::CreateDirAll(p) if p == "/t"));
    assert!(matches!(&steps[1], TreeStep::CopyEntry { from, to } if from == "/s/a" && to == "/t/a"));
    assert!(matches!(&steps[2], TreeStep::CopyEntry { from, to } if from == "/s/b.txt" && to == "/t/b.txt"));
    let steps = copy_tree_steps("/s/f", "/t/f", false, &vec![], true);
    assert_eq!(steps.len(), 2);
    assert!(matches!(&steps[0], TreeStep::CreateParentOf(p) if p == "/t/f"));
    assert!(matches!(&steps[1], TreeStep::CopyFile { from, to } if from == "/s/f" && to == "/t/f"));
    let steps = copy_tree_steps("/s", "C:\\t", true, &vec![PathEntry { path: "/s/a".to_string(), name: "a".to_string() }], true);
    assert!(matches!(&steps[1], TreeStep::CopyEntry { to, .. } if to == "C:\\t\\a"));
}
