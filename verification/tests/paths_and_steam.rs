use sts2_mod_sync::layout::{common_mods_directory, ensure_game_directory, GameLayout, GAME_DIRECTORY_MISSING};
use sts2_mod_sync::paths::{
    file_name, is_parent, join_path, path_components, path_drive, path_has_root, path_to_string, same_path,
};
use sts2_mod_sync::steam::{
    drive_scan_order, game_directory_candidates, game_executable_candidates,
    is_valid_game_directory, library_folders_file, parse_steam_library_paths, push_unique_path,
    steam_root_candidates,
};

#[test]
fn join_adds_one_separator() {
    assert_eq!(join_path("/game", "mods", false), "/game/mods");
    assert_eq!(join_path("/game/", "mods", false), "/game/mods");
    assert_eq!(join_path("", "mods", false), "mods");
    assert_eq!(join_path("C:/", "Steam", false), "C:/Steam");
    assert_eq!(join_path("/game\\", "mods", false), "/game\\/mods");
    assert_eq!(join_path("C:\\game\\", "mods", true), "C:\\game\\mods");
    assert_eq!(join_path("C:\\game", "mods", true), "C:\\game\\mods");
    assert_eq!(join_path("C:/", "Steam", true), "C:/Steam");
    assert_eq!(join_path("", "mods", true), "mods");
}

#[test]
fn join_follows_the_platform_for_roots_and_drives() {
    assert_eq!(join_path("/g", "/x", false), "/x");
    assert_eq!(join_path("C:", "mods", false), "C:/mods");
    assert_eq!(join_path("C:", "mods", true), "C:mods");
    assert_eq!(join_path("c:", "mods", true), "c:mods");
    assert_eq!(join_path("C:\\g", "\\x", true), "C:\\x");
    assert_eq!(join_path("g", "/x", true), "/x");
    assert_eq!(join_path("C:\\g", "D:x", true), "D:x");
    assert_eq!(join_path("g", "D:x", false), "g/D:x");
    assert_eq!(join_path("a", "", false), "a/");
}

#[test]
fn components_ignore_empty_and_dot_pieces() {
    assert_eq!(path_components("/a//b/./c/", false), vec!["a", "b", "c"]);
    assert_eq!(path_components("./a", false), vec![".", "a"]);
    assert!(path_components("/", false).is_empty());
    assert_eq!(path_components("C:\\x/y", false), vec!["C:\\x", "y"]);
    assert_eq!(path_components("C:\\x/y", true), vec!["x", "y"]);
    assert_eq!(path_components("C:.\\x", true), vec![".", "x"]);
    assert_eq!(path_components("a\\b", false), vec!["a\\b"]);
    assert_eq!(path_components("a\\b", true), vec!["a", "b"]);
}

#[test]
fn roots_and_drives() {
    assert!(path_has_root("/a", false));
    assert!(!path_has_root("\\a", false));
    assert!(path_has_root("\\a", true));
    assert!(path_has_root("C:\\a", true));
    assert!(!path_has_root("C:a", true));
    assert!(!path_has_root("C:\\a", false));
    assert_eq!(path_drive("c:\\a", true), Some('C' as u32));
    assert_eq!(path_drive("C:a", true), Some('C' as u32));
    assert_eq!(path_drive("C:a", false), None);
    assert_eq!(path_drive("1:a", true), None);
}

#[test]
fn same_path_compares_components_and_root() {
    assert!(same_path("/a/b", "/a//b/", false));
    assert!(!same_path("/a/b", "a/b", false));
    assert!(!same_path("/a/b", "/a/c", false));
    assert!(same_path("C:\\Steam/steamapps", "C:/Steam/steamapps", true));
    assert!(!same_path("C:\\Steam/steamapps", "C:/Steam/steamapps", false));
    assert!(same_path("c:\\a", "C:\\a", true));
    assert!(!same_path("C:\\", "C:", true));
    assert!(!same_path("C:\\a", "D:\\a", true));
    assert!(!same_path("a/b", "a\\b", false));
    assert!(same_path("a/b", "a\\b", true));
}

#[test]
fn parents_and_file_names() {
    assert!(is_parent("/game/mods", "/game/mods/ModA", false));
    assert!(is_parent("/game/mods/", "/game/mods/ModA/", false));
    assert!(!is_parent("/game/mods", "/game/mods/ModA/sub", false));
    assert!(!is_parent("/game/mods", "/game/other/ModA", false));
    assert!(!is_parent("x", "x/a\\b", true));
    assert!(is_parent("x", "x/a\\b", false));
    assert!(is_parent("C:", "C:a", true));
    assert!(is_parent("C:\\", "C:\\a", true));
    assert!(!is_parent("", "C:a", true));
    assert_eq!(file_name("/game/mods/ModA", false), Some("ModA".to_string()));
    assert_eq!(file_name("/game/mods/.", false), Some("mods".to_string()));
    assert_eq!(file_name("/game/..", false), None);
    assert_eq!(file_name("", false), None);
    assert_eq!(file_name("x/a\\b", false), Some("a\\b".to_string()));
    assert_eq!(file_name("x/a\\b", true), Some("b".to_string()));
    assert_eq!(file_name("C:\\", true), None);
    assert_eq!(file_name("C:", true), None);
    assert_eq!(file_name("C:", false), Some("C:".to_string()));
}

#[test]
fn displayed_paths_use_backslashes_on_windows() {
    assert_eq!(path_to_string("C:/Games/Slay", true), "C:\\Games\\Slay");
    assert_eq!(path_to_string("C:/Games/Slay", false), "C:/Games/Slay");
}

#[test]
fn game_directory_must_exist_as_directory() {
    assert_eq!(ensure_game_directory("/g", true, true), Ok("/g".to_string()));
    assert_eq!(ensure_game_directory("/g", false, false), Err(GAME_DIRECTORY_MISSING.to_string()));
    assert_eq!(ensure_game_directory("/g", true, false), Err("游戏目录不存在。".to_string()));
}

#[test]
fn layout_paths() {
    let l = GameLayout::new("/g", false);
    assert_eq!(l.mods, "/g/mods");
    assert_eq!(l.common_mods, "/g/mods_common");
    assert_eq!(l.archive, "/g/mods.zip");
    assert_eq!(l.download_temp, "/g/mods.zip.__download__");
    assert_eq!(l.extract, "/g/mods.__extract__");
    assert_eq!(l.incoming, "/g/mods.__incoming__");
    assert_eq!(l.previous, "/g/mods.__previous__");
    assert_eq!(common_mods_directory("/g", false), "/g/mods_common");
    assert_eq!(common_mods_directory("C:\\g", true), "C:\\g\\mods_common");
    assert_eq!(GameLayout::new("C:", true).mods, "C:mods");
    assert_eq!(
        l.stale_temp_paths(),
        vec!["/g/mods.__extract__", "/g/mods.__incoming__", "/g/mods.__previous__", "/g/mods.zip.__download__"]
    );
}

#[test]
fn layout_paths_are_distinct_children() {
    for windows in [false, true] {
        let l = GameLayout::new("/g/", windows);
        let all = [&l.mods, &l.common_mods, &l.archive, &l.download_temp, &l.extract, &l.incoming, &l.previous];
        for (i, a) in all.iter().enumerate() {
            assert!(is_parent("/g/", a, windows));
            for b in all.iter().skip(i + 1) {
                assert!(!same_path(a, b, windows));
            }
        }
    }
}

#[test]
fn drives_are_scanned_from_c() {
    let d = drive_scan_order();
    assert_eq!(d.len(), 26);
    assert_eq!(d[0], 'C');
    assert_eq!(d[23], 'Z');
    assert_eq!(&d[24..], &['A', 'B']);
}

#[test]
fn executables() {
    assert_eq!(game_executable_candidates(), vec!["Slay the Spire 2.exe", "SlayTheSpire2.exe"]);
}

#[test]
fn push_unique_skips_the_same_path() {
    let mut v = vec!["C:/Steam".to_string()];
    push_unique_path(&mut v, "C:\\Steam\\".to_string(), true);
    assert_eq!(v.len(), 1);
    push_unique_path(&mut v, "c:/Steam".to_string(), true);
    assert_eq!(v.len(), 1);
    push_unique_path(&mut v, "D:/Steam".to_string(), true);
    assert_eq!(v, vec!["C:/Steam", "D:/Steam"]);
    push_unique_path(&mut v, "D:/Steam".to_string(), true);
    assert_eq!(v.len(), 2);
}

#[test]
fn push_unique_keeps_backslash_names_apart_on_unix() {
    let mut v = vec!["a/b".to_string()];
    push_unique_path(&mut v, "a\\b".to_string(), false);
    assert_eq!(v, vec!["a/b", "a\\b"]);
    push_unique_path(&mut v, "a//b/".to_string(), false);
    assert_eq!(v.len(), 2);
    let mut w = vec!["a/b".to_string()];
    push_unique_path(&mut w, "a\\b".to_string(), true);
    assert_eq!(w, vec!["a/b"]);
}

const VDF: &str = "\"libraryfolders\"\n{\n\t\"0\"\n\t{\n\t\t\"path\"\t\t\"C:\\\\Program Files (x86)\\\\Steam\"\n\t\t\"label\"\t\t\"\"\n\t}\n\t\"1\"\n\t{\n\t\t\"path\"\t\t\"D:\\\\SteamLibrary\"\r\n\t}\n}\n";

#[test]
fn library_folders_are_read_from_vdf() {
    assert_eq!(
        parse_steam_library_paths(VDF),
        vec!["C:\\Program Files (x86)\\Steam", "D:\\SteamLibrary"]
    );
    assert!(parse_steam_library_paths("").is_empty());
    assert!(parse_steam_library_paths("\"path\"").is_empty());
    assert_eq!(parse_steam_library_paths("x\"path\"y\"E:\\\\L\""), vec!["E:\\L"]);
}

#[test]
fn steam_roots_per_existing_drive() {
    assert_eq!(
        steam_root_candidates(&vec!['C', 'E'], false),
        vec![
            "C:/Program Files (x86)/Steam",
            "C:/Program Files/Steam",
            "C:/Steam",
            "E:/Program Files (x86)/Steam",
            "E:/Program Files/Steam",
            "E:/Steam",
        ]
    );
    assert!(steam_root_candidates(&vec![], true).is_empty());
    assert_eq!(steam_root_candidates(&vec!['D'], true), vec!["D:/Program Files (x86)/Steam", "D:/Program Files/Steam", "D:/Steam"]);
    assert_eq!(library_folders_file("C:/Steam", false), "C:/Steam/steamapps/libraryfolders.vdf");
    assert_eq!(library_folders_file("C:/Steam", true), "C:/Steam\\steamapps/libraryfolders.vdf");
}

#[test]
fn candidates_come_from_libraries_then_drives_without_duplicates() {
    let c = game_directory_candidates(&vec![Some(VDF.to_string()), None], &vec!['C'], true);
    assert_eq!(
        c,
        vec![
            "C:\\Program Files (x86)\\Steam\\steamapps/common\\Slay the Spire 2",
            "D:\\SteamLibrary\\steamapps/common\\Slay the Spire 2",
            "C:/Steam/steamapps/common\\Slay the Spire 2",
            "C:/SteamLibrary/steamapps/common\\Slay the Spire 2",
            "C:/Program Files/Steam/steamapps/common\\Slay the Spire 2",
        ]
    );
    for (i, a) in c.iter().enumerate() {
        for b in c.iter().skip(i + 1) {
            assert!(!same_path(a, b, true));
        }
    }
}

#[test]
fn candidates_differing_in_backslashes_stay_apart_on_unix() {
    let c = game_directory_candidates(&vec![Some(VDF.to_string()), None], &vec!['C'], false);
    assert_eq!(
        c,
        vec![
            "C:\\Program Files (x86)\\Steam/steamapps/common/Slay the Spire 2",
            "D:\\SteamLibrary/steamapps/common/Slay the Spire 2",
            "C:/Steam/steamapps/common/Slay the Spire 2",
            "C:/SteamLibrary/steamapps/common/Slay the Spire 2",
            "C:/Program Files (x86)/Steam/steamapps/common/Slay the Spire 2",
            "C:/Program Files/Steam/steamapps/common/Slay the Spire 2",
        ]
    );
}

#[test]
fn game_directory_validity() {
    assert!(is_valid_game_directory(true, true, true, false));
    assert!(is_valid_game_directory(true, true, false, true));
    assert!(!is_valid_game_directory(true, true, false, false));
    assert!(!is_valid_game_directory(true, false, true, true));
    assert!(!is_valid_game_directory(false, false, true, true));
}
