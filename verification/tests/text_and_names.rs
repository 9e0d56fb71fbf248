use sts2_mod_sync::names::{
    backup_dir_name, child_name_from_path, eq_ignore_ascii_case, extension, has_zip_extension,
    is_safe_child_name, is_valid_backup_name, INVALID_FOLDER_NAME,
};
use sts2_mod_sync::text::{
    chars_of, collapse_double_backslashes, lines, split_at_separators, trim, Separator,
};
use sts2_mod_sync::workflows::generate_backup_dir_name;

#[test]
fn trim_removes_unicode_white_space_at_both_ends() {
    assert_eq!(trim("  abc \t\n"), "abc");
    assert_eq!(trim("\u{3000}名字\u{00A0}"), "名字");
    assert_eq!(trim("a b"), "a b");
    assert_eq!(trim(" \t "), "");
    assert_eq!(trim(""), "");
}

#[test]
fn trim_is_idempotent_on_examples() {
    for s in ["  x  ", "\u{2028}y", "z\u{205F}", "   "] {
        let once = trim(s);
        assert_eq!(trim(&once), once);
        assert_eq!(once, s.trim());
    }
}

#[test]
fn chars_of_keeps_every_character() {
    assert_eq!(chars_of("aé中"), vec!['a', 'é', '中']);
}

#[test]
fn split_yields_one_more_piece_than_separators() {
    assert_eq!(split_at_separators("a\"b\"\"c", Separator::Char('"')), vec!["a", "b", "", "c"]);
    assert_eq!(split_at_separators("", Separator::Char('"')), vec![""]);
    assert_eq!(split_at_separators("a/b\\c", Separator::Path { windows: true }), vec!["a", "b", "c"]);
    assert_eq!(split_at_separators("a/b\\c", Separator::Path { windows: false }), vec!["a", "b\\c"]);
}

#[test]
fn lines_behave_like_str_lines() {
    for s in ["a\nb", "a\r\nb\r\n", "\n", "", "x\r", "a\n\nb\n", "a\r\r\n"] {
        let expected: Vec<String> = s.lines().map(|l| l.to_string()).collect();
        assert_eq!(lines(s), expected, "input {:?}", s);
    }
}

#[test]
fn doubled_backslashes_become_single() {
    assert_eq!(collapse_double_backslashes("C:\\\\Games\\\\Steam"), "C:\\Games\\Steam");
    assert_eq!(collapse_double_backslashes("a\\\\\\b"), "a\\\\b");
    assert_eq!(collapse_double_backslashes("plain"), "plain");
    let s = "x\\\\\\\\y";
    assert_eq!(collapse_double_backslashes(s), s.replace("\\\\", "\\"));
}

#[test]
fn safe_child_names() {
    assert!(is_safe_child_name("SomeMod"));
    assert!(is_safe_child_name("  padded  "));
    assert!(is_safe_child_name("..."));
    assert!(!is_safe_child_name(""));
    assert!(!is_safe_child_name("   "));
    assert!(!is_safe_child_name("."));
    assert!(!is_safe_child_name(" .. "));
    assert!(!is_safe_child_name("a/b"));
    assert!(!is_safe_child_name("a\\b"));
}

#[test]
fn child_name_is_the_safe_file_name() {
    assert_eq!(child_name_from_path("/game/mods_common/ModA", false), Ok("ModA".to_string()));
    assert_eq!(child_name_from_path("/game/mods_common/ModA/", false), Ok("ModA".to_string()));
    assert_eq!(child_name_from_path("C:\\game\\mods\\ModB", true), Ok("ModB".to_string()));
    assert_eq!(child_name_from_path("C:\\game\\mods\\ModB", false), Err(INVALID_FOLDER_NAME.to_string()));
    assert_eq!(child_name_from_path("x/a\\b", false), Err(INVALID_FOLDER_NAME.to_string()));
    assert_eq!(child_name_from_path("x/a\\b", true), Ok("b".to_string()));
    assert_eq!(child_name_from_path("C:\\", true), Err(INVALID_FOLDER_NAME.to_string()));
    assert_eq!(child_name_from_path("/game/..", false), Err(INVALID_FOLDER_NAME.to_string()));
    assert_eq!(child_name_from_path("/", false), Err(INVALID_FOLDER_NAME.to_string()));
    assert_eq!(child_name_from_path("/game/   ", false), Err(INVALID_FOLDER_NAME.to_string()));
}

#[test]
fn backup_names() {
    assert!(is_valid_backup_name("mods_backup_202401311259"));
    assert!(!is_valid_backup_name("mods_backup_20240131125"));
    assert!(!is_valid_backup_name("mods_backup_2024013112590"));
    assert!(!is_valid_backup_name("mods_backup_20240131125a"));
    assert!(!is_valid_backup_name("mods_backup_２０２４０１３１１２５９"));
    assert!(!is_valid_backup_name("Mods_backup_202401311259"));
    assert!(!is_valid_backup_name("202401311259"));
}

#[test]
fn backup_name_from_stamp_is_valid_exactly_for_minute_stamps() {
    assert_eq!(backup_dir_name("202401311259"), "mods_backup_202401311259");
    assert!(is_valid_backup_name(&backup_dir_name("202401311259")));
    assert!(!is_valid_backup_name(&backup_dir_name("2024013112")));
    assert!(!is_valid_backup_name(&backup_dir_name("20240131125x")));
}

#[test]
fn a_backup_made_now_has_a_valid_name() {
    let name = generate_backup_dir_name();
    assert!(name.starts_with("mods_backup_"));
    assert!(name.len() >= 24);
    assert!(name[name.len() - 8..].chars().all(|c| c.is_ascii_digit()));
    assert!(is_valid_backup_name(&name), "{}", name);
}

#[test]
fn later_backup_names_sort_later() {
    let a = backup_dir_name("202401011200");
    let b = backup_dir_name("202401011201");
    let c = backup_dir_name("202402010000");
    let d = backup_dir_name("202501010000");
    assert!(a < b && b < c && c < d);
    assert!(backup_dir_name("209912312359") > d);
}

#[test]
fn extensions_follow_path_extension() {
    assert_eq!(extension("a.zip"), Some("zip".to_string()));
    assert_eq!(extension("a.b.ZIP"), Some("ZIP".to_string()));
    assert_eq!(extension(".zip"), None);
    assert_eq!(extension("noext"), None);
    assert_eq!(extension("a."), Some("".to_string()));
    assert_eq!(extension(".."), None);
}

#[test]
fn zip_archives_are_recognised_in_any_case() {
    assert!(has_zip_extension("/g/mods.zip", false));
    assert!(has_zip_extension("/g/Other.Zip", false));
    assert!(!has_zip_extension("/g/.zip", false));
    assert!(!has_zip_extension("/g/mods.zip.__download__", false));
    assert!(!has_zip_extension("/g/mods", false));
    assert!(has_zip_extension("C:\\g\\a.ZIP", true));
    assert!(!has_zip_extension("/g/a.zip\\b", false));
    assert!(has_zip_extension("/g/b\\a.zip", false));
}

#[test]
fn ascii_case_insensitive_equality() {
    assert!(eq_ignore_ascii_case("MODS", "mods"));
    assert!(eq_ignore_ascii_case("MoDs", "mOdS"));
    assert!(!eq_ignore_ascii_case("mods", "mod"));
    assert!(!eq_ignore_ascii_case("É", "é"));
}
