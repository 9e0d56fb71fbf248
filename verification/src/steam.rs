//! Finding the game directory: Steam roots on each drive, the library
//! folders that Steam lists, and the candidate game directories.
use vstd::prelude::*;
use crate::text::{
    collapse_backslashes, collapse_double_backslashes, lines, lines_seq, split_at_separators,
    split_seq, views, Separator,
};
use crate::paths::{join_path, join_seq, same_path, same_path_seq};

verus! {

/// The game's folder under a Steam library's `steamapps/common`.
pub const GAME_FOLDER_NAME: &'static str = "Slay the Spire 2";

/// The relative path from a Steam library to the folder of installed games.
pub const STEAM_COMMON_DIR: &'static str = "steamapps/common";

/// The relative path from a Steam root to its list of library folders.
pub const LIBRARY_FOLDERS_FILE: &'static str = "steamapps/libraryfolders.vdf";

/// `String::from(c)`: the one-character string `c`.
#[verifier::external_body]
fn char_string(c: char) -> (r: String)
    ensures
        r@ == seq![c],
{
    String::from(c)
}

/// The drive letters in the order they are scanned: `C` to `Z`, then `A`, `B`.
pub open spec fn drive_order() -> Seq<char> {
    seq![
        'C', 'D', 'E', 'F', 'G', 'H', 'I', 'J', 'K', 'L', 'M', 'N', 'O', 'P', 'Q', 'R', 'S', 'T',
        'U', 'V', 'W', 'X', 'Y', 'Z', 'A', 'B',
    ]
}

/// The code of the drive letter scanned in position `i`: `C` to `Z` for the
/// first 24 positions, then `A` and `B`.
pub open spec fn scan_position_code(i: int) -> int {
    if i < 24 {
        'C' as int + i
    } else {
        'A' as int + (i - 24)
    }
}

proof fn lemma_drive_order_codes()
    ensures
        drive_order().len() == 26,
        forall|i: int| 0 <= i < 26 ==> #[trigger] drive_order()[i] as int == scan_position_code(i),
{
    let s = drive_order();
        assert(s[0] == 'C');
        assert(s[1] == 'D');
        assert(s[2] == 'E');
        assert(s[3] == 'F');
        assert(s[4] == 'G');
        assert(s[5] == 'H');
        assert(s[6] == 'I');
        assert(s[7] == 'J');
        assert(s[8] == 'K');
        assert(s[9] == 'L');
        assert(s[10] == 'M');
        assert(s[11] == 'N');
        assert(s[12] == 'O');
        assert(s[13] == 'P');
        assert(s[14] == 'Q');
        assert(s[15] == 'R');
        assert(s[16] == 'S');
        assert(s[17] == 'T');
        assert(s[18] == 'U');
        assert(s[19] == 'V');
        assert(s[20] == 'W');
        assert(s[21] == 'X');
        assert(s[22] == 'Y');
        assert(s[23] == 'Z');
        assert(s[24] == 'A');
        assert(s[25] == 'B');
    assert forall|i: int| 0 <= i < 26 implies #[trigger] s[i] as int == scan_position_code(i) by {
        if i == 0 {
        } else if i == 1 {
        } else if i == 2 {
        } else if i == 3 {
        } else if i == 4 {
        } else if i == 5 {
        } else if i == 6 {
        } else if i == 7 {
        } else if i == 8 {
        } else if i == 9 {
        } else if i == 10 {
        } else if i == 11 {
        } else if i == 12 {
        } else if i == 13 {
        } else if i == 14 {
        } else if i == 15 {
        } else if i == 16 {
        } else if i == 17 {
        } else if i == 18 {
        } else if i == 19 {
        } else if i == 20 {
        } else if i == 21 {
        } else if i == 22 {
        } else if i == 23 {
        } else if i == 24 {
        }
    }
}

/// Every drive letter from `A` to `Z` is scanned, each exactly once: `C`
/// to `Z` in alphabetical order first, then `A` and `B`.
pub proof fn lemma_drive_order_alphabet()
    ensures
        drive_order().len() == 26,
        forall|i: int| 0 <= i < 24 ==> #[trigger] drive_order()[i] as int == 'C' as int + i,
        drive_order()[24] == 'A',
        drive_order()[25] == 'B',
        forall|i: int, j: int|
            0 <= i < j < 26 ==> #[trigger] drive_order()[i] != #[trigger] drive_order()[j],
        forall|c: char| 'A' <= c <= 'Z' ==> #[trigger] drive_order().contains(c),
{
    lemma_drive_order_codes();
    let s = drive_order();
    assert(s[24] as int == 'A' as int);
    assert(s[25] as int == 'B' as int);
    assert forall|i: int, j: int| 0 <= i < j < 26 implies #[trigger] s[i] != #[trigger] s[j] by {
        assert(s[i] as int == scan_position_code(i));
        assert(s[j] as int == scan_position_code(j));
    }
    assert forall|c: char| 'A' <= c <= 'Z' implies #[trigger] s.contains(c) by {
        let k: int = if c as int >= 'C' as int {
            c as int - 'C' as int
        } else {
            c as int - 'A' as int + 24
        };
        assert(s[k] as int == scan_position_code(k));
        assert(s[k] as int == c as int);
        assert(s[k] == c);
    }
}

/// The drive letters in scanning order.
pub fn drive_scan_order() -> (r: Vec<char>)
    ensures
        r@ == drive_order(),
{
    let r = vec![
        'C', 'D', 'E', 'F', 'G', 'H', 'I', 'J', 'K', 'L', 'M', 'N', 'O', 'P', 'Q', 'R', 'S', 'T',
        'U', 'V', 'W', 'X', 'Y', 'Z', 'A', 'B',
    ];
    assert(r@ =~= drive_order());
    r
}

/// The names under which the game's executable may be installed.
pub fn game_executable_candidates() -> (r: Vec<String>)
    ensures
        views(r@) == seq!["Slay the Spire 2.exe"@, "SlayTheSpire2.exe"@],
{
    let r = vec![String::from_str("Slay the Spire 2.exe"), String::from_str("SlayTheSpire2.exe")];
    assert(views(r@) =~= seq!["Slay the Spire 2.exe"@, "SlayTheSpire2.exe"@]);
    r
}

/// Where Steam libraries commonly sit under a drive root.
pub open spec fn common_steam_paths() -> Seq<Seq<char>> {
    seq![
        "Steam/steamapps/common"@,
        "SteamLibrary/steamapps/common"@,
        "Program Files (x86)/Steam/steamapps/common"@,
        "Program Files/Steam/steamapps/common"@,
    ]
}

/// `paths` with `p` added at the end unless it names a path already there.
pub open spec fn push_unique_seq(paths: Seq<Seq<char>>, p: Seq<char>, w: bool) -> Seq<Seq<char>> {
    if exists|j: int| 0 <= j < paths.len() && same_path_seq(#[trigger] paths[j], p, w) {
        paths
    } else {
        paths.push(p)
    }
}

/// `paths` with each of `new`, in order, added by `push_unique_seq`.
pub open spec fn push_all_unique(paths: Seq<Seq<char>>, new: Seq<Seq<char>>, w: bool) -> Seq<Seq<char>>
    decreases new.len(),
{
    if new.len() == 0 {
        paths
    } else {
        push_unique_seq(push_all_unique(paths, new.drop_last(), w), new.last(), w)
    }
}

/// Adds `path` to `paths` unless a path in `paths` names the same path.
pub fn push_unique_path(paths: &mut Vec<String>, path: String, windows: bool)
    ensures
        views(final(paths)@) == push_unique_seq(views(old(paths)@), path@, windows),
{
    let n = paths.len();
    for i in 0..n
        invariant
            n == paths.len(),
            paths@ == old(paths)@,
            forall|j: int| 0 <= j < i ==> !same_path_seq(#[trigger] views(paths@)[j], path@, windows),
    {
        if same_path(paths[i].as_str(), path.as_str(), windows) {
            assert(same_path_seq(views(paths@)[i as int], path@, windows));
            return;
        }
    }
    let ghost before = paths@;
    paths.push(path);
    assert(views(paths@) =~= views(before).push(path@));
}

/// No two entries of `ps` name the same path.
pub open spec fn distinct_paths(ps: Seq<Seq<char>>, w: bool) -> bool {
    forall|i: int, j: int|
        0 <= i < j < ps.len() ==> !same_path_seq(#[trigger] ps[i], #[trigger] ps[j], w)
}

/// Every path of `new` is named by some entry of `ps`.
pub open spec fn names_all(ps: Seq<Seq<char>>, new: Seq<Seq<char>>, w: bool) -> bool {
    forall|k: int|
        #![trigger new[k]]
        0 <= k < new.len() ==> exists|j: int|
            0 <= j < ps.len() && same_path_seq(#[trigger] ps[j], new[k], w)
}

/// Adding paths one by one without duplicates keeps a duplicate-free list
/// duplicate-free, keeps what was there in place, and leaves every added
/// path named by some entry.
pub proof fn lemma_push_all_unique_distinct(paths: Seq<Seq<char>>, new: Seq<Seq<char>>, w: bool)
    requires
        distinct_paths(paths, w),
    ensures
        distinct_paths(push_all_unique(paths, new, w), w),
        push_all_unique(paths, new, w).len() >= paths.len(),
        push_all_unique(paths, new, w).take(paths.len() as int) == paths,
        names_all(push_all_unique(paths, new, w), new, w),
    decreases new.len(),
{
    if new.len() > 0 {
        let prev = push_all_unique(paths, new.drop_last(), w);
        lemma_push_all_unique_distinct(paths, new.drop_last(), w);
        let res = push_all_unique(paths, new, w);
        let p = new.last();
        if exists|j: int| 0 <= j < prev.len() && same_path_seq(#[trigger] prev[j], p, w) {
            assert(res == prev);
            assert forall|k: int| #![trigger new[k]] 0 <= k < new.len() implies exists|j: int|
                0 <= j < res.len() && same_path_seq(#[trigger] res[j], new[k], w) by {
                if k < new.len() - 1 {
                    assert(new.drop_last()[k] == new[k]);
                }
            }
        } else {
            assert(res == prev.push(p));
            assert forall|i: int, j: int| 0 <= i < j < res.len() implies !same_path_seq(
                #[trigger] res[i],
                #[trigger] res[j],
                w,
            ) by {
                if j == res.len() - 1 {
                    assert(res[j] == p);
                    assert(res[i] == prev[i]);
                }
            }
            assert(res.take(paths.len() as int) =~= prev.take(paths.len() as int));
            assert forall|k: int| #![trigger new[k]] 0 <= k < new.len() implies exists|j: int|
                0 <= j < res.len() && same_path_seq(#[trigger] res[j], new[k], w) by {
                if k < new.len() - 1 {
                    assert(new.drop_last()[k] == new[k]);
                    let j0 = choose|j: int| 0 <= j < prev.len() && same_path_seq(#[trigger] prev[j], new.drop_last()[k], w);
                    assert(res[j0] == prev[j0]);
                } else {
                    assert(res[res.len() - 1] == p);
                }
            }
        }
    } else {
        assert(paths.take(paths.len() as int) =~= paths);
    }
}

/// The candidate game directories name no path twice, and every directory
/// found in a library file or on a drive is among them.
pub proof fn lemma_game_dir_candidates_distinct(files: Seq<Option<Seq<char>>>, drives: Seq<char>, w: bool)
    ensures
        distinct_paths(game_dir_candidates_seq(files, drives, w), w),
        names_all(
            game_dir_candidates_seq(files, drives, w),
            game_dirs_from_library_files(files, w) + game_dirs_on_drives(drives, w),
            w,
        ),
{
    lemma_push_all_unique_distinct(
        Seq::<Seq<char>>::empty(),
        game_dirs_from_library_files(files, w) + game_dirs_on_drives(drives, w),
        w,
    );
}

/// The drive root `X:/` of drive letter `d`.
pub open spec fn drive_root(d: char) -> Seq<char> {
    seq![d, ':', '/']
}

fn drive_root_string(d: char) -> (r: String)
    ensures
        r@ == drive_root(d),
{
    let mut r = char_string(d);
    r.append(":/");
    proof {
        reveal_strlit(":/");
    }
    assert(r@ =~= drive_root(d));
    r
}

/// The places under drive `d` where Steam itself may be installed.
pub open spec fn steam_roots_on(d: char, w: bool) -> Seq<Seq<char>> {
    seq![
        join_seq(drive_root(d), "Program Files (x86)/Steam"@, w),
        join_seq(drive_root(d), "Program Files/Steam"@, w),
        join_seq(drive_root(d), "Steam"@, w),
    ]
}

/// The Steam roots on each of `drives`, in order, before duplicates go.
pub open spec fn steam_roots_all(drives: Seq<char>, w: bool) -> Seq<Seq<char>>
    decreases drives.len(),
{
    if drives.len() == 0 {
        Seq::<Seq<char>>::empty()
    } else {
        steam_roots_all(drives.drop_last(), w) + steam_roots_on(drives.last(), w)
    }
}

proof fn lemma_push_all_unique_append(paths: Seq<Seq<char>>, a: Seq<Seq<char>>, b: Seq<Seq<char>>, w: bool)
    ensures
        push_all_unique(paths, a + b, w) == push_all_unique(push_all_unique(paths, a, w), b, w),
    decreases b.len(),
{
    if b.len() == 0 {
        assert(a + b =~= a);
    } else {
        lemma_push_all_unique_append(paths, a, b.drop_last(), w);
        assert((a + b).drop_last() =~= a + b.drop_last());
        assert((a + b).last() == b.last());
    }
}

fn push_all(paths: &mut Vec<String>, new: Vec<String>, windows: bool)
    ensures
        views(final(paths)@) == push_all_unique(views(old(paths)@), views(new@), windows),
{
    let n = new.len();
    let ghost start = views(paths@);
    assert(views(new@).take(0) =~= Seq::<Seq<char>>::empty());
    for i in 0..n
        invariant
            n == new.len(),
            views(paths@) == push_all_unique(start, views(new@).take(i as int), windows),
    {
        push_unique_path(paths, new[i].clone(), windows);
        assert(views(new@).take(i + 1).drop_last() =~= views(new@).take(i as int));
    }
    assert(views(new@).take(n as int) =~= views(new@));
}

/// The places where Steam may be installed, on the drives whose roots exist
/// (`existing_drives`, in scanning order), without duplicates.
pub fn steam_root_candidates(existing_drives: &Vec<char>, windows: bool) -> (r: Vec<String>)
    ensures
        views(r@) == push_all_unique(
            Seq::<Seq<char>>::empty(),
            steam_roots_all(existing_drives@, windows),
            windows,
        ),
{
    let mut out: Vec<String> = Vec::new();
    let n = existing_drives.len();
    assert(existing_drives@.take(0) =~= Seq::<char>::empty());
    for i in 0..n
        invariant
            n == existing_drives.len(),
            views(out@) == push_all_unique(
                Seq::<Seq<char>>::empty(),
                steam_roots_all(existing_drives@.take(i as int), windows),
                windows,
            ),
    {
        let d = existing_drives[i];
        let root = drive_root_string(d);
        let new = vec![
            join_path(root.as_str(), "Program Files (x86)/Steam", windows),
            join_path(root.as_str(), "Program Files/Steam", windows),
            join_path(root.as_str(), "Steam", windows),
        ];
        assert(views(new@) =~= steam_roots_on(d, windows));
        push_all(&mut out, new, windows);
        proof {
            let t = existing_drives@.take(i + 1);
            assert(t.drop_last() =~= existing_drives@.take(i as int));
            lemma_push_all_unique_append(
                Seq::<Seq<char>>::empty(),
                steam_roots_all(existing_drives@.take(i as int), windows),
                steam_roots_on(d, windows),
                windows,
            );
        }
    }
    assert(existing_drives@.take(n as int) =~= existing_drives@);
    out
}

/// The library folder that a line of `libraryfolders.vdf` names, if any:
/// the fourth `"`-separated piece of a line whose second piece is `path`,
/// with doubled backslashes made single.
pub open spec fn library_path_of_line(line: Seq<char>) -> Option<Seq<char>> {
    let parts = split_seq(line, Separator::Char('"'));
    if parts.len() >= 4 && parts[1] == "path"@ {
        Some(collapse_backslashes(parts[3]))
    } else {
        None
    }
}

/// The library folders named by `lines`, in order.
pub open spec fn library_paths_of_lines(ls: Seq<Seq<char>>) -> Seq<Seq<char>>
    decreases ls.len(),
{
    if ls.len() == 0 {
        Seq::<Seq<char>>::empty()
    } else {
        let rest = library_paths_of_lines(ls.drop_last());
        match library_path_of_line(ls.last()) {
            Some(p) => rest.push(p),
            None => rest,
        }
    }
}

/// The library folders that the contents `vdf` of `libraryfolders.vdf` name.
pub open spec fn steam_library_paths(vdf: Seq<char>) -> Seq<Seq<char>> {
    library_paths_of_lines(lines_seq(vdf))
}

fn library_path_from_line(line: &str) -> (r: Option<String>)
    ensures
        match r {
            Some(p) => library_path_of_line(line@) == Some(p@),
            None => library_path_of_line(line@) is None,
        },
{
    let parts = split_at_separators(line, Separator::Char('"'));
    let ghost pv = views(parts@);
    if parts.len() >= 4 {
        let key = String::from_str("path");
        assert(pv[1] == parts@[1]@);
        if parts[1] == key {
            assert(pv[3] == parts@[3]@);
            return Some(collapse_double_backslashes(parts[3].as_str()));
        }
    }
    None
}

/// The library folders listed in the contents of `libraryfolders.vdf`.
pub fn parse_steam_library_paths(vdf: &str) -> (r: Vec<String>)
    ensures
        views(r@) == steam_library_paths(vdf@),
{
    let ls = lines(vdf);
    let ghost lv = views(ls@);
    let n = ls.len();
    let mut out: Vec<String> = Vec::new();
    assert(lv.take(0) =~= Seq::<Seq<char>>::empty());
    for i in 0..n
        invariant
            n == ls.len(),
            lv == views(ls@),
            lv == lines_seq(vdf@),
            views(out@) == library_paths_of_lines(lv.take(i as int)),
    {
        proof {
            assert(lv.take(i + 1).drop_last() =~= lv.take(i as int));
            assert(lv.take(i + 1).last() == ls@[i as int]@);
        }
        match library_path_from_line(ls[i].as_str()) {
            Some(p) => {
                let ghost before = out@;
                out.push(p);
                assert(views(out@) =~= views(before).push(p@));
            },
            None => {},
        }
    }
    assert(lv.take(n as int) =~= lv);
    out
}


/// Where the game is installed in the Steam library at `library`.
pub open spec fn game_dir_in_library(library: Seq<char>, w: bool) -> Seq<char> {
    join_seq(join_seq(library, STEAM_COMMON_DIR@, w), GAME_FOLDER_NAME@, w)
}

/// The game directories in the libraries that each readable
/// `libraryfolders.vdf` (`Some` contents) lists, in order.
pub open spec fn game_dirs_from_library_files(files: Seq<Option<Seq<char>>>, w: bool) -> Seq<Seq<char>>
    decreases files.len(),
{
    if files.len() == 0 {
        Seq::<Seq<char>>::empty()
    } else {
        game_dirs_from_library_files(files.drop_last(), w) + match files.last() {
            Some(c) => steam_library_paths(c).map_values(|l: Seq<char>| game_dir_in_library(l, w)),
            None => Seq::<Seq<char>>::empty(),
        }
    }
}

/// The game directories at the common Steam places under drive `d`.
pub open spec fn game_dirs_on_drive(d: char, w: bool) -> Seq<Seq<char>> {
    common_steam_paths().map_values(
        |c: Seq<char>| join_seq(join_seq(drive_root(d), c, w), GAME_FOLDER_NAME@, w),
    )
}

/// The game directories at the common Steam places under each drive.
pub open spec fn game_dirs_on_drives(drives: Seq<char>, w: bool) -> Seq<Seq<char>>
    decreases drives.len(),
{
    if drives.len() == 0 {
        Seq::<Seq<char>>::empty()
    } else {
        game_dirs_on_drives(drives.drop_last(), w) + game_dirs_on_drive(drives.last(), w)
    }
}

/// All candidate game directories, in the order they are tried.
pub open spec fn game_dir_candidates_seq(
    files: Seq<Option<Seq<char>>>,
    drives: Seq<char>,
    w: bool,
) -> Seq<Seq<char>> {
    push_all_unique(
        Seq::<Seq<char>>::empty(),
        game_dirs_from_library_files(files, w) + game_dirs_on_drives(drives, w),
        w,
    )
}

/// The path of `libraryfolders.vdf` under the Steam root `steam_root`.
pub fn library_folders_file(steam_root: &str, windows: bool) -> (r: String)
    ensures
        r@ == join_seq(steam_root@, LIBRARY_FOLDERS_FILE@, windows),
{
    join_path(steam_root, LIBRARY_FOLDERS_FILE, windows)
}

fn game_dir_in(library: &str, windows: bool) -> (r: String)
    ensures
        r@ == game_dir_in_library(library@, windows),
{
    let common = join_path(library, STEAM_COMMON_DIR, windows);
    join_path(common.as_str(), GAME_FOLDER_NAME, windows)
}

/// The candidate game directories, without duplicates: first those in the
/// libraries that the readable `libraryfolders.vdf` files list
/// (`library_files`, in the order of the Steam roots, `None` where the file
/// could not be read), then those at the common places on each existing
/// drive (`existing_drives`, in scanning order).
pub fn game_directory_candidates(
    library_files: &Vec<Option<String>>,
    existing_drives: &Vec<char>,
    windows: bool,
) -> (r: Vec<String>)
    ensures
        views(r@) == game_dir_candidates_seq(
            library_files@.map_values(|f: Option<String>| opt_view(f)),
            existing_drives@,
            windows,
        ),
{
    let ghost fv = library_files@.map_values(|f: Option<String>| opt_view(f));
    let mut out: Vec<String> = Vec::new();
    let nf = library_files.len();
    assert(fv.take(0) =~= Seq::<Option<Seq<char>>>::empty());
    for i in 0..nf
        invariant
            nf == library_files.len(),
            fv == library_files@.map_values(|f: Option<String>| opt_view(f)),
            views(out@) == push_all_unique(
                Seq::<Seq<char>>::empty(),
                game_dirs_from_library_files(fv.take(i as int), windows),
                windows,
            ),
    {
        let ghost prefix = game_dirs_from_library_files(fv.take(i as int), windows);
        proof {
            assert(fv.take(i + 1).drop_last() =~= fv.take(i as int));
            assert(fv.take(i + 1).last() == opt_view(library_files@[i as int]));
        }
        match &library_files[i] {
            Some(content) => {
                let libs = parse_steam_library_paths(content.as_str());
                let mut dirs: Vec<String> = Vec::new();
                let nl = libs.len();
                for k in 0..nl
                    invariant
                        nl == libs.len(),
                        views(dirs@) == views(libs@).take(k as int).map_values(
                            |l: Seq<char>| game_dir_in_library(l, windows),
                        ),
                {
                    let d = game_dir_in(libs[k].as_str(), windows);
                    let ghost before = dirs@;
                    dirs.push(d);
                    assert(views(dirs@) =~= views(libs@).take(k + 1).map_values(
                        |l: Seq<char>| game_dir_in_library(l, windows),
                    )) by {
                        assert(dirs@ == before.push(d));
                        assert(views(dirs@) =~= views(before).push(d@));
                        assert(views(libs@).take(k + 1)[k as int] == libs@[k as int]@);
                        let f = |l: Seq<char>| game_dir_in_library(l, windows);
                        assert(views(libs@).take(k + 1).map_values(f) =~= views(libs@).take(
                            k as int,
                        ).map_values(f).push(f(libs@[k as int]@)));
                    }
                }
                assert(views(libs@).take(nl as int) =~= views(libs@));
                proof {
                    lemma_push_all_unique_append(Seq::<Seq<char>>::empty(), prefix, views(dirs@), windows);
                }
                push_all(&mut out, dirs, windows);
                assert(game_dirs_from_library_files(fv.take(i + 1), windows) =~= prefix
                    + steam_library_paths(content@).map_values(
                    |l: Seq<char>| game_dir_in_library(l, windows),
                ));
            },
            None => {
                assert(game_dirs_from_library_files(fv.take(i + 1), windows) =~= prefix);
            },
        }
    }
    assert(fv.take(nf as int) =~= fv);
    let ghost lib_part = game_dirs_from_library_files(fv, windows);
    let nd = existing_drives.len();
    assert(existing_drives@.take(0) =~= Seq::<char>::empty());
    assert(lib_part + game_dirs_on_drives(Seq::<char>::empty(), windows) =~= lib_part);
    for i in 0..nd
        invariant
            nd == existing_drives.len(),
            views(out@) == push_all_unique(
                Seq::<Seq<char>>::empty(),
                lib_part + game_dirs_on_drives(existing_drives@.take(i as int), windows),
                windows,
            ),
    {
        let d = existing_drives[i];
        let root = drive_root_string(d);
        let p0 = join_path(root.as_str(), "Steam/steamapps/common", windows);
        let p1 = join_path(root.as_str(), "SteamLibrary/steamapps/common", windows);
        let p2 = join_path(root.as_str(), "Program Files (x86)/Steam/steamapps/common", windows);
        let p3 = join_path(root.as_str(), "Program Files/Steam/steamapps/common", windows);
        let new = vec![
            join_path(p0.as_str(), GAME_FOLDER_NAME, windows),
            join_path(p1.as_str(), GAME_FOLDER_NAME, windows),
            join_path(p2.as_str(), GAME_FOLDER_NAME, windows),
            join_path(p3.as_str(), GAME_FOLDER_NAME, windows),
        ];
        assert(views(new@) =~= game_dirs_on_drive(d, windows));
        let ghost before = lib_part + game_dirs_on_drives(existing_drives@.take(i as int), windows);
        proof {
            lemma_push_all_unique_append(
                Seq::<Seq<char>>::empty(),
                before,
                game_dirs_on_drive(d, windows),
                windows,
            );
            let t = existing_drives@.take(i + 1);
            assert(t.drop_last() =~= existing_drives@.take(i as int));
            assert(lib_part + game_dirs_on_drives(t, windows) =~= before + game_dirs_on_drive(
                d,
                windows,
            ));
        }
        push_all(&mut out, new, windows);
    }
    assert(existing_drives@.take(nd as int) =~= existing_drives@);
    out
}

/// The view of an optional string.
pub open spec fn opt_view(o: Option<String>) -> Option<Seq<char>> {
    match o {
        Some(s) => Some(s@),
        None => None,
    }
}

/// Whether a directory is the game's: it exists as a directory and holds
/// the game's executable (`executable_found`) or a `mods` entry.
pub fn is_valid_game_directory(
    present: bool,
    is_dir: bool,
    executable_found: bool,
    mods_present: bool,
) -> (r: bool)
    ensures
        r == (present && is_dir && (executable_found || mods_present)),
{
    if !present || !is_dir {
        return false;
    }
    if executable_found {
        return true;
    }
    mods_present
}

} // verus!
