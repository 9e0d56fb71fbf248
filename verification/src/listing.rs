//! Listings of directories: the common mods, and the backups of `mods`.
use vstd::prelude::*;
use crate::names::{is_safe_child_name, is_valid_backup_name, safe_child_name, valid_backup_name};
use crate::order::{
    lemma_lex_order_total, lemma_sorted_unique, lex_le, lex_order, sort_by_name, sorted_by_name,
    stable_sorted, Named,
};
use crate::paths::{displayed_path, join_path, join_seq, path_to_string};
use crate::text::views;

verus! {

/// An entry of a listing: its name and its size in bytes.
pub struct BackupInfo {
    pub name: String,
    pub size_bytes: u64,
}

impl Named for BackupInfo {
    open spec fn name_view(&self) -> Seq<char> {
        self.name@
    }

    fn name_str(&self) -> (r: &str) {
        self.name.as_str()
    }
}

/// Progress of a download as reported to the user.
pub struct DownloadProgress {
    pub downloaded: u64,
    pub total: u64,
    pub phase: String,
}

impl DownloadProgress {
    pub fn new(phase: &str, downloaded: u64, total: u64) -> (r: DownloadProgress)
        ensures
            r.phase@ == phase@,
            r.downloaded == downloaded,
            r.total == total,
    {
        DownloadProgress { downloaded, total, phase: String::from_str(phase) }
    }
}

/// An entry of a directory: its name and whether it is a directory.
pub struct DirEntryInfo {
    pub name: String,
    pub is_dir: bool,
}

/// The message for a listed path that is not a directory.
pub const NOT_A_DIRECTORY_PREFIX: &'static str = "指定路径不是目录：";

/// The entries of `entries` whose names are safe child names, in order.
pub open spec fn safe_entries(entries: Seq<BackupInfo>) -> Seq<BackupInfo>
    decreases entries.len(),
{
    if entries.len() == 0 {
        Seq::<BackupInfo>::empty()
    } else {
        let rest = safe_entries(entries.drop_last());
        if safe_child_name(entries.last().name@) {
            rest.push(entries.last())
        } else {
            rest
        }
    }
}

fn keep_safe(entries: Vec<BackupInfo>) -> (r: Vec<BackupInfo>)
    ensures
        r@ == safe_entries(entries@),
{
    let mut rest = entries;
    let mut kept: Vec<BackupInfo> = Vec::new();
    let ghost all = rest@;
    let total = rest.len();
    let mut i: usize = 0;
    assert(all.take(0) =~= Seq::<BackupInfo>::empty());
    while rest.len() > 0
        invariant
            i + rest@.len() == all.len() == total,
            rest@ == all.skip(i as int),
            kept@ == safe_entries(all.take(i as int)),
        decreases rest.len(),
    {
        let x = rest.remove(0);
        proof {
            assert(all.take(i + 1).drop_last() =~= all.take(i as int));
            assert(all.take(i + 1).last() == x);
            assert(all.skip(i + 1) =~= all.skip(i as int).remove(0));
        }
        if is_safe_child_name(x.name.as_str()) {
            kept.push(x);
        }
        i = i + 1;
    }
    assert(all.take(all.len() as int) =~= all);
    kept
}

/// The listing of a directory: nothing where it does not exist, an error
/// where it is no directory, else the entries with safe names, in order by
/// name.
pub fn list_directory_items(
    directory: &str,
    present: bool,
    is_dir: bool,
    windows: bool,
    entries: Vec<BackupInfo>,
) -> (r: Result<Vec<BackupInfo>, String>)
    ensures
        !present ==> (r matches Ok(v) && v@.len() == 0),
        present && !is_dir ==> (r matches Err(e) && e@ == NOT_A_DIRECTORY_PREFIX@ + displayed_path(
            directory@,
            windows,
        )),
        present && is_dir ==> (r matches Ok(v) && v@ == stable_sorted(safe_entries(entries@))
            && v@.to_multiset() == safe_entries(entries@).to_multiset() && sorted_by_name(v@)),
{
    if !present {
        return Ok(Vec::new());
    }
    if !is_dir {
        let mut msg = String::from_str(NOT_A_DIRECTORY_PREFIX);
        let shown = path_to_string(directory, windows);
        msg.append(shown.as_str());
        return Err(msg);
    }
    let kept = keep_safe(entries);
    Ok(sort_by_name(kept))
}

/// The names of the backup directories among `entries`, in listing order.
pub open spec fn backup_names(entries: Seq<DirEntryInfo>) -> Seq<Seq<char>>
    decreases entries.len(),
{
    if entries.len() == 0 {
        Seq::<Seq<char>>::empty()
    } else {
        let rest = backup_names(entries.drop_last());
        if entries.last().is_dir && valid_backup_name(entries.last().name@) {
            rest.push(entries.last().name@)
        } else {
            rest
        }
    }
}

/// The paths of the backup directories of `game` among its `entries`, in
/// order of their names.
pub open spec fn backup_paths(game: Seq<char>, entries: Seq<DirEntryInfo>, w: bool) -> Seq<Seq<char>> {
    backup_names(entries).sort_by(lex_order()).map_values(|n: Seq<char>| join_seq(game, n, w))
}

/// The paths of the backup directories among the entries of the game
/// directory, in order of their names.
pub fn find_backup_directories(
    game_directory: &str,
    entries: &Vec<DirEntryInfo>,
    windows: bool,
) -> (r: Vec<String>)
    ensures
        views(r@) == backup_paths(game_directory@, entries@, windows),
{
    let mut names: Vec<String> = Vec::new();
    let n = entries.len();
    assert(entries@.take(0) =~= Seq::<DirEntryInfo>::empty());
    for i in 0..n
        invariant
            n == entries.len(),
            views(names@) == backup_names(entries@.take(i as int)),
    {
        proof {
            assert(entries@.take(i + 1).drop_last() =~= entries@.take(i as int));
            assert(entries@.take(i + 1).last() == entries@[i as int]);
        }
        let e = &entries[i];
        if e.is_dir && is_valid_backup_name(e.name.as_str()) {
            let ghost before = names@;
            names.push(e.name.clone());
            assert(views(names@) =~= views(before).push(e.name@));
        }
    }
    assert(entries@.take(n as int) =~= entries@);
    let ghost unsorted = names@;
    let sorted = sort_by_name(names);
    proof {
        let bn = backup_names(entries@);
        lemma_lex_order_total();
        bn.lemma_sort_by_ensures(lex_order());
        assert(views(sorted@).to_multiset() == bn.to_multiset()) by {
            lemma_views_multiset(sorted@, unsorted);
        }
        assert(vstd::relations::sorted_by(views(sorted@), lex_order())) by {
            assert forall|i: int, j: int| 0 <= i < j < views(sorted@).len() implies #[trigger]
                lex_order()(views(sorted@)[i], views(sorted@)[j]) by {
                assert(lex_le(sorted@[i].name_view(), sorted@[j].name_view()));
            }
        }
        lemma_sorted_unique(views(sorted@), bn.sort_by(lex_order()));
    }
    let mut out: Vec<String> = Vec::new();
    let m = sorted.len();
    for k in 0..m
        invariant
            m == sorted.len(),
            views(sorted@) == backup_names(entries@).sort_by(lex_order()),
            views(out@) == views(sorted@).take(k as int).map_values(
                |x: Seq<char>| join_seq(game_directory@, x, windows),
            ),
    {
        let p = join_path(game_directory, sorted[k].as_str(), windows);
        let ghost before = out@;
        out.push(p);
        assert(views(out@) =~= views(sorted@).take(k + 1).map_values(
            |x: Seq<char>| join_seq(game_directory@, x, windows),
        )) by {
            assert(out@ == before.push(p));
            assert(views(out@) =~= views(before).push(p@));
            assert(views(sorted@).take(k + 1)[k as int] == sorted@[k as int]@);
        }
    }
    assert(views(sorted@).take(m as int) =~= views(sorted@));
    out
}

proof fn lemma_views_multiset(a: Seq<String>, b: Seq<String>)
    requires
        a.to_multiset() == b.to_multiset(),
    ensures
        views(a).to_multiset() == views(b).to_multiset(),
    decreases a.len(),
{
    broadcast use vstd::seq_lib::group_to_multiset_ensures;

    a.to_multiset_ensures();
    b.to_multiset_ensures();
    if a.len() > 0 {
        let x = a[0];
        assert(a.contains(x));
        assert(b.to_multiset().count(x) > 0);
        assert(b.contains(x));
        let k = choose|k: int| 0 <= k < b.len() && b[k] == x;
        let a1 = a.remove(0);
        let b1 = b.remove(k);
        assert(a1.to_multiset() =~= a.to_multiset().remove(x));
        assert(b1.to_multiset() =~= b.to_multiset().remove(x));
        lemma_views_multiset(a1, b1);
        assert(views(a1) =~= views(a).remove(0));
        assert(views(b1) =~= views(b).remove(k));
        assert(views(a).to_multiset().count(x@) > 0) by {
            assert(views(a).contains(x@)) by {
                assert(views(a)[0] == x@);
            }
        }
        assert(views(b).to_multiset().count(x@) > 0) by {
            assert(views(b).contains(x@)) by {
                assert(views(b)[k] == x@);
            }
        }
        assert(views(a).remove(0).to_multiset() =~= views(a).to_multiset().remove(x@));
        assert(views(b).remove(k).to_multiset() =~= views(b).to_multiset().remove(x@));
        assert(views(a).to_multiset() =~= views(a1).to_multiset().insert(x@));
        assert(views(b).to_multiset() =~= views(b1).to_multiset().insert(x@));
    } else {
        assert(b.len() == 0);
        assert(views(a) =~= views(b));
    }
}

/// Whether the game directory holds a backup directory.
pub fn has_backup_directory(game_directory: &str, entries: &Vec<DirEntryInfo>, windows: bool) -> (r: bool)
    ensures
        r == (backup_paths(game_directory@, entries@, windows).len() > 0),
{
    let found = find_backup_directories(game_directory, entries, windows);
    found.len() > 0
}

/// The backup paths are the backup directories of the listing, one for
/// each; the last, the one taken as the latest, is that of a backup whose
/// name is the greatest of all.
pub proof fn lemma_latest_backup(game: Seq<char>, entries: Seq<DirEntryInfo>, w: bool)
    ensures
        backup_paths(game, entries, w).len() == backup_names(entries).len(),
        backup_paths(game, entries, w).len() > 0 ==> exists|n: Seq<char>|
            #![trigger backup_names(entries).contains(n)]
            backup_names(entries).contains(n) && backup_paths(game, entries, w).last() == join_seq(game, n, w)
                && forall|k: int|
                0 <= k < backup_names(entries).len() ==> lex_le(#[trigger] backup_names(entries)[k], n),
{
    broadcast use vstd::seq_lib::group_to_multiset_ensures;

    let names = backup_names(entries);
    lemma_lex_order_total();
    names.lemma_sort_by_ensures(lex_order());
    let sorted = names.sort_by(lex_order());
    names.to_multiset_ensures();
    sorted.to_multiset_ensures();
    assert(sorted.len() == names.len());
    if sorted.len() > 0 {
        let n = sorted.last();
        assert(sorted.contains(n));
        assert(sorted.to_multiset().count(n) > 0);
        assert(names.to_multiset().count(n) > 0);
        assert(names.contains(n));
        assert forall|k: int| 0 <= k < names.len() implies lex_le(#[trigger] names[k], n) by {
            assert(names.contains(names[k]));
            assert(names.to_multiset().count(names[k]) > 0);
            assert(sorted.to_multiset().count(names[k]) > 0);
            assert(sorted.contains(names[k]));
            let j = choose|j: int| 0 <= j < sorted.len() && sorted[j] == names[k];
            if j < sorted.len() - 1 {
                assert(lex_order()(sorted[j], sorted[sorted.len() - 1]));
            } else {
                crate::order::lemma_lex_total(n, n);
            }
        }
    }
}

proof fn lemma_backup_names_include(entries: Seq<DirEntryInfo>, k: int)
    requires
        0 <= k < entries.len(),
        entries[k].is_dir,
        valid_backup_name(entries[k].name@),
    ensures
        backup_names(entries).contains(entries[k].name@),
    decreases entries.len(),
{
    let rest = backup_names(entries.drop_last());
    if k < entries.len() - 1 {
        assert(entries.drop_last()[k] == entries[k]);
        lemma_backup_names_include(entries.drop_last(), k);
        let j = choose|j: int| 0 <= j < rest.len() && rest[j] == entries[k].name@;
        if entries.last().is_dir && valid_backup_name(entries.last().name@) {
            assert(rest.push(entries.last().name@)[j] == entries[k].name@);
        }
    } else {
        assert(rest.push(entries.last().name@).last() == entries[k].name@);
    }
}

/// A directory named as a backup, made with a minute stamp, counts as a
/// backup: the game directory then has a backup, and the latest backup's
/// name is at least as great as its name.
pub proof fn lemma_backup_is_found(game: Seq<char>, entries: Seq<DirEntryInfo>, k: int, w: bool)
    requires
        0 <= k < entries.len(),
        entries[k].is_dir,
        valid_backup_name(entries[k].name@),
    ensures
        backup_paths(game, entries, w).len() > 0,
        exists|n: Seq<char>|
            backup_paths(game, entries, w).last() == join_seq(game, n, w) && lex_le(entries[k].name@, n),
{
    lemma_backup_names_include(entries, k);
    lemma_latest_backup(game, entries, w);
    let names = backup_names(entries);
    let j = choose|j: int| 0 <= j < names.len() && names[j] == entries[k].name@;
    assert(names.len() > 0);
    let n = choose|n: Seq<char>|
        #![trigger backup_names(entries).contains(n)]
        backup_names(entries).contains(n) && backup_paths(game, entries, w).last() == join_seq(game, n, w)
            && forall|i: int|
            0 <= i < backup_names(entries).len() ==> lex_le(#[trigger] backup_names(entries)[i], n);
    assert(lex_le(names[j], n));
}

/// The message when no backup directory exists.
pub const NO_BACKUP_FOUND: &'static str = "没有找到任何备份目录。";

/// The backup directory with the greatest name: the latest one.
pub fn find_latest_backup(
    game_directory: &str,
    entries: &Vec<DirEntryInfo>,
    windows: bool,
) -> (r: Result<String, String>)
    ensures
        match r {
            Ok(p) => backup_paths(game_directory@, entries@, windows).len() > 0 && p@ == backup_paths(
                game_directory@,
                entries@,
                windows,
            ).last(),
            Err(e) => backup_paths(game_directory@, entries@, windows).len() == 0 && e@ == NO_BACKUP_FOUND@,
        },
{
    let mut found = find_backup_directories(game_directory, entries, windows);
    let ghost fv = views(found@);
    match found.pop() {
        Some(p) => {
            assert(fv.last() == p@);
            Ok(p)
        },
        None => Err(String::from_str(NO_BACKUP_FOUND)),
    }
}

} // verus!
