//! The decisions of the backup, restore, sync and common-mod workflows:
//! what must hold before each, and which paths each touches.
use vstd::prelude::*;
use crate::names::{
    backup_dir_name, backup_prefix, is_formatted_minute, lemma_minute_stamp_format,
    minute_stamp_format, MINUTE_STAMP_FORMAT, child_name_from_path, child_name_result, has_zip_extension,
    has_zip_extension_seq, is_safe_child_name, is_valid_backup_name, result_view, safe_child_name,
    valid_backup_name,
};
use crate::paths::{file_name, file_name_seq, is_parent, is_parent_seq, join_path, join_seq};
use crate::layout::MODS_DIR_NAME;
use crate::text::{trim, trimmed};

verus! {

pub const ARCHIVE_NOT_DOWNLOADED: &'static str = "未找到 mods.zip，请先下载。";

/// Extracting needs the downloaded archive.
pub fn require_archive(archive_present: bool) -> (r: Result<(), String>)
    ensures
        archive_present <==> r is Ok,
        r matches Err(e) ==> e@ == ARCHIVE_NOT_DOWNLOADED@,
{
    if archive_present {
        Ok(())
    } else {
        Err(String::from_str(ARCHIVE_NOT_DOWNLOADED))
    }
}

pub const BACKUP_REQUIRED: &'static str = "请先备份当前 mods 后再同步。";

/// A sync may only start once a backup exists.
pub fn require_backup(has_backup: bool) -> (r: Result<(), String>)
    ensures
        has_backup <==> r is Ok,
        r matches Err(e) ==> e@ == BACKUP_REQUIRED@,
{
    if has_backup {
        Ok(())
    } else {
        Err(String::from_str(BACKUP_REQUIRED))
    }
}

/// `chrono::Local::now().format(format).to_string()` with the format
/// `%Y%m%d%H%M`: the current local time to the minute. Which minute depends
/// on the clock and the time zone and is not stated; what is claimed is the
/// shape that chrono's documentation of these specifiers gives (the year
/// zero-padded to four digits, signed outside 0 to 9999, then two digits
/// each for month, day, hour and minute).
#[verifier::external_body]
fn local_time_stamp(format: &str) -> (r: String)
    requires
        format@ == minute_stamp_format(),
    ensures
        is_formatted_minute(r@),
{
    chrono::Local::now().format(format).to_string()
}

/// The name of a backup made now: the backup prefix, then the local time
/// to the minute as `%Y%m%d%H%M` writes it.
pub fn generate_backup_dir_name() -> (r: String)
    ensures
        r@.len() >= 24,
        r@.take(12) == backup_prefix(),
        is_formatted_minute(r@.skip(12)),
{
    proof {
        lemma_minute_stamp_format();
    }
    let stamp = local_time_stamp(MINUTE_STAMP_FORMAT);
    let r = backup_dir_name(stamp.as_str());
    assert(r@.take(12) =~= backup_prefix());
    assert(r@.skip(12) =~= stamp@);
    r
}

/// Where a backup named `name` of the game directory `game` goes.
pub struct BackupPlan {
    /// The backup directory.
    pub directory: String,
    /// Where the current `mods` directory moves to.
    pub mods_target: String,
}

pub fn plan_backup(game: &str, name: &str, windows: bool) -> (r: BackupPlan)
    ensures
        r.directory@ == join_seq(game@, name@, windows),
        r.mods_target@ == join_seq(join_seq(game@, name@, windows), MODS_DIR_NAME@, windows),
{
    let directory = join_path(game, name, windows);
    let mods_target = join_path(directory.as_str(), MODS_DIR_NAME, windows);
    BackupPlan { directory, mods_target }
}

/// An entry of a directory: its path and its name.
pub struct PathEntry {
    pub path: String,
    pub name: String,
}

/// A move of `from` to `to`.
pub struct Move {
    pub from: String,
    pub to: String,
}

/// The zip archives among `entries`, each moved into `backup_dir` under
/// its own name, in order.
pub open spec fn zip_moves(backup_dir: Seq<char>, entries: Seq<PathEntry>, w: bool) -> Seq<
    (Seq<char>, Seq<char>),
>
    decreases entries.len(),
{
    if entries.len() == 0 {
        Seq::<(Seq<char>, Seq<char>)>::empty()
    } else {
        let rest = zip_moves(backup_dir, entries.drop_last(), w);
        let e = entries.last();
        if has_zip_extension_seq(e.path@, w) {
            rest.push((e.path@, join_seq(backup_dir, e.name@, w)))
        } else {
            rest
        }
    }
}

pub open spec fn moves_view(ms: Seq<Move>) -> Seq<(Seq<char>, Seq<char>)> {
    ms.map_values(|m: Move| (m.from@, m.to@))
}

/// The zip archives of the game directory move into the backup too.
pub fn zip_files_to_back_up(backup_dir: &str, entries: &Vec<PathEntry>, windows: bool) -> (r: Vec<
    Move,
>)
    ensures
        moves_view(r@) == zip_moves(backup_dir@, entries@, windows),
{
    let mut out: Vec<Move> = Vec::new();
    let n = entries.len();
    assert(entries@.take(0) =~= Seq::<PathEntry>::empty());
    for i in 0..n
        invariant
            n == entries.len(),
            moves_view(out@) == zip_moves(backup_dir@, entries@.take(i as int), windows),
    {
        proof {
            assert(entries@.take(i + 1).drop_last() =~= entries@.take(i as int));
            assert(entries@.take(i + 1).last() == entries@[i as int]);
        }
        let e = &entries[i];
        if has_zip_extension(e.path.as_str(), windows) {
            let to = join_path(backup_dir, e.name.as_str(), windows);
            let m = Move { from: e.path.clone(), to };
            let ghost before = out@;
            out.push(m);
            assert(moves_view(out@) =~= moves_view(before).push((m.from@, m.to@)));
        }
    }
    assert(entries@.take(n as int) =~= entries@);
    out
}

/// A step of copying a file or directory tree.
pub enum CopyStep {
    /// Remove whatever is at the path, if anything.
    RemoveIfExists(String),
    /// Copy the file or directory tree `from` to `to`.
    CopyRecursive { from: String, to: String },
}

pub ghost enum CopyStepView {
    RemoveIfExists(Seq<char>),
    CopyRecursive(Seq<char>, Seq<char>),
}

pub open spec fn copy_step_view(s: CopyStep) -> CopyStepView {
    match s {
        CopyStep::RemoveIfExists(p) => CopyStepView::RemoveIfExists(p@),
        CopyStep::CopyRecursive { from, to } => CopyStepView::CopyRecursive(from@, to@),
    }
}

/// Copying `source` over `target`: first whatever is at `target` goes, then
/// `source` is copied there.
pub fn copy_path_overwrite(source: &str, target: &str) -> (r: Vec<CopyStep>)
    ensures
        r@.map_values(|s: CopyStep| copy_step_view(s)) == seq![
            CopyStepView::RemoveIfExists(target@),
            CopyStepView::CopyRecursive(source@, target@),
        ],
{
    let r = vec![
        CopyStep::RemoveIfExists(String::from_str(target)),
        CopyStep::CopyRecursive { from: String::from_str(source), to: String::from_str(target) },
    ];
    assert(r@.map_values(|s: CopyStep| copy_step_view(s)) =~= seq![
        CopyStepView::RemoveIfExists(target@),
        CopyStepView::CopyRecursive(source@, target@),
    ]);
    r
}

/// A step of copying one file or directory.
pub enum TreeStep {
    /// Create the directory and any missing parents.
    CreateDirAll(String),
    /// Copy the entry `from` (a file or a directory tree) to `to`.
    CopyEntry { from: String, to: String },
    /// Create the parent directory of the path, if it has one.
    CreateParentOf(String),
    /// Copy the file `from` to `to`.
    CopyFile { from: String, to: String },
}

pub ghost enum TreeStepView {
    CreateDirAll(Seq<char>),
    CopyEntry(Seq<char>, Seq<char>),
    CreateParentOf(Seq<char>),
    CopyFile(Seq<char>, Seq<char>),
}

pub open spec fn tree_step_view(s: TreeStep) -> TreeStepView {
    match s {
        TreeStep::CreateDirAll(p) => TreeStepView::CreateDirAll(p@),
        TreeStep::CopyEntry { from, to } => TreeStepView::CopyEntry(from@, to@),
        TreeStep::CreateParentOf(p) => TreeStepView::CreateParentOf(p@),
        TreeStep::CopyFile { from, to } => TreeStepView::CopyFile(from@, to@),
    }
}

/// Copying `source` to `target`: a directory becomes a directory at
/// `target` into which each of its entries (`children`, by path and name,
/// in the order listed) is copied under its own name; a file is copied
/// after the parent of `target` is made.
pub open spec fn tree_steps_of(
    source: Seq<char>,
    target: Seq<char>,
    is_dir: bool,
    children: Seq<PathEntry>,
    w: bool,
) -> Seq<TreeStepView> {
    if is_dir {
        seq![TreeStepView::CreateDirAll(target)] + children.map_values(
            |c: PathEntry| TreeStepView::CopyEntry(c.path@, join_seq(target, c.name@, w)),
        )
    } else {
        seq![TreeStepView::CreateParentOf(target), TreeStepView::CopyFile(source, target)]
    }
}

/// One level of copying `source` (a directory when `is_dir`, with entries
/// `children`) to `target`.
pub fn copy_tree_steps(
    source: &str,
    target: &str,
    is_dir: bool,
    children: &Vec<PathEntry>,
    windows: bool,
) -> (r: Vec<TreeStep>)
    ensures
        r@.map_values(|s: TreeStep| tree_step_view(s)) == tree_steps_of(
            source@,
            target@,
            is_dir,
            children@,
            windows,
        ),
{
    let ghost f = |c: PathEntry| TreeStepView::CopyEntry(c.path@, join_seq(target@, c.name@, windows));
    let ghost g = |s: TreeStep| tree_step_view(s);
    if !is_dir {
        let r = vec![
            TreeStep::CreateParentOf(String::from_str(target)),
            TreeStep::CopyFile { from: String::from_str(source), to: String::from_str(target) },
        ];
        assert(r@.map_values(g) =~= seq![
            TreeStepView::CreateParentOf(target@),
            TreeStepView::CopyFile(source@, target@),
        ]);
        return r;
    }
    let mut r: Vec<TreeStep> = Vec::new();
    r.push(TreeStep::CreateDirAll(String::from_str(target)));
    let ghost head = seq![TreeStepView::CreateDirAll(target@)];
    assert(r@.map_values(g) =~= head + children@.take(0).map_values(f));
    let n = children.len();
    for i in 0..n
        invariant
            n == children.len(),
            head == seq![TreeStepView::CreateDirAll(target@)],
            f == (|c: PathEntry| TreeStepView::CopyEntry(c.path@, join_seq(target@, c.name@, windows))),
            g == (|s: TreeStep| tree_step_view(s)),
            r@.map_values(g) == head + children@.take(i as int).map_values(f),
    {
        let ghost before = r@;
        let c = &children[i];
        let s = TreeStep::CopyEntry {
            from: c.path.clone(),
            to: join_path(target, c.name.as_str(), windows),
        };
        r.push(s);
        proof {
            assert(r@ == before.push(s));
            assert(r@.map_values(g) =~= before.map_values(g).push(g(s)));
            assert(children@.take(i + 1).map_values(f) =~= children@.take(i as int).map_values(
                f,
            ).push(f(children@[i as int])));
        }
    }
    assert(children@.take(n as int) =~= children@);
    r
}

pub const BACKED_UP_TO: &'static str = "已备份到：";

/// The report of a finished backup.
pub fn backup_message(name: &str) -> (r: String)
    ensures
        r@ == BACKED_UP_TO@ + name@,
{
    let mut r = String::from_str(BACKED_UP_TO);
    r.append(name);
    r
}

pub const BAD_FILE_NAME_IN_BACKUP: &'static str = "备份目录中存在无效文件名。";

/// The items of a backup, each moved back into the game directory under
/// its own name, in order, up to the first item without a file name, which
/// stops the restore with an error.
pub open spec fn restore_moves_of(game: Seq<char>, items: Seq<String>, w: bool) -> (
    Seq<(Seq<char>, Seq<char>)>,
    Option<Seq<char>>,
)
    decreases items.len(),
{
    if items.len() == 0 {
        (Seq::<(Seq<char>, Seq<char>)>::empty(), None)
    } else {
        match file_name_seq(items[0]@, w) {
            None => (Seq::<(Seq<char>, Seq<char>)>::empty(), Some(BAD_FILE_NAME_IN_BACKUP@)),
            Some(n) => {
                let rest = restore_moves_of(game, items.drop_first(), w);
                (seq![(items[0]@, join_seq(game, n, w))] + rest.0, rest.1)
            },
        }
    }
}

/// How the items of a backup move back into the game directory.
pub fn plan_restore(game: &str, items: &Vec<String>, windows: bool) -> (r: (Vec<Move>, Option<String>))
    ensures
        (moves_view(r.0@), match r.1 {
            Some(e) => Some(e@),
            None => None,
        }) == restore_moves_of(game@, items@, windows),
{
    let mut out: Vec<Move> = Vec::new();
    let n = items.len();
    let mut i: usize = 0;
    assert(items@.skip(0) =~= items@);
    while i < n
        invariant
            i <= n == items.len(),
            restore_moves_of(game@, items@, windows) == (moves_view(out@) + restore_moves_of(
                game@,
                items@.skip(i as int),
                windows,
            ).0, restore_moves_of(game@, items@.skip(i as int), windows).1),
        decreases n - i,
    {
        let ghost rest = items@.skip(i as int);
        assert(rest[0] == items@[i as int]);
        assert(rest.drop_first() =~= items@.skip(i + 1));
        match file_name(items[i].as_str(), windows) {
            None => {
                return (out, Some(String::from_str(BAD_FILE_NAME_IN_BACKUP)));
            },
            Some(name) => {
                let to = join_path(game, name.as_str(), windows);
                let m = Move { from: items[i].clone(), to };
                let ghost before = out@;
                out.push(m);
                assert(moves_view(out@) =~= moves_view(before).push((m.from@, m.to@)));
                assert(moves_view(out@) + restore_moves_of(game@, items@.skip(i + 1), windows).0
                    =~= moves_view(before) + (seq![(m.from@, m.to@)] + restore_moves_of(
                    game@,
                    items@.skip(i + 1),
                    windows,
                ).0));
            },
        }
        i = i + 1;
    }
    assert(items@.skip(n as int).len() == 0);
    assert(moves_view(out@) + Seq::<(Seq<char>, Seq<char>)>::empty() =~= moves_view(out@));
    (out, None)
}

/// Restoring undoes backing up: the items of a backup directory, each named
/// by a single component, move back to the entries of the same names in the
/// game directory, where backing up took them from.
pub proof fn lemma_restore_undoes_backup(
    game: Seq<char>,
    backup_dir: Seq<char>,
    items: Seq<String>,
    names: Seq<Seq<char>>,
    w: bool,
)
    requires
        items.len() == names.len(),
        forall|i: int|
            0 <= i < items.len() ==> crate::paths::is_simple_name(#[trigger] names[i], w) && names[i]
                != seq!['.', '.'] && items[i]@ == join_seq(backup_dir, names[i], w),
    ensures
        restore_moves_of(game, items, w).1 is None,
        restore_moves_of(game, items, w).0.len() == items.len(),
        forall|i: int|
            0 <= i < items.len() ==> #[trigger] restore_moves_of(game, items, w).0[i] == (
                join_seq(backup_dir, names[i], w),
                join_seq(game, names[i], w),
            ),
    decreases items.len(),
{
    if items.len() > 0 {
        crate::paths::lemma_join_child(backup_dir, names[0], names[0], w);
        assert(file_name_seq(items[0]@, w) == Some(names[0]));
        lemma_restore_undoes_backup(game, backup_dir, items.drop_first(), names.drop_first(), w);
        let rest = restore_moves_of(game, items.drop_first(), w);
        let all = restore_moves_of(game, items, w);
        assert(all.0 == seq![(items[0]@, join_seq(game, names[0], w))] + rest.0);
        assert forall|i: int| 0 <= i < items.len() implies #[trigger] all.0[i] == (
            join_seq(backup_dir, names[i], w),
            join_seq(game, names[i], w),
        ) by {
            if i > 0 {
                assert(all.0[i] == rest.0[i - 1]);
                assert(names.drop_first()[i - 1] == names[i]);
            }
        }
    }
}

/// A file-system step of restoring a backup.
pub enum RestoreStep {
    /// Remove whatever is at the path, if anything.
    RemoveIfExists(String),
    /// Move `from` to `to`.
    Rename { from: String, to: String },
    /// Remove the directory if nothing is left in it.
    RemoveDirIfEmpty(String),
}

pub ghost enum RestoreStepView {
    RemoveIfExists(Seq<char>),
    Rename(Seq<char>, Seq<char>),
    RemoveDirIfEmpty(Seq<char>),
}

pub open spec fn restore_step_view(s: RestoreStep) -> RestoreStepView {
    match s {
        RestoreStep::RemoveIfExists(p) => RestoreStepView::RemoveIfExists(p@),
        RestoreStep::Rename { from, to } => RestoreStepView::Rename(from@, to@),
        RestoreStep::RemoveDirIfEmpty(p) => RestoreStepView::RemoveDirIfEmpty(p@),
    }
}

/// Each move, in order, as clearing its target and then moving there.
pub open spec fn move_steps(ms: Seq<(Seq<char>, Seq<char>)>) -> Seq<RestoreStepView>
    decreases ms.len(),
{
    if ms.len() == 0 {
        Seq::<RestoreStepView>::empty()
    } else {
        move_steps(ms.drop_last()) + seq![
            RestoreStepView::RemoveIfExists(ms.last().1),
            RestoreStepView::Rename(ms.last().0, ms.last().1),
        ]
    }
}

/// Restoring the backup at `backup` whose items are `items`, once the
/// current `mods` has gone: each item moves back over what is in its place,
/// and the backup directory goes if it is left empty; an item without a
/// file name stops the restore, after the moves before it, with an error.
pub open spec fn restore_steps_of(game: Seq<char>, backup: Seq<char>, items: Seq<String>, w: bool) -> (
    Seq<RestoreStepView>,
    Option<Seq<char>>,
) {
    let (moves, err) = restore_moves_of(game, items, w);
    let body = move_steps(moves);
    match err {
        None => (body.push(RestoreStepView::RemoveDirIfEmpty(backup)), None),
        Some(e) => (body, Some(e)),
    }
}

/// The steps that restore the backup at `backup` into the game directory.
pub fn restore_steps(game: &str, backup: &str, items: &Vec<String>, windows: bool) -> (r: (
    Vec<RestoreStep>,
    Option<String>,
))
    ensures
        (r.0@.map_values(|s: RestoreStep| restore_step_view(s)), match r.1 {
            Some(e) => Some(e@),
            None => None,
        }) == restore_steps_of(game@, backup@, items@, windows),
{
    let (moves, err) = plan_restore(game, items, windows);
    let ghost mv = moves_view(moves@);
    let mut steps: Vec<RestoreStep> = Vec::new();
    assert(mv.take(0) =~= Seq::<(Seq<char>, Seq<char>)>::empty());
    assert(steps@.map_values(|s: RestoreStep| restore_step_view(s)) =~= move_steps(mv.take(0)));
    let n = moves.len();
    for i in 0..n
        invariant
            n == moves.len(),
            mv == moves_view(moves@),
            steps@.map_values(|s: RestoreStep| restore_step_view(s)) == move_steps(mv.take(i as int)),
    {
        let ghost before = steps@;
        let m = &moves[i];
        let a = RestoreStep::RemoveIfExists(m.to.clone());
        let b = RestoreStep::Rename { from: m.from.clone(), to: m.to.clone() };
        steps.push(a);
        steps.push(b);
        proof {
            assert(mv.take(i + 1).drop_last() =~= mv.take(i as int));
            assert(mv.take(i + 1).last() == (moves@[i as int].from@, moves@[i as int].to@));
            assert(steps@ == before.push(a).push(b));
            assert(steps@.map_values(|s: RestoreStep| restore_step_view(s)) =~= before.map_values(
                |s: RestoreStep| restore_step_view(s),
            ) + seq![restore_step_view(a), restore_step_view(b)]);
            assert(move_steps(mv.take(i + 1)) =~= move_steps(mv.take(i as int)) + seq![
                restore_step_view(a),
                restore_step_view(b),
            ]);
        }
    }
    assert(mv.take(n as int) =~= mv);
    match err {
        None => {
            let ghost before = steps@;
            let c = RestoreStep::RemoveDirIfEmpty(String::from_str(backup));
            steps.push(c);
            assert(steps@.map_values(|s: RestoreStep| restore_step_view(s)) =~= before.map_values(
                |s: RestoreStep| restore_step_view(s),
            ).push(restore_step_view(c)));
            (steps, None)
        },
        Some(e) => (steps, Some(e)),
    }
}

pub const RESTORED_FROM: &'static str = "已从 ";
pub const RESTORED_SUFFIX: &'static str = " 还原。";

/// The report of a finished restore from the backup at `backup`.
pub fn restore_message(backup: &str, windows: bool) -> (r: String)
    ensures
        r@ == RESTORED_FROM@ + match file_name_seq(backup@, windows) {
            Some(n) => n,
            None => Seq::<char>::empty(),
        } + RESTORED_SUFFIX@,
{
    let mut r = String::from_str(RESTORED_FROM);
    match file_name(backup, windows) {
        Some(n) => r.append(n.as_str()),
        None => {},
    }
    r.append(RESTORED_SUFFIX);
    r
}

pub const COMMON_MODS_NOT_DIRECTORY: &'static str = "mods_common 不是目录。";

/// Whether the common mods are to be applied: not when their directory does
/// not exist, an error when it is no directory.
pub fn common_mods_status(present: bool, is_dir: bool) -> (r: Result<bool, String>)
    ensures
        !present ==> r == Ok::<bool, String>(false),
        present && is_dir ==> r == Ok::<bool, String>(true),
        present && !is_dir ==> (r matches Err(e) && e@ == COMMON_MODS_NOT_DIRECTORY@),
{
    if !present {
        Ok(false)
    } else if !is_dir {
        Err(String::from_str(COMMON_MODS_NOT_DIRECTORY))
    } else {
        Ok(true)
    }
}

/// The entries of the common mods directory, each copied into `mods_dir`
/// under its name, up to the first entry whose name is not a safe child
/// name, which stops with an error.
pub open spec fn common_copies_of(mods_dir: Seq<char>, paths: Seq<String>, w: bool) -> (
    Seq<(Seq<char>, Seq<char>)>,
    Option<Seq<char>>,
)
    decreases paths.len(),
{
    if paths.len() == 0 {
        (Seq::<(Seq<char>, Seq<char>)>::empty(), None)
    } else {
        match child_name_result(file_name_seq(paths[0]@, w)) {
            Err(e) => (Seq::<(Seq<char>, Seq<char>)>::empty(), Some(e)),
            Ok(n) => {
                let rest = common_copies_of(mods_dir, paths.drop_first(), w);
                (seq![(paths[0]@, join_seq(mods_dir, n, w))] + rest.0, rest.1)
            },
        }
    }
}

/// How the common mods are copied into `mods_dir`.
pub fn plan_common_mod_copies(mods_dir: &str, paths: &Vec<String>, windows: bool) -> (r: (
    Vec<Move>,
    Option<String>,
))
    ensures
        (moves_view(r.0@), match r.1 {
            Some(e) => Some(e@),
            None => None,
        }) == common_copies_of(mods_dir@, paths@, windows),
{
    let mut out: Vec<Move> = Vec::new();
    let n = paths.len();
    let mut i: usize = 0;
    assert(paths@.skip(0) =~= paths@);
    while i < n
        invariant
            i <= n == paths.len(),
            common_copies_of(mods_dir@, paths@, windows) == (moves_view(out@) + common_copies_of(
                mods_dir@,
                paths@.skip(i as int),
                windows,
            ).0, common_copies_of(mods_dir@, paths@.skip(i as int), windows).1),
        decreases n - i,
    {
        let ghost rest = paths@.skip(i as int);
        assert(rest[0] == paths@[i as int]);
        assert(rest.drop_first() =~= paths@.skip(i + 1));
        match child_name_from_path(paths[i].as_str(), windows) {
            Err(e) => {
                return (out, Some(e));
            },
            Ok(name) => {
                let to = join_path(mods_dir, name.as_str(), windows);
                let m = Move { from: paths[i].clone(), to };
                let ghost before = out@;
                out.push(m);
                assert(moves_view(out@) =~= moves_view(before).push((m.from@, m.to@)));
                assert(moves_view(out@) + common_copies_of(mods_dir@, paths@.skip(i + 1), windows).0
                    =~= moves_view(before) + (seq![(m.from@, m.to@)] + common_copies_of(
                    mods_dir@,
                    paths@.skip(i + 1),
                    windows,
                ).0));
            },
        }
        i = i + 1;
    }
    assert(paths@.skip(n as int).len() == 0);
    assert(moves_view(out@) + Seq::<(Seq<char>, Seq<char>)>::empty() =~= moves_view(out@));
    (out, None)
}

pub const MOD_MISSING: &'static str = "选择的模组不存在。";
pub const MOD_NOT_FOLDER: &'static str = "请选择模组文件夹。";
pub const NOT_TOP_LEVEL_MOD: &'static str = "请选择当前 mods 目录下的一级模组文件夹。";

/// A mod to add to the common mods must be an existing folder.
pub fn check_mod_source(present: bool, is_dir: bool) -> (r: Result<(), String>)
    ensures
        r is Ok <==> present && is_dir,
        !present ==> (r matches Err(e) && e@ == MOD_MISSING@),
        present && !is_dir ==> (r matches Err(e) && e@ == MOD_NOT_FOLDER@),
{
    if !present {
        Err(String::from_str(MOD_MISSING))
    } else if !is_dir {
        Err(String::from_str(MOD_NOT_FOLDER))
    } else {
        Ok(())
    }
}

/// The name under which the mod folder `source` (a canonical path) joins
/// the common mods, and where it goes: it must be a folder directly in
/// `mods_dir` (canonical too), and its name a safe child name.
pub open spec fn common_mod_destination_of(
    source: Seq<char>,
    mods_dir: Seq<char>,
    common_dir: Seq<char>,
    w: bool,
) -> Result<(Seq<char>, Seq<char>), Seq<char>> {
    if !is_parent_seq(mods_dir, source, w) {
        Err(NOT_TOP_LEVEL_MOD@)
    } else {
        match child_name_result(file_name_seq(source, w)) {
            Err(e) => Err(e),
            Ok(n) => Ok((n, join_seq(common_dir, n, w))),
        }
    }
}

/// Where a mod folder goes among the common mods.
pub fn common_mod_destination(source: &str, mods_dir: &str, common_dir: &str, windows: bool) -> (r:
    Result<(String, String), String>)
    ensures
        crate::repo::pair_result_view(r) == common_mod_destination_of(
            source@,
            mods_dir@,
            common_dir@,
            windows,
        ),
{
    if !is_parent(mods_dir, source, windows) {
        return Err(String::from_str(NOT_TOP_LEVEL_MOD));
    }
    let name = child_name_from_path(source, windows)?;
    let target = join_path(common_dir, name.as_str(), windows);
    Ok((name, target))
}

pub const INVALID_MOD_NAME: &'static str = "无效的模组名称。";

/// The common mod that `mod_name` names, trimmed: it must be a safe child
/// name, and the path lies directly in the common mods directory.
pub open spec fn common_mod_path_of(common_dir: Seq<char>, mod_name: Seq<char>, w: bool) -> Result<
    Seq<char>,
    Seq<char>,
> {
    let t = trimmed(mod_name);
    if !safe_child_name(t) || !is_parent_seq(common_dir, join_seq(common_dir, t, w), w) {
        Err(INVALID_MOD_NAME@)
    } else {
        Ok(join_seq(common_dir, t, w))
    }
}

/// The path of the common mod to delete.
pub fn common_mod_to_delete(common_dir: &str, mod_name: &str, windows: bool) -> (r: Result<
    String,
    String,
>)
    ensures
        result_view(r) == common_mod_path_of(common_dir@, mod_name@, windows),
{
    let t = trim(mod_name);
    if !is_safe_child_name(t.as_str()) {
        return Err(String::from_str(INVALID_MOD_NAME));
    }
    let p = join_path(common_dir, t.as_str(), windows);
    if !is_parent(common_dir, p.as_str(), windows) {
        return Err(String::from_str(INVALID_MOD_NAME));
    }
    Ok(p)
}

pub const COMMON_MOD_MISSING: &'static str = "公共模组不存在。";

pub const INVALID_BACKUP_NAME: &'static str = "无效的备份目录名称。";

/// The backup that `backup_name` names, trimmed: it must be a backup name,
/// and the path lies directly in the game directory.
pub open spec fn backup_path_of(game: Seq<char>, backup_name: Seq<char>, w: bool) -> Result<
    Seq<char>,
    Seq<char>,
> {
    let t = trimmed(backup_name);
    if !valid_backup_name(t) || !is_parent_seq(game, join_seq(game, t, w), w) {
        Err(INVALID_BACKUP_NAME@)
    } else {
        Ok(join_seq(game, t, w))
    }
}

/// The path of the backup to delete.
pub fn backup_to_delete(game: &str, backup_name: &str, windows: bool) -> (r: Result<String, String>)
    ensures
        result_view(r) == backup_path_of(game@, backup_name@, windows),
{
    let t = trim(backup_name);
    if !is_valid_backup_name(t.as_str()) {
        return Err(String::from_str(INVALID_BACKUP_NAME));
    }
    let p = join_path(game, t.as_str(), windows);
    if !is_parent(game, p.as_str(), windows) {
        return Err(String::from_str(INVALID_BACKUP_NAME));
    }
    Ok(p)
}

proof fn lemma_safe_name_simple(t: Seq<char>, w: bool)
    requires
        safe_child_name(t),
        trimmed(t) == t,
        !crate::paths::has_drive(t, w),
    ensures
        crate::paths::is_simple_name(t, w),
        t != seq!['.', '.'],
{
    assert forall|i: int| 0 <= i < t.len() implies !crate::paths::is_sep(#[trigger] t[i], w) by {
        if t[i] == '/' {
            assert(t.contains('/'));
        }
        if t[i] == '\\' {
            assert(t.contains('\\'));
        }
    }
}

/// A common mod to delete, named without a disk prefix, is found exactly
/// when its name is a safe child name; it is then the entry of the common
/// mods directory of that (trimmed) name.
pub proof fn lemma_common_mod_path(common_dir: Seq<char>, mod_name: Seq<char>, w: bool)
    requires
        !crate::paths::has_drive(trimmed(mod_name), w),
    ensures
        common_mod_path_of(common_dir, mod_name, w) is Ok <==> safe_child_name(mod_name),
        common_mod_path_of(common_dir, mod_name, w) matches Ok(p) ==> is_parent_seq(common_dir, p, w)
            && file_name_seq(p, w) == Some(trimmed(mod_name)),
{
    let t = trimmed(mod_name);
    crate::text::lemma_trimmed_idempotent(mod_name);
    if safe_child_name(t) {
        lemma_safe_name_simple(t, w);
        crate::paths::lemma_join_child(common_dir, t, t, w);
    }
}

proof fn lemma_backup_name_simple(t: Seq<char>, w: bool)
    requires
        valid_backup_name(t),
    ensures
        crate::paths::is_simple_name(t, w),
        t != seq!['.', '.'],
{
    let p = backup_prefix();
    assert(t.len() == 24) by {
        assert(t.skip(12).len() == 12);
    }
    assert(t[1] == t.take(12)[1]);
    assert forall|i: int| 0 <= i < t.len() implies !crate::paths::is_sep(#[trigger] t[i], w) by {
        if i < 12 {
            assert(t[i] == t.take(12)[i]);
            assert(t.take(12)[i] == p[i]);
        } else {
            assert(t[i] == t.skip(12)[i - 12]);
            assert(crate::names::is_ascii_digit(t.skip(12)[i - 12]));
        }
    }
    assert(t != seq!['.']);
}

/// A backup to delete is found exactly when its trimmed name is a backup
/// name; it is then the entry of the game directory of that name.
pub proof fn lemma_backup_path(game: Seq<char>, backup_name: Seq<char>, w: bool)
    ensures
        backup_path_of(game, backup_name, w) is Ok <==> valid_backup_name(trimmed(backup_name)),
        backup_path_of(game, backup_name, w) matches Ok(p) ==> is_parent_seq(game, p, w)
            && file_name_seq(p, w) == Some(trimmed(backup_name)),
{
    let t = trimmed(backup_name);
    if valid_backup_name(t) {
        lemma_backup_name_simple(t, w);
        crate::paths::lemma_join_child(game, t, t, w);
    }
}

pub const BACKUP_MISSING: &'static str = "备份目录不存在。";
pub const DIRECTORY_MISSING: &'static str = "目录不存在。";
pub const PATH_NOT_DIRECTORY: &'static str = "指定路径不是目录。";

/// A directory can only be opened where it exists as a directory.
pub fn check_open_directory(present: bool, is_dir: bool) -> (r: Result<(), String>)
    ensures
        r is Ok <==> present && is_dir,
        !present ==> (r matches Err(e) && e@ == DIRECTORY_MISSING@),
        present && !is_dir ==> (r matches Err(e) && e@ == PATH_NOT_DIRECTORY@),
{
    if !present {
        Err(String::from_str(DIRECTORY_MISSING))
    } else if !is_dir {
        Err(String::from_str(PATH_NOT_DIRECTORY))
    } else {
        Ok(())
    }
}

} // verus!
