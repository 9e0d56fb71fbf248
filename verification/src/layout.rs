//! Where things live under the game directory.
use vstd::prelude::*;
use crate::names::result_view;
use crate::paths::{join_path, join_seq, is_simple_name, lemma_join_child, same_path_seq};

verus! {

pub const MODS_DIR_NAME: &'static str = "mods";
pub const COMMON_MODS_DIR_NAME: &'static str = "mods_common";
pub const DOWNLOAD_ARCHIVE_NAME: &'static str = "mods.zip";
pub const DOWNLOAD_TEMP_ARCHIVE_NAME: &'static str = "mods.zip.__download__";
pub const EXTRACT_DIR_NAME: &'static str = "mods.__extract__";
pub const INCOMING_DIR_NAME: &'static str = "mods.__incoming__";
pub const PREVIOUS_DIR_NAME: &'static str = "mods.__previous__";

/// The message for a game directory that does not exist.
pub const GAME_DIRECTORY_MISSING: &'static str = "游戏目录不存在。";

/// The game directory, where it exists as a directory.
pub fn ensure_game_directory(game_directory: &str, present: bool, is_dir: bool) -> (r: Result<
    String,
    String,
>)
    ensures
        result_view(r) == if present && is_dir {
            Ok(game_directory@)
        } else {
            Err(GAME_DIRECTORY_MISSING@)
        },
{
    if !present || !is_dir {
        return Err(String::from_str(GAME_DIRECTORY_MISSING));
    }
    Ok(String::from_str(game_directory))
}

/// The directory of mods that are copied into every fresh `mods` directory.
pub fn common_mods_directory(game_directory: &str, windows: bool) -> (r: String)
    ensures
        r@ == join_seq(game_directory@, COMMON_MODS_DIR_NAME@, windows),
{
    join_path(game_directory, COMMON_MODS_DIR_NAME, windows)
}

/// The paths that the workflows use under one game directory.
pub struct GameLayout {
    pub game: String,
    pub mods: String,
    pub common_mods: String,
    pub archive: String,
    pub download_temp: String,
    pub extract: String,
    pub incoming: String,
    pub previous: String,
}

impl GameLayout {
    /// The layout is that of game directory `game`.
    pub open spec fn of(&self, game: Seq<char>, w: bool) -> bool {
        &&& self.game@ == game
        &&& self.mods@ == join_seq(game, MODS_DIR_NAME@, w)
        &&& self.common_mods@ == join_seq(game, COMMON_MODS_DIR_NAME@, w)
        &&& self.archive@ == join_seq(game, DOWNLOAD_ARCHIVE_NAME@, w)
        &&& self.download_temp@ == join_seq(game, DOWNLOAD_TEMP_ARCHIVE_NAME@, w)
        &&& self.extract@ == join_seq(game, EXTRACT_DIR_NAME@, w)
        &&& self.incoming@ == join_seq(game, INCOMING_DIR_NAME@, w)
        &&& self.previous@ == join_seq(game, PREVIOUS_DIR_NAME@, w)
    }

    /// The layout of game directory `game`.
    pub fn new(game: &str, windows: bool) -> (r: GameLayout)
        ensures
            r.of(game@, windows),
    {
        GameLayout {
            game: String::from_str(game),
            mods: join_path(game, MODS_DIR_NAME, windows),
            common_mods: join_path(game, COMMON_MODS_DIR_NAME, windows),
            archive: join_path(game, DOWNLOAD_ARCHIVE_NAME, windows),
            download_temp: join_path(game, DOWNLOAD_TEMP_ARCHIVE_NAME, windows),
            extract: join_path(game, EXTRACT_DIR_NAME, windows),
            incoming: join_path(game, INCOMING_DIR_NAME, windows),
            previous: join_path(game, PREVIOUS_DIR_NAME, windows),
        }
    }

    /// The leftovers of an interrupted download or extraction, in the order
    /// they are cleaned up.
    pub fn stale_temp_paths(&self) -> (r: Vec<String>)
        ensures
            r@.len() == 4,
            r@[0]@ == self.extract@,
            r@[1]@ == self.incoming@,
            r@[2]@ == self.previous@,
            r@[3]@ == self.download_temp@,
    {
        vec![self.extract.clone(), self.incoming.clone(), self.previous.clone(), self.download_temp.clone()]
    }
}

/// The names that the layout gives to entries of the game directory.
pub open spec fn layout_names() -> Seq<Seq<char>> {
    seq![
        MODS_DIR_NAME@,
        COMMON_MODS_DIR_NAME@,
        DOWNLOAD_ARCHIVE_NAME@,
        DOWNLOAD_TEMP_ARCHIVE_NAME@,
        EXTRACT_DIR_NAME@,
        INCOMING_DIR_NAME@,
        PREVIOUS_DIR_NAME@,
    ]
}

proof fn lemma_layout_names(w: bool)
    ensures
        forall|i: int| 0 <= i < 7 ==> is_simple_name(#[trigger] layout_names()[i], w),
        forall|i: int, j: int|
            0 <= i < j < 7 ==> #[trigger] layout_names()[i] != #[trigger] layout_names()[j],
{
    reveal_strlit("mods");
    reveal_strlit("mods_common");
    reveal_strlit("mods.zip");
    reveal_strlit("mods.zip.__download__");
    reveal_strlit("mods.__extract__");
    reveal_strlit("mods.__incoming__");
    reveal_strlit("mods.__previous__");
    let ns = layout_names();
    assert forall|i: int| 0 <= i < 7 implies is_simple_name(#[trigger] ns[i], w) by {
        assert(ns[i].len() > 1);
        assert(ns[i] != seq!['.']);
        assert(ns[i][1] == 'o');
    }
    assert forall|i: int, j: int| 0 <= i < j < 7 implies #[trigger] ns[i] != #[trigger] ns[j] by {
        if ns[i].len() == ns[j].len() {
            // the names of equal length differ within their first nine characters
            assert(ns[i][5] != ns[j][5] || ns[i][6] != ns[j][6] || ns[i][7] != ns[j][7]
                || ns[i][8] != ns[j][8]);
        }
    }
}

/// The layout's entries are distinct children of the game directory: each
/// has the game directory as parent, and no two name the same path.
pub proof fn lemma_layout_distinct(game: Seq<char>, w: bool)
    ensures
        forall|i: int|
            0 <= i < 7 ==> crate::paths::is_parent_seq(
                game,
                join_seq(game, #[trigger] layout_names()[i], w),
                w,
            ),
        forall|i: int, j: int|
            0 <= i < j < 7 ==> !same_path_seq(
                join_seq(game, #[trigger] layout_names()[i], w),
                join_seq(game, #[trigger] layout_names()[j], w),
                w,
            ),
{
    lemma_layout_names(w);
    let ns = layout_names();
    assert forall|i: int| 0 <= i < 7 implies crate::paths::is_parent_seq(
        game,
        join_seq(game, #[trigger] ns[i], w),
        w,
    ) by {
        lemma_join_child(game, ns[i], ns[i], w);
    }
    assert forall|i: int, j: int| 0 <= i < j < 7 implies !same_path_seq(
        join_seq(game, #[trigger] ns[i], w),
        join_seq(game, #[trigger] ns[j], w),
        w,
    ) by {
        lemma_join_child(game, ns[i], ns[j], w);
    }
}

} // verus!
