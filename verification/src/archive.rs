//! Checking a downloaded archive and planning where its entries go.
use vstd::prelude::*;
use crate::paths::{join_path, join_seq};

verus! {

pub const EMPTY_ARCHIVE_FILE: &'static str = "mods.zip 是空压缩包。";
pub const UNSAFE_ARCHIVE_PATH: &'static str = "压缩包包含非法路径。";

/// The outcome of checking an archive of `entry_count` entries whose
/// entries, read in order, have the safe relative paths `names` (`None`
/// where an entry's path would leave the target directory), reading having
/// stopped with `read_error` if it did.
pub open spec fn archive_check(entry_count: nat, names: Seq<Option<String>>, read_error: Option<Seq<char>>) -> Result<(), Seq<char>> {
    if entry_count == 0 {
        Err(EMPTY_ARCHIVE_FILE@)
    } else if exists|i: int| 0 <= i < names.len() && (#[trigger] names[i]) is None {
        Err(UNSAFE_ARCHIVE_PATH@)
    } else {
        match read_error {
            Some(e) => Err(e),
            None => Ok(()),
        }
    }
}

/// An empty archive is refused as empty. A non-empty archive is refused as
/// unsafe exactly when some entry read has no safe path; when every entry
/// read has one, whatever those paths are (directories `d/` among them),
/// only a read error refuses it, else it is accepted.
pub proof fn lemma_archive_check_cases(
    entry_count: nat,
    names: Seq<Option<String>>,
    read_error: Option<Seq<char>>,
)
    ensures
        entry_count == 0 ==> archive_check(entry_count, names, read_error) == Err::<(), Seq<char>>(
            EMPTY_ARCHIVE_FILE@,
        ),
        entry_count > 0 && (exists|i: int| 0 <= i < names.len() && names[i] is None) ==> archive_check(
            entry_count,
            names,
            read_error,
        ) == Err::<(), Seq<char>>(UNSAFE_ARCHIVE_PATH@),
        entry_count > 0 && (forall|i: int| 0 <= i < names.len() ==> names[i] is Some) && read_error is None
            ==> archive_check(entry_count, names, read_error) == Ok::<(), Seq<char>>(()),
        entry_count > 0 && (forall|i: int| 0 <= i < names.len() ==> names[i] is Some) && read_error
            is Some ==> archive_check(entry_count, names, read_error) == Err::<(), Seq<char>>(
            read_error->0,
        ),
{
    if entry_count > 0 && (exists|i: int| 0 <= i < names.len() && names[i] is None) {
        let k = choose|i: int| 0 <= i < names.len() && names[i] is None;
        assert(names[k] is None);
    }
}

pub open spec fn unit_result_view(r: Result<(), String>) -> Result<(), Seq<char>> {
    match r {
        Ok(()) => Ok(()),
        Err(e) => Err(e@),
    }
}

/// Whether a downloaded archive may be unpacked: it has entries, and none of
/// those read has a path that leaves the target directory.
pub fn validate_zip_archive(
    entry_count: usize,
    names: &Vec<Option<String>>,
    read_error: Option<String>,
) -> (r: Result<(), String>)
    ensures
        unit_result_view(r) == archive_check(
            entry_count as nat,
            names@,
            match read_error {
                Some(e) => Some(e@),
                None => None,
            },
        ),
{
    if entry_count == 0 {
        return Err(String::from_str(EMPTY_ARCHIVE_FILE));
    }
    let n = names.len();
    for i in 0..n
        invariant
            n == names.len(),
            entry_count > 0,
            forall|j: int| 0 <= j < i ==> (#[trigger] names@[j]) is Some,
    {
        if names[i].is_none() {
            assert(names@[i as int] is None);
            return Err(String::from_str(UNSAFE_ARCHIVE_PATH));
        }
    }
    match read_error {
        Some(e) => Err(e),
        None => Ok(()),
    }
}

/// Where an entry of the archive goes.
pub struct EntryTarget {
    /// The entry's index in the archive.
    pub index: usize,
    /// The path that it is unpacked to.
    pub path: String,
    /// Whether the entry is a directory.
    pub is_dir: bool,
}

/// An entry of an archive: its safe relative path, if it has one, and
/// whether it is a directory.
pub struct ArchiveEntry {
    pub enclosed_name: Option<String>,
    pub is_dir: bool,
}

/// Entry `k` of `planned` says where entry `k` of `entries` goes in `target`.
pub open spec fn planned_entry(planned: Seq<EntryTarget>, entries: Seq<ArchiveEntry>, target: Seq<char>, w: bool, k: int) -> bool {
    &&& planned[k].index == k
    &&& entries[k].enclosed_name is Some
    &&& planned[k].path@ == join_seq(target, entries[k].enclosed_name->0@, w)
    &&& planned[k].is_dir == entries[k].is_dir
}

/// Where the entries go when unpacked into `target`: entry after entry, to
/// `target` joined with its safe path, up to the first entry without a safe
/// path, which stops the unpacking with an error.
pub fn plan_zip_extraction(target: &str, entries: &Vec<ArchiveEntry>, windows: bool) -> (r: (
    Vec<EntryTarget>,
    Option<String>,
))
    ensures
        r.0@.len() <= entries@.len(),
        forall|k: int| 0 <= k < r.0@.len() ==> #[trigger] planned_entry(r.0@, entries@, target@, windows, k),
        r.1 is None ==> r.0@.len() == entries@.len(),
        r.1 is Some ==> r.0@.len() < entries@.len() && entries@[r.0@.len() as int].enclosed_name is None
            && r.1->0@ == UNSAFE_ARCHIVE_PATH@,
{
    let mut out: Vec<EntryTarget> = Vec::new();
    let n = entries.len();
    let mut i: usize = 0;
    while i < n
        invariant
            n == entries.len(),
            i <= n,
            out@.len() == i,
            forall|k: int| 0 <= k < i ==> #[trigger] planned_entry(out@, entries@, target@, windows, k),
        decreases n - i,
    {
        match &entries[i].enclosed_name {
            None => {
                return (out, Some(String::from_str(UNSAFE_ARCHIVE_PATH)));
            },
            Some(name) => {
                let p = join_path(target, name.as_str(), windows);
                let ghost before = out@;
                out.push(EntryTarget { index: i, path: p, is_dir: entries[i].is_dir });
                assert forall|k: int| 0 <= k < i + 1 implies #[trigger] planned_entry(
                    out@,
                    entries@,
                    target@,
                    windows,
                    k,
                ) by {
                    if k < i {
                        assert(out@[k] == before[k]);
                        assert(planned_entry(before, entries@, target@, windows, k));
                    }
                }
            },
        }
        i = i + 1;
    }
    (out, None)
}

} // verus!
