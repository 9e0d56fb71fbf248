//! Rules for the names that the workflows accept: child names, backup
//! directory names and file extensions.
use vstd::prelude::*;
use crate::text::{chars_of, trim, trimmed};
use crate::paths::{file_name, file_name_seq};
use crate::order::lex_le;
use crate::mirrors::digits_value;

verus! {

/// The message for a name that cannot stand as a child of a directory.
pub const INVALID_FOLDER_NAME: &'static str = "文件夹名称无效。";

/// A name that, trimmed, is non-empty, neither `.` nor `..`, and holds no
/// path separator.
pub open spec fn safe_child_name(name: Seq<char>) -> bool {
    let t = trimmed(name);
    &&& t.len() > 0
    &&& t != seq!['.']
    &&& t != seq!['.', '.']
    &&& !t.contains('/')
    &&& !t.contains('\\')
}

fn has_no_separator(cs: &Vec<char>) -> (r: bool)
    ensures
        r == (!cs@.contains('/') && !cs@.contains('\\')),
{
    let n = cs.len();
    for i in 0..n
        invariant
            n == cs.len(),
            forall|j: int| 0 <= j < i ==> cs@[j] != '/' && cs@[j] != '\\',
    {
        if cs[i] == '/' || cs[i] == '\\' {
            assert(cs@.contains(cs@[i as int]));
            return false;
        }
    }
    true
}

/// Whether `name` can be used as the name of a direct child of a directory.
pub fn is_safe_child_name(name: &str) -> (r: bool)
    ensures
        r == safe_child_name(name@),
{
    let t = trim(name);
    let cs = chars_of(t.as_str());
    let n = cs.len();
    if n == 0 {
        return false;
    }
    if n == 1 && cs[0] == '.' {
        assert(cs@ =~= seq!['.']);
        return false;
    }
    if n == 2 && cs[0] == '.' && cs[1] == '.' {
        assert(cs@ =~= seq!['.', '.']);
        return false;
    }
    assert(cs@ != seq!['.'] && cs@ != seq!['.', '.']) by {
        if cs@ == seq!['.'] {
            assert(cs@[0] == '.');
        }
        if cs@ == seq!['.', '.'] {
            assert(cs@[0] == '.' && cs@[1] == '.');
        }
    }
    has_no_separator(&cs)
}

/// A name is safe exactly when, trimmed, it is non-empty, neither `.` nor
/// `..`, and none of its characters is `/` or `\`; every other character,
/// such as a space inside the name, is allowed. For a name without a disk
/// prefix this says: the trimmed name is a single path component on
/// Windows, and not `..`.
pub proof fn lemma_safe_child_name_chars(name: Seq<char>)
    ensures
        safe_child_name(name) <==> ({
            let t = trimmed(name);
            &&& t.len() > 0
            &&& t != seq!['.']
            &&& t != seq!['.', '.']
            &&& forall|i: int| 0 <= i < t.len() ==> #[trigger] t[i] != '/' && t[i] != '\\'
        }),
        !crate::paths::has_drive(trimmed(name), true) ==> (safe_child_name(name) <==> (
        crate::paths::is_simple_name(trimmed(name), true) && trimmed(name) != seq!['.', '.'])),
{
    let t = trimmed(name);
    assert((forall|i: int| 0 <= i < t.len() ==> #[trigger] t[i] != '/' && t[i] != '\\') <==> (
    !t.contains('/') && !t.contains('\\'))) by {
        if t.contains('/') {
            let k = choose|k: int| 0 <= k < t.len() && t[k] == '/';
            assert(t[k] == '/');
        }
        if t.contains('\\') {
            let k = choose|k: int| 0 <= k < t.len() && t[k] == '\\';
            assert(t[k] == '\\');
        }
        if !(forall|i: int| 0 <= i < t.len() ==> #[trigger] t[i] != '/' && t[i] != '\\') {
            let k = choose|k: int| 0 <= k < t.len() && !(t[k] != '/' && t[k] != '\\');
            assert(t.contains(t[k]));
        }
    }
}

/// The outcome of taking the child name from a path whose file name is
/// `file_name`.
pub open spec fn child_name_result(file_name: Option<Seq<char>>) -> Result<Seq<char>, Seq<char>> {
    match file_name {
        Some(n) => if safe_child_name(n) {
            Ok(n)
        } else {
            Err(INVALID_FOLDER_NAME@)
        },
        None => Err(INVALID_FOLDER_NAME@),
    }
}

/// The view of a result of strings.
pub open spec fn result_view(r: Result<String, String>) -> Result<Seq<char>, Seq<char>> {
    match r {
        Ok(s) => Ok(s@),
        Err(e) => Err(e@),
    }
}

/// The file name of a path, where it is a safe child name.
pub fn child_name_from_path(path: &str, windows: bool) -> (r: Result<String, String>)
    ensures
        result_view(r) == child_name_result(file_name_seq(path@, windows)),
{
    match file_name(path, windows) {
        Some(name) => {
            if is_safe_child_name(name.as_str()) {
                Ok(name)
            } else {
                Err(String::from_str(INVALID_FOLDER_NAME))
            }
        },
        None => Err(String::from_str(INVALID_FOLDER_NAME)),
    }
}

/// What every backup directory's name begins with.
pub const BACKUP_DIR_PREFIX: &'static str = "mods_backup_";

pub open spec fn backup_prefix() -> Seq<char> {
    seq!['m', 'o', 'd', 's', '_', 'b', 'a', 'c', 'k', 'u', 'p', '_']
}

pub proof fn lemma_backup_prefix()
    ensures
        BACKUP_DIR_PREFIX@ == backup_prefix(),
{
    reveal_strlit("mods_backup_");
    assert(BACKUP_DIR_PREFIX@ =~= backup_prefix());
}

pub open spec fn is_ascii_digit(c: char) -> bool {
    '0' <= c <= '9'
}

/// Twelve ASCII digits, the minute stamp `%Y%m%d%H%M` of the years 1000 to 9999.
pub open spec fn is_minute_stamp(s: Seq<char>) -> bool {
    s.len() == 12 && forall|i: int| 0 <= i < 12 ==> is_ascii_digit(#[trigger] s[i])
}

/// A backup directory name: the prefix, then a minute stamp.
pub open spec fn valid_backup_name(name: Seq<char>) -> bool {
    name.len() >= 12 && name.take(12) == backup_prefix() && is_minute_stamp(name.skip(12))
}

/// Whether `name` is the name of a backup directory.
pub fn is_valid_backup_name(name: &str) -> (r: bool)
    ensures
        r == valid_backup_name(name@),
{
    let cs = chars_of(name);
    proof {
        lemma_backup_prefix();
    }
    let p = chars_of(BACKUP_DIR_PREFIX);
    if cs.len() != 24 {
        assert(!valid_backup_name(name@)) by {
            if valid_backup_name(name@) {
                assert(name@.skip(12).len() == 12);
            }
        }
        return false;
    }
    for i in 0..12
        invariant
            cs@ == name@,
            cs.len() == 24,
            p@ == backup_prefix(),
            forall|j: int| 0 <= j < i ==> cs@[j] == p@[j],
    {
        if cs[i] != p[i] {
            assert(name@.take(12)[i as int] != backup_prefix()[i as int]);
            return false;
        }
    }
    assert(name@.take(12) =~= backup_prefix());
    for i in 12..24
        invariant
            cs@ == name@,
            cs.len() == 24,
            forall|j: int| 12 <= j < i ==> is_ascii_digit(#[trigger] cs@[j]),
    {
        if !('0' <= cs[i] && cs[i] <= '9') {
            assert(!is_ascii_digit(name@.skip(12)[i - 12]));
            return false;
        }
    }
    assert forall|i: int| 0 <= i < 12 implies is_ascii_digit(#[trigger] name@.skip(12)[i]) by {
        assert(name@.skip(12)[i] == cs@[i + 12]);
    }
    true
}

/// The name of the backup directory made at minute `stamp`.
pub fn backup_dir_name(stamp: &str) -> (r: String)
    ensures
        r@ == backup_prefix() + stamp@,
{
    proof {
        lemma_backup_prefix();
    }
    let mut r = String::from_str(BACKUP_DIR_PREFIX);
    r.append(stamp);
    r
}

/// A backup name made from a stamp is valid exactly when the stamp is a
/// minute stamp.
pub proof fn lemma_backup_name_valid(stamp: Seq<char>)
    ensures
        valid_backup_name(backup_prefix() + stamp) <==> is_minute_stamp(stamp),
{
    let n = backup_prefix() + stamp;
    assert(n.take(12) =~= backup_prefix());
    assert(n.skip(12) =~= stamp);
}

/// The format of a backup's time stamp: year, month, day, hour, minute.
pub const MINUTE_STAMP_FORMAT: &'static str = "%Y%m%d%H%M";

pub open spec fn minute_stamp_format() -> Seq<char> {
    seq!['%', 'Y', '%', 'm', '%', 'd', '%', 'H', '%', 'M']
}

pub proof fn lemma_minute_stamp_format()
    ensures
        MINUTE_STAMP_FORMAT@ == minute_stamp_format(),
{
    reveal_strlit("%Y%m%d%H%M");
    assert(MINUTE_STAMP_FORMAT@ =~= minute_stamp_format());
}

pub open spec fn all_ascii_digits(s: Seq<char>) -> bool {
    forall|i: int| 0 <= i < s.len() ==> is_ascii_digit(#[trigger] s[i])
}

/// A year as `%Y` writes it: at least four digits, with a sign before them
/// for the years before 0 and after 9999.
pub open spec fn is_year_field(y: Seq<char>) -> bool {
    ||| y.len() >= 4 && all_ascii_digits(y)
    ||| y.len() >= 5 && (y[0] == '+' || y[0] == '-') && all_ascii_digits(y.drop_first())
}

/// What `%Y%m%d%H%M` writes: the year, then two digits each for the
/// month, the day, the hour and the minute.
pub open spec fn is_formatted_minute(s: Seq<char>) -> bool {
    &&& s.len() >= 12
    &&& is_year_field(s.take(s.len() - 8))
    &&& all_ascii_digits(s.skip(s.len() - 8))
}

/// A minute stamp is what `%Y%m%d%H%M` writes for the years 1000 to 9999:
/// a formatted minute of twelve characters.
pub proof fn lemma_minute_stamp_formatted(s: Seq<char>)
    ensures
        is_minute_stamp(s) <==> (is_formatted_minute(s) && s.len() == 12 && is_ascii_digit(s[0])),
{
    if is_formatted_minute(s) && s.len() == 12 && is_ascii_digit(s[0]) {
        let y = s.take(4);
        assert(s.take(s.len() - 8) =~= y);
        assert(all_ascii_digits(y)) by {
            if !(y.len() >= 4 && all_ascii_digits(y)) {
                assert(y[0] == s[0]);
            }
        }
        assert forall|i: int| 0 <= i < 12 implies is_ascii_digit(#[trigger] s[i]) by {
            if i < 4 {
                assert(s[i] == y[i]);
            } else {
                assert(s[i] == s.skip(4)[i - 4]);
            }
        }
    }
    if is_minute_stamp(s) {
        assert(s.take(4).len() == 4);
        assert forall|i: int| 0 <= i < s.take(4).len() implies is_ascii_digit(#[trigger] s.take(4)[i]) by {
            assert(s.take(4)[i] == s[i]);
        }
        assert forall|i: int| 0 <= i < s.skip(4).len() implies is_ascii_digit(#[trigger] s.skip(4)[i]) by {
            assert(s.skip(4)[i] == s[i + 4]);
        }
        assert(s.take(s.len() - 8) =~= s.take(4));
    }
}

proof fn lemma_lex_common_prefix(p: Seq<char>, a: Seq<char>, b: Seq<char>)
    ensures
        lex_le(p + a, p + b) == lex_le(a, b),
    decreases p.len(),
{
    if p.len() > 0 {
        assert((p + a).drop_first() =~= p.drop_first() + a);
        assert((p + b).drop_first() =~= p.drop_first() + b);
        lemma_lex_common_prefix(p.drop_first(), a, b);
    } else {
        assert(p + a =~= a);
        assert(p + b =~= b);
    }
}

proof fn lemma_lex_push(a: Seq<char>, b: Seq<char>, x: char, y: char)
    requires
        a.len() == b.len(),
    ensures
        a != b ==> lex_le(a.push(x), b.push(y)) == lex_le(a, b),
        a == b ==> lex_le(a.push(x), b.push(y)) == (x <= y),
    decreases a.len(),
{
    if a.len() == 0 {
        assert(a =~= b);
        assert(a.push(x).drop_first() =~= Seq::<char>::empty());
        assert(b.push(y).drop_first() =~= Seq::<char>::empty());
        assert(lex_le(Seq::<char>::empty(), Seq::<char>::empty()));
        assert(a.push(x)[0] == x && b.push(y)[0] == y);
    } else {
        assert(a.push(x).drop_first() =~= a.drop_first().push(x));
        assert(b.push(y).drop_first() =~= b.drop_first().push(y));
        assert(a.push(x)[0] == a[0] && b.push(y)[0] == b[0]);
        lemma_lex_push(a.drop_first(), b.drop_first(), x, y);
        if a[0] == b[0] && a.drop_first() == b.drop_first() {
            assert forall|i: int| 0 <= i < a.len() implies a[i] == b[i] by {
                if i > 0 {
                    assert(a[i] == a.drop_first()[i - 1]);
                    assert(b[i] == b.drop_first()[i - 1]);
                }
            }
            assert(a =~= b);
        }
    }
}

/// On digit strings of one length, the order of `str` is the order of the
/// numbers they write.
proof fn lemma_lex_digits(a: Seq<char>, b: Seq<char>)
    requires
        a.len() == b.len(),
        all_ascii_digits(a),
        all_ascii_digits(b),
    ensures
        lex_le(a, b) <==> digits_value(a) <= digits_value(b),
    decreases a.len(),
{
    if a.len() == 0 {
        assert(a =~= b);
    } else {
        let a0 = a.drop_last();
        let b0 = b.drop_last();
        assert(a =~= a0.push(a.last()));
        assert(b =~= b0.push(b.last()));
        assert(all_ascii_digits(a0)) by {
            assert forall|i: int| 0 <= i < a0.len() implies is_ascii_digit(#[trigger] a0[i]) by {
                assert(a0[i] == a[i]);
            }
        }
        assert(all_ascii_digits(b0)) by {
            assert forall|i: int| 0 <= i < b0.len() implies is_ascii_digit(#[trigger] b0[i]) by {
                assert(b0[i] == b[i]);
            }
        }
        assert(is_ascii_digit(a[a.len() - 1]));
        assert(is_ascii_digit(b[b.len() - 1]));
        lemma_lex_digits(a0, b0);
        lemma_lex_digits(b0, a0);
        lemma_lex_push(a0, b0, a.last(), b.last());
        if a0 != b0 {
            assert(digits_value(a0) != digits_value(b0)) by {
                if digits_value(a0) == digits_value(b0) {
                    crate::order::lemma_lex_antisymmetric(a0, b0);
                }
            }
        }
    }
}

/// Backup names made at later minutes sort later: for two minute stamps,
/// the order of the backup names is the order of the stamps read as
/// numbers, whose digits are, from the most significant, the year, the
/// month, the day, the hour and the minute.
pub proof fn lemma_backup_names_sort_by_time(s1: Seq<char>, s2: Seq<char>)
    requires
        is_minute_stamp(s1),
        is_minute_stamp(s2),
    ensures
        lex_le(backup_prefix() + s1, backup_prefix() + s2) <==> digits_value(s1) <= digits_value(s2),
{
    lemma_lex_common_prefix(backup_prefix(), s1, s2);
    lemma_lex_digits(s1, s2);
}

/// The extension of file name `name`: what follows its last `.`, where
/// something comes before that `.` (`Path::extension`).
pub open spec fn extension_seq(name: Seq<char>) -> Option<Seq<char>>
    decreases name.len(),
{
    if name.len() == 0 {
        None
    } else if name.last() == '.' {
        if name.len() == 1 {
            None
        } else {
            Some(Seq::<char>::empty())
        }
    } else {
        match extension_seq(name.drop_last()) {
            Some(e) => Some(e.push(name.last())),
            None => None,
        }
    }
}

/// `Path::extension` of a file name (the name `..` has none).
pub open spec fn extension_of(name: Seq<char>) -> Option<Seq<char>> {
    if name == seq!['.', '.'] {
        None
    } else {
        extension_seq(name)
    }
}

proof fn lemma_extension_suffix(s: Seq<char>, i: int)
    requires
        0 <= i <= s.len(),
        forall|j: int| i <= j < s.len() ==> s[j] != '.',
    ensures
        extension_seq(s) == (match extension_seq(s.take(i)) {
            Some(e) => Some(e + s.skip(i)),
            None => None,
        }),
    decreases s.len() - i,
{
    if i == s.len() {
        assert(s.take(i) =~= s);
        match extension_seq(s) {
            Some(e) => {
                assert(e + s.skip(i) =~= e);
            },
            None => {},
        }
    } else {
        let t = s.drop_last();
        lemma_extension_suffix(t, i);
        assert(t.take(i) =~= s.take(i));
        match extension_seq(s.take(i)) {
            Some(e) => {
                assert(e + t.skip(i) + seq![s.last()] =~= e + s.skip(i));
                assert((e + t.skip(i)).push(s.last()) =~= e + t.skip(i) + seq![s.last()]);
            },
            None => {},
        }
    }
}

/// The extension of a file name.
pub fn extension(name: &str) -> (r: Option<String>)
    ensures
        match r {
            Some(e) => extension_of(name@) == Some(e@),
            None => extension_of(name@) is None,
        },
{
    let cs = chars_of(name);
    let n = cs.len();
    if n == 2 && cs[0] == '.' && cs[1] == '.' {
        assert(name@ =~= seq!['.', '.']);
        return None;
    }
    assert(name@ != seq!['.', '.']) by {
        if name@ == seq!['.', '.'] {
            assert(cs@[0] == '.' && cs@[1] == '.');
        }
    }
    let mut i: usize = n;
    while i > 0 && cs[i - 1] != '.'
        invariant
            i <= n == cs.len(),
            cs@ == name@,
            forall|j: int| i <= j < n ==> cs@[j] != '.',
        decreases i,
    {
        i = i - 1;
    }
    proof {
        lemma_extension_suffix(name@, i as int);
    }
    if i == 0 {
        assert(name@.take(0) =~= Seq::<char>::empty());
        None
    } else if i == 1 {
        assert(name@.take(1) =~= seq!['.']);
        assert(extension_seq(seq!['.']) is None);
        None
    } else {
        let ghost t = name@.take(i as int);
        assert(t.last() == '.');
        assert(extension_seq(t) == Some(Seq::<char>::empty()));
        assert(Seq::<char>::empty() + name@.skip(i as int) =~= name@.subrange(i as int, n as int));
        Some(String::from_str(name.substring_char(i, n)))
    }
}

/// Whether the file at `path` has the extension `zip`, in any case.
pub open spec fn has_zip_extension_seq(path: Seq<char>, w: bool) -> bool {
    match file_name_seq(path, w) {
        Some(n) => match extension_of(n) {
            Some(e) => eq_ignore_ascii_case_seq(e, seq!['z', 'i', 'p']),
            None => false,
        },
        None => false,
    }
}

/// Whether the file at `path` is a zip archive by its extension.
pub fn has_zip_extension(path: &str, windows: bool) -> (r: bool)
    ensures
        r == has_zip_extension_seq(path@, windows),
{
    match file_name(path, windows) {
        Some(n) => match extension(n.as_str()) {
            Some(e) => {
                proof {
                    reveal_strlit("zip");
                }
                eq_ignore_ascii_case(e.as_str(), "zip")
            },
            None => false,
        },
        None => false,
    }
}

pub open spec fn ascii_lower(c: char) -> char {
    if 'A' <= c <= 'Z' {
        ((c as u32) + 32) as char
    } else {
        c
    }
}

/// `str::eq_ignore_ascii_case`.
pub open spec fn eq_ignore_ascii_case_seq(a: Seq<char>, b: Seq<char>) -> bool {
    a.len() == b.len() && forall|i: int| 0 <= i < a.len() ==> ascii_lower(#[trigger] a[i])
        == ascii_lower(b[i])
}

fn lower_char(c: char) -> (r: u32)
    ensures
        r == ascii_lower(c) as u32,
{
    if 'A' <= c && c <= 'Z' {
        (c as u32) + 32
    } else {
        c as u32
    }
}

/// `a.eq_ignore_ascii_case(b)`.
pub fn eq_ignore_ascii_case(a: &str, b: &str) -> (r: bool)
    ensures
        r == eq_ignore_ascii_case_seq(a@, b@),
{
    let ca = chars_of(a);
    let cb = chars_of(b);
    if ca.len() != cb.len() {
        return false;
    }
    let n = ca.len();
    for i in 0..n
        invariant
            n == ca.len() == cb.len(),
            ca@ == a@,
            cb@ == b@,
            forall|j: int| 0 <= j < i ==> ascii_lower(#[trigger] a@[j]) == ascii_lower(b@[j]),
    {
        if lower_char(ca[i]) != lower_char(cb[i]) {
            return false;
        }
    }
    true
}

} // verus!
