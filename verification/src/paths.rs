//! Paths as strings, by the rules of `std::path` on Windows (`windows`
//! set) and on Unix.
//!
//! `/` separates components everywhere; on Windows `\` does too, and a
//! path may begin with a disk prefix, a letter and `:`, whose letter is
//! compared without regard to case. A path's components are the pieces
//! between separators after the prefix, without empty pieces and without
//! `.` pieces other than a leading one; a path has a root when a separator
//! follows the prefix. Two paths are the same path when they agree on the
//! prefix, the root and the components, which is how `std::path::Path`
//! compares them. Verbatim (`\\?\`) and UNC (`\\server\share`)
//! prefixes are not recognised: such a path reads as a root followed by components.
use vstd::prelude::*;
use crate::text::{chars_of, split_at_separators, split_seq, views, Separator};

verus! {

/// Whether `c` separates components.
pub open spec fn is_sep(c: char, w: bool) -> bool {
    c == '/' || (w && c == '\\')
}

fn is_separator_char(c: char, windows: bool) -> (r: bool)
    ensures
        r == is_sep(c, windows),
{
    c == '/' || (windows && c == '\\')
}

/// The separator that joining puts between two parts.
pub open spec fn main_sep(w: bool) -> char {
    if w {
        '\\'
    } else {
        '/'
    }
}

pub open spec fn is_ascii_letter(c: char) -> bool {
    ('a' <= c && c <= 'z') || ('A' <= c && c <= 'Z')
}

/// Whether `p` begins with a disk prefix such as `C:` (Windows only).
pub open spec fn has_drive(p: Seq<char>, w: bool) -> bool {
    w && p.len() >= 2 && p[1] == ':' && is_ascii_letter(p[0])
}

/// A drive letter in upper case, as a code point.
pub open spec fn drive_key(c: char) -> u32 {
    if 'a' <= c && c <= 'z' {
        (c as u32 - 32) as u32
    } else {
        c as u32
    }
}

/// The disk prefix of `p`, by its upper-case letter.
pub open spec fn drive(p: Seq<char>, w: bool) -> Option<u32> {
    if has_drive(p, w) {
        Some(drive_key(p[0]))
    } else {
        None
    }
}

/// What follows the disk prefix of `p`.
pub open spec fn after_prefix(p: Seq<char>, w: bool) -> Seq<char> {
    if has_drive(p, w) {
        p.skip(2)
    } else {
        p
    }
}

fn starts_with_drive(p: &str, windows: bool) -> (r: bool)
    ensures
        r == has_drive(p@, windows),
{
    if !windows || p.unicode_len() < 2 {
        return false;
    }
    let c = p.get_char(0);
    p.get_char(1) == ':' && (('a' <= c && c <= 'z') || ('A' <= c && c <= 'Z'))
}

/// The disk prefix of `p`, by its upper-case letter.
pub fn path_drive(p: &str, windows: bool) -> (r: Option<u32>)
    ensures
        r == drive(p@, windows),
{
    if starts_with_drive(p, windows) {
        let c = p.get_char(0);
        if 'a' <= c && c <= 'z' {
            Some((c as u32) - 32)
        } else {
            Some(c as u32)
        }
    } else {
        None
    }
}

fn same_drive(a: Option<u32>, b: Option<u32>) -> (r: bool)
    ensures
        r == (a == b),
{
    match (a, b) {
        (Some(x), Some(y)) => x == y,
        (None, None) => true,
        _ => false,
    }
}

/// `base` joined with `name`, as `Path::join` does it: a `name` with a disk
/// prefix, or on Unix with a root, replaces `base`; on Windows a `name`
/// with a root keeps only the disk prefix of `base`; otherwise the
/// separator goes between them unless `base` is empty, ends with a
/// separator or is a bare disk prefix.
pub open spec fn join_seq(base: Seq<char>, name: Seq<char>, w: bool) -> Seq<char> {
    if has_drive(name, w) || (!w && name.len() > 0 && is_sep(name[0], w)) {
        name
    } else if name.len() > 0 && is_sep(name[0], w) {
        base.take(if has_drive(base, w) { 2int } else { 0int }) + name
    } else if base.len() == 0 || is_sep(base.last(), w) || (has_drive(base, w) && base.len() == 2) {
        base + name
    } else {
        base.push(main_sep(w)) + name
    }
}

/// `Path::join`.
pub fn join_path(base: &str, name: &str, windows: bool) -> (r: String)
    ensures
        r@ == join_seq(base@, name@, windows),
{
    let base_drive = starts_with_drive(base, windows);
    let nn = name.unicode_len();
    let name_rooted = nn > 0 && is_separator_char(name.get_char(0), windows);
    if starts_with_drive(name, windows) || (!windows && name_rooted) {
        return String::from_str(name);
    }
    let n = base.unicode_len();
    if name_rooted {
        let mut r = if base_drive {
            String::from_str(base.substring_char(0, 2))
        } else {
            String::from_str(base.substring_char(0, 0))
        };
        r.append(name);
        return r;
    }
    let mut r = String::from_str(base);
    if n > 0 && !is_separator_char(base.get_char(n - 1), windows) && !(base_drive && n == 2) {
        let ghost before = r@;
        if windows {
            r.append("\\");
            proof {
                reveal_strlit("\\");
            }
        } else {
            r.append("/");
            proof {
                reveal_strlit("/");
            }
        }
        assert(r@ =~= before.push(main_sep(windows)));
    }
    r.append(name);
    r
}

/// Whether the piece at index `i` of `segs` is a component.
pub open spec fn keeps_piece(segs: Seq<Seq<char>>, i: int) -> bool {
    segs[i].len() > 0 && (segs[i] != seq!['.'] || i == 0)
}

pub open spec fn components_of_pieces(segs: Seq<Seq<char>>) -> Seq<Seq<char>>
    decreases segs.len(),
{
    if segs.len() == 0 {
        Seq::<Seq<char>>::empty()
    } else {
        let rest = components_of_pieces(segs.drop_last());
        if keeps_piece(segs, segs.len() - 1) {
            rest.push(segs.last())
        } else {
            rest
        }
    }
}

/// The components of `r`, a path without disk prefix.
pub open spec fn body_components(r: Seq<char>, w: bool) -> Seq<Seq<char>> {
    components_of_pieces(split_seq(r, Separator::Path { windows: w }))
}

/// The components of path `p` after its disk prefix.
pub open spec fn components(p: Seq<char>, w: bool) -> Seq<Seq<char>> {
    body_components(after_prefix(p, w), w)
}

/// Whether path `p` has a root: a separator right after its disk prefix.
pub open spec fn has_root(p: Seq<char>, w: bool) -> bool {
    let r = after_prefix(p, w);
    r.len() > 0 && is_sep(r[0], w)
}

/// Whether `a` and `b` name the same path.
pub open spec fn same_path_seq(a: Seq<char>, b: Seq<char>, w: bool) -> bool {
    &&& drive(a, w) == drive(b, w)
    &&& has_root(a, w) == has_root(b, w)
    &&& components(a, w) == components(b, w)
}

/// Whether `dir` is the parent of `p` (`p.parent() == Some(dir)`).
pub open spec fn is_parent_seq(dir: Seq<char>, p: Seq<char>, w: bool) -> bool {
    &&& components(p, w).len() > 0
    &&& drive(p, w) == drive(dir, w)
    &&& has_root(p, w) == has_root(dir, w)
    &&& components(p, w).drop_last() == components(dir, w)
}

/// The last component of `p` where it names a file or directory:
/// `Path::file_name`.
pub open spec fn file_name_seq(p: Seq<char>, w: bool) -> Option<Seq<char>> {
    let c = components(p, w);
    if c.len() == 0 || c.last() == seq!['.'] || c.last() == seq!['.', '.'] {
        None
    } else {
        Some(c.last())
    }
}

fn is_dot(s: &String) -> (r: bool)
    ensures
        r == (s@ == seq!['.']),
{
    let cs = chars_of(s.as_str());
    let r = cs.len() == 1 && cs[0] == '.';
    assert(r ==> cs@ =~= seq!['.']);
    r
}

fn is_dot_dot(s: &String) -> (r: bool)
    ensures
        r == (s@ == seq!['.', '.']),
{
    let cs = chars_of(s.as_str());
    let r = cs.len() == 2 && cs[0] == '.' && cs[1] == '.';
    assert(r ==> cs@ =~= seq!['.', '.']);
    r
}

/// The part of `p` after its disk prefix.
fn after_prefix_string(p: &str, windows: bool) -> (r: String)
    ensures
        r@ == after_prefix(p@, windows),
{
    if starts_with_drive(p, windows) {
        let n = p.unicode_len();
        String::from_str(p.substring_char(2, n))
    } else {
        String::from_str(p)
    }
}

/// The components of path `p` after its disk prefix.
pub fn path_components(p: &str, windows: bool) -> (r: Vec<String>)
    ensures
        views(r@) == components(p@, windows),
{
    let body = after_prefix_string(p, windows);
    let sep = Separator::Path { windows };
    let segs = split_at_separators(body.as_str(), sep);
    let ghost sv = views(segs@);
    let mut out: Vec<String> = Vec::new();
    let n = segs.len();
    assert(sv.take(0) =~= Seq::<Seq<char>>::empty());
    for i in 0..n
        invariant
            n == segs.len(),
            sv == views(segs@),
            sv == split_seq(after_prefix(p@, windows), Separator::Path { windows }),
            views(out@) == components_of_pieces(sv.take(i as int)),
    {
        let ghost t = sv.take(i + 1);
        proof {
            assert(t.drop_last() =~= sv.take(i as int));
            assert(t.last() == segs@[i as int]@);
            assert(keeps_piece(t, t.len() - 1) == keeps_piece(sv, i as int));
        }
        let piece = &segs[i];
        let keep = piece.as_str().unicode_len() > 0 && (!is_dot(piece) || i == 0);
        if keep {
            let ghost before = out@;
            out.push(piece.clone());
            proof {
                assert(out@ == before.push(segs@[i as int]));
                assert(views(out@) =~= views(before).push(segs@[i as int]@));
            }
        }
    }
    assert(sv.take(n as int) =~= sv);
    out
}

/// Whether path `p` has a root.
pub fn path_has_root(p: &str, windows: bool) -> (r: bool)
    ensures
        r == has_root(p@, windows),
{
    let body = after_prefix_string(p, windows);
    let n = body.as_str().unicode_len();
    if n == 0 {
        false
    } else {
        is_separator_char(body.as_str().get_char(0), windows)
    }
}

/// Whether two component lists are equal.
fn same_components(a: &Vec<String>, b: &Vec<String>) -> (r: bool)
    ensures
        r == (views(a@) == views(b@)),
{
    if a.len() != b.len() {
        assert(views(a@).len() != views(b@).len());
        return false;
    }
    let n = a.len();
    for i in 0..n
        invariant
            n == a.len() == b.len(),
            forall|j: int| 0 <= j < i ==> a@[j]@ == b@[j]@,
    {
        if a[i] != b[i] {
            assert(views(a@)[i as int] != views(b@)[i as int]);
            return false;
        }
    }
    assert(views(a@) =~= views(b@));
    true
}

/// `Path::new(a) == Path::new(b)`.
pub fn same_path(a: &str, b: &str, windows: bool) -> (r: bool)
    ensures
        r == same_path_seq(a@, b@, windows),
{
    if !same_drive(path_drive(a, windows), path_drive(b, windows)) {
        return false;
    }
    if path_has_root(a, windows) != path_has_root(b, windows) {
        return false;
    }
    let ca = path_components(a, windows);
    let cb = path_components(b, windows);
    same_components(&ca, &cb)
}

/// `p.parent() == Some(dir)`.
pub fn is_parent(dir: &str, p: &str, windows: bool) -> (r: bool)
    ensures
        r == is_parent_seq(dir@, p@, windows),
{
    if !same_drive(path_drive(p, windows), path_drive(dir, windows)) {
        return false;
    }
    if path_has_root(p, windows) != path_has_root(dir, windows) {
        return false;
    }
    let mut cp = path_components(p, windows);
    let cd = path_components(dir, windows);
    if cp.len() == 0 {
        return false;
    }
    let ghost before = cp@;
    cp.pop();
    proof {
        assert(views(cp@) =~= views(before).drop_last());
    }
    same_components(&cp, &cd)
}

/// `Path::file_name`, as a string.
pub fn file_name(p: &str, windows: bool) -> (r: Option<String>)
    ensures
        match r {
            Some(s) => file_name_seq(p@, windows) == Some(s@),
            None => file_name_seq(p@, windows) is None,
        },
{
    let mut c = path_components(p, windows);
    let n = c.len();
    if n == 0 {
        return None;
    }
    let ghost cv = views(c@);
    assert(cv.last() == c@[n - 1]@);
    let last = c.pop().unwrap();
    if is_dot(&last) || is_dot_dot(&last) {
        None
    } else {
        Some(last)
    }
}

/// A name that is exactly one component: non-empty, not `.`, without
/// separators and without a disk prefix.
pub open spec fn is_simple_name(n: Seq<char>, w: bool) -> bool {
    &&& n.len() > 0
    &&& n != seq!['.']
    &&& forall|i: int| 0 <= i < n.len() ==> !is_sep(#[trigger] n[i], w)
    &&& !has_drive(n, w)
}

proof fn lemma_split_append_plain(s: Seq<char>, t: Seq<char>, w: bool)
    requires
        forall|i: int| 0 <= i < t.len() ==> !is_sep(#[trigger] t[i], w),
    ensures
        split_seq(s + t, Separator::Path { windows: w }) == split_seq(
            s,
            Separator::Path { windows: w },
        ).update(
            split_seq(s, Separator::Path { windows: w }).len() - 1,
            split_seq(s, Separator::Path { windows: w }).last() + t,
        ),
    decreases t.len(),
{
    let sep = Separator::Path { windows: w };
    crate::text::lemma_split_seq_nonempty(s, sep);
    let ps = split_seq(s, sep);
    if t.len() == 0 {
        assert(s + t =~= s);
        assert(ps.last() + t =~= ps.last());
        assert(ps.update(ps.len() - 1, ps.last()) =~= ps);
    } else {
        let t0 = t.drop_last();
        lemma_split_append_plain(s, t0, w);
        assert((s + t).drop_last() =~= s + t0);
        assert((s + t).last() == t.last());
        assert(!is_sep(t.last(), w));
        let q = split_seq(s + t0, sep);
        assert(split_seq(s + t, sep) == q.update(q.len() - 1, q.last().push(t.last())));
        assert(q.len() == ps.len());
        assert(q.last() == ps.last() + t0);
        assert(q.last().push(t.last()) =~= ps.last() + t);
        assert forall|i: int| 0 <= i < q.len() - 1 implies q[i] == ps[i] by {}
        assert(q.update(q.len() - 1, q.last().push(t.last())) =~= ps.update(
            ps.len() - 1,
            ps.last() + t,
        ));
    }
}

proof fn lemma_components_push_simple(pieces: Seq<Seq<char>>, n: Seq<char>, w: bool)
    requires
        is_simple_name(n, w),
    ensures
        components_of_pieces(pieces.push(n)) == components_of_pieces(pieces).push(n),
{
    assert(pieces.push(n).drop_last() =~= pieces);
    assert(keeps_piece(pieces.push(n), pieces.len() as int));
}

/// A simple name alone is its one component.
proof fn lemma_body_single(n: Seq<char>, w: bool)
    requires
        is_simple_name(n, w),
    ensures
        body_components(n, w) == seq![n],
        body_components(Seq::<char>::empty(), w) == Seq::<Seq<char>>::empty(),
{
    let sep = Separator::Path { windows: w };
    let e = Seq::<char>::empty();
    lemma_split_append_plain(e, n, w);
    assert(e + n =~= n);
    assert(split_seq(e, sep) =~= seq![e]);
    assert(e + n =~= n);
    assert(split_seq(n, sep) =~= seq![n]);
    assert(seq![n] =~= Seq::<Seq<char>>::empty().push(n));
    lemma_components_push_simple(Seq::<Seq<char>>::empty(), n, w);
    assert(components_of_pieces(Seq::<Seq<char>>::empty()) =~= Seq::<Seq<char>>::empty());
    assert(components_of_pieces(seq![e]) =~= Seq::<Seq<char>>::empty()) by {
        assert(seq![e].drop_last() =~= Seq::<Seq<char>>::empty());
        assert(!keeps_piece(seq![e], 0));
    }
}

/// `r` followed by a separator, unless it ends with one.
pub open spec fn with_sep(r: Seq<char>, w: bool) -> Seq<char> {
    if is_sep(r.last(), w) {
        r
    } else {
        r.push(main_sep(w))
    }
}

/// Adding a separator and a simple name to a non-empty path body adds
/// that name as a component.
proof fn lemma_body_join(r: Seq<char>, n: Seq<char>, w: bool)
    requires
        r.len() > 0,
        is_simple_name(n, w),
    ensures
        body_components(with_sep(r, w) + n, w) == body_components(r, w).push(n),
{
    let sep = Separator::Path { windows: w };
    let ws = with_sep(r, w);
    let b0 = ws.drop_last();
    assert(is_sep(ws.last(), w));
    lemma_split_append_plain(ws, n, w);
    let pb0 = split_seq(b0, sep);
    assert(ws =~= b0.push(ws.last()));
    assert(split_seq(ws, sep) == pb0.push(Seq::<char>::empty()));
    assert(pb0.push(Seq::<char>::empty()).update(pb0.len() as int, Seq::<char>::empty() + n)
        =~= pb0.push(n));
    lemma_components_push_simple(pb0, n, w);
    assert(body_components(r, w) == components_of_pieces(pb0)) by {
        if is_sep(r.last(), w) {
            assert(r == ws);
            assert(pb0.push(Seq::<char>::empty()).drop_last() =~= pb0);
            assert(!keeps_piece(pb0.push(Seq::<char>::empty()), pb0.len() as int));
        } else {
            assert(r == b0);
        }
    }
}

/// Joining a one-component name adds exactly that component, and keeps
/// the disk prefix and the root.
pub proof fn lemma_components_join(base: Seq<char>, n: Seq<char>, w: bool)
    requires
        is_simple_name(n, w),
    ensures
        components(join_seq(base, n, w), w) == components(base, w).push(n),
        has_root(join_seq(base, n, w), w) == has_root(base, w),
        drive(join_seq(base, n, w), w) == drive(base, w),
{
    let j = join_seq(base, n, w);
    assert(!is_sep(n[0], w));
    if base.len() == 0 {
        assert(j =~= n);
        lemma_body_single(n, w);
    } else if has_drive(base, w) && base.len() == 2 {
        assert(j =~= base + n);
        assert(j[0] == base[0] && j[1] == base[1]);
        assert(j.skip(2) =~= n);
        assert(base.skip(2) =~= Seq::<char>::empty());
        lemma_body_single(n, w);
    } else {
        let r = after_prefix(base, w);
        assert(j =~= with_sep(base, w) + n);
        assert(has_drive(j, w) == has_drive(base, w)) by {
            if base.len() == 1 {
                if is_sep(base[0], w) {
                    assert(j[0] == base[0]);
                } else {
                    assert(j[1] == main_sep(w));
                }
            } else {
                assert(j[0] == base[0] && j[1] == base[1]);
            }
        }
        assert(r.len() > 0);
        assert(r.last() == base.last());
        assert(after_prefix(j, w) =~= with_sep(r, w) + n);
        assert(after_prefix(j, w)[0] == r[0]);
        lemma_body_join(r, n, w);
        if has_drive(base, w) {
            assert(j[0] == base[0]);
        }
    }
}

/// Joining a one-component name to `dir` gives a path whose parent is `dir`
/// and whose file name is that name (unless it is `..`), and two names give
/// the same path only if they are equal.
pub proof fn lemma_join_child(dir: Seq<char>, n: Seq<char>, m: Seq<char>, w: bool)
    requires
        is_simple_name(n, w),
        is_simple_name(m, w),
    ensures
        is_parent_seq(dir, join_seq(dir, n, w), w),
        n != seq!['.', '.'] ==> file_name_seq(join_seq(dir, n, w), w) == Some(n),
        same_path_seq(join_seq(dir, n, w), join_seq(dir, m, w), w) <==> n == m,
{
    lemma_components_join(dir, n, w);
    lemma_components_join(dir, m, w);
    assert(components(dir, w).push(n).drop_last() =~= components(dir, w));
    if same_path_seq(join_seq(dir, n, w), join_seq(dir, m, w), w) {
        assert(components(dir, w).push(n).last() == n);
        assert(components(dir, w).push(m).last() == m);
    }
}

/// The path as shown to the user: on Windows every `/` becomes `\`.
pub open spec fn displayed_path(p: Seq<char>, windows: bool) -> Seq<char> {
    if windows {
        p.map_values(|c: char| if c == '/' { '\\' } else { c })
    } else {
        p
    }
}

/// The path as shown to the user.
pub fn path_to_string(path: &str, windows: bool) -> (r: String)
    ensures
        r@ == displayed_path(path@, windows),
{
    if !windows {
        return String::from_str(path);
    }
    let cs = chars_of(path);
    let n = cs.len();
    let mut out = String::new();
    proof {
        reveal_strlit("\\");
    }
    for i in 0..n
        invariant
            n == cs.len(),
            cs@ == path@,
            out@ == path@.take(i as int).map_values(|c: char| if c == '/' { '\\' } else { c }),
    {
        let ghost before = out@;
        if cs[i] == '/' {
            out.append("\\");
            proof {
                reveal_strlit("\\");
            }
            assert("\\"@ =~= seq!['\\']);
        } else {
            out.append(path.substring_char(i, i + 1));
            assert(path@.subrange(i as int, i + 1) =~= seq![cs@[i as int]]);
        }
        assert(out@ =~= before.push(if cs@[i as int] == '/' { '\\' } else { cs@[i as int] }));
        assert(path@.take(i + 1).map_values(|c: char| if c == '/' { '\\' } else { c })
            =~= path@.take(i as int).map_values(|c: char| if c == '/' { '\\' } else { c }).push(
            if cs@[i as int] == '/' { '\\' } else { cs@[i as int] },
        ));
    }
    assert(path@.take(n as int) =~= path@);
    out
}

} // verus!
