//! Character-level string helpers and their specifications.
use vstd::prelude::*;

verus! {

/// Unicode `White_Space` property, the definition that `char::is_whitespace`
/// and `str::trim` use.
pub open spec fn is_white_space(c: char) -> bool {
    let u = c as u32;
    ||| 0x9 <= u <= 0xD
    ||| u == 0x20
    ||| u == 0x85
    ||| u == 0xA0
    ||| u == 0x1680
    ||| 0x2000 <= u <= 0x200A
    ||| u == 0x2028
    ||| u == 0x2029
    ||| u == 0x202F
    ||| u == 0x205F
    ||| u == 0x3000
}

/// `s` without its leading white space.
pub open spec fn trim_start(s: Seq<char>) -> Seq<char>
    decreases s.len(),
{
    if s.len() > 0 && is_white_space(s[0]) {
        trim_start(s.drop_first())
    } else {
        s
    }
}

/// `s` without its trailing white space.
pub open spec fn trim_end(s: Seq<char>) -> Seq<char>
    decreases s.len(),
{
    if s.len() > 0 && is_white_space(s.last()) {
        trim_end(s.drop_last())
    } else {
        s
    }
}

/// `s` without leading and trailing white space, as `str::trim` gives it.
pub open spec fn trimmed(s: Seq<char>) -> Seq<char> {
    trim_end(trim_start(s))
}

/// Tests `char::is_whitespace`.
pub fn is_white_space_char(c: char) -> (r: bool)
    ensures
        r == is_white_space(c),
{
    let u = c as u32;
    (0x9 <= u && u <= 0xD) || u == 0x20 || u == 0x85 || u == 0xA0 || u == 0x1680 || (0x2000 <= u
        && u <= 0x200A) || u == 0x2028 || u == 0x2029 || u == 0x202F || u == 0x205F || u == 0x3000
}

/// The characters of `s`, in order.
pub fn chars_of(s: &str) -> (v: Vec<char>)
    ensures
        v@ == s@,
{
    let mut v: Vec<char> = Vec::new();
    for c in it: s.chars()
        invariant
            v@ == it.seq().take(it.index()),
    {
        v.push(c);
    }
    v
}


proof fn lemma_trim_start_skip(s: Seq<char>, a: int)
    requires
        0 <= a <= s.len(),
        forall|i: int| 0 <= i < a ==> is_white_space(#[trigger] s[i]),
        a == s.len() || !is_white_space(s[a]),
    ensures
        trim_start(s) == s.skip(a),
    decreases a,
{
    if a > 0 {
        assert(is_white_space(s[0]));
        let t = s.drop_first();
        assert forall|i: int| 0 <= i < a - 1 implies is_white_space(#[trigger] t[i]) by {
            assert(t[i] == s[i + 1]);
        }
        lemma_trim_start_skip(t, a - 1);
        assert(t.skip(a - 1) =~= s.skip(a));
    } else {
        assert(s.skip(0) =~= s);
    }
}

proof fn lemma_trim_end_take(s: Seq<char>, b: int)
    requires
        0 <= b <= s.len(),
        forall|i: int| b <= i < s.len() ==> is_white_space(#[trigger] s[i]),
        b == 0 || !is_white_space(s[b - 1]),
    ensures
        trim_end(s) == s.take(b),
    decreases s.len() - b,
{
    if b < s.len() {
        assert(is_white_space(s.last()));
        let t = s.drop_last();
        assert forall|i: int| b <= i < t.len() implies is_white_space(#[trigger] t[i]) by {
            assert(t[i] == s[i]);
        }
        lemma_trim_end_take(t, b);
        assert(t.take(b) =~= s.take(b));
    } else {
        assert(s.take(b) =~= s);
    }
}

/// The bounds `(a, b)` with `trimmed(s@) == s@.subrange(a, b)`.
pub fn trim_bounds(s: &Vec<char>) -> (r: (usize, usize))
    ensures
        r.0 <= r.1 <= s.len(),
        trimmed(s@) == s@.subrange(r.0 as int, r.1 as int),
{
    let n = s.len();
    let mut a: usize = 0;
    while a < n && is_white_space_char(s[a])
        invariant
            a <= n == s.len(),
            forall|i: int| 0 <= i < a ==> is_white_space(#[trigger] s@[i]),
        decreases n - a,
    {
        a = a + 1;
    }
    proof {
        lemma_trim_start_skip(s@, a as int);
    }
    let mut b: usize = n;
    while b > a && is_white_space_char(s[b - 1])
        invariant
            a <= b <= n == s.len(),
            forall|i: int| b <= i < n ==> is_white_space(#[trigger] s@[i]),
        decreases b,
    {
        b = b - 1;
    }
    proof {
        let t = s@.skip(a as int);
        assert forall|i: int| b - a <= i < t.len() implies is_white_space(#[trigger] t[i]) by {
            assert(t[i] == s@[i + a]);
        }
        lemma_trim_end_take(t, b - a);
        assert(t.take(b - a) =~= s@.subrange(a as int, b as int));
    }
    (a, b)
}

proof fn lemma_trim_start_first(s: Seq<char>)
    ensures
        trim_start(s).len() == 0 || !is_white_space(trim_start(s)[0]),
        trim_start(s).len() <= s.len(),
    decreases s.len(),
{
    if s.len() > 0 && is_white_space(s[0]) {
        lemma_trim_start_first(s.drop_first());
    }
}

proof fn lemma_trim_end_shape(s: Seq<char>)
    ensures
        trim_end(s).len() <= s.len(),
        trim_end(s) == s.take(trim_end(s).len() as int),
        trim_end(s).len() == 0 || !is_white_space(trim_end(s).last()),
    decreases s.len(),
{
    if s.len() > 0 && is_white_space(s.last()) {
        lemma_trim_end_shape(s.drop_last());
        let t = trim_end(s.drop_last());
        assert(s.drop_last().take(t.len() as int) =~= s.take(t.len() as int));
    } else {
        assert(s.take(s.len() as int) =~= s);
    }
}

proof fn lemma_trim_end_idempotent(s: Seq<char>)
    ensures
        trim_end(trim_end(s)) == trim_end(s),
{
    lemma_trim_end_shape(s);
}

proof fn lemma_trim_start_fixed(s: Seq<char>)
    requires
        s.len() == 0 || !is_white_space(s[0]),
    ensures
        trim_start(s) == s,
{
}

/// Trimming twice trims no more than trimming once.
pub proof fn lemma_trimmed_idempotent(s: Seq<char>)
    ensures
        trimmed(trimmed(s)) == trimmed(s),
{
    let t = trim_start(s);
    lemma_trim_start_first(s);
    lemma_trim_end_shape(t);
    let u = trim_end(t);
    if u.len() > 0 {
        assert(u[0] == t[0]);
    }
    lemma_trim_start_fixed(u);
    lemma_trim_end_idempotent(t);
}

/// `str::trim`: `s` without leading and trailing white space.
pub fn trim(s: &str) -> (r: String)
    ensures
        r@ == trimmed(s@),
{
    let cs = chars_of(s);
    let (a, b) = trim_bounds(&cs);
    String::from_str(s.substring_char(a, b))
}


/// What separates the pieces of a string in `split_at_separators`.
#[derive(Clone, Copy)]
pub enum Separator {
    /// One given character, as in `str::split(c)`.
    Char(char),
    /// A path separator: `/`, and on Windows (`windows` set) also `\`.
    Path { windows: bool },
}

impl Separator {
    pub open spec fn matches(self, c: char) -> bool {
        match self {
            Separator::Char(x) => c == x,
            Separator::Path { windows } => c == '/' || (windows && c == '\\'),
        }
    }

    pub fn is_separator(&self, c: char) -> (r: bool)
        ensures
            r == self.matches(c),
    {
        match self {
            Separator::Char(x) => c == *x,
            Separator::Path { windows } => c == '/' || (*windows && c == '\\'),
        }
    }
}

/// The pieces of `s` between the characters that `sep` matches, as
/// `str::split` yields them: one more piece than there are separators.
pub open spec fn split_seq(s: Seq<char>, sep: Separator) -> Seq<Seq<char>>
    decreases s.len(),
{
    if s.len() == 0 {
        seq![Seq::<char>::empty()]
    } else {
        let parts = split_seq(s.drop_last(), sep);
        if sep.matches(s.last()) {
            parts.push(Seq::<char>::empty())
        } else {
            parts.update(parts.len() - 1, parts.last().push(s.last()))
        }
    }
}

/// The views of a sequence of strings.
pub open spec fn views(v: Seq<String>) -> Seq<Seq<char>> {
    v.map_values(|x: String| x@)
}

pub proof fn lemma_split_seq_nonempty(s: Seq<char>, sep: Separator)
    ensures
        split_seq(s, sep).len() >= 1,
    decreases s.len(),
{
    if s.len() > 0 {
        lemma_split_seq_nonempty(s.drop_last(), sep);
    }
}

/// No piece of a split holds a separator.
pub proof fn lemma_split_pieces_plain(s: Seq<char>, sep: Separator)
    ensures
        forall|k: int, i: int|
            0 <= k < split_seq(s, sep).len() && 0 <= i < split_seq(s, sep)[k].len() ==> !sep.matches(
                #[trigger] split_seq(s, sep)[k][i],
            ),
    decreases s.len(),
{
    if s.len() > 0 {
        lemma_split_pieces_plain(s.drop_last(), sep);
        lemma_split_seq_nonempty(s.drop_last(), sep);
        let parts = split_seq(s.drop_last(), sep);
        let r = split_seq(s, sep);
        assert forall|k: int, i: int| 0 <= k < r.len() && 0 <= i < r[k].len() implies !sep.matches(
            #[trigger] r[k][i],
        ) by {
            if sep.matches(s.last()) {
                if k < parts.len() {
                    assert(r[k] == parts[k]);
                }
            } else {
                if k < parts.len() - 1 {
                    assert(r[k] == parts[k]);
                } else {
                    assert(r[k] == parts.last().push(s.last()));
                    if i < parts.last().len() {
                        assert(r[k][i] == parts[parts.len() - 1][i]);
                    }
                }
            }
        }
    }
}

/// `str::split` on the characters that `sep` matches.
pub fn split_at_separators(s: &str, sep: Separator) -> (r: Vec<String>)
    ensures
        views(r@) == split_seq(s@, sep),
{
    let cs = chars_of(s);
    let n = cs.len();
    let mut parts: Vec<String> = Vec::new();
    let mut start: usize = 0;
    assert(cs@.take(0) =~= Seq::<char>::empty());
    assert(views(parts@) + seq![cs@.subrange(0, 0)] =~= split_seq(cs@.take(0), sep));
    for i in 0..n
        invariant
            n == cs.len(),
            cs@ == s@,
            start <= i,
            views(parts@) + seq![cs@.subrange(start as int, i as int)] == split_seq(
                cs@.take(i as int),
                sep,
            ),
    {
        let ghost prev = split_seq(cs@.take(i as int), sep);
        proof {
            assert(cs@.take(i + 1).drop_last() =~= cs@.take(i as int));
            assert(cs@.take(i + 1).last() == cs@[i as int]);
        }
        if sep.is_separator(cs[i]) {
            let piece = String::from_str(s.substring_char(start, i));
            let ghost before = parts@;
            parts.push(piece);
            proof {
                assert(views(parts@) =~= views(before).push(piece@)) by {
                    assert(parts@ == before.push(piece));
                }
                assert(piece@ == cs@.subrange(start as int, i as int));
                assert(views(parts@) =~= prev);
                assert(cs@.subrange((i + 1) as int, (i + 1) as int) =~= Seq::<char>::empty());
                assert(views(parts@) + seq![cs@.subrange((i + 1) as int, (i + 1) as int)]
                    =~= prev.push(Seq::<char>::empty()));
            }
            start = i + 1;
        } else {
            proof {
                assert(cs@.subrange(start as int, (i + 1) as int) =~= cs@.subrange(
                    start as int,
                    i as int,
                ).push(cs@[i as int]));
                assert(views(parts@) + seq![cs@.subrange(start as int, (i + 1) as int)]
                    =~= prev.update(prev.len() - 1, prev.last().push(cs@[i as int])));
            }
        }
    }
    let last = String::from_str(s.substring_char(start, n));
    let ghost before = parts@;
    parts.push(last);
    proof {
        assert(cs@.take(n as int) =~= cs@);
        assert(views(parts@) =~= views(before) + seq![cs@.subrange(start as int, n as int)]) by {
            assert(parts@ == before.push(last));
        }
    }
    parts
}


/// A line of `str::lines` without the `\r` of a `\r\n` ending.
pub open spec fn strip_cr(line: Seq<char>) -> Seq<char> {
    if line.len() > 0 && line.last() == '\r' {
        line.drop_last()
    } else {
        line
    }
}

/// The lines of `s` as `str::lines` yields them: split at `\n`; a line that
/// ended in `\n` loses one `\r` before it; a final empty piece is no line.
pub open spec fn lines_seq(s: Seq<char>) -> Seq<Seq<char>> {
    let parts = split_seq(s, Separator::Char('\n'));
    let kept = if parts.last().len() == 0 {
        parts.drop_last()
    } else {
        parts
    };
    Seq::new(
        kept.len(),
        |i: int|
            if i < parts.len() - 1 {
                strip_cr(kept[i])
            } else {
                kept[i]
            },
    )
}

/// `s` without one trailing `\r`.
fn without_cr(s: String) -> (r: String)
    ensures
        r@ == strip_cr(s@),
{
    let cs = chars_of(s.as_str());
    let n = cs.len();
    if n > 0 && cs[n - 1] == '\r' {
        String::from_str(s.as_str().substring_char(0, n - 1))
    } else {
        s
    }
}

/// `str::lines`.
pub fn lines(s: &str) -> (r: Vec<String>)
    ensures
        views(r@) == lines_seq(s@),
{
    let parts = split_at_separators(s, Separator::Char('\n'));
    let ghost pv = views(parts@);
    proof {
        lemma_split_seq_nonempty(s@, Separator::Char('\n'));
    }
    let np = parts.len();
    let last_empty = parts[np - 1].as_str().unicode_len() == 0;
    let kept = if last_empty {
        np - 1
    } else {
        np
    };
    let ghost kv = if pv.last().len() == 0 {
        pv.drop_last()
    } else {
        pv
    };
    assert(kv.len() == kept);
    let mut out: Vec<String> = Vec::new();
    let mut i: usize = 0;
    while i < kept
        invariant
            i <= kept <= np == parts.len(),
            pv == views(parts@),
            pv == split_seq(s@, Separator::Char('\n')),
            kv == (if pv.last().len() == 0 {
                pv.drop_last()
            } else {
                pv
            }),
            kv.len() == kept,
            out@.len() == i,
            forall|j: int|
                0 <= j < i ==> (#[trigger] out@[j])@ == (if j < pv.len() - 1 {
                    strip_cr(kv[j])
                } else {
                    kv[j]
                }),
        decreases kept - i,
    {
        assert(kv[i as int] == parts@[i as int]@);
        let line = parts[i].clone();
        if i < np - 1 {
            out.push(without_cr(line));
        } else {
            out.push(line);
        }
        i = i + 1;
    }
    assert(views(out@) =~= lines_seq(s@));
    out
}

/// `s` with each `\\` pair, scanned from the left, made one `\`: what
/// `str::replace("\\\\", "\\")` gives.
pub open spec fn collapse_backslashes(s: Seq<char>) -> Seq<char>
    decreases s.len(),
{
    if s.len() >= 2 && s[0] == '\\' && s[1] == '\\' {
        seq!['\\'] + collapse_backslashes(s.skip(2))
    } else if s.len() >= 1 {
        seq![s[0]] + collapse_backslashes(s.skip(1))
    } else {
        Seq::<char>::empty()
    }
}

/// `s.replace("\\\\", "\\")`.
pub fn collapse_double_backslashes(s: &str) -> (r: String)
    ensures
        r@ == collapse_backslashes(s@),
{
    let cs = chars_of(s);
    let n = cs.len();
    let mut out = String::new();
    let mut i: usize = 0;
    assert(cs@.skip(0) =~= cs@);
    while i < n
        invariant
            i <= n == cs.len(),
            cs@ == s@,
            out@ + collapse_backslashes(cs@.skip(i as int)) == collapse_backslashes(cs@),
        decreases n - i,
    {
        let ghost rest = cs@.skip(i as int);
        if i + 1 < n && cs[i] == '\\' && cs[i + 1] == '\\' {
            out.append(s.substring_char(i, i + 1));
            proof {
                assert(rest.skip(2) =~= cs@.skip(i + 2));
                assert(s@.subrange(i as int, i + 1) =~= seq!['\\']);
                assert(collapse_backslashes(rest) == seq!['\\'] + collapse_backslashes(rest.skip(2)));
            }
            i = i + 2;
        } else {
            out.append(s.substring_char(i, i + 1));
            proof {
                assert(rest.skip(1) =~= cs@.skip(i + 1));
                assert(s@.subrange(i as int, i + 1) =~= seq![cs@[i as int]]);
                assert(collapse_backslashes(rest) == seq![rest[0]] + collapse_backslashes(rest.skip(1)));
            }
            i = i + 1;
        }
    }
    assert(cs@.skip(n as int) =~= Seq::<char>::empty());
    out
}

} // verus!
