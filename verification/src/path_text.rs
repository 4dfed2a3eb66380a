//! Text rules on paths typed or stored by the reader: trimming what the user
//! typed, a path's file name, its stem and its extension, with `/` as the
//! separator.
use vstd::prelude::*;
use crate::page_layout::string_push;
use crate::utf8_text::{str_chars, str_eq};

verus! {

/// White space in the sense of Unicode's `White_Space` property.
pub open spec fn is_white(c: char) -> bool {
    ||| ('\u{9}' <= c && c <= '\u{d}')
    ||| c == ' '
    ||| c == '\u{85}'
    ||| c == '\u{a0}'
    ||| c == '\u{1680}'
    ||| ('\u{2000}' <= c && c <= '\u{200a}')
    ||| c == '\u{2028}'
    ||| c == '\u{2029}'
    ||| c == '\u{202f}'
    ||| c == '\u{205f}'
    ||| c == '\u{3000}'
}

/// `s` without the characters satisfying `p` at its start.
pub open spec fn drop_leading(s: Seq<char>, p: spec_fn(char) -> bool) -> Seq<char>
    decreases s.len(),
{
    if s.len() > 0 && p(s[0]) {
        drop_leading(s.drop_first(), p)
    } else {
        s
    }
}

/// `s` without the characters satisfying `p` at its end.
pub open spec fn drop_trailing(s: Seq<char>, p: spec_fn(char) -> bool) -> Seq<char>
    decreases s.len(),
{
    if s.len() > 0 && p(s.last()) {
        drop_trailing(s.drop_last(), p)
    } else {
        s
    }
}

/// `s` without the characters satisfying `p` at either end.
pub open spec fn trim_by(s: Seq<char>, p: spec_fn(char) -> bool) -> Seq<char> {
    drop_trailing(drop_leading(s, p), p)
}

/// What the user typed as a path: white space, then double quotes, taken off
/// both ends.
pub open spec fn typed_path(s: Seq<char>) -> Seq<char> {
    trim_by(trim_by(s, |c: char| is_white(c)), |c: char| c == '"')
}

/// Index of the last `c` in `s`, or -1 when there is none.
pub open spec fn last_index_of(s: Seq<char>, c: char) -> int
    decreases s.len(),
{
    if s.len() == 0 {
        -1
    } else if s.last() == c {
        s.len() - 1
    } else {
        last_index_of(s.drop_last(), c)
    }
}

/// The part of a path after its last `/`.
pub open spec fn last_part(s: Seq<char>) -> Seq<char> {
    s.skip(last_index_of(s, '/') + 1)
}

/// A path's file name: its last part that is neither empty nor `.`; a path
/// ending in `..`, or with no such part, has none.
pub open spec fn file_name_of(s: Seq<char>) -> Option<Seq<char>>
    decreases s.len(),
{
    let i = last_index_of(s, '/');
    let part = last_part(s);
    if part == Seq::<char>::empty() || part == seq!['.'] {
        if 0 <= i < s.len() {
            file_name_of(s.take(i))
        } else {
            None
        }
    } else if part == seq!['.', '.'] {
        None
    } else {
        Some(part)
    }
}

/// A file name split at its last dot: the stem, and the extension when the dot
/// is not the name's first character.
pub open spec fn split_extension(name: Seq<char>) -> (Seq<char>, Option<Seq<char>>) {
    let i = last_index_of(name, '.');
    if i <= 0 {
        (name, None)
    } else {
        (name.take(i), Some(name.skip(i + 1)))
    }
}

/// What a book is called on screen: its file's stem, or the whole path when
/// it has no file name.
pub open spec fn book_title_spec(path: Seq<char>) -> Seq<char> {
    match file_name_of(path) {
        Some(name) => split_extension(name).0,
        None => path,
    }
}

/// Whether a path names a `.txt` file, the extension compared without regard
/// to ASCII case.
pub open spec fn is_txt_path(path: Seq<char>) -> bool {
    match file_name_of(path) {
        Some(name) => match split_extension(name).1 {
            Some(ext) => ext.len() == 3 && (ext[0] == 't' || ext[0] == 'T') && (ext[1] == 'x' || ext[1]
                == 'X') && (ext[2] == 't' || ext[2] == 'T'),
            None => false,
        },
        None => false,
    }
}

/// Whether `c` is white space.
pub fn is_white_char(c: char) -> (b: bool)
    ensures
        b == is_white(c),
{
    ('\u{9}' <= c && c <= '\u{d}') || c == ' ' || c == '\u{85}' || c == '\u{a0}' || c == '\u{1680}'
        || ('\u{2000}' <= c && c <= '\u{200a}') || c == '\u{2028}' || c == '\u{2029}' || c == '\u{202f}'
        || c == '\u{205f}' || c == '\u{3000}'
}

/// The characters `v[start..end]` as a string.
fn chars_to_string(v: &Vec<char>, start: usize, end: usize) -> (s: String)
    requires
        start <= end <= v@.len(),
    ensures
        s@ == v@.subrange(start as int, end as int),
{
    let mut s = String::new();
    let mut i: usize = start;
    while i < end
        invariant
            start <= i <= end <= v@.len(),
            s@ == v@.subrange(start as int, i as int),
        decreases end - i,
    {
        string_push(&mut s, v[i]);
        assert(v@.subrange(start as int, i + 1) =~= v@.subrange(start as int, i as int).push(v@[i as int]));
        i = i + 1;
    }
    s
}

proof fn lemma_drop_leading_skip(s: Seq<char>, p: spec_fn(char) -> bool, i: int)
    requires
        0 <= i <= s.len(),
        forall|k: int| 0 <= k < i ==> p(#[trigger] s[k]),
    ensures
        drop_leading(s.skip(i), p) == drop_leading(s, p),
    decreases i,
{
    if i > 0 {
        assert(s.skip(i - 1).drop_first() =~= s.skip(i));
        assert(s.skip(i - 1)[0] == s[i - 1]);
        lemma_drop_leading_skip(s, p, i - 1);
    } else {
        assert(s.skip(0) =~= s);
    }
}

proof fn lemma_drop_trailing_take(s: Seq<char>, p: spec_fn(char) -> bool, j: int)
    requires
        0 <= j <= s.len(),
        forall|k: int| j <= k < s.len() ==> p(#[trigger] s[k]),
    ensures
        drop_trailing(s.take(j), p) == drop_trailing(s, p),
    decreases s.len() - j,
{
    if j < s.len() {
        lemma_drop_trailing_take(s, p, j + 1);
        assert(s.take(j + 1).drop_last() =~= s.take(j));
        assert(s.take(j + 1).last() == s[j]);
    } else {
        assert(s.take(j) =~= s);
    }
}

/// The characters trimmed off: double quotes, or white space.
pub open spec fn trimmed_char(quote: bool) -> spec_fn(char) -> bool {
    if quote {
        |c: char| c == '"'
    } else {
        |c: char| is_white(c)
    }
}

/// Whether `c` is trimmed off: a double quote, or white space.
fn is_trimmed(c: char, quote: bool) -> (b: bool)
    ensures
        b == (trimmed_char(quote))(c),
{
    if quote {
        c == '"'
    } else {
        is_white_char(c)
    }
}

/// The characters `v[start..end]` without the trimmed characters at either
/// end, as the range that is left.
fn trim_range(v: &Vec<char>, start: usize, end: usize, quote: bool) -> (r: (usize, usize))
    requires
        start <= end <= v@.len(),
    ensures
        start <= r.0 <= r.1 <= end,
        v@.subrange(r.0 as int, r.1 as int) == trim_by(v@.subrange(start as int, end as int), trimmed_char(quote)),
{
    let ghost p: spec_fn(char) -> bool = trimmed_char(quote);
    let ghost s = v@.subrange(start as int, end as int);
    let mut a: usize = start;
    while a < end && is_trimmed(v[a], quote)
        invariant
            start <= a <= end <= v@.len(),
            p == trimmed_char(quote),
            s == v@.subrange(start as int, end as int),
            forall|k: int| 0 <= k < a - start ==> p(#[trigger] s[k]),
        decreases end - a,
    {
        assert(s[a - start] == v@[a as int]);
        a = a + 1;
    }
    proof {
        lemma_drop_leading_skip(s, p, a - start);
        let t = s.skip(a - start);
        if a < end {
            assert(t[0] == v@[a as int]);
            assert(!p(t[0]));
        }
        assert(t =~= v@.subrange(a as int, end as int));
    }
    let mut b: usize = end;
    let ghost t = v@.subrange(a as int, end as int);
    while b > a && is_trimmed(v[b - 1], quote)
        invariant
            start <= a <= b <= end <= v@.len(),
            t == v@.subrange(a as int, end as int),
            p == trimmed_char(quote),
            forall|k: int| b - a <= k < t.len() ==> p(#[trigger] t[k]),
        decreases b - a,
    {
        assert(t[b - 1 - a] == v@[b - 1]);
        b = b - 1;
    }
    proof {
        lemma_drop_trailing_take(t, p, b - a);
        let u = t.take(b - a);
        assert(u =~= v@.subrange(a as int, b as int));
        if b > a {
            assert(u.last() == v@[b - 1]);
        }
        assert(drop_leading(s, p) == t);
    }
    (a, b)
}

/// What the user typed as a path, with white space and then double quotes taken
/// off both ends.
pub fn trim_typed_path(input: &str) -> (path: String)
    ensures
        path@ == typed_path(input@),
{
    let chars = str_chars(input);
    let (a, b) = trim_range(&chars, 0, chars.len(), false);
    assert(chars@.subrange(0, chars@.len() as int) =~= input@);
    let (c, d) = trim_range(&chars, a, b, true);
    chars_to_string(&chars, c, d)
}

/// Index of the last `c` among `v[0..end]`, if any.
fn last_index_before(v: &Vec<char>, end: usize, c: char) -> (r: Option<usize>)
    requires
        end <= v@.len(),
    ensures
        match r {
            Some(i) => i < end && last_index_of(v@.take(end as int), c) == i,
            None => last_index_of(v@.take(end as int), c) == -1,
        },
{
    let mut j: usize = end;
    while j > 0
        invariant
            j <= end <= v@.len(),
            last_index_of(v@.take(end as int), c) == last_index_of(v@.take(j as int), c),
        decreases j,
    {
        assert(v@.take(j as int).last() == v@[j - 1]);
        if v[j - 1] == c {
            return Some(j - 1);
        }
        assert(v@.take(j as int).drop_last() =~= v@.take(j - 1));
        j = j - 1;
    }
    None
}

proof fn lemma_last_index_bounds(s: Seq<char>, c: char)
    ensures
        -1 <= last_index_of(s, c) < s.len(),
        last_index_of(s, c) >= 0 ==> s[last_index_of(s, c)] == c,
    decreases s.len(),
{
    if s.len() > 0 && s.last() != c {
        lemma_last_index_bounds(s.drop_last(), c);
    }
}

/// Range of the file name of `v[0..]`, when the path has one.
fn file_name_range(v: &Vec<char>) -> (r: Option<(usize, usize)>)
    ensures
        match r {
            Some((a, b)) => a <= b <= v@.len() && file_name_of(v@) == Some(v@.subrange(a as int, b as int)),
            None => file_name_of(v@) is None,
        },
{
    let mut end: usize = v.len();
    assert(v@.take(end as int) =~= v@);
    loop
        invariant
            end <= v@.len(),
            file_name_of(v@.take(end as int)) == file_name_of(v@),
        decreases end,
    {
        let ghost s = v@.take(end as int);
        let slash = last_index_before(v, end, '/');
        let start: usize = match slash {
            Some(i) => i + 1,
            None => 0,
        };
        proof {
            lemma_last_index_bounds(s, '/');
            assert(last_part(s) =~= v@.subrange(start as int, end as int));
        }
        let len: usize = end - start;
        let is_dot: bool = len == 1 && v[start] == '.';
        let is_dotdot: bool = len == 2 && v[start] == '.' && v[start + 1] == '.';
        proof {
            let part = last_part(s);
            if is_dot {
                assert(part =~= seq!['.']);
            } else {
                assert(part != seq!['.']) by {
                    if part == seq!['.'] {
                        assert(part.len() == 1 && part[0] == '.');
                    }
                };
            }
            if is_dotdot {
                assert(part =~= seq!['.', '.']);
            } else {
                assert(part != seq!['.', '.']) by {
                    if part == seq!['.', '.'] {
                        assert(part.len() == 2 && part[0] == '.' && part[1] == '.');
                    }
                };
            }
            if len == 0 {
                assert(part =~= Seq::<char>::empty());
            }
        }
        if len == 0 || is_dot {
            match slash {
                Some(i) => {
                    assert(s.take(i as int) =~= v@.take(i as int));
                    end = i;
                },
                None => {
                    return None;
                },
            }
        } else if is_dotdot {
            return None;
        } else {
            return Some((start, end));
        }
    }
}

/// Index of the dot that starts the extension of `v[a..b]`, if the name has an
/// extension.
fn extension_dot(v: &Vec<char>, a: usize, b: usize) -> (r: Option<usize>)
    requires
        a <= b <= v@.len(),
    ensures
        ({
            let name = v@.subrange(a as int, b as int);
            match r {
                Some(i) => a < i < b && split_extension(name) == (
                    v@.subrange(a as int, i as int),
                    Some(v@.subrange(i + 1, b as int)),
                ),
                None => split_extension(name) == (name, None::<Seq<char>>),
            }
        }),
{
    let ghost name = v@.subrange(a as int, b as int);
    assert(name.take(b - a) =~= name);
    let mut j: usize = b;
    while j > a
        invariant
            a <= j <= b <= v@.len(),
            name == v@.subrange(a as int, b as int),
            last_index_of(name, '.') == last_index_of(name.take(j - a), '.'),
        decreases j,
    {
        let ghost t = name.take(j - a);
        assert(t.last() == v@[j - 1]);
        if v[j - 1] == '.' {
            assert(last_index_of(name, '.') == j - 1 - a);
            if j - 1 == a {
                return None;
            }
            assert(name.take(j - 1 - a) =~= v@.subrange(a as int, j - 1));
            assert(name.skip(j - a) =~= v@.subrange(j as int, b as int));
            return Some(j - 1);
        }
        assert(t.drop_last() =~= name.take(j - 1 - a));
        j = j - 1;
    }
    assert(name.take(0) =~= Seq::<char>::empty());
    None
}

/// What a book is called on screen: its file's stem, or the whole path when it
/// has no file name.
pub fn book_title(path: &str) -> (title: String)
    ensures
        title@ == book_title_spec(path@),
{
    let chars = str_chars(path);
    match file_name_range(&chars) {
        Some((a, b)) => match extension_dot(&chars, a, b) {
            Some(i) => chars_to_string(&chars, a, i),
            None => chars_to_string(&chars, a, b),
        },
        None => chars_to_string(&chars, 0, chars.len()),
    }
}

/// Whether a path names a `.txt` file, in any ASCII case.
pub fn has_txt_extension(path: &str) -> (b: bool)
    ensures
        b == is_txt_path(path@),
{
    let chars = str_chars(path);
    match file_name_range(&chars) {
        Some((a, e)) => match extension_dot(&chars, a, e) {
            Some(i) => {
                let ghost ext = chars@.subrange(i + 1, e as int);
                if e - (i + 1) != 3 {
                    return false;
                }
                assert(ext[0] == chars@[i + 1] && ext[1] == chars@[i + 2] && ext[2] == chars@[i + 3]);
                (chars[i + 1] == 't' || chars[i + 1] == 'T') && (chars[i + 2] == 'x' || chars[i + 2] == 'X')
                    && (chars[i + 3] == 't' || chars[i + 3] == 'T')
            },
            None => false,
        },
        None => false,
    }
}

/// The pieces of `path` between `/` separators, in order: `a//b/` has the
/// pieces `a`, an empty one, `b` and another empty one.
pub open spec fn slash_pieces(path: Seq<char>) -> Seq<Seq<char>>
    decreases path.len(),
{
    if path.len() == 0 {
        seq![Seq::<char>::empty()]
    } else {
        let init = slash_pieces(path.drop_last());
        if path.last() == '/' {
            init.push(Seq::<char>::empty())
        } else {
            init.update(init.len() - 1, init.last().push(path.last()))
        }
    }
}

/// Whether a piece names a component: the empty pieces and `.` do not, except a
/// `.` that starts a relative path.
pub open spec fn keeps_piece(piece: Seq<char>, first: bool, rooted: bool) -> bool {
    if first && !rooted && piece == seq!['.'] {
        true
    } else {
        piece.len() > 0 && piece != seq!['.']
    }
}

/// The pieces of `pieces` that name components, in order.
pub open spec fn kept_pieces(pieces: Seq<Seq<char>>, rooted: bool) -> Seq<Seq<char>>
    decreases pieces.len(),
{
    if pieces.len() == 0 {
        Seq::empty()
    } else {
        let init = kept_pieces(pieces.drop_last(), rooted);
        if keeps_piece(pieces.last(), pieces.len() == 1, rooted) {
            init.push(pieces.last())
        } else {
            init
        }
    }
}

/// The components of a path, as `std::path` reads a path on Unix: `/` for the
/// root where the path starts with one, then the named pieces, repeated
/// separators, a trailing separator and inner `.` pieces left out.
pub open spec fn path_components(path: Seq<char>) -> Seq<Seq<char>> {
    let rooted = path.len() > 0 && path[0] == '/';
    (if rooted { seq![seq!['/']] } else { Seq::empty() }) + kept_pieces(slash_pieces(path), rooted)
}

proof fn lemma_slash_pieces_len(path: Seq<char>)
    ensures
        slash_pieces(path).len() >= 1,
    decreases path.len(),
{
    if path.len() > 0 {
        lemma_slash_pieces_len(path.drop_last());
    }
}

/// The views of a list of strings.
pub open spec fn string_views(v: Seq<String>) -> Seq<Seq<char>> {
    v.map_values(|s: String| s@)
}

/// Whether the characters `v[start..end]` form a piece that names a component.
fn keeps_range(v: &Vec<char>, start: usize, end: usize, first: bool, rooted: bool) -> (keep: bool)
    requires
        start <= end <= v@.len(),
    ensures
        keep == keeps_piece(v@.subrange(start as int, end as int), first, rooted),
{
    let piece = Ghost(v@.subrange(start as int, end as int));
    let is_dot = end - start == 1 && v[start] == '.';
    proof {
        if is_dot {
            assert(piece@ =~= seq!['.']);
        } else if piece@ == seq!['.'] {
            assert(piece@.len() == 1 && piece@[0] == v@[start as int]);
        }
    }
    if first && !rooted && is_dot {
        true
    } else {
        end > start && !is_dot
    }
}

/// The components of `path`, each as a string.
pub fn path_components_of(path: &str) -> (parts: Vec<String>)
    ensures
        string_views(parts@) == path_components(path@),
{
    let chars = str_chars(path);
    let rooted = chars.len() > 0 && chars[0] == '/';
    let ghost p = path@;
    let ghost head: Seq<Seq<char>> = if rooted { seq![seq!['/']] } else { Seq::empty() };
    let mut parts: Vec<String> = Vec::new();
    if rooted {
        let mut root = String::new();
        string_push(&mut root, '/');
        parts.push(root);
        assert(root@ =~= seq!['/']);
        assert(string_views(parts@) =~= head);
    } else {
        assert(string_views(parts@) =~= head);
    }
    let mut start: usize = 0;
    let mut done: usize = 0;
    assert(p.take(0) =~= Seq::<char>::empty());
    assert(slash_pieces(p.take(0)).drop_last() =~= Seq::<Seq<char>>::empty());
    assert(p.subrange(0, 0) =~= slash_pieces(p.take(0)).last());
    for i in 0..chars.len()
        invariant
            chars@ == p,
            rooted == (p.len() > 0 && p[0] == '/'),
            head == (if rooted { seq![seq!['/']] } else { Seq::<Seq<char>>::empty() }),
            done as int == slash_pieces(p.take(i as int)).len() - 1,
            done <= i,
            start <= i,
            p.subrange(start as int, i as int) == slash_pieces(p.take(i as int)).last(),
            string_views(parts@) == head + kept_pieces(slash_pieces(p.take(i as int)).drop_last(), rooted),
    {
        let ghost before = p.take(i as int);
        let ghost ps = slash_pieces(before);
        proof {
            lemma_slash_pieces_len(before);
            assert(p.take(i + 1).drop_last() =~= before);
            assert(p.take(i + 1).last() == chars@[i as int]);
        }
        let c = chars[i];
        if c == '/' {
            proof {
                assert(slash_pieces(p.take(i + 1)) == ps.push(Seq::<char>::empty()));
                assert(slash_pieces(p.take(i + 1)).drop_last() =~= ps);
                assert(ps.drop_last().push(ps.last()) =~= ps);
            }
            let keep = keeps_range(&chars, start, i, done == 0, rooted);
            if keep {
                let ghost before_parts = parts@;
                let piece = chars_to_string(&chars, start, i);
                parts.push(piece);
                assert(string_views(parts@) =~= string_views(before_parts).push(piece@));
            }
            assert(string_views(parts@) =~= head + kept_pieces(ps, rooted));
            start = i + 1;
            done = done + 1;
            assert(p.subrange(start as int, i + 1) =~= slash_pieces(p.take(i + 1)).last());
        } else {
            proof {
                assert(slash_pieces(p.take(i + 1)) == ps.update(ps.len() - 1, ps.last().push(c)));
                assert(slash_pieces(p.take(i + 1)).drop_last() =~= ps.drop_last());
                assert(p.subrange(start as int, i + 1) =~= ps.last().push(c));
            }
        }
    }
    assert(p.take(chars.len() as int) =~= p);
    let ghost ps = slash_pieces(p);
    proof {
        lemma_slash_pieces_len(p);
        assert(ps.drop_last().push(ps.last()) =~= ps);
    }
    let keep = keeps_range(&chars, start, chars.len(), done == 0, rooted);
    if keep {
        let ghost before_parts = parts@;
        let piece = chars_to_string(&chars, start, chars.len());
        parts.push(piece);
        assert(string_views(parts@) =~= string_views(before_parts).push(piece@));
    }
    assert(string_views(parts@) =~= head + kept_pieces(ps, rooted));
    parts
}

/// Whether two paths name the same path component by component, as `Path`
/// equality does on Unix (`a//b/` and `a/b` are the same path).
pub fn same_path(a: &str, b: &str) -> (same: bool)
    ensures
        same == (path_components(a@) == path_components(b@)),
{
    let pa = path_components_of(a);
    let pb = path_components_of(b);
    if pa.len() != pb.len() {
        assert(string_views(pa@).len() != string_views(pb@).len());
        return false;
    }
    let mut i: usize = 0;
    while i < pa.len()
        invariant
            pa@.len() == pb@.len(),
            string_views(pa@) == path_components(a@),
            string_views(pb@) == path_components(b@),
            i <= pa@.len(),
            forall|k: int| 0 <= k < i ==> (#[trigger] pa@[k])@ == pb@[k]@,
        decreases pa@.len() - i,
    {
        if !str_eq(pa[i].as_str(), pb[i].as_str()) {
            assert(string_views(pa@)[i as int] == pa@[i as int]@);
            assert(string_views(pb@)[i as int] == pb@[i as int]@);
            assert(string_views(pa@)[i as int] != string_views(pb@)[i as int]);
            return false;
        }
        i = i + 1;
    }
    assert(string_views(pa@) =~= string_views(pb@)) by {
        assert forall|k: int| 0 <= k < pa@.len() implies string_views(pa@)[k] == string_views(pb@)[k] by {
            assert(pa@[k]@ == pb@[k]@);
        }
    }
    true
}

} // verus!
