//! File paths, by their text. Segments are separated by slashes.

use vstd::prelude::*;

use crate::text::{
    cut, lemma_position, lemma_position_at, lemma_views_push, pieces, position, push_chars, split,
    views,
};

verus! {

/// Whether a segment names something: it is neither empty nor the current directory.
pub open spec fn names_something(segment: Seq<char>) -> bool {
    segment.len() > 0 && segment != seq!['.']
}

/// The last of `segments` that names something.
pub open spec fn last_segment(segments: Seq<Seq<char>>) -> Option<Seq<char>>
    decreases segments.len(),
{
    if segments.len() == 0 {
        None
    } else if names_something(segments.last()) {
        Some(segments.last())
    } else {
        last_segment(segments.drop_last())
    }
}

/// A path's file name: its last segment that names something, unless that is the parent
/// directory.
pub open spec fn file_name(path: Seq<char>) -> Option<Seq<char>> {
    match last_segment(pieces(path, '/')) {
        Some(name) => if name == seq!['.', '.'] {
            None
        } else {
            Some(name)
        },
        None => None,
    }
}

/// Where the last `c` stands in a text; -1 where it does not.
pub open spec fn last_position(s: Seq<char>, c: char) -> int
    decreases s.len(),
{
    if s.len() == 0 {
        -1
    } else if s.last() == c {
        s.len() - 1
    } else {
        last_position(s.drop_last(), c)
    }
}

/// A path's extension: what stands behind the last dot of its file name, unless that dot is
/// missing or the name's first character.
pub open spec fn extension(path: Seq<char>) -> Option<Seq<char>> {
    match file_name(path) {
        Some(name) => if last_position(name, '.') <= 0 {
            None
        } else {
            Some(name.skip(last_position(name, '.') + 1))
        },
        None => None,
    }
}

/// A path's stem: its file name without the extension and the dot before it.
pub open spec fn file_stem(path: Seq<char>) -> Option<Seq<char>> {
    match file_name(path) {
        Some(name) => if last_position(name, '.') <= 0 {
            Some(name)
        } else {
            Some(name.take(last_position(name, '.')))
        },
        None => None,
    }
}

/// A path put behind a directory. An absolute path stays as it is.
pub open spec fn joined(dir: Seq<char>, path: Seq<char>) -> Seq<char> {
    if path.len() > 0 && path[0] == '/' {
        path
    } else if dir.len() > 0 && dir.last() != '/' {
        dir.push('/') + path
    } else {
        dir + path
    }
}

/// What an optional text stands for.
pub open spec fn optional_text(s: Option<Vec<char>>) -> Option<Seq<char>> {
    match s {
        Some(s) => Some(s@),
        None => None,
    }
}

/// What an optional string stands for.
pub open spec fn optional_string(s: Option<String>) -> Option<Seq<char>> {
    match s {
        Some(s) => Some(s@),
        None => None,
    }
}

/// A path's file name.
pub fn name_of(path: &Vec<char>) -> (name: Option<Vec<char>>)
    ensures
        optional_text(name) == file_name(path@),
{
    let segments = split(path, '/');
    let ghost all = views(segments@);
    let mut n: usize = segments.len();
    assert(all.take(n as int) =~= all);
    while n > 0
        invariant
            n <= segments@.len(),
            all == views(segments@),
            all == pieces(path@, '/'),
            last_segment(all) == last_segment(all.take(n as int)),
        decreases n,
    {
        let segment = &segments[n - 1];
        assert(all.take(n as int).last() == segment@);
        assert(all.take(n as int).drop_last() =~= all.take(n - 1));
        assert((segment@ == seq!['.']) == (segment@.len() == 1 && segment@[0] == '.')) by {
            if segment@.len() == 1 && segment@[0] == '.' {
                assert(segment@ =~= seq!['.']);
            }
        }
        assert((segment@ == seq!['.', '.']) == (segment@.len() == 2 && segment@[0] == '.'
            && segment@[1] == '.')) by {
            if segment@.len() == 2 && segment@[0] == '.' && segment@[1] == '.' {
                assert(segment@ =~= seq!['.', '.']);
            }
        }
        if segment.len() > 0 && !(segment.len() == 1 && segment[0] == '.') {
            if segment.len() == 2 && segment[0] == '.' && segment[1] == '.' {
                return None;
            }
            let name = cut(segment, 0, segment.len());
            assert(name@ =~= segment@);
            return Some(name);
        }
        n -= 1;
    }
    None
}

/// Where the last `c` stands in a text, if it does.
fn find_last(s: &Vec<char>, c: char) -> (r: Option<usize>)
    ensures
        match r {
            Some(i) => i < s@.len() && last_position(s@, c) == i,
            None => last_position(s@, c) == -1,
        },
{
    let mut n: usize = s.len();
    assert(s@.take(n as int) =~= s@);
    while n > 0
        invariant
            n <= s@.len(),
            last_position(s@, c) == last_position(s@.take(n as int), c),
        decreases n,
    {
        assert(s@.take(n as int).last() == s@[n - 1]);
        assert(s@.take(n as int).drop_last() =~= s@.take(n - 1));
        if s[n - 1] == c {
            return Some(n - 1);
        }
        n -= 1;
    }
    None
}

/// A path's extension.
pub fn extension_of(path: &Vec<char>) -> (r: Option<Vec<char>>)
    ensures
        optional_text(r) == extension(path@),
{
    match name_of(path) {
        None => None,
        Some(name) => match find_last(&name, '.') {
            Some(i) => if i == 0 {
                None
            } else {
                let n: usize = name.len();
                let ext = cut(&name, i + 1, n);
                assert(ext@ =~= name@.skip(i + 1));
                Some(ext)
            },
            None => None,
        },
    }
}

/// A path's stem.
pub fn stem_of(path: &Vec<char>) -> (r: Option<Vec<char>>)
    ensures
        optional_text(r) == file_stem(path@),
{
    match name_of(path) {
        None => None,
        Some(name) => match find_last(&name, '.') {
            Some(i) => if i == 0 {
                Some(name)
            } else {
                let stem = cut(&name, 0, i);
                assert(stem@ =~= name@.take(i as int));
                Some(stem)
            },
            None => Some(name),
        },
    }
}

/// A path put behind a directory.
pub fn join(dir: &Vec<char>, path: &Vec<char>) -> (r: Vec<char>)
    ensures
        r@ == joined(dir@, path@),
{
    let mut r: Vec<char> = Vec::new();
    if path.len() > 0 && path[0] == '/' {
        push_chars(&mut r, path);
        assert(r@ =~= path@);
        return r;
    }
    push_chars(&mut r, dir);
    assert(r@ =~= dir@);
    if dir.len() > 0 && dir[dir.len() - 1] != '/' {
        r.push('/');
    }
    push_chars(&mut r, path);
    r
}

/// The directory above a path, if there is one: what stands before its last slash, or the root.
pub open spec fn parent(path: Seq<char>) -> Option<Seq<char>> {
    let n = last_position(path, '/');
    if path.len() <= 1 || n < 0 {
        None
    } else if n == 0 {
        Some(path.take(1))
    } else {
        Some(path.take(n))
    }
}

/// A directory and all that lie above it, from the inmost on.
pub open spec fn ancestors(path: Seq<char>) -> Seq<Seq<char>>
    decreases path.len(),
    via ancestors_decreases
{
    match parent(path) {
        Some(above) => seq![path] + ancestors(above),
        None => seq![path],
    }
}

#[via_fn]
proof fn ancestors_decreases(path: Seq<char>) {
    lemma_last_position(path, '/');
}

proof fn lemma_last_position(s: Seq<char>, c: char)
    ensures
        -1 <= last_position(s, c) < s.len(),
    decreases s.len(),
{
    if s.len() > 0 {
        lemma_last_position(s.drop_last(), c);
    }
}

/// The directory above a path.
pub fn parent_of(path: &Vec<char>) -> (r: Option<Vec<char>>)
    ensures
        optional_text(r) == parent(path@),
{
    proof {
        lemma_last_position(path@, '/');
    }
    if path.len() <= 1 {
        return None;
    }
    match find_last(path, '/') {
        None => None,
        Some(n) => {
            let end: usize = if n == 0 {
                1
            } else {
                n
            };
            let r = cut(path, 0, end);
            assert(r@ =~= path@.take(end as int));
            Some(r)
        },
    }
}

/// A directory and all that lie above it, from the inmost on.
pub fn list_ancestors(path: &Vec<char>) -> (r: Vec<Vec<char>>)
    ensures
        views(r@) == ancestors(path@),
{
    broadcast use lemma_views_push;

    let mut current = cut(path, 0, path.len());
    assert(current@ =~= path@);
    let mut r: Vec<Vec<char>> = Vec::new();
    assert(views(r@) + ancestors(current@) =~= ancestors(path@));
    loop
        invariant
            views(r@) + ancestors(current@) == ancestors(path@),
        decreases current@.len(),
    {
        let above = parent_of(&current);
        let ghost before = views(r@);
        let ghost here = current@;
        proof {
            lemma_last_position(current@, '/');
        }
        match above {
            Some(next) => {
                let done = current;
                r.push(done);
                current = next;
                assert(views(r@) + ancestors(current@) =~= before + (seq![here] + ancestors(
                    current@,
                )));
            },
            None => {
                r.push(current);
                assert(views(r@) =~= before + seq![here]);
                return r;
            },
        }
    }
}

/// The name of a file is what stands behind the last slash, and that of a file without one is the
/// path itself; slashes and dots behind it do not count.
pub proof fn law_file_names(dir: Seq<char>, name: Seq<char>)
    requires
        !name.contains('/'),
        name.len() > 0,
        name != seq!['.'],
        name != seq!['.', '.'],
    ensures
        file_name(dir.push('/') + name) == Some(name),
        file_name(name) == Some(name),
        file_name(dir.push('/') + name + seq!['/']) == Some(name),
    decreases dir.len(),
{
    lemma_pieces_last(dir, name);
    lemma_one_piece(name);
    let path = dir.push('/') + name;
    assert(path + seq!['/'] =~= path.push('/') + Seq::<char>::empty());
    lemma_pieces_last(path, Seq::empty());
    let all = pieces(path.push('/') + Seq::<char>::empty(), '/');
    assert(last_segment(all) == last_segment(all.drop_last()));
}

/// The last piece is what stands behind the last delimiter.
proof fn lemma_pieces_last(dir: Seq<char>, name: Seq<char>)
    requires
        !name.contains('/'),
    ensures
        pieces(dir.push('/') + name, '/').len() > 0,
        pieces(dir.push('/') + name, '/').last() == name,
        pieces(dir.push('/') + name, '/').drop_last() == pieces(dir, '/'),
    decreases dir.len(),
{
    let path = dir.push('/') + name;
    lemma_position(dir, '/');
    let n = position(dir, '/') as int;
    assert(path[dir.len() as int] == '/');
    lemma_position_at(path, '/', n);
    if n >= dir.len() {
        assert(path.take(n) =~= dir);
        assert(path.skip(n + 1) =~= name);
        lemma_one_piece(name);
        assert(pieces(path, '/') =~= seq![dir, name]);
        assert(pieces(path, '/').drop_last() =~= seq![dir]);
    } else {
        let rest = dir.skip(n + 1);
        assert(path.take(n) =~= dir.take(n));
        assert(path.skip(n + 1) =~= rest.push('/') + name);
        lemma_pieces_last(rest, name);
        let more = pieces(rest.push('/') + name, '/');
        assert(pieces(path, '/') =~= seq![dir.take(n)] + more);
        assert((seq![dir.take(n)] + more).drop_last() =~= seq![dir.take(n)] + more.drop_last());
    }
}

proof fn lemma_one_piece(name: Seq<char>)
    requires
        !name.contains('/'),
    ensures
        pieces(name, '/') == seq![name],
        name.len() > 0 && name != seq!['.'] ==> last_segment(pieces(name, '/')) == Some(name),
{
    lemma_position(name, '/');
}

/// The extension is what stands behind the last dot of the name, and the stem what stands before it;
/// a dot at the beginning does not count.
pub proof fn law_extensions_of_names(dir: Seq<char>, stem: Seq<char>, ext: Seq<char>)
    requires
        !stem.contains('/'),
        !ext.contains('/'),
        !ext.contains('.'),
        stem.len() > 0,
        stem != seq!['.'] || ext.len() > 0,
    ensures
        extension(dir.push('/') + (stem.push('.') + ext)) == Some(ext),
        file_stem(dir.push('/') + (stem.push('.') + ext)) == Some(stem),
        extension(stem.push('.') + ext) == Some(ext),
        ext.len() > 0 ==> extension(dir.push('/') + ext) is None && file_stem(dir.push('/') + ext)
            == Some(ext),
        ext.len() > 0 ==> extension(dir.push('/') + (seq!['.'] + ext)) is None,
{
    let name = stem.push('.') + ext;
    assert(!name.contains('/')) by {
        if name.contains('/') {
            let i = choose|i: int| 0 <= i < name.len() && name[i] == '/';
            if i < stem.len() {
                assert(stem[i] == '/');
            } else {
                assert(ext[i - stem.len() - 1] == '/');
            }
        }
    }
    assert(name[stem.len() as int] == '.');
    assert(name != seq!['.']);
    assert(name != seq!['.', '.']) by {
        if name == seq!['.', '.'] {
            assert(name.len() == 2);
            assert(ext.len() == 0 || stem.len() == 0);
            assert(stem =~= seq!['.']) by {
                assert(name[0] == stem[0]);
            }
        }
    }
    law_file_names(dir, name);
    lemma_last_dot(stem, ext);
    assert(name.skip(stem.len() as int + 1) =~= ext);
    assert(name.take(stem.len() as int) =~= stem);
    if ext.len() > 0 {
        lemma_no_position(ext);
        assert(ext != seq!['.']) by {
            if ext == seq!['.'] {
                assert(ext[0] == '.');
            }
        }
        assert(ext != seq!['.', '.']) by {
            if ext == seq!['.', '.'] {
                assert(ext[0] == '.');
            }
        }
        law_file_names(dir, ext);
        let hidden = seq!['.'] + ext;
        assert(!hidden.contains('/')) by {
            if hidden.contains('/') {
                let i = choose|i: int| 0 <= i < hidden.len() && hidden[i] == '/';
                assert(ext[i - 1] == '/');
            }
        }
        assert(hidden[1] == ext[0]);
        assert(ext.contains(ext[0]));
        law_file_names(dir, hidden);
        assert(hidden =~= Seq::<char>::empty().push('.') + ext);
        lemma_last_dot(Seq::empty(), ext);
    }
}

proof fn lemma_last_dot(stem: Seq<char>, ext: Seq<char>)
    requires
        !ext.contains('.'),
    ensures
        last_position(stem.push('.') + ext, '.') == stem.len(),
    decreases ext.len(),
{
    let s = stem.push('.') + ext;
    if ext.len() > 0 {
        assert(s.last() == ext.last());
        assert(ext.contains(ext[ext.len() - 1]));
        assert(s.drop_last() =~= stem.push('.') + ext.drop_last());
        assert(!ext.drop_last().contains('.')) by {
            if ext.drop_last().contains('.') {
                let i = choose|i: int| 0 <= i < ext.drop_last().len() && ext.drop_last()[i] == '.';
                assert(ext[i] == '.');
            }
        }
        lemma_last_dot(stem, ext.drop_last());
    } else {
        assert(s =~= stem.push('.'));
    }
}

proof fn lemma_no_position(s: Seq<char>)
    requires
        !s.contains('.'),
    ensures
        last_position(s, '.') == -1,
    decreases s.len(),
{
    if s.len() > 0 {
        assert(s.contains(s[s.len() - 1]));
        assert(!s.drop_last().contains('.')) by {
            if s.drop_last().contains('.') {
                let i = choose|i: int| 0 <= i < s.drop_last().len() && s.drop_last()[i] == '.';
                assert(s[i] == '.');
            }
        }
        lemma_no_position(s.drop_last());
    }
}

/// A path that begins with a slash stands for itself, any other lies in the directory.
pub proof fn law_joined_paths(dir: Seq<char>, path: Seq<char>)
    ensures
        joined(dir, seq!['/'] + path) == seq!['/'] + path,
        path.len() > 0 && path[0] != '/' && dir.len() > 0 && dir.last() != '/' ==> joined(dir, path)
            == dir + seq!['/'] + path,
        path.len() > 0 && path[0] != '/' && dir.len() > 0 && dir.last() == '/' ==> joined(dir, path)
            == dir + path,
        path.len() > 0 && path[0] != '/' ==> joined(seq![], path) == path,
{
    assert(dir.push('/') + path =~= dir + seq!['/'] + path);
    assert(Seq::<char>::empty() + path =~= path);
}

} // verus!
