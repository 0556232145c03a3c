//! Unix file paths as text.

use crate::text;
use vstd::prelude::*;

verus! {

/// Whether a path component names nothing by itself: it is empty or `.`.
pub open spec fn is_void(part: Seq<char>) -> bool {
    part.len() == 0 || part == seq!['.']
}

/// The last of `parts` that names something.
pub open spec fn last_named(parts: Seq<Seq<char>>) -> Option<Seq<char>>
    decreases parts.len(),
{
    if parts.len() == 0 {
        None
    } else if is_void(parts.last()) {
        last_named(parts.drop_last())
    } else {
        Some(parts.last())
    }
}

/// The file that a path names: its last component, unless that leads to the
/// parent directory.
pub open spec fn file_of(path: Seq<char>) -> Option<Seq<char>> {
    match last_named(text::pieces(path, '/')) {
        Some(name) => if name == seq!['.', '.'] {
            None
        } else {
            Some(name)
        },
        None => None,
    }
}

/// The file that a path names, as `Path::file_name` gives it.
pub fn file_name(path: &str) -> (r: Option<String>)
    ensures
        (match r {
            Some(name) => file_of(path@) == Some(name@),
            None => file_of(path@) is None,
        }),
{
    let parts = text::split(path, '/');
    let ghost all = parts.deep_view();
    let mut i: usize = parts.len();
    assert(all.take(i as int) =~= all);
    while i > 0
        invariant
            i <= parts.len(),
            all == parts.deep_view(),
            last_named(all) == last_named(all.take(i as int)),
            all == text::pieces(path@, '/'),
        decreases i,
    {
        let chars = text::to_chars(parts[i - 1].as_str());
        let ghost head = all.take(i as int);
        assert(head.last() == chars@);
        assert(head.drop_last() =~= all.take(i - 1));
        if chars.len() == 0 || (chars.len() == 1 && chars[0] == '.') {
            assert(chars.len() == 1 ==> chars@ =~= seq!['.']);
        } else {
            assert(last_named(all) == Some(chars@));
            if chars.len() == 2 && chars[0] == '.' && chars[1] == '.' {
                assert(chars@ =~= seq!['.', '.']);
                return None;
            }
            return Some(parts[i - 1].as_str().to_owned());
        }
        i -= 1;
    }
    assert(all.take(0) =~= seq![]);
    None
}

/// The part of a file name before its first dot: the name of the module that
/// a module file holds.
pub open spec fn stem_of(file: Seq<char>) -> Seq<char> {
    text::before_first(file, '.')
}

/// What follows the last dot in a file name; nothing where there is no dot, or
/// only one at the very start.
pub open spec fn extension_of(file: Seq<char>) -> Seq<char> {
    let parts = text::pieces(file, '.');
    if parts.len() < 2 || (parts.len() == 2 && parts[0].len() == 0) {
        seq![]
    } else {
        parts.last()
    }
}

/// The extension of the file that a path names, empty where there is none, as
/// `Path::extension` gives it.
pub fn extension(path: &str) -> (r: String)
    ensures
        r@ == (match file_of(path@) {
            Some(file) => extension_of(file),
            None => seq![],
        }),
{
    match file_name(path) {
        None => String::new(),
        Some(file) => {
            let parts = text::split(file.as_str(), '.');
            assert(parts.deep_view().len() == parts.len());
            if parts.len() < 2 {
                return String::new();
            }
            if parts.len() == 2 && text::to_chars(parts[0].as_str()).len() == 0 {
                assert(parts.deep_view()[0] == parts[0]@);
                return String::new();
            }
            assert(parts.deep_view()[0] == parts[0]@);
            assert(parts.deep_view().last() == parts[parts.len() - 1]@);
            parts[parts.len() - 1].as_str().to_owned()
        },
    }
}

/// The path `path` seen from the directory `dir`: an absolute path stands for
/// itself, any other is appended behind a slash.
pub open spec fn joined_path(dir: Seq<char>, path: Seq<char>) -> Seq<char> {
    if path.len() > 0 && path[0] == '/' {
        path
    } else if dir.len() == 0 || dir.last() == '/' {
        dir + path
    } else {
        dir.push('/') + path
    }
}

/// The path `path` seen from the directory `dir`, as `Path::join` gives it.
pub fn join(dir: &str, path: &str) -> (r: String)
    ensures
        r@ == joined_path(dir@, path@),
{
    let d = text::to_chars(dir);
    let p = text::to_chars(path);
    if p.len() > 0 && p[0] == '/' {
        return path.to_owned();
    }
    if d.len() == 0 || d[d.len() - 1] == '/' {
        return text::joined(dir, path);
    }
    proof {
        reveal_strlit("/");
        assert(dir@ + "/"@ =~= dir@.push('/'));
    }
    let with_slash = text::joined(dir, "/");
    text::joined(with_slash.as_str(), path)
}

/// Which file a path names: the last component, whatever stands in front of it and
/// however many slashes and single dots follow it; none where that component leads
/// to the parent directory.
pub proof fn law_last_component_names_file(dir: Seq<char>, name: Seq<char>)
    requires
        name.len() > 0,
        !name.contains('/'),
        name != seq!['.'],
    ensures
        name != seq!['.', '.'] ==> file_of(name) == Some(name) && file_of(dir + seq!['/'] + name)
            == Some(name),
        name == seq!['.', '.'] ==> file_of(name) is None && file_of(dir + seq!['/'] + name) is None,
        file_of(dir + seq!['/']) == file_of(dir),
        file_of(dir + seq!['/', '.']) == file_of(dir),
        file_of(Seq::empty()) is None,
{
    let none = Seq::<char>::empty();
    let dot = seq!['.'];
    text::law_text_is_cut_at_each(dir, name, '/');
    text::law_text_is_cut_at_each(name, name, '/');
    text::law_text_is_cut_at_each(dir, none, '/');
    text::law_text_is_cut_at_each(none, none, '/');
    assert(!dot.contains('/'));
    text::law_text_is_cut_at_each(dir, dot, '/');
    text::law_text_is_cut_at_each(dot, dot, '/');
    let parts = text::pieces(dir, '/');
    assert(dir + seq!['/'] =~= dir + seq!['/'] + none);
    assert(dir + seq!['/', '.'] =~= dir + seq!['/'] + dot);
    assert((parts + seq![name]).last() == name);
    assert(seq![name].last() == name);
    assert((parts + seq![none]).last() == none);
    assert((parts + seq![none]).drop_last() =~= parts);
    assert((parts + seq![dot]).last() == dot);
    assert((parts + seq![dot]).drop_last() =~= parts);
    assert(seq![none].drop_last().len() == 0);
    assert(last_named(seq![none].drop_last()) is None);
    assert(seq![none].last() == none);
}

/// The name of a file up to its first dot, and what follows its last dot. A dot at
/// the very start, with no other behind it, starts no ending.
pub proof fn law_dots_part_file_name(stem: Seq<char>, middle: Seq<char>, ending: Seq<char>)
    requires
        !stem.contains('.'),
        !ending.contains('.'),
    ensures
        stem_of(stem) == stem,
        stem_of(stem + seq!['.'] + middle) == stem,
        extension_of(stem) == Seq::<char>::empty(),
        stem.len() > 0 ==> extension_of(stem + seq!['.'] + ending) == ending,
        stem.len() == 0 ==> extension_of(stem + seq!['.'] + ending) == Seq::<char>::empty(),
        extension_of(stem + seq!['.'] + middle + seq!['.'] + ending) == ending,
{
    text::law_text_before_first(stem, middle, '.');
    text::law_text_is_cut_at_each(stem, ending, '.');
    text::law_text_is_cut_at_each(ending, ending, '.');
    text::law_text_is_cut_at_each(stem + seq!['.'] + middle, ending, '.');
    text::law_text_is_cut_at_each(stem, middle, '.');
    text::lemma_pieces_nonempty(middle, '.');
    let short = text::pieces(stem + seq!['.'] + ending, '.');
    assert(short =~= seq![stem, ending]);
    let long = text::pieces(stem + seq!['.'] + middle + seq!['.'] + ending, '.');
    assert(long =~= seq![stem] + text::pieces(middle, '.') + seq![ending]);
    assert(long.len() >= 3 && long.last() == ending);
}

/// A path seen from a directory: one that starts with a slash stands for itself; any
/// other comes behind the directory, with one slash between them, or none where the
/// directory is empty.
pub proof fn law_path_is_seen_from_directory(dir: Seq<char>, path: Seq<char>)
    ensures
        path.len() > 0 && path[0] == '/' ==> joined_path(dir, path) == path,
        !(path.len() > 0 && path[0] == '/') ==> {
            &&& joined_path(Seq::empty(), path) == path
            &&& joined_path(dir + seq!['/'], path) == dir + seq!['/'] + path
            &&& dir.len() > 0 && dir.last() != '/' ==> joined_path(dir, path) == dir + seq!['/']
                + path
        },
{
    assert(Seq::<char>::empty() + path =~= path);
    assert((dir + seq!['/']).last() == '/');
    assert(dir.push('/') =~= dir + seq!['/']);
}

} // verus!
