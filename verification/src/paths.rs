//! File names and extensions, by the rules of slash-separated paths.
use vstd::prelude::*;

use crate::text;
use crate::text::{split_on, texts};

verus! {

/// A path without the slashes and the `.` components at its end.
pub open spec fn trimmed_path(path: Seq<char>) -> Seq<char>
    decreases path.len(),
{
    if path.len() > 0 && path.last() == '/' {
        trimmed_path(path.drop_last())
    } else if path.len() > 1 && path.last() == '.' && path[path.len() - 2] == '/' {
        trimmed_path(path.drop_last())
    } else {
        path
    }
}

/// The last component of a path, if it names a file.
pub open spec fn file_name(path: Seq<char>) -> Option<Seq<char>> {
    let last = split_on(trimmed_path(path), '/').last();
    if last.len() == 0 || last == "."@ || last == ".."@ {
        None
    } else {
        Some(last)
    }
}

/// What follows the last dot of a file name, where something stands before it.
pub open spec fn name_extension(name: Seq<char>) -> Option<Seq<char>> {
    let parts = split_on(name, '.');
    if parts.len() < 2 || (parts.len() == 2 && parts[0].len() == 0) {
        None
    } else {
        Some(parts.last())
    }
}

/// The extension of the file that a path names.
pub open spec fn path_extension(path: Seq<char>) -> Option<Seq<char>> {
    match file_name(path) {
        Some(name) => name_extension(name),
        None => None,
    }
}

/// Drops the slashes and the `.` components at the end of a path.
fn trim_path(path: &str) -> (r: String)
    ensures
        r@ == trimmed_path(path@),
{
    let chars = text::chars_of(path);
    let mut len: usize = chars.len();
    assert(path@.take(len as int) == path@);
    while len > 0 && (chars[len - 1] == '/' || (len > 1 && chars[len - 1] == '.' && chars[len - 2]
        == '/'))
        invariant
            chars@ == path@,
            len <= chars.len(),
            trimmed_path(path@.take(len as int)) == trimmed_path(path@),
        decreases len,
    {
        assert(path@.take(len as int).drop_last() == path@.take(len - 1));
        len -= 1;
    }
    let mut kept = chars;
    kept.truncate(len);
    assert(kept@ == path@.take(len as int));
    text::string_of(kept.as_slice())
}

proof fn pieces_exist(s: Seq<char>, sep: char)
    ensures
        split_on(s, sep).len() > 0,
    decreases s.len(),
{
    if s.len() > 0 {
        pieces_exist(s.drop_last(), sep);
    }
}

/// The last of the pieces of `s` between the occurrences of `sep`, and how many
/// pieces there are, and whether the first is empty.
fn last_piece(s: &str, sep: char) -> (r: (String, usize, bool))
    ensures
        r.0@ == split_on(s@, sep).last(),
        r.1 == split_on(s@, sep).len(),
        r.2 == (split_on(s@, sep)[0].len() == 0),
{
    proof {
        pieces_exist(s@, sep);
    }
    let mut pieces = text::split(s, sep);
    let count = pieces.len();
    assert(texts(pieces@)[0] == pieces@[0]@);
    assert(texts(pieces@).last() == pieces@.last()@);
    let first_empty = pieces[0].as_str().is_empty();
    match pieces.pop() {
        Some(last) => (last, count, first_empty),
        None => (String::new(), count, first_empty),
    }
}

/// The extension of the file that a path names, if it has one.
pub fn extension(path: &str) -> (r: Option<String>)
    ensures
        match r {
            Some(e) => path_extension(path@) == Some(e@),
            None => path_extension(path@) is None,
        },
{
    let trimmed = trim_path(path);
    let (name, _, _) = last_piece(trimmed.as_str(), '/');
    if name.as_str().is_empty() || text::same_text(name.as_str(), ".") || text::same_text(
        name.as_str(),
        "..",
    ) {
        return None;
    }
    let (ext, count, first_empty) = last_piece(name.as_str(), '.');
    if count < 2 || (count == 2 && first_empty) {
        None
    } else {
        Some(ext)
    }
}

/// The file name of a path is what stands behind its last slash.
pub proof fn file_names_stand_behind_the_last_slash(dir: Seq<char>, name: Seq<char>)
    requires
        name.len() > 0,
        !name.contains('/'),
        name != seq!['.'],
        name != seq!['.', '.'],
    ensures
        file_name(name) == Some(name),
        file_name(dir + seq!['/'] + name) == Some(name),
{
    reveal_strlit(".");
    reveal_strlit("..");
    assert("."@ =~= seq!['.']);
    assert(".."@ =~= seq!['.', '.']);
    assert(name.contains(name.last()));
    if name.len() > 1 {
        assert(name.contains(name[name.len() - 2]));
    }
    if name.len() == 1 && name.last() == '.' {
        assert(name =~= seq!['.']);
    }
    text::split_without_separator(name, '/');
    let path = dir + seq!['/'] + name;
    assert(path.last() == name.last());
    if name.len() > 1 {
        assert(path[path.len() - 2] == name[name.len() - 2]);
    }
    assert(trimmed_path(path) == path);
    text::separators_part_texts(dir, '/', name);
    assert(split_on(path, '/').last() == name);
}

/// The extension of a file name is what stands behind its last dot, unless nothing stands
/// before it. A name without a dot has none.
pub proof fn extensions_stand_behind_the_last_dot(stem: Seq<char>, extension: Seq<char>)
    requires
        !extension.contains('.'),
    ensures
        stem.len() > 0 ==> name_extension(stem + seq!['.'] + extension) == Some(extension),
        name_extension(seq!['.'] + extension) is None,
        name_extension(extension) is None,
{
    text::separators_part_texts(stem, '.', extension);
    text::split_without_separator(extension, '.');
    text::join_undoes_split(stem, '.');
    let parts = split_on(stem + seq!['.'] + extension, '.');
    assert(parts.last() == extension);
    if parts.len() == 2 {
        assert(parts[0] == split_on(stem, '.')[0]);
        assert(text::joined(split_on(stem, '.'), seq!['.']) == split_on(stem, '.')[0]);
    }
    let none = Seq::<char>::empty();
    text::separators_part_texts(none, '.', extension);
    assert(none + seq!['.'] + extension =~= seq!['.'] + extension);
    assert(split_on(none, '.') =~= seq![none]);
}

/// Slashes at the end of a path do not count, and a path's extension is that of its file
/// name.
pub proof fn slashes_at_the_end_do_not_count(path: Seq<char>, name: Seq<char>)
    ensures
        file_name(path.push('/')) == file_name(path),
        file_name(path) == Some(name) ==> path_extension(path) == name_extension(name),
        file_name(path) is None ==> path_extension(path) is None,
{
    assert(path.push('/').drop_last() =~= path);
}

} // verus!
