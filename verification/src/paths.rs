//! File names inside `/`-separated paths, by the rules that a file system's
//! path type follows: trailing separators and trailing `.` components do not
//! count, and `..` is no file name.

use vstd::prelude::*;

use crate::text::{to_chars, to_text};

verus! {

/// `path` without trailing separators and trailing `/.`.
pub open spec fn without_trailing(path: Seq<char>) -> Seq<char>
    decreases path.len(),
{
    if path.len() > 0 && path.last() == '/' {
        without_trailing(path.drop_last())
    } else if path.len() > 1 && path.last() == '.' && path[path.len() - 2] == '/' {
        without_trailing(path.drop_last())
    } else {
        path
    }
}

/// What stands behind the last separator.
pub open spec fn last_part(path: Seq<char>) -> Seq<char>
    decreases path.len(),
{
    if path.len() == 0 || path.last() == '/' {
        Seq::empty()
    } else {
        last_part(path.drop_last()).push(path.last())
    }
}

/// The last component of a path, when it names a file or a folder.
pub open spec fn file_name_of(path: Seq<char>) -> Option<Seq<char>> {
    let part = last_part(without_trailing(path));
    if part.len() == 0 || part == seq!['.'] || part == seq!['.', '.'] {
        None
    } else {
        Some(part)
    }
}

/// Where the last dot of a file name stands.
pub open spec fn last_dot(name: Seq<char>) -> Option<int>
    decreases name.len(),
{
    if name.len() == 0 {
        None
    } else if name.last() == '.' {
        Some(name.len() - 1)
    } else {
        last_dot(name.drop_last())
    }
}

/// The file name up to its last dot. A dot that the name begins with, and that
/// is its only one, does not count.
pub open spec fn file_stem_of(path: Seq<char>) -> Option<Seq<char>> {
    match file_name_of(path) {
        Some(name) => match last_dot(name) {
            Some(d) => if d == 0 {
                Some(name)
            } else {
                Some(name.take(d))
            },
            None => Some(name),
        },
        None => None,
    }
}

/// The file name behind its last dot. A dot that the name begins with, and that
/// is its only one, does not count.
pub open spec fn extension_of(path: Seq<char>) -> Option<Seq<char>> {
    match file_name_of(path) {
        Some(name) => match last_dot(name) {
            Some(d) => if d == 0 {
                None
            } else {
                Some(name.skip(d + 1))
            },
            None => None,
        },
        None => None,
    }
}

/// The file `name` in the folder `dir`.
pub open spec fn path_in(dir: Seq<char>, name: Seq<char>) -> Seq<char> {
    if dir.len() == 0 || dir.last() == '/' {
        dir + name
    } else {
        dir.push('/') + name
    }
}

/// The last dot, when there is one, is a dot, and none follows it.
pub proof fn last_dot_is_last(name: Seq<char>)
    ensures
        match last_dot(name) {
            Some(d) => 0 <= d < name.len() && name[d] == '.' && (forall|j: int|
                d < j < name.len() ==> name[j] != '.'),
            None => forall|j: int| 0 <= j < name.len() ==> name[j] != '.',
        },
    decreases name.len(),
{
    if name.len() > 0 && name.last() != '.' {
        let rest = name.drop_last();
        last_dot_is_last(rest);
        assert forall|j: int| 0 <= j < rest.len() implies rest[j] == name[j] by {}
    }
}

/// A file name with an extension is its stem, a dot and its extension; one
/// without is its own stem.
pub proof fn stem_and_extension_make_the_name(path: Seq<char>)
    requires
        file_name_of(path) is Some,
    ensures
        file_stem_of(path) is Some,
        match extension_of(path) {
            Some(ext) => file_name_of(path)->0 == (file_stem_of(path)->0).push('.') + ext,
            None => file_name_of(path) == file_stem_of(path),
        },
{
    let name = file_name_of(path)->0;
    last_dot_is_last(name);
    if let Some(d) = last_dot(name) {
        if d > 0 {
            assert(name =~= name.take(d).push('.') + name.skip(d + 1));
        }
    }
}

/// The last component of a path, when it names a file or a folder.
pub fn file_name(path: &str) -> (r: Option<String>)
    ensures
        match r {
            Some(n) => file_name_of(path@) == Some(n@),
            None => file_name_of(path@) is None,
        },
{
    let cs: Vec<char> = to_chars(path);
    let mut to: usize = cs.len();
    assert(cs@.take(cs@.len() as int) =~= cs@);
    while to > 0 && (cs[to - 1] == '/' || (to > 1 && cs[to - 1] == '.' && cs[to - 2] == '/'))
        invariant
            to <= cs@.len(),
            without_trailing(cs@) == without_trailing(cs@.take(to as int)),
        decreases to,
    {
        assert(cs@.take(to as int).drop_last() =~= cs@.take(to - 1));
        to -= 1;
    }
    let ghost rest = cs@.take(to as int);
    assert(without_trailing(cs@) == rest);
    let mut from: usize = to;
    assert(rest.take(to as int) =~= rest);
    assert(last_part(rest) =~= last_part(rest.take(from as int)) + rest.skip(from as int));
    while from > 0 && cs[from - 1] != '/'
        invariant
            from <= to <= cs@.len(),
            rest == cs@.take(to as int),
            last_part(rest) == last_part(rest.take(from as int)) + rest.skip(from as int),
        decreases from,
    {
        let ghost now = rest.take(from as int);
        assert(now.drop_last() =~= rest.take(from - 1));
        assert(last_part(now) == last_part(rest.take(from - 1)).push(rest[from - 1]));
        assert(last_part(rest) =~= last_part(rest.take(from - 1)) + rest.skip(from - 1));
        from -= 1;
    }
    assert(last_part(rest.take(from as int)) =~= Seq::empty());
    let name = to_text(&cs, from, to);
    assert(name@ =~= last_part(rest));
    let one: bool = to - from == 1 && cs[from] == '.';
    let two: bool = to - from == 2 && cs[from] == '.' && cs[from + 1] == '.';
    proof {
        if one {
            assert(name@ =~= seq!['.']);
        }
        if two {
            assert(name@ =~= seq!['.', '.']);
        }
        if name@ == seq!['.'] {
            assert(name@[0] == '.');
        }
        if name@ == seq!['.', '.'] {
            assert(name@[0] == '.' && name@[1] == '.');
        }
    }
    if from == to || one || two {
        None
    } else {
        Some(name)
    }
}

/// Where the last dot of a file name stands.
fn find_last_dot(cs: &Vec<char>) -> (r: Option<usize>)
    ensures
        match r {
            Some(d) => d < cs@.len() && last_dot(cs@) == Some(d as int),
            None => last_dot(cs@) is None,
        },
{
    let mut to: usize = cs.len();
    assert(cs@.take(cs@.len() as int) =~= cs@);
    while to > 0
        invariant
            to <= cs@.len(),
            last_dot(cs@) == last_dot(cs@.take(to as int)),
        decreases to,
    {
        if cs[to - 1] == '.' {
            return Some(to - 1);
        }
        assert(cs@.take(to as int).drop_last() =~= cs@.take(to - 1));
        to -= 1;
    }
    None
}

/// The file name up to its last dot.
pub fn file_stem(path: &str) -> (r: Option<String>)
    ensures
        match r {
            Some(n) => file_stem_of(path@) == Some(n@),
            None => file_stem_of(path@) is None,
        },
{
    match file_name(path) {
        Some(name) => {
            let cs: Vec<char> = to_chars(name.as_str());
            match find_last_dot(&cs) {
                Some(d) => if d == 0 {
                    Some(name)
                } else {
                    let stem = to_text(&cs, 0, d);
                    assert(stem@ =~= cs@.take(d as int));
                    Some(stem)
                },
                None => Some(name),
            }
        },
        None => None,
    }
}

/// The file name behind its last dot.
pub fn extension(path: &str) -> (r: Option<String>)
    ensures
        match r {
            Some(n) => extension_of(path@) == Some(n@),
            None => extension_of(path@) is None,
        },
{
    match file_name(path) {
        Some(name) => {
            let cs: Vec<char> = to_chars(name.as_str());
            match find_last_dot(&cs) {
                Some(d) => if d == 0 {
                    None
                } else {
                    let ext = to_text(&cs, d + 1, cs.len());
                    assert(ext@ =~= cs@.skip(d + 1));
                    Some(ext)
                },
                None => None,
            }
        },
        None => None,
    }
}

/// The file `name` in the folder `dir`.
pub fn join_path(dir: &str, name: &str) -> (r: String)
    ensures
        r@ == path_in(dir@, name@),
{
    let cs: Vec<char> = to_chars(dir);
    let mut r = dir.to_owned();
    if cs.len() > 0 && cs[cs.len() - 1] != '/' {
        r.push('/');
    }
    r.append(name);
    r
}

} // verus!
