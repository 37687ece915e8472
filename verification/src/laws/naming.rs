//! Laws on the names inside paths, and on which files matter.

use vstd::prelude::*;

use crate::formats::{is_audio_extension, sidecar_format_of, SidecarFormat};
use crate::paths::{
    extension_of, file_name_of, file_stem_of, last_dot, last_dot_is_last, last_part, path_in,
    stem_and_extension_make_the_name, without_trailing,
};
use crate::text::lowercase;

verus! {

/// Whether a text may follow a file name without changing it: separators, and
/// single dots behind separators.
pub open spec fn is_tail(tail: Seq<char>) -> bool {
    forall|i: int|
        0 <= i < tail.len() ==> #[trigger] tail[i] == '/' || (tail[i] == '.' && i > 0 && tail[i - 1]
            == '/')
}

/// What is left without the tail does not end with one.
proof fn core_has_no_tail(path: Seq<char>)
    ensures
        without_trailing(path).len() > 0 ==> without_trailing(path).last() != '/',
        without_trailing(path).len() > 1 ==> !(without_trailing(path).last() == '.'
            && without_trailing(path)[without_trailing(path).len() - 2] == '/'),
    decreases path.len(),
{
    if path.len() > 0 && path.last() == '/' {
        core_has_no_tail(path.drop_last());
    } else if path.len() > 1 && path.last() == '.' && path[path.len() - 2] == '/' {
        core_has_no_tail(path.drop_last());
    }
}

/// The tail of a path.
proof fn tail_of(path: Seq<char>) -> (tail: Seq<char>)
    ensures
        is_tail(tail),
        path == without_trailing(path) + tail,
        tail.len() > 0 ==> tail[0] == '/',
    decreases path.len(),
{
    if path.len() > 0 && (path.last() == '/' || (path.len() > 1 && path.last() == '.' && path[
    path.len() - 2] == '/')) {
        let rest = path.drop_last();
        let before = tail_of(rest);
        let tail = before.push(path.last());
        core_has_no_tail(rest);
        assert(path =~= rest.push(path.last()));
        assert(path =~= without_trailing(path) + tail);
        if path.last() != '/' {
            assert(rest.last() == '/');
            assert(before.len() > 0);
            assert(rest.last() == before.last());
        }
        assert forall|i: int| 0 <= i < tail.len() implies #[trigger] tail[i] == '/' || (tail[i]
            == '.' && i > 0 && tail[i - 1] == '/') by {
            if i < before.len() {
                assert(tail[i] == before[i]);
            }
        }
        tail
    } else {
        assert(path =~= without_trailing(path) + Seq::empty());
        Seq::empty()
    }
}

/// What stands before the last part.
proof fn before_last_part(path: Seq<char>) -> (front: Seq<char>)
    ensures
        path == front + last_part(path),
        !last_part(path).contains('/'),
        front.len() > 0 ==> front.last() == '/',
    decreases path.len(),
{
    if path.len() == 0 || path.last() == '/' {
        assert(path =~= path + last_part(path));
        path
    } else {
        let front = before_last_part(path.drop_last());
        let shorter = last_part(path.drop_last());
        assert(path =~= path.drop_last().push(path.last()));
        assert(path =~= front + last_part(path));
        if last_part(path).contains('/') {
            let k = last_part(path).index_of('/');
            if k < shorter.len() {
                assert(shorter[k] == '/');
                assert(shorter.contains('/'));
            }
        }
        front
    }
}

/// A file name is the last component of its path: no separator is in it, a
/// separator or nothing is before it, and only separators and single dots are
/// behind it. It is neither `.` nor `..`. Without a file name the path is empty,
/// or ends with one of these, but for such a tail.
pub proof fn file_name_is_the_last_component(path: Seq<char>)
    ensures
        match file_name_of(path) {
            Some(name) => name.len() > 0 && !name.contains('/') && name != seq!['.'] && name
                != seq!['.', '.'] && exists|front: Seq<char>, tail: Seq<char>|
                {
                    &&& path == #[trigger] (front + name + tail)
                    &&& front.len() > 0 ==> front.last() == '/'
                    &&& is_tail(tail)
                    &&& tail.len() > 0 ==> tail[0] == '/'
                },
            None => exists|front: Seq<char>, last: Seq<char>, tail: Seq<char>|
                {
                    &&& path == #[trigger] (front + last + tail)
                    &&& last.len() == 0 || last == seq!['.'] || last == seq!['.', '.']
                    &&& front.len() > 0 ==> front.last() == '/' && last == seq!['.', '.']
                    &&& is_tail(tail)
                },
        },
{
    let core = without_trailing(path);
    let tail = tail_of(path);
    let front = before_last_part(core);
    let last = last_part(core);
    core_has_no_tail(path);
    assert(path == front + last + tail);
    if front.len() > 0 && last.len() == 0 {
        assert(core =~= front);
    }
    if front.len() > 0 && last == seq!['.'] {
        assert(core[core.len() - 2] == front.last());
        assert(core.last() == last[0]);
    }
}

/// The extension is what stands behind the last dot of the file name, as long as
/// there is something before that dot. Without one the stem is the whole name.
pub proof fn extension_is_behind_the_last_dot(path: Seq<char>)
    ensures
        file_name_of(path) is None ==> extension_of(path) is None && file_stem_of(path) is None,
        file_name_of(path) is Some ==> file_stem_of(path) is Some && match extension_of(path) {
            Some(ext) => !ext.contains('.') && (file_stem_of(path)->0).len() > 0 && file_name_of(
                path,
            )->0 == (file_stem_of(path)->0).push('.') + ext,
            None => file_stem_of(path) == file_name_of(path) && forall|i: int|
                1 <= i < (file_name_of(path)->0).len() ==> #[trigger] (file_name_of(path)->0)[i]
                    != '.',
        },
{
    if let Some(name) = file_name_of(path) {
        last_dot_is_last(name);
        stem_and_extension_make_the_name(path);
        if let Some(ext) = extension_of(path) {
            let d = last_dot(name)->0;
            if ext.contains('.') {
                let k = ext.index_of('.');
                assert(name[d + 1 + k] == '.');
            }
        }
    }
}

/// The part of a path behind its last separator.
proof fn last_part_behind_separator(front: Seq<char>, name: Seq<char>)
    requires
        front.len() > 0 ==> front.last() == '/',
        !name.contains('/'),
    ensures
        last_part(front + name) == name,
    decreases name.len(),
{
    let path = front + name;
    if name.len() == 0 {
        assert(path =~= front);
        assert(last_part(path) =~= name);
    } else {
        let rest = name.drop_last();
        assert(name[name.len() - 1] != '/');
        if rest.contains('/') {
            let k = rest.index_of('/');
            assert(name[k] == '/');
        }
        last_part_behind_separator(front, rest);
        assert(path.drop_last() =~= front + rest);
        assert(last_part(path) =~= name);
    }
}

/// A file in a folder lies below the folder's path and has the name it was given.
pub proof fn file_in_a_folder_has_its_name(dir: Seq<char>, name: Seq<char>)
    requires
        name.len() > 0,
        !name.contains('/'),
        name != seq!['.'],
        name != seq!['.', '.'],
    ensures
        file_name_of(path_in(dir, name)) == Some(name),
        path_in(dir, name).len() <= dir.len() + 1 + name.len(),
        path_in(dir, name).take(dir.len() as int) == dir,
{
    let path = path_in(dir, name);
    let front = if dir.len() == 0 || dir.last() == '/' {
        dir
    } else {
        dir.push('/')
    };
    assert(path =~= front + name);
    assert(path.take(dir.len() as int) =~= dir);
    assert(name[name.len() - 1] != '/');
    assert(path.last() == name.last());
    if path.len() > 1 && path.last() == '.' && path[path.len() - 2] == '/' {
        if name.len() > 1 {
            assert(name[name.len() - 2] == '/');
        } else {
            assert(name =~= seq!['.']);
        }
    }
    assert(without_trailing(path) == path);
    last_part_behind_separator(front, name);
}

/// The audio files are those with one of seven extensions, in whatever case.
pub proof fn audio_files_have_these_extensions(ext: Seq<char>)
    ensures
        is_audio_extension(Some(ext)) <==> lowercase(ext) == "wav"@ || lowercase(ext) == "mp3"@
            || lowercase(ext) == "aiff"@ || lowercase(ext) == "aif"@ || lowercase(ext) == "flac"@
            || lowercase(ext) == "ogg"@ || lowercase(ext) == "m4a"@,
        !is_audio_extension(None),
{
    let names = seq!["wav"@, "mp3"@, "aiff"@, "aif"@, "flac"@, "ogg"@, "m4a"@];
    assert(names[0] == "wav"@ && names[1] == "mp3"@ && names[2] == "aiff"@ && names[3] == "aif"@);
    assert(names[4] == "flac"@ && names[5] == "ogg"@ && names[6] == "m4a"@);
    assert(names.contains(names[0]) && names.contains(names[1]) && names.contains(names[2]));
    assert(names.contains(names[3]) && names.contains(names[4]) && names.contains(names[5]));
    assert(names.contains(names[6]));
}

/// The sidecars are those with one of five extensions, in whatever case.
pub proof fn sidecars_have_these_extensions(ext: Seq<char>)
    ensures
        sidecar_format_of(Some(ext)) == Some(SidecarFormat::Csv) <==> lowercase(ext) == "csv"@,
        sidecar_format_of(Some(ext)) == Some(SidecarFormat::Workbook) <==> lowercase(ext)
            == "xlsx"@ || lowercase(ext) == "xls"@ || lowercase(ext) == "xlsm"@,
        sidecar_format_of(Some(ext)) == Some(SidecarFormat::Text) <==> lowercase(ext) == "txt"@,
        sidecar_format_of(None) is None,
{
    reveal_strlit("csv");
    reveal_strlit("xlsx");
    reveal_strlit("xls");
    reveal_strlit("xlsm");
    reveal_strlit("txt");
    assert("csv"@.len() == 3 && "xls"@.len() == 3 && "txt"@.len() == 3);
    assert("xlsx"@.len() == 4 && "xlsm"@.len() == 4);
    assert("csv"@[0] == 'c' && "xls"@[0] == 'x' && "txt"@[0] == 't');
}

} // verus!
