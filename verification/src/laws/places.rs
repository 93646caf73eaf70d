//! Paths: how they are taken apart, put together and compared.
use vstd::prelude::*;

use crate::paths;
use crate::paths::Separators;
use crate::text;

verus! {

/// Whether `name` is one segment of a path: not empty, without slashes, and not `.`.
pub open spec fn is_segment(name: Seq<char>) -> bool {
    name.len() > 0 && !name.contains('/') && name != seq!['.']
}

/// Whether `directory` is written without a slash, or a `.` behind one, at its end.
pub open spec fn ends_plainly(directory: Seq<char>) -> bool {
    &&& directory.len() > 0
    &&& directory.last() != '/'
    &&& directory.len() > 1 && directory.last() == '.' ==> directory[directory.len() - 2] != '/'
}

proof fn segment_is_behind(directory: Seq<char>, name: Seq<char>, end: int)
    requires
        !name.contains('/'),
        directory.len() < end <= directory.len() + 1 + name.len(),
    ensures
        paths::segment_start(directory.push('/') + name, end, false) == directory.len() + 1,
    decreases end,
{
    let path = directory.push('/') + name;
    assert(path[directory.len() as int] == '/');
    if end > directory.len() + 1 {
        assert(path[end - 1] == name[end - directory.len() - 2]);
        assert(name.contains(name[end - directory.len() - 2]));
        segment_is_behind(directory, name, end - 1);
    }
}

proof fn names_are_not_trimmed(directory: Seq<char>, name: Seq<char>)
    requires
        is_segment(name),
    ensures
        ({
            let path = directory.push('/') + name;
            paths::trimmed(path, path.len() as int, false) == path.len()
        }),
{
    let path = directory.push('/') + name;
    let last = name.len() - 1;
    assert(path.last() == name[last]);
    assert(name.contains(name[last]));
    if name.len() > 1 {
        assert(path[path.len() - 2] == name[last - 1]);
        assert(name.contains(name[last - 1]));
    } else if name[0] == '.' {
        assert(name =~= seq!['.']);
    }
}

/// The file `name` in `directory` is called `name` and lies in `directory`, where paths are taken
/// apart at slashes alone.
pub proof fn files_lie_in_their_directories(
    path: &str,
    directory: Seq<char>,
    name: Seq<char>,
    up: Option<String>,
    last: String,
)
    requires
        call_ensures(paths::parent_path, (path, false), up),
        call_ensures(paths::last_segment, (path, false), last),
        is_segment(name),
        ends_plainly(directory),
        path@ == directory.push('/') + name,
    ensures
        text::maybe_string(up) == Some(directory),
        last@ == name,
{
    let whole = path@;
    names_are_not_trimmed(directory, name);
    segment_is_behind(directory, name, whole.len() as int);
    assert(whole.subrange(directory.len() as int + 1, whole.len() as int) =~= name);
    let cut = directory.len() as int;
    assert(whole[cut] == '/');
    assert(whole[cut - 1] == directory.last());
    if cut > 1 {
        assert(whole[cut - 2] == directory[cut - 2]);
    }
    assert(paths::trimmed(whole, cut, false) == cut);
    assert(paths::trimmed(whole, cut + 1, false) == cut);
    assert(whole.take(cut) =~= directory);
}

/// A file at the root lies in the root, one without a directory lies in the empty path, and
/// nothing lies above the root.
pub proof fn paths_end_at_the_root(
    path: &str,
    name: Seq<char>,
    up: Option<String>,
    last: String,
)
    requires
        call_ensures(paths::parent_path, (path, false), up),
        call_ensures(paths::last_segment, (path, false), last),
        is_segment(name),
    ensures
        path@ == seq!['/'] + name ==> text::maybe_string(up) == Some(seq!['/']) && last@ == name,
        path@ == name ==> text::maybe_string(up) == Some(Seq::<char>::empty()) && last@ == name,
        path@ == seq!['/'] ==> up is None,
        path@.len() == 0 ==> up is None,
{
    let whole = path@;
    assert(Seq::<char>::empty().push('/') =~= seq!['/']);
    if whole == seq!['/'] + name {
        names_are_not_trimmed(Seq::empty(), name);
        segment_is_behind(Seq::empty(), name, whole.len() as int);
        assert(whole.subrange(1, whole.len() as int) =~= name);
        assert(whole[0] == '/');
        assert(whole.take(1) =~= seq!['/']);
    }
    if whole == name {
        assert(name.contains(name[0]));
        let end = name.len() - 1;
        assert(name.contains(name[end]));
        if name.len() > 1 {
            assert(name.contains(name[end - 1]));
        } else if name[0] == '.' {
            assert(name =~= seq!['.']);
        }
        start_is_zero(name, name.len() as int);
        assert(whole.subrange(0, whole.len() as int) =~= name);
        assert(whole.take(0) =~= Seq::<char>::empty());
    }
}

proof fn start_is_zero(name: Seq<char>, end: int)
    requires
        !name.contains('/'),
        0 <= end <= name.len(),
    ensures
        paths::segment_start(name, end, false) == 0,
    decreases end,
{
    if name.len() > 0 {
        assert(name.contains(name[0]));
    }
    if end > 0 {
        assert(name.contains(name[end - 1]));
        start_is_zero(name, end - 1);
    }
}

/// The path of a file in a directory is that of the directory, a separator where it does not end
/// in one, and the name. A backslash separates on Windows, a slash elsewhere.
pub proof fn joined_paths_have_one_separator(
    directory: &str,
    name: &str,
    windows: bool,
    path: String,
)
    requires
        call_ensures(paths::join, (directory, name, windows), path),
    ensures
        directory@.len() == 0 ==> path@ == name@,
        directory@.len() > 0 && !windows && directory@.last() != '/' ==> path@
            == directory@.push('/') + name@,
        directory@.len() > 0 && !windows && directory@.last() == '/' ==> path@ == directory@
            + name@,
        directory@.len() > 2 && windows && directory@[0] != '\\' && directory@.last() != '/'
            && directory@.last() != '\\' ==> path@ == directory@.push('\\') + name@,
        directory@.len() > 2 && windows && directory@[0] != '\\' && (directory@.last() == '/'
            || directory@.last() == '\\') ==> path@ == directory@ + name@,
{
    if directory@.len() == 0 {
        assert(directory@ + name@ =~= name@);
    }
}

/// The extension of a file name is what follows its last dot, unless that is its first character.
pub proof fn extensions_follow_the_last_dot(
    name: &str,
    stem: Seq<char>,
    extension: Seq<char>,
    found: Option<String>,
)
    requires
        call_ensures(paths::get_extension, (name,), found),
        !extension.contains('.'),
    ensures
        stem.len() > 0 && name@ == stem.push('.') + extension && name@ != seq!['.', '.']
            ==> text::maybe_string(found) == Some(extension),
        name@ == seq!['.'] + extension ==> found is None,
        name@ == extension ==> found is None,
{
    reveal_strlit("..");
    assert(".."@ =~= seq!['.', '.']);
    if name@ == stem.push('.') + extension {
        dot_is_last(stem, extension);
        assert(name@.skip(stem.len() as int + 1) =~= extension);
    }
    if name@ == seq!['.'] + extension {
        assert(Seq::<char>::empty().push('.') =~= seq!['.']);
        dot_is_last(Seq::empty(), extension);
    }
    if name@ == extension {
        no_dot(extension);
    }
}

proof fn no_dot(name: Seq<char>)
    requires
        !name.contains('.'),
    ensures
        paths::last_dot(name) is None,
    decreases name.len(),
{
    if name.len() > 0 {
        assert(name.contains(name[name.len() - 1]));
        assert forall|i: int| 0 <= i < name.len() - 1 implies name.drop_last()[i] != '.' by {
            assert(name.contains(name[i]));
        }
        no_dot(name.drop_last());
    }
}

proof fn dot_is_last(stem: Seq<char>, extension: Seq<char>)
    requires
        !extension.contains('.'),
    ensures
        paths::last_dot(stem.push('.') + extension) == Some(stem.len() as int),
    decreases extension.len(),
{
    let name = stem.push('.') + extension;
    if extension.len() == 0 {
        assert(name =~= stem.push('.'));
    } else {
        let shorter = extension.drop_last();
        assert(extension.contains(extension[extension.len() - 1]));
        assert forall|i: int| 0 <= i < shorter.len() implies shorter[i] != '.' by {
            assert(extension.contains(extension[i]));
        }
        assert(name.drop_last() =~= stem.push('.') + shorter);
        dot_is_last(stem, shorter);
    }
}

/// The canonical form of a path has a slash for each backslash and a drive letter in lower case;
/// everything else stays.
pub proof fn canonical_paths_have_slashes(path: &str, normal: String, i: int)
    requires
        call_ensures(paths::normalize_path, (path,), normal),
        0 <= i < path@.len(),
    ensures
        normal@.len() == path@.len(),
        ({
            let is_drive = i == 0 && path@.len() >= 2 && 65 <= path@[0] as int <= 90 && path@[1]
                == ':';
            &&& is_drive ==> normal@[i] as int == path@[i] as int + 32
            &&& !is_drive && path@[i] == '\\' ==> normal@[i] == '/'
            &&& !is_drive && path@[i] != '\\' ==> normal@[i] == path@[i]
        }),
{
}

/// A path is compared by the canonical form of its collapsed form.
pub proof fn paths_are_compared_in_canonical_form(path: &str, windows: bool, normal: String)
    requires
        call_ensures(paths::normalize_for_compare, (path, windows), normal),
    ensures
        normal@ == paths::normal_path(paths::lexically_normal(path@, windows)),
{
}

/// The relative path of a file in a directory is what follows the directory and a slash; that of
/// another file is its whole path.
pub proof fn relative_paths_follow_their_directory(
    directory: &str,
    file: &str,
    windows: bool,
    path: String,
    rest: Seq<char>,
)
    requires
        call_ensures(paths::to_posix_relative, (directory, file, windows), path),
    ensures
        ({
            let above = paths::normal_path(paths::lexically_normal(directory@, windows));
            let whole = paths::normal_path(paths::lexically_normal(file@, windows));
            let prefix = if above.len() > 0 && above.last() == '/' {
                above
            } else {
                above.push('/')
            };
            &&& whole == prefix + rest ==> path@ == rest
            &&& !prefix.is_prefix_of(whole) ==> path@ == whole
        }),
{
    let above = paths::normal_path(paths::lexically_normal(directory@, windows));
    let whole = paths::normal_path(paths::lexically_normal(file@, windows));
    let prefix = paths::as_prefix(above);
    if whole == prefix + rest {
        assert(prefix.is_prefix_of(whole)) by {
            assert(whole.subrange(0, prefix.len() as int) =~= prefix);
        }
        assert(whole.skip(prefix.len() as int) =~= rest);
    }
}

/// A path is split at its slashes.
pub proof fn paths_are_split_at_slashes(first: Seq<char>, last: Seq<char>)
    requires
        !last.contains('/'),
    ensures
        paths::split(last, Separators::Slash) == seq![last],
        paths::split(first.push('/') + last, Separators::Slash) == paths::split(
            first,
            Separators::Slash,
        ).push(last),
    decreases last.len(),
{
    let by = Separators::Slash;
    let path = first.push('/') + last;
    if last.len() == 0 {
        assert(path =~= first.push('/'));
        assert(path.drop_last() =~= first);
        assert(last =~= Seq::<char>::empty());
    } else {
        let shorter = last.drop_last();
        assert(last.contains(last[last.len() - 1]));
        assert forall|i: int| 0 <= i < shorter.len() implies shorter[i] != '/' by {
            assert(last.contains(last[i]));
        }
        assert(path.drop_last() =~= first.push('/') + shorter);
        paths_are_split_at_slashes(first, shorter);
        assert(shorter.push(last.last()) =~= last);
        let earlier = paths::split(first, by).push(shorter);
        assert(paths::split(path, by) =~= paths::split(first, by).push(last));
        assert(paths::split(last, by) =~= seq![last]);
    }
}

/// Collapsing leaves out empty segments and `.`, takes `..` together with an ordinary segment
/// before it, and keeps everything else.
pub proof fn segments_are_collapsed(segments: Seq<Seq<char>>, segment: Seq<char>, orphans: bool)
    ensures
        ({
            let before = paths::collapsed(segments, segments.len(), orphans);
            let after = paths::collapsed(segments.push(segment), segments.len() + 1, orphans);
            let twice = paths::collapsed(
                segments.push(segment).push(seq!['.', '.']),
                segments.len() + 2,
                orphans,
            );
            let ordinary = segment.len() > 0 && segment != seq!['.'] && segment != seq!['.', '.'];
            &&& segment.len() == 0 || segment == seq!['.'] ==> after == before
            &&& ordinary ==> after == before.push(segment)
            &&& ordinary ==> twice == before
            &&& segment == seq!['.', '.'] && (before.len() == 0 || before.last() == seq!['.', '.'])
                ==> after == (if orphans {
                before.push(segment)
            } else {
                before
            })
        }),
{
    reveal_strlit(".");
    reveal_strlit("..");
    assert("."@ =~= seq!['.']);
    assert(".."@ =~= seq!['.', '.']);
    let up = seq!['.', '.'];
    let one = segments.push(segment);
    let two = one.push(up);
    fewer_are_collapsed(segments, segment, segments.len(), orphans);
    fewer_are_collapsed(one, up, one.len(), orphans);
    assert(one[segments.len() as int] == segment);
    assert(two[one.len() as int] == up);
    let before = paths::collapsed(segments, segments.len(), orphans);
    assert(before.push(segment).drop_last() =~= before);
}

proof fn fewer_are_collapsed(
    segments: Seq<Seq<char>>,
    segment: Seq<char>,
    count: nat,
    orphans: bool,
)
    requires
        count <= segments.len(),
    ensures
        paths::collapsed(segments.push(segment), count, orphans) == paths::collapsed(
            segments,
            count,
            orphans,
        ),
    decreases count,
{
    if count > 0 {
        fewer_are_collapsed(segments, segment, (count - 1) as nat, orphans);
        assert(segments.push(segment)[count - 1] == segments[count - 1]);
    }
}

/// Where paths are taken apart at slashes alone, the collapsed form of a path is the slash that it
/// may begin with, and its collapsed segments with a slash between each two.
pub proof fn collapsed_paths_keep_their_root(
    path: &str,
    rest: Seq<char>,
    normal: String,
)
    requires
        call_ensures(paths::lexical_normalize, (path, false), normal),
    ensures
        ({
            let segments = paths::split(rest, Separators::Slash);
            let kept = paths::joined(paths::collapsed(segments, segments.len(), true), false);
            &&& path@ == seq!['/'] + rest ==> normal@ == seq!['/'] + kept
            &&& path@ == rest && (rest.len() == 0 || rest[0] != '/') ==> normal@ == kept
        }),
{
    let whole = path@;
    assert(whole.skip(0) =~= whole);
    let segments = paths::split(rest, Separators::Slash);
    let kept = paths::joined(paths::collapsed(segments, segments.len(), true), false);
    if whole == seq!['/'] + rest {
        assert(whole.skip(1) =~= rest);
        assert(paths::beginning(whole, false) =~= seq!['/']);
    } else if whole == rest && (rest.len() == 0 || rest[0] != '/') {
        assert(paths::beginning(whole, false) =~= Seq::<char>::empty());
        assert(Seq::<char>::empty() + kept =~= kept);
    }
}

/// Segments are joined with one separator between each two: a backslash on Windows, a slash
/// elsewhere.
pub proof fn segments_are_joined(segments: Seq<Seq<char>>, last: Seq<char>, windows: bool)
    ensures
        paths::joined(seq![last], windows) == last,
        segments.len() > 0 && !windows ==> paths::joined(segments.push(last), false)
            == paths::joined(segments, false).push('/') + last,
        segments.len() > 0 && windows ==> paths::joined(segments.push(last), true)
            == paths::joined(segments, true).push('\\') + last,
{
    assert(segments.push(last).drop_last() =~= segments);
    assert(seq![last][0] == last);
}

/// Whether `c` is a slash or a backslash.
pub open spec fn is_either_slash(c: char) -> bool {
    c == '/' || c == '\\'
}

/// Whether `name` is one segment of a Windows path: not empty, without slashes and backslashes, and
/// not `.`.
pub open spec fn is_windows_segment(name: Seq<char>) -> bool {
    &&& name.len() > 0
    &&& forall|i: int| 0 <= i < name.len() ==> !is_either_slash(#[trigger] name[i])
    &&& name != seq!['.']
}

/// Whether `directory` is a Windows path that begins with no slash, is more than a drive, and is
/// written without a slash, or a `.` behind one, at its end.
pub open spec fn is_windows_directory(directory: Seq<char>) -> bool {
    &&& directory.len() > 2
    &&& !is_either_slash(directory[0])
    &&& !is_either_slash(directory.last())
    &&& directory.last() == '.' ==> !is_either_slash(directory[directory.len() - 2])
}

proof fn windows_segment_is_behind(
    directory: Seq<char>,
    separator: char,
    name: Seq<char>,
    end: int,
)
    requires
        is_windows_directory(directory),
        is_either_slash(separator),
        is_windows_segment(name),
        directory.len() < end <= directory.len() + 1 + name.len(),
    ensures
        ({
            let path = directory.push(separator) + name;
            &&& paths::segment_start(path, end, true) == directory.len() + 1
            &&& paths::root_length(path, true) <= directory.len()
            &&& !paths::is_verbatim(path, true)
        }),
    decreases end,
{
    let path = directory.push(separator) + name;
    assert(path[0] == directory[0] && path[1] == directory[1] && path[2] == directory[2]);
    assert(path[directory.len() as int] == separator);
    assert(paths::parts_at(path, directory.len() as int, true));
    if end > directory.len() + 1 {
        let at = end - directory.len() - 2;
        assert(path[end - 1] == name[at]);
        assert(!is_either_slash(name[at]));
        windows_segment_is_behind(directory, separator, name, end - 1);
    }
}

/// On Windows, too, the file `name` in `directory` is called `name` and lies in `directory`,
/// whether a slash or a backslash stands between them.
pub proof fn windows_files_lie_in_their_directories(
    path: &str,
    directory: Seq<char>,
    separator: char,
    name: Seq<char>,
    up: Option<String>,
    last: String,
)
    requires
        call_ensures(paths::parent_path, (path, true), up),
        call_ensures(paths::last_segment, (path, true), last),
        is_windows_directory(directory),
        is_either_slash(separator),
        is_windows_segment(name),
        path@ == directory.push(separator) + name,
    ensures
        text::maybe_string(up) == Some(directory),
        last@ == name,
{
    let whole = path@;
    let cut = directory.len() as int;
    windows_segment_is_behind(directory, separator, name, whole.len() as int);
    let end = name.len() - 1;
    assert(whole.last() == name[end]);
    assert(!is_either_slash(name[end]));
    if name.len() > 1 {
        assert(whole[whole.len() - 2] == name[end - 1]);
        assert(!is_either_slash(name[end - 1]));
    } else if name[0] == '.' {
        assert(name =~= seq!['.']);
    }
    assert(paths::trimmed(whole, whole.len() as int, true) == whole.len());
    assert(whole.subrange(cut + 1, whole.len() as int) =~= name);
    assert(whole[cut] == separator);
    assert(whole[cut - 1] == directory.last() && whole[cut - 2] == directory[cut - 2]);
    assert(paths::trimmed(whole, cut, true) == cut);
    assert(paths::trimmed(whole, cut + 1, true) == cut);
    assert(whole.take(cut) =~= directory);
}

/// The paths of a system are those of Windows where it says that a backslash separates.
pub proof fn systems_say_what_separates(windows: bool)
    requires
        call_ensures(paths::has_windows_paths, (), windows),
    ensures
        call_ensures(std::path::is_separator, ('\\',), windows),
        paths::on_this_system(windows),
{
}

proof fn one_drive_starts_once(path: Seq<char>, at: int)
    requires
        0 <= at <= path.len(),
        forall|i: int| 2 <= i < path.len() ==> #[trigger] path[i] != ':',
    ensures
        paths::fresh_start(path, at, true) == 0,
    decreases at,
{
    if at > 0 {
        one_drive_starts_once(path, at - 1);
    }
}

/// On Windows the collapsed form of a path on a drive is the drive, a backslash, and the collapsed
/// segments, taken apart at slashes and backslashes, with a backslash between each two.
pub proof fn collapsed_windows_paths_keep_their_drive(
    path: &str,
    drive: char,
    separator: char,
    rest: Seq<char>,
    normal: String,
)
    requires
        call_ensures(paths::lexical_normalize, (path, true), normal),
        'A' <= drive <= 'Z' || 'a' <= drive <= 'z',
        is_either_slash(separator),
        !rest.contains(':'),
        path@ == seq![drive, ':', separator] + rest,
    ensures
        ({
            let segments = paths::split(rest, Separators::Both);
            normal@ == seq![drive, ':', '\\'] + paths::joined(
                paths::collapsed(segments, segments.len(), true),
                true,
            )
        }),
{
    let whole = path@;
    assert(whole[0] == drive && whole[1] == ':' && whole[2] == separator);
    assert forall|i: int| 2 <= i < whole.len() implies #[trigger] whole[i] != ':' by {
        if i > 2 {
            assert(whole[i] == rest[i - 3]);
            assert(rest.contains(rest[i - 3]));
        }
    }
    one_drive_starts_once(whole, whole.len() as int);
    assert(whole.skip(0) =~= whole);
    assert(whole.skip(3) =~= rest);
    assert(paths::beginning(whole, true) =~= seq![drive, ':', '\\']);
}

/// On Windows a drive is two characters long, a share reaches to the end of its name, and a
/// relative path lies on nothing.
pub proof fn windows_paths_lie_on_drives_and_shares(
    drive: char,
    server: Seq<char>,
    share: Seq<char>,
    rest: Seq<char>,
)
    requires
        is_windows_segment(server),
        is_windows_segment(share),
        server != seq!['?'],
    ensures
        'A' <= drive <= 'Z' || 'a' <= drive <= 'z' ==> paths::prefix_length(
            seq![drive, ':'] + rest,
            true,
        ) == 2,
        ({
            let name = seq!['\\', '\\'] + server + seq!['\\'] + share;
            &&& paths::prefix_length(name, true) == name.len()
            &&& paths::prefix_length(name + seq!['\\'] + rest, true) == name.len()
        }),
        paths::prefix_length(rest, false) == 0,
{
    let on_drive = seq![drive, ':'] + rest;
    assert(on_drive[0] == drive && on_drive[1] == ':');
    let name = seq!['\\', '\\'] + server + seq!['\\'] + share;
    share_is_found(server, share, Seq::empty());
    assert(name + Seq::<char>::empty() =~= name);
    share_is_found(server, share, seq!['\\'] + rest);
    assert(name + seq!['\\'] + rest =~= name + (seq!['\\'] + rest));
}

proof fn share_is_found(server: Seq<char>, share: Seq<char>, rest: Seq<char>)
    requires
        is_windows_segment(server),
        is_windows_segment(share),
        server != seq!['?'],
        rest.len() > 0 ==> rest[0] == '\\',
    ensures
        ({
            let name = seq!['\\', '\\'] + server + seq!['\\'] + share;
            paths::prefix_length(name + rest, true) == name.len()
        }),
{
    let name = seq!['\\', '\\'] + server + seq!['\\'] + share;
    let path = name + rest;
    let by = Separators::Both;
    let behind = 2 + server.len() as int;
    assert forall|i: int| 0 <= i < server.len() implies #[trigger] path[2 + i] == server[i] by {}
    assert forall|i: int| 0 <= i < share.len() implies #[trigger] path[behind + 1 + i]
        == share[i] by {}
    assert(path[0] == '\\' && path[1] == '\\' && path[behind] == '\\');
    segment_ends(path, 2, behind);
    segment_ends(path, behind + 1, name.len() as int);
    assert(path[2] == server[0]);
    if server.len() == 1 {
        assert(server =~= seq![server[0]]);
    } else {
        assert(path[3] == server[1]);
        assert(!is_either_slash(server[1]));
    }
}

proof fn segment_ends(path: Seq<char>, at: int, end: int)
    requires
        0 <= at <= end <= path.len(),
        forall|i: int| at <= i < end ==> !is_either_slash(#[trigger] path[i]),
        end < path.len() ==> is_either_slash(path[end]),
    ensures
        paths::segment_end(path, at, Separators::Both) == end,
    decreases end - at,
{
    if at < end {
        assert(!is_either_slash(path[at]));
        segment_ends(path, at + 1, end);
    }
}

} // verus!
