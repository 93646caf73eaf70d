//! File paths as text.
//!
//! How a path is taken apart depends on the system. On Windows a backslash separates segments as
//! a slash does, and a path may begin with a drive, a network share or a device; elsewhere a
//! backslash is a character like any other. Functions that take a path apart are told which of the two
//! holds.
use vstd::prelude::*;

use crate::names;
use crate::text;

verus! {

/// `std::path::is_separator`: whether `c` separates the segments of paths on this system. Nothing
/// is claimed of the answer: it is up to the system.
pub assume_specification[ std::path::is_separator ](c: char) -> bool
;

/// Whether the system says that its paths are those of Windows, where a backslash separates
/// segments.
pub open spec fn on_this_system(windows: bool) -> bool {
    call_ensures(std::path::is_separator, ('\\',), windows)
}

/// Whether the paths of this system are those of Windows.
pub fn has_windows_paths() -> (windows: bool)
    ensures
        on_this_system(windows),
{
    std::path::is_separator('\\')
}

/// `path` with a forward slash for each backslash.
pub open spec fn with_slashes(path: Seq<char>) -> Seq<char> {
    path.map_values(
        |c: char|
            if c == '\\' {
                '/'
            } else {
                c
            },
    )
}

/// Whether `path` starts with a drive letter in upper case.
pub open spec fn has_upper_drive(path: Seq<char>) -> bool {
    path.len() >= 2 && 'A' <= path[0] <= 'Z' && path[1] == ':'
}

/// The lower-case form of an upper-case ASCII letter.
pub open spec fn lower(c: char) -> char {
    (c as u32 + 32) as char
}

/// `path` with the drive letter that it may start with in lower case.
pub open spec fn with_lower_drive(path: Seq<char>) -> Seq<char> {
    if has_upper_drive(path) {
        path.update(0, lower(path[0]))
    } else {
        path
    }
}

/// The canonical form of a path: forward slashes, and the drive letter in lower case.
pub open spec fn normal_path(path: Seq<char>) -> Seq<char> {
    with_lower_drive(with_slashes(path))
}

/// The lower-case form of an upper-case ASCII letter.
pub fn to_lower(c: char) -> (result: char)
    requires
        'A' <= c <= 'Z',
    ensures
        result == lower(c),
{
    let code: u8 = c as u8;
    (code + 32) as char
}

/// The canonical form of a path: forward slashes, and the drive letter in lower case.
pub fn normalize_path(path: &str) -> (normalized: String)
    ensures
        normalized@ == normal_path(path@),
{
    let chars = text::chars_of(path);
    let ghost slashed = with_slashes(path@);
    let mut out = String::new();
    let mut i: usize = 0;
    let upper_drive = chars.len() >= 2 && 'A' <= chars[0] && chars[0] <= 'Z' && chars[1] == ':';
    assert(upper_drive == has_upper_drive(slashed));
    while i < chars.len()
        invariant
            i <= chars.len(),
            chars@ == path@,
            slashed == with_slashes(path@),
            upper_drive == has_upper_drive(slashed),
            out@ == with_lower_drive(slashed).take(i as int),
        decreases chars.len() - i,
    {
        let c = chars[i];
        if i == 0 && upper_drive {
            out.push(to_lower(c));
        } else if c == '\\' {
            out.push('/');
        } else {
            out.push(c);
        }
        i = i + 1;
        assert(out@ =~= with_lower_drive(slashed).take(i as int));
    }
    proof {
        assert(with_lower_drive(slashed).take(i as int) =~= with_lower_drive(slashed));
    }
    out
}

/// The canonical form of a canonical form is itself.
pub proof fn normalizing_twice_changes_nothing(path: Seq<char>)
    ensures
        normal_path(normal_path(path)) == normal_path(path),
{
    let once = normal_path(path);
    assert(with_slashes(once) =~= once) by {
        assert forall|i: int| 0 <= i < once.len() implies once[i] != '\\' by {
            if i == 0 && has_upper_drive(with_slashes(path)) {
                assert(once[0] == lower(with_slashes(path)[0]));
            }
        }
    }
}

/// The characters that separate the segments of a path.
#[derive(Debug, Clone, Copy, PartialEq, Eq, Structural)]
pub enum Separators {
    Slash,
    Backslash,
    Both,
}

/// Whether `c` separates segments.
pub open spec fn separates(c: char, by: Separators) -> bool {
    c == '/' && by != Separators::Backslash || c == '\\' && by != Separators::Slash
}

/// Whether `c` separates segments.
fn is_separator(c: char, by: Separators) -> (result: bool)
    ensures
        result == separates(c, by),
{
    (c == '/' && by != Separators::Backslash) || (c == '\\' && by != Separators::Slash)
}

/// Whether `path` is verbatim: it begins with two backslashes, a question mark and a backslash.
/// What follows is taken as it is written: only a backslash separates, and `.` is a segment.
pub open spec fn is_verbatim(path: Seq<char>, windows: bool) -> bool {
    &&& windows
    &&& path.len() >= 4
    &&& path[0] == '\\'
    &&& path[1] == '\\'
    &&& path[2] == '?'
    &&& path[3] == '\\'
}

/// What separates the segments of `path`.
pub open spec fn separators_of(path: Seq<char>, windows: bool) -> Separators {
    if is_verbatim(path, windows) {
        Separators::Backslash
    } else if windows {
        Separators::Both
    } else {
        Separators::Slash
    }
}

/// Whether a separator of `path` stands at `at`.
pub open spec fn parts_at(path: Seq<char>, at: int, windows: bool) -> bool {
    separates(path[at], separators_of(path, windows))
}

/// The character that is put between segments.
pub open spec fn separator(windows: bool) -> char {
    if windows {
        '\\'
    } else {
        '/'
    }
}

/// The character that is put between segments.
fn main_separator(windows: bool) -> (c: char)
    ensures
        c == separator(windows),
{
    if windows {
        '\\'
    } else {
        '/'
    }
}

/// Where the segment that starts at `at` ends.
pub open spec fn segment_end(path: Seq<char>, at: int, by: Separators) -> int
    decreases path.len() - at,
{
    if at < 0 || at >= path.len() || separates(path[at], by) {
        at
    } else {
        segment_end(path, at + 1, by)
    }
}

/// Whether a drive stands at `at`: a letter and a colon.
pub open spec fn drive_at(path: Seq<char>, at: int) -> bool {
    at + 2 <= path.len() && ('A' <= path[at] <= 'Z' || 'a' <= path[at] <= 'z') && path[at + 1]
        == ':'
}

/// Whether `path` begins with a drive.
pub open spec fn has_drive(path: Seq<char>, windows: bool) -> bool {
    windows && drive_at(path, 0)
}

/// Whether a slash or a backslash stands at `at`.
pub open spec fn slash_at(path: Seq<char>, at: int) -> bool {
    0 <= at < path.len() && separates(path[at], Separators::Both)
}

/// Where the share ends whose server starts at `at`; the end of the server where it has none.
pub open spec fn share_end(path: Seq<char>, at: int, by: Separators) -> int {
    let server = segment_end(path, at, by);
    let share = segment_end(path, server + 1, by);
    if server + 1 < share {
        share
    } else {
        server
    }
}

/// How far a verbatim `path` names what its segments lie on: a share behind `UNC`, a drive, or
/// anything else up to a backslash.
pub open spec fn verbatim_length(path: Seq<char>) -> int {
    if path.len() >= 8 && path[4] == 'U' && path[5] == 'N' && path[6] == 'C' && slash_at(path, 7) {
        share_end(path, 8, Separators::Backslash)
    } else if drive_at(path, 4) && (path.len() == 6 || slash_at(path, 6)) {
        6
    } else {
        segment_end(path, 4, Separators::Backslash)
    }
}

/// Whether `path` begins with a device: two separators, a dot, and a separator.
pub open spec fn has_device(path: Seq<char>, windows: bool) -> bool {
    windows && path.len() >= 4 && slash_at(path, 0) && slash_at(path, 1) && path[2] == '.'
        && slash_at(path, 3)
}

/// Whether `path` begins with a network share: two separators, a server, and a share.
pub open spec fn has_share(path: Seq<char>, windows: bool) -> bool {
    &&& windows
    &&& slash_at(path, 0)
    &&& slash_at(path, 1)
    &&& 2 < segment_end(path, 2, Separators::Both)
    &&& segment_end(path, 2, Separators::Both) < share_end(path, 2, Separators::Both)
}

/// How far `path` names what its segments lie on: a drive, a share, or a device.
pub open spec fn prefix_length(path: Seq<char>, windows: bool) -> int {
    if is_verbatim(path, windows) {
        verbatim_length(path)
    } else if has_device(path, windows) {
        segment_end(path, 4, Separators::Both)
    } else if has_share(path, windows) {
        share_end(path, 2, Separators::Both)
    } else if has_drive(path, windows) {
        2
    } else {
        0
    }
}

/// Whether the root separator of `path` stands at `at`.
pub open spec fn root_at(path: Seq<char>, at: int, windows: bool) -> bool {
    if windows {
        slash_at(path, at)
    } else {
        0 <= at < path.len() && path[at] == '/'
    }
}

/// Whether `path` starts at a root. A share or a device is one by itself, unless it is verbatim.
pub open spec fn has_root(path: Seq<char>, windows: bool) -> bool {
    ||| prefix_length(path, windows) > 0 && !is_verbatim(path, windows) && !has_drive(path, windows)
    ||| root_at(path, prefix_length(path, windows), windows)
}

/// How far the root of `path` reaches, with what it lies on.
pub open spec fn root_length(path: Seq<char>, windows: bool) -> int {
    if root_at(path, prefix_length(path, windows), windows) {
        prefix_length(path, windows) + 1
    } else {
        prefix_length(path, windows)
    }
}

proof fn segment_end_is_ahead(path: Seq<char>, at: int, by: Separators)
    requires
        0 <= at <= path.len(),
    ensures
        at <= segment_end(path, at, by) <= path.len(),
    decreases path.len() - at,
{
    if at < path.len() && !separates(path[at], by) {
        segment_end_is_ahead(path, at + 1, by);
    }
}

proof fn share_end_is_ahead(path: Seq<char>, at: int, by: Separators)
    requires
        0 <= at <= path.len(),
    ensures
        segment_end(path, at, by) <= share_end(path, at, by) <= path.len(),
{
    segment_end_is_ahead(path, at, by);
    if segment_end(path, at, by) < path.len() {
        segment_end_is_ahead(path, segment_end(path, at, by) + 1, by);
    }
}

proof fn prefix_is_inside(path: Seq<char>, windows: bool)
    ensures
        0 <= prefix_length(path, windows) <= path.len(),
        0 <= root_length(path, windows) <= path.len(),
{
    if windows && path.len() >= 2 {
        share_end_is_ahead(path, 2, Separators::Both);
    }
    if windows && path.len() >= 4 {
        segment_end_is_ahead(path, 4, Separators::Both);
        segment_end_is_ahead(path, 4, Separators::Backslash);
    }
    if windows && path.len() >= 8 {
        share_end_is_ahead(path, 8, Separators::Backslash);
        segment_end_is_ahead(path, 8, Separators::Backslash);
    }
}

/// Where the segment that starts at `at` ends.
fn find_segment_end(chars: &Vec<char>, at: usize, by: Separators) -> (end: usize)
    requires
        at <= chars@.len(),
    ensures
        end == segment_end(chars@, at as int, by),
        at <= end <= chars@.len(),
{
    let mut end: usize = at;
    while end < chars.len() && !is_separator(chars[end], by)
        invariant
            at <= end <= chars@.len(),
            segment_end(chars@, at as int, by) == segment_end(chars@, end as int, by),
        decreases chars@.len() - end,
    {
        end = end + 1;
    }
    end
}

/// Where the share ends whose server starts at `at`; the end of the server where it has none.
fn find_share_end(chars: &Vec<char>, at: usize, by: Separators) -> (end: usize)
    requires
        at <= chars@.len(),
    ensures
        end == share_end(chars@, at as int, by),
        at <= end <= chars@.len(),
{
    let server = find_segment_end(chars, at, by);
    if server >= chars.len() {
        return server;
    }
    let share = find_segment_end(chars, server + 1, by);
    if server + 1 < share {
        share
    } else {
        server
    }
}

/// Whether a slash or a backslash stands at `at`.
fn has_slash(chars: &Vec<char>, at: usize) -> (result: bool)
    ensures
        result == slash_at(chars@, at as int),
{
    at < chars.len() && is_separator(chars[at], Separators::Both)
}

/// Whether a drive stands at `at`.
fn has_drive_at(chars: &Vec<char>, at: usize) -> (result: bool)
    requires
        at <= chars@.len(),
    ensures
        result == drive_at(chars@, at as int),
{
    chars.len() - at >= 2 && (('A' <= chars[at] && chars[at] <= 'Z') || ('a' <= chars[at]
        && chars[at] <= 'z')) && chars[at + 1] == ':'
}

/// Whether `chars` are those of a verbatim path.
fn has_verbatim_mark(chars: &Vec<char>, windows: bool) -> (result: bool)
    ensures
        result == is_verbatim(chars@, windows),
{
    windows && chars.len() >= 4 && chars[0] == '\\' && chars[1] == '\\' && chars[2] == '?' && chars[3]
        == '\\'
}

/// What separates the segments of `chars`.
fn get_separators(chars: &Vec<char>, windows: bool) -> (by: Separators)
    ensures
        by == separators_of(chars@, windows),
{
    if has_verbatim_mark(chars, windows) {
        Separators::Backslash
    } else if windows {
        Separators::Both
    } else {
        Separators::Slash
    }
}

/// How far `chars` name what their segments lie on: a drive, a share, or a device.
fn find_prefix_end(chars: &Vec<char>, windows: bool) -> (end: usize)
    ensures
        end == prefix_length(chars@, windows),
        end <= chars@.len(),
{
    proof {
        prefix_is_inside(chars@, windows);
    }
    if !windows {
        return 0;
    }
    if has_verbatim_mark(chars, windows) {
        return if chars.len() >= 8 && chars[4] == 'U' && chars[5] == 'N' && chars[6] == 'C'
            && has_slash(chars, 7) {
            find_share_end(chars, 8, Separators::Backslash)
        } else if has_drive_at(chars, 4) && (chars.len() == 6 || has_slash(chars, 6)) {
            6
        } else {
            find_segment_end(chars, 4, Separators::Backslash)
        };
    }
    if has_slash(chars, 0) && has_slash(chars, 1) {
        if chars.len() >= 4 && chars[2] == '.' && has_slash(chars, 3) {
            return find_segment_end(chars, 4, Separators::Both);
        }
        let server = find_segment_end(chars, 2, Separators::Both);
        let share = find_share_end(chars, 2, Separators::Both);
        if 2 < server && server < share {
            return share;
        }
    }
    if has_drive_at(chars, 0) {
        2
    } else {
        0
    }
}

/// Whether the root separator of `chars` stands at `at`.
fn has_root_at(chars: &Vec<char>, at: usize, windows: bool) -> (result: bool)
    ensures
        result == root_at(chars@, at as int, windows),
{
    if windows {
        has_slash(chars, at)
    } else {
        at < chars.len() && chars[at] == '/'
    }
}

/// How far the root of `chars` reaches, with what it lies on.
fn find_root_end(chars: &Vec<char>, windows: bool) -> (end: usize)
    ensures
        end == root_length(chars@, windows),
        end <= chars@.len(),
{
    let prefix = find_prefix_end(chars, windows);
    if prefix < chars.len() && has_root_at(chars, prefix, windows) {
        prefix + 1
    } else {
        prefix
    }
}

/// The text of `chars` from `start` to `end`.
fn text_between(chars: &Vec<char>, start: usize, end: usize) -> (text: String)
    requires
        start <= end <= chars@.len(),
    ensures
        text@ == chars@.subrange(start as int, end as int),
{
    let mut out = String::new();
    let mut i: usize = start;
    while i < end
        invariant
            start <= i <= end <= chars@.len(),
            out@ == chars@.subrange(start as int, i as int),
        decreases end - i,
    {
        out.push(chars[i]);
        i = i + 1;
        assert(out@ =~= chars@.subrange(start as int, i as int));
    }
    out
}

/// The pieces of `path` between its separators.
pub open spec fn split(path: Seq<char>, by: Separators) -> Seq<Seq<char>>
    decreases path.len(),
{
    if path.len() == 0 {
        seq![Seq::empty()]
    } else {
        let shorter = split(path.drop_last(), by);
        if separates(path.last(), by) {
            shorter.push(Seq::empty())
        } else {
            shorter.drop_last().push(shorter.last().push(path.last()))
        }
    }
}

/// The pieces of `chars` from `start` on between their separators.
fn split_segments(chars: &Vec<char>, start: usize, by: Separators) -> (segments: Vec<String>)
    requires
        start <= chars@.len(),
    ensures
        names::views(segments@) == split(chars@.skip(start as int), by),
{
    broadcast use {names::views_of_push, names::views_of_none};

    let ghost rest = chars@.skip(start as int);
    let mut segments: Vec<String> = Vec::new();
    let mut current = String::new();
    let mut i: usize = start;
    proof {
        assert(rest.take(0) =~= Seq::<char>::empty());
        assert(names::views(segments@).push(current@) =~= split(rest.take(0), by));
    }
    while i < chars.len()
        invariant
            start <= i <= chars.len(),
            rest == chars@.skip(start as int),
            names::views(segments@).push(current@) == split(rest.take(i - start), by),
        decreases chars.len() - i,
    {
        let c = chars[i];
        let ghost earlier = names::views(segments@);
        let ghost part = current@;
        proof {
            assert(rest.take(i + 1 - start).drop_last() =~= rest.take(i - start));
            assert(rest.take(i + 1 - start).last() == c);
            assert(earlier.push(part).drop_last() =~= earlier);
        }
        if is_separator(c, by) {
            segments.push(current);
            current = String::new();
        } else {
            current.push(c);
        }
        i = i + 1;
        proof {
            assert(names::views(segments@).push(current@) =~= split(
                rest.take(i - start),
                by,
            ));
        }
    }
    segments.push(current);
    proof {
        assert(rest.take(i - start) =~= rest);
    }
    segments
}

/// What is left of the first `count` of `segments` without empty ones, without `.`, and with
/// each `..` taken together with the segment before it where there is one to go up from. Where
/// there is none, `..` stays if `orphans` do.
pub open spec fn collapsed(segments: Seq<Seq<char>>, count: nat, orphans: bool) -> Seq<Seq<char>>
    decreases count,
{
    if count == 0 || count > segments.len() {
        Seq::empty()
    } else {
        let kept = collapsed(segments, (count - 1) as nat, orphans);
        let segment = segments[count - 1];
        if segment.len() == 0 || segment == "."@ {
            kept
        } else if segment != ".."@ {
            kept.push(segment)
        } else if kept.len() > 0 && kept.last() != ".."@ {
            kept.drop_last()
        } else if orphans {
            kept.push(segment)
        } else {
            kept
        }
    }
}

/// `segments` with a separator between each two of them.
pub open spec fn joined(segments: Seq<Seq<char>>, windows: bool) -> Seq<char>
    decreases segments.len(),
{
    if segments.len() == 0 {
        Seq::empty()
    } else if segments.len() == 1 {
        segments[0]
    } else {
        joined(segments.drop_last(), windows).push(separator(windows)) + segments.last()
    }
}

/// The beginning of `path` as it stands before its segments: what they lie on, and a separator
/// where it starts at a root.
pub open spec fn beginning(path: Seq<char>, windows: bool) -> Seq<char> {
    let prefix = path.take(prefix_length(path, windows));
    if has_root(path, windows) {
        prefix.push(separator(windows))
    } else {
        prefix
    }
}

/// The pieces of `path` behind its root.
pub open spec fn pieces(path: Seq<char>, windows: bool) -> Seq<Seq<char>> {
    split(path.skip(root_length(path, windows)), separators_of(path, windows))
}

/// Whether a segment of `path` starts at `at`.
pub open spec fn starts_segment(path: Seq<char>, at: int, windows: bool) -> bool {
    at == root_length(path, windows) || at > root_length(path, windows) && parts_at(
        path,
        at - 1,
        windows,
    )
}

/// Where `path[..at]` starts anew: at its last segment that begins with a drive, at its beginning
/// where none does.
pub open spec fn fresh_start(path: Seq<char>, at: int, windows: bool) -> int
    decreases at,
{
    if !windows || at <= 0 || at > path.len() {
        0
    } else if starts_segment(path, at, windows) && drive_at(path, at) {
        at
    } else {
        fresh_start(path, at - 1, windows)
    }
}

/// Where the segments of `path[..at]` start that lead on from its root: behind the root or, in a
/// verbatim path, at its last segment that begins with a slash.
pub open spec fn root_start(path: Seq<char>, at: int, windows: bool) -> int
    decreases at,
{
    if at <= root_length(path, windows) || at <= 0 || at >= path.len() || !is_verbatim(
        path,
        windows,
    ) {
        root_length(path, windows)
    } else if starts_segment(path, at, windows) && path[at] == '/' {
        at
    } else {
        root_start(path, at - 1, windows)
    }
}

/// The separators at which paths are put together.
pub open spec fn all_separators(windows: bool) -> Separators {
    if windows {
        Separators::Both
    } else {
        Separators::Slash
    }
}

/// `path`, which does not start anew, with its `.` and `..` segments collapsed. In a verbatim path
/// a slash separates here too, and nothing is left of a `..` that there is no segment to go up
/// from.
pub open spec fn collapsed_path(path: Seq<char>, windows: bool) -> Seq<char> {
    let segments = split(
        path.skip(root_start(path, path.len() - 1, windows)),
        all_separators(windows),
    );
    beginning(path, windows) + joined(
        collapsed(segments, segments.len(), !is_verbatim(path, windows)),
        windows,
    )
}

/// `path` with its `.` and `..` segments collapsed. What stands before a segment that begins with
/// a drive does not count.
pub open spec fn lexically_normal(path: Seq<char>, windows: bool) -> Seq<char> {
    collapsed_path(path.skip(fresh_start(path, path.len() as int, windows)), windows)
}

/// The beginning of `chars` as it stands before their segments.
fn get_beginning(chars: &Vec<char>, windows: bool) -> (out: String)
    ensures
        out@ == beginning(chars@, windows),
{
    let prefix = find_prefix_end(chars, windows);
    let mut out = text_between(chars, 0, prefix);
    assert(chars@.subrange(0, prefix as int) =~= chars@.take(prefix as int));
    let implied = prefix > 0 && !has_verbatim_mark(chars, windows) && !has_drive_at(chars, 0);
    if implied || has_root_at(chars, prefix, windows) {
        out.push(main_separator(windows));
    }
    out
}

/// Appends `segments` with a separator between each two of them.
fn append_joined(segments: &Vec<String>, windows: bool, out: &mut String)
    ensures
        final(out)@ == old(out)@ + joined(names::views(segments@), windows),
{
    let ghost start = out@;
    let ghost wanted = names::views(segments@);
    let mut i: usize = 0;
    proof {
        assert(wanted.take(0) =~= Seq::<Seq<char>>::empty());
        assert(start + Seq::<char>::empty() =~= start);
    }
    while i < segments.len()
        invariant
            i <= segments.len(),
            wanted == names::views(segments@),
            out@ == start + joined(wanted.take(i as int), windows),
        decreases segments.len() - i,
    {
        if i > 0 {
            out.push(main_separator(windows));
        }
        out.append(segments[i].as_str());
        proof {
            assert(wanted.take(i + 1).drop_last() =~= wanted.take(i as int));
            assert(wanted.take(i + 1).last() == segments@[i as int]@);
            if i > 0 {
                assert(out@ =~= start + (joined(wanted.take(i as int), windows).push(
                    separator(windows),
                ) + segments@[i as int]@));
            } else {
                assert(joined(wanted.take(0), windows) =~= Seq::<char>::empty());
                assert(wanted.take(1)[0] == segments@[0]@);
                assert(out@ =~= start + segments@[0]@);
            }
        }
        i = i + 1;
    }
    proof {
        assert(wanted.take(i as int) =~= wanted);
    }
}

/// The pieces of `chars` behind their root.
fn get_pieces(chars: &Vec<char>, windows: bool) -> (segments: Vec<String>)
    ensures
        names::views(segments@) == pieces(chars@, windows),
{
    split_segments(chars, find_root_end(chars, windows), get_separators(chars, windows))
}

/// Where the segments of `chars` start that lead on from their root.
fn find_root_start(chars: &Vec<char>, windows: bool) -> (start: usize)
    ensures
        start == root_start(chars@, chars@.len() - 1, windows),
        start <= chars@.len(),
{
    let root = find_root_end(chars, windows);
    let by = get_separators(chars, windows);
    if !has_verbatim_mark(chars, windows) {
        return root;
    }
    let mut at: usize = chars.len() - 1;
    while at > root
        invariant
            at < chars.len(),
            is_verbatim(chars@, windows),
            root == root_length(chars@, windows),
            by == separators_of(chars@, windows),
            root_start(chars@, chars@.len() - 1, windows) == root_start(
                chars@,
                at as int,
                windows,
            ),
        decreases at,
    {
        if is_separator(chars[at - 1], by) && chars[at] == '/' {
            return at;
        }
        at = at - 1;
    }
    root
}

/// Where `chars` start anew: at their last segment that begins with a drive, at their beginning
/// where none does.
fn find_fresh_start(chars: &Vec<char>, windows: bool) -> (start: usize)
    ensures
        start == fresh_start(chars@, chars@.len() as int, windows),
        start <= chars@.len(),
{
    if !windows {
        return 0;
    }
    let root = find_root_end(chars, windows);
    let by = get_separators(chars, windows);
    let mut at: usize = chars.len();
    while at > 0
        invariant
            at <= chars.len(),
            windows,
            root == root_length(chars@, windows),
            by == separators_of(chars@, windows),
            fresh_start(chars@, chars@.len() as int, windows) == fresh_start(
                chars@,
                at as int,
                windows,
            ),
        decreases at,
    {
        if (at == root || (at > root && is_separator(chars[at - 1], by))) && has_drive_at(
            chars,
            at,
        ) {
            return at;
        }
        at = at - 1;
    }
    0
}

/// Collapses `.` and `..` segments of a path that does not start anew.
fn collapse_path(path: &str, windows: bool) -> (normalized: String)
    ensures
        normalized@ == collapsed_path(path@, windows),
{
    broadcast use {names::views_of_push, names::views_of_none};

    let chars = text::chars_of(path);
    let orphans = !has_verbatim_mark(&chars, windows);
    let start = find_root_start(&chars, windows);
    let by = if windows {
        Separators::Both
    } else {
        Separators::Slash
    };
    let segments = split_segments(&chars, start, by);
    let ghost all = split(path@.skip(start as int), by);
    let mut kept: Vec<String> = Vec::new();
    let mut i: usize = 0;
    while i < segments.len()
        invariant
            i <= segments.len(),
            all == names::views(segments@),
            names::views(kept@) == collapsed(all, i as nat, orphans),
        decreases segments.len() - i,
    {
        let segment = segments[i].as_str();
        let ghost earlier = names::views(kept@);
        assert(all[i as int] == segment@);
        let skipped = segment.is_empty() || text::same_text(segment, ".");
        if !skipped {
            assert(kept@.len() > 0 ==> earlier.last() == kept@.last()@);
            if !text::same_text(segment, "..") {
                kept.push(segment.to_owned());
            } else if kept.len() > 0 && !text::same_text(kept[kept.len() - 1].as_str(), "..") {
                let _ = kept.pop();
                assert(names::views(kept@) =~= earlier.drop_last());
            } else if orphans {
                kept.push(segment.to_owned());
            }
        }
        i = i + 1;
    }
    let mut out = get_beginning(&chars, windows);
    append_joined(&kept, windows, &mut out);
    out
}

/// Collapses `.` and `..` segments without looking at the disk.
pub fn lexical_normalize(path: &str, windows: bool) -> (normalized: String)
    ensures
        normalized@ == lexically_normal(path@, windows),
{
    let chars = text::chars_of(path);
    let start = find_fresh_start(&chars, windows);
    let fresh = text_between(&chars, start, chars.len());
    assert(fresh@ =~= path@.skip(start as int));
    collapse_path(fresh.as_str(), windows)
}

/// The form of a path in which paths are compared: segments collapsed, forward slashes, and the
/// drive letter in lower case.
pub open spec fn comparable(path: Seq<char>, windows: bool) -> Seq<char> {
    normal_path(lexically_normal(path, windows))
}

/// The form of a path in which paths are compared.
pub fn normalize_for_compare(path: &str, windows: bool) -> (normalized: String)
    ensures
        normalized@ == comparable(path@, windows),
{
    normalize_path(lexical_normalize(path, windows).as_str())
}

/// `directory` as the beginning of the paths inside it: it ends in a slash.
pub open spec fn as_prefix(directory: Seq<char>) -> Seq<char> {
    if directory.len() > 0 && directory.last() == '/' {
        directory
    } else {
        directory.push('/')
    }
}

/// The path of `file` from `directory`; the whole comparable path where it lies elsewhere.
pub open spec fn relative(directory: Seq<char>, file: Seq<char>, windows: bool) -> Seq<char> {
    let prefix = as_prefix(comparable(directory, windows));
    let whole = comparable(file, windows);
    if prefix.is_prefix_of(whole) {
        whole.skip(prefix.len() as int)
    } else {
        whole
    }
}

/// The path of `file` from `directory`; the whole comparable path where it lies elsewhere.
pub fn to_posix_relative(directory: &str, file: &str, windows: bool) -> (path: String)
    ensures
        path@ == relative(directory@, file@, windows),
{
    let mut prefix = text::chars_of(normalize_for_compare(directory, windows).as_str());
    if prefix.len() == 0 || prefix[prefix.len() - 1] != '/' {
        prefix.push('/');
    }
    let whole_text = normalize_for_compare(file, windows);
    let whole = text::chars_of(whole_text.as_str());
    if prefix.len() > whole.len() {
        return whole_text;
    }
    let mut i: usize = 0;
    while i < prefix.len()
        invariant
            i <= prefix.len() <= whole.len(),
            prefix@ == as_prefix(comparable(directory@, windows)),
            whole@ == comparable(file@, windows),
            whole_text@ == comparable(file@, windows),
            forall|j: int| 0 <= j < i ==> prefix@[j] == whole@[j],
        decreases prefix.len() - i,
    {
        if prefix[i] != whole[i] {
            assert(!prefix@.is_prefix_of(whole@));
            return whole_text;
        }
        i = i + 1;
    }
    assert(prefix@.is_prefix_of(whole@));
    let path = text_between(&whole, i, whole.len());
    assert(path@ =~= whole@.skip(prefix.len() as int));
    path
}

/// A file inside a directory is found again by its relative path.
pub proof fn relative_paths_lead_back(directory: Seq<char>, file: Seq<char>, windows: bool)
    requires
        as_prefix(comparable(directory, windows)).is_prefix_of(comparable(file, windows)),
    ensures
        as_prefix(comparable(directory, windows)) + relative(directory, file, windows)
            == comparable(file, windows),
{
    let prefix = as_prefix(comparable(directory, windows));
    let whole = comparable(file, windows);
    assert(prefix + whole.skip(prefix.len() as int) =~= whole);
}

/// Whether what ends at `end` in `path` can be left out: a separator, or a `.` segment where that
/// is none of its own.
pub open spec fn can_be_left_out(path: Seq<char>, end: int, windows: bool) -> bool {
    ||| parts_at(path, end - 1, windows)
    ||| !is_verbatim(path, windows) && path[end - 1] == '.' && end >= 2 && parts_at(
        path,
        end - 2,
        windows,
    )
}

/// The end of `path[..end]` without the separators and `.` segments that it ends in. The root,
/// and a `.` at the beginning of a path without one, stay.
pub open spec fn trimmed(path: Seq<char>, end: int, windows: bool) -> int
    decreases end,
{
    if end <= root_length(path, windows) || end > path.len() || end <= 0 {
        end
    } else if can_be_left_out(path, end, windows) {
        trimmed(path, end - 1, windows)
    } else {
        end
    }
}

/// Where the last segment of `path[..end]` starts.
pub open spec fn segment_start(path: Seq<char>, end: int, windows: bool) -> int
    decreases end,
{
    if end <= root_length(path, windows) || end > path.len() || end <= 0 || parts_at(
        path,
        end - 1,
        windows,
    ) {
        end
    } else {
        segment_start(path, end - 1, windows)
    }
}

/// `path` without its last segment; none where it has no segment.
pub open spec fn parent(path: Seq<char>, windows: bool) -> Option<Seq<char>> {
    let end = trimmed(path, path.len() as int, windows);
    if end <= root_length(path, windows) {
        None
    } else {
        Some(path.take(trimmed(path, segment_start(path, end, windows), windows)))
    }
}

/// Going up leads to a shorter path.
pub proof fn parent_is_shorter(path: Seq<char>, windows: bool)
    ensures
        parent(path, windows) matches Some(up) ==> up.len() < path.len(),
{
    let end = trimmed(path, path.len() as int, windows);
    prefix_is_inside(path, windows);
    trimmed_is_before(path, path.len() as int, windows);
    if end > root_length(path, windows) {
        start_is_before(path, end, windows);
        trimmed_is_before(path, segment_start(path, end, windows), windows);
    }
}

proof fn trimmed_is_before(path: Seq<char>, end: int, windows: bool)
    requires
        0 <= end <= path.len(),
    ensures
        0 <= trimmed(path, end, windows) <= end,
        trimmed(path, end, windows) > root_length(path, windows) && trimmed(path, end, windows) > 0
            ==> !parts_at(path, trimmed(path, end, windows) - 1, windows),
    decreases end,
{
    if end > 0 && end > root_length(path, windows) && can_be_left_out(path, end, windows) {
        trimmed_is_before(path, end - 1, windows);
    }
}

proof fn start_is_before(path: Seq<char>, end: int, windows: bool)
    requires
        0 <= root_length(path, windows) < end <= path.len(),
        !parts_at(path, end - 1, windows),
    ensures
        root_length(path, windows) <= segment_start(path, end, windows) < end,
    decreases end,
{
    reveal_with_fuel(segment_start, 2);
    if end - 1 > root_length(path, windows) && !parts_at(path, end - 2, windows) {
        start_is_before(path, end - 1, windows);
    }
}

/// `path` without its last segment; none where it has no segment.
pub fn parent_path(path: &str, windows: bool) -> (up: Option<String>)
    ensures
        text::maybe_string(up) == parent(path@, windows),
{
    let chars = text::chars_of(path);
    let root = find_root_end(&chars, windows);
    let end = trim_end(&chars, root, chars.len(), windows);
    if end <= root {
        return None;
    }
    let start = find_segment_start(&chars, root, end, windows);
    let cut = trim_end(&chars, root, start, windows);
    assert(chars@.subrange(0, cut as int) =~= chars@.take(cut as int));
    Some(text_between(&chars, 0, cut))
}

fn find_segment_start(chars: &Vec<char>, root: usize, end: usize, windows: bool) -> (start: usize)
    requires
        end <= chars@.len(),
        root == root_length(chars@, windows),
    ensures
        start == segment_start(chars@, end as int, windows),
        start <= end,
{
    let by = get_separators(chars, windows);
    let mut start: usize = end;
    while start > root && !is_separator(chars[start - 1], by)
        invariant
            start <= end <= chars@.len(),
            root == root_length(chars@, windows),
            by == separators_of(chars@, windows),
            segment_start(chars@, end as int, windows) == segment_start(
                chars@,
                start as int,
                windows,
            ),
        decreases start,
    {
        start = start - 1;
    }
    start
}

fn trim_end(chars: &Vec<char>, root: usize, end: usize, windows: bool) -> (cut: usize)
    requires
        end <= chars@.len(),
        root == root_length(chars@, windows),
    ensures
        cut == trimmed(chars@, end as int, windows),
        cut <= end,
{
    let by = get_separators(chars, windows);
    let dots = !has_verbatim_mark(chars, windows);
    let mut cut: usize = end;
    while cut > root && (is_separator(chars[cut - 1], by) || (dots && chars[cut - 1] == '.' && cut
        >= 2 && is_separator(chars[cut - 2], by)))
        invariant
            cut <= end <= chars@.len(),
            root == root_length(chars@, windows),
            by == separators_of(chars@, windows),
            dots == !is_verbatim(chars@, windows),
            trimmed(chars@, end as int, windows) == trimmed(chars@, cut as int, windows),
        decreases cut,
    {
        cut = cut - 1;
    }
    cut
}

/// The last segment of `path`; empty where it has none.
pub open spec fn file_name(path: Seq<char>, windows: bool) -> Seq<char> {
    let end = trimmed(path, path.len() as int, windows);
    path.subrange(segment_start(path, end, windows), end)
}

/// The last segment of `path`; empty where it has none.
pub fn last_segment(path: &str, windows: bool) -> (name: String)
    ensures
        name@ == file_name(path@, windows),
{
    let chars = text::chars_of(path);
    let root = find_root_end(&chars, windows);
    let end = trim_end(&chars, root, chars.len(), windows);
    let start = find_segment_start(&chars, root, end, windows);
    text_between(&chars, start, end)
}

/// Where the last dot of `name` stands.
pub open spec fn last_dot(name: Seq<char>) -> Option<int>
    decreases name.len(),
{
    if name.len() == 0 {
        None
    } else if name.last() == '.' {
        Some(name.len() - 1)
    } else {
        last_dot(name.drop_last())
    }
}

/// The extension of the file name `name`: what follows its last dot, if that is not its first
/// character.
pub open spec fn extension_of(name: Seq<char>) -> Option<Seq<char>> {
    if name == ".."@ {
        None
    } else {
        match last_dot(name) {
            Some(at) => if at > 0 {
                Some(name.skip(at + 1))
            } else {
                None
            },
            None => None,
        }
    }
}

/// The extension of the file name `name`: what follows its last dot, if that is not its first
/// character.
pub fn get_extension(name: &str) -> (extension: Option<String>)
    ensures
        text::maybe_string(extension) == extension_of(name@),
{
    if text::same_text(name, "..") {
        return None;
    }
    let chars = text::chars_of(name);
    let mut i: usize = chars.len();
    assert(chars@.take(i as int) =~= chars@);
    while i > 0
        invariant
            i <= chars.len(),
            chars@ == name@,
            name@ != ".."@,
            last_dot(chars@) == last_dot(chars@.take(i as int)),
        decreases i,
    {
        assert(chars@.take(i as int).drop_last() =~= chars@.take(i - 1));
        i = i - 1;
        if chars[i] == '.' {
            if i == 0 {
                return None;
            }
            let extension = text_between(&chars, i + 1, chars.len());
            assert(extension@ =~= name@.skip(i + 1));
            return Some(extension);
        }
    }
    None
}

/// Those of the first `count` of `segments` that are not empty.
pub open spec fn without_empty(segments: Seq<Seq<char>>, count: nat) -> Seq<Seq<char>>
    decreases count,
{
    if count == 0 || count > segments.len() {
        Seq::empty()
    } else if segments[count - 1].len() == 0 {
        without_empty(segments, (count - 1) as nat)
    } else {
        without_empty(segments, (count - 1) as nat).push(segments[count - 1])
    }
}

/// The path of the file `name` in `directory`. A verbatim directory is put together anew from its
/// segments.
pub open spec fn inside(directory: Seq<char>, name: Seq<char>, windows: bool) -> Seq<char> {
    if is_verbatim(directory, windows) {
        let segments = pieces(directory, windows);
        directory.take(prefix_length(directory, windows)).push(separator(windows)) + joined(
            without_empty(segments, segments.len()).push(name),
            windows,
        )
    } else if directory.len() == 0 || root_at(directory, directory.len() - 1, windows) || has_drive(
        directory,
        windows,
    ) && directory.len() == 2 {
        directory + name
    } else {
        directory.push(separator(windows)) + name
    }
}

/// The path of the file `name` in `directory`.
pub fn join(directory: &str, name: &str, windows: bool) -> (path: String)
    ensures
        path@ == inside(directory@, name@, windows),
{
    broadcast use {names::views_of_push, names::views_of_none};

    let chars = text::chars_of(directory);
    if has_verbatim_mark(&chars, windows) {
        let segments = get_pieces(&chars, windows);
        let ghost all = pieces(directory@, windows);
        let mut kept: Vec<String> = Vec::new();
        let mut i: usize = 0;
        while i < segments.len()
            invariant
                i <= segments.len(),
                all == names::views(segments@),
                names::views(kept@) == without_empty(all, i as nat),
            decreases segments.len() - i,
        {
            assert(all[i as int] == segments@[i as int]@);
            if !segments[i].as_str().is_empty() {
                kept.push(segments[i].clone());
            }
            i = i + 1;
        }
        kept.push(name.to_owned());
        let prefix = find_prefix_end(&chars, windows);
        let mut path = text_between(&chars, 0, prefix);
        assert(path@ =~= directory@.take(prefix as int));
        path.push(main_separator(windows));
        append_joined(&kept, windows, &mut path);
        return path;
    }
    let mut path = directory.to_owned();
    let only_drive = windows && chars.len() == 2 && has_drive_at(&chars, 0);
    if chars.len() > 0 && !has_root_at(&chars, chars.len() - 1, windows) && !only_drive {
        path.push(main_separator(windows));
    }
    path.append(name);
    path
}

/// Whether `path` ends in `suffix`.
pub fn ends_with(path: &str, suffix: &str) -> (result: bool)
    ensures
        result == suffix@.is_suffix_of(path@),
{
    let whole = text::chars_of(path);
    let end = text::chars_of(suffix);
    if end.len() > whole.len() {
        return false;
    }
    let skipped: usize = whole.len() - end.len();
    let mut i: usize = 0;
    while i < end.len()
        invariant
            i <= end.len() <= whole.len(),
            skipped == whole.len() - end.len(),
            whole@ == path@,
            end@ == suffix@,
            forall|j: int| 0 <= j < i ==> end@[j] == whole@[skipped + j],
        decreases end.len() - i,
    {
        if end[i] != whole[skipped + i] {
            proof {
                let tail = path@.subrange(skipped as int, path@.len() as int);
                assert(tail[i as int] == path@[skipped + i]);
                assert(!suffix@.is_suffix_of(path@));
            }
            return false;
        }
        i = i + 1;
    }
    proof {
        assert(suffix@ =~= path@.subrange(skipped as int, path@.len() as int));
        assert(suffix@.is_suffix_of(path@));
    }
    true
}

/// Whether `path` is taken apart in the same way on every system: it holds no backslash, and it
/// begins neither with a drive nor with a share or a device.
pub open spec fn is_portable(path: Seq<char>) -> bool {
    &&& prefix_length(path, true) == 0
    &&& forall|i: int| 0 <= i < path.len() ==> #[trigger] path[i] != '\\'
}

proof fn trimming_is_portable(path: Seq<char>, end: int)
    requires
        is_portable(path),
        end <= path.len(),
    ensures
        trimmed(path, end, true) == trimmed(path, end, false),
    decreases end,
{
    if 0 < end {
        trimming_is_portable(path, end - 1);
    }
}

proof fn starts_are_portable(path: Seq<char>, end: int)
    requires
        is_portable(path),
        end <= path.len(),
    ensures
        segment_start(path, end, true) == segment_start(path, end, false),
    decreases end,
{
    if 0 < end {
        starts_are_portable(path, end - 1);
    }
}

/// A portable path has the same directory and the same last segment on every system.
pub proof fn portable_paths_are_the_same_everywhere(path: Seq<char>)
    requires
        is_portable(path),
    ensures
        parent(path, true) == parent(path, false),
        file_name(path, true) == file_name(path, false),
{
    let end = trimmed(path, path.len() as int, false);
    trimming_is_portable(path, path.len() as int);
    trimmed_is_before(path, path.len() as int, false);
    starts_are_portable(path, end);
    if end > root_length(path, false) {
        start_is_before(path, end, false);
        trimming_is_portable(path, segment_start(path, end, false));
    }
}

} // verus!
