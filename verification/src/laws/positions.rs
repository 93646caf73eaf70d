//! Where things stand in a text: UTF-16 offsets, lines, characters, and the tokens of an editor.
use vstd::prelude::*;

use crate::document;
use crate::document::{ScopeConfig, SourceHost};
use crate::names;
use crate::text;
use crate::tokens;
use crate::tokens::{EncodedToken, Token};
use crate::utf16;
use crate::utf16::{Utf16LineIndex, Utf16Mapper};
use crate::{Kind, Range, Usage, UsageView};

verus! {

/// A character takes one code unit of UTF-16, two where it lies behind the basic plane, and a text
/// takes as many as its parts.
pub proof fn units_add_up(first: Seq<char>, second: Seq<char>, c: char)
    ensures
        utf16::utf16_width(first + second) == utf16::utf16_width(first) + utf16::utf16_width(
            second,
        ),
        utf16::utf16_width(Seq::empty()) == 0,
        utf16::utf16_width(seq![c]) == (if c as int > 0xffff {
            2int
        } else {
            1int
        }),
    decreases second.len(),
{
    reveal_with_fuel(utf16::utf16_width, 2);
    assert(seq![c].drop_last() =~= Seq::<char>::empty());
    if second.len() == 0 {
        assert(first + second =~= first);
    } else {
        units_add_up(first, second.drop_last(), c);
        assert((first + second).drop_last() =~= first + second.drop_last());
    }
}

proof fn bytes_add_up(first: Seq<char>, second: Seq<char>)
    ensures
        utf16::utf8_width(first + second) == utf16::utf8_width(first) + utf16::utf8_width(second),
    decreases second.len(),
{
    if second.len() == 0 {
        assert(first + second =~= first);
    } else {
        bytes_add_up(first, second.drop_last());
        assert((first + second).drop_last() =~= first + second.drop_last());
    }
}

/// Where `before` ends in a text, the byte offset maps to the number of code units that `before`
/// takes; an offset inside the next character maps there too, and one behind the end to the end.
pub proof fn byte_offsets_map_to_code_units(
    before: Seq<char>,
    c: char,
    after: Seq<char>,
    bytes: u32,
)
    requires
        vstd::utf8::encode_utf8(before.push(c) + after).len() <= u32::MAX,
    ensures
        ({
            let source = before.push(c) + after;
            let start = vstd::utf8::encode_utf8(before).len();
            let end = vstd::utf8::encode_utf8(before.push(c)).len();
            let whole = vstd::utf8::encode_utf8(source).len();
            &&& start <= bytes < end ==> utf16::boundaries_of(source).utf16(bytes)
                == utf16::utf16_width(before)
            &&& bytes >= whole ==> utf16::boundaries_of(source).utf16(bytes)
                == utf16::utf16_width(source)
        }),
{
    let source = before.push(c) + after;
    utf16::encoded_length(before);
    utf16::encoded_length(before.push(c));
    utf16::encoded_length(source);
    utf16::mapper_counts_utf16_units(source, bytes);
    if utf16::utf8_width(before) <= bytes < utf16::utf8_width(before.push(c)) {
        offset_inside(before, c, after, bytes as int);
    }
}

proof fn offset_inside(before: Seq<char>, c: char, after: Seq<char>, bytes: int)
    requires
        utf16::utf8_width(before) <= bytes < utf16::utf8_width(before.push(c)),
    ensures
        utf16::utf16_offset(before.push(c) + after, bytes) == utf16::utf16_width(before),
    decreases after.len(),
{
    let source = before.push(c) + after;
    bytes_add_up(before.push(c), after);
    if after.len() == 0 {
        assert(source =~= before.push(c));
        assert(source.drop_last() =~= before);
        assert(utf16::utf16_offset(before, bytes) == utf16::utf16_width(before));
    } else {
        assert(source.drop_last() =~= before.push(c) + after.drop_last());
        offset_inside(before, c, after.drop_last(), bytes);
        assert(utf16::utf8_width(source) > bytes);
    }
}

/// Whether `text` holds no line feed.
pub open spec fn is_one_line(text: Seq<char>) -> bool {
    !text.contains('\n')
}

/// Whether `before` is `earlier`, a line feed, and `rest`, which holds none.
pub open spec fn splits(before: Seq<char>, earlier: Seq<char>, rest: Seq<char>) -> bool {
    before == earlier.push('\n') + rest && is_one_line(rest)
}

/// Whether `before` holds `line` line feeds.
pub open spec fn has_feeds(before: Seq<char>, line: int) -> bool
    decreases line,
{
    if line <= 0 {
        line == 0 && is_one_line(before)
    } else {
        exists|earlier: Seq<char>, rest: Seq<char>| #[trigger]
            splits(before, earlier, rest) && has_feeds(earlier, line - 1)
    }
}

/// Whether `character` code units stand in `before` behind its last line feed, or in all of it
/// where it holds none.
pub open spec fn has_units(before: Seq<char>, character: int) -> bool {
    ||| is_one_line(before) && character == utf16::utf16_width(before)
    ||| exists|earlier: Seq<char>, rest: Seq<char>| #[trigger]
        splits(before, earlier, rest) && character == utf16::utf16_width(rest)
}

/// Whether the end of `before` stands on the line `line` at the character `character`: `line` line
/// feeds stand before it, and `character` code units behind the last of them.
pub open spec fn stands_at(before: Seq<char>, line: int, character: int) -> bool {
    has_feeds(before, line) && has_units(before, character)
}

proof fn lines_of_prefix(before: Seq<char>, after: Seq<char>)
    requires
        utf16::utf16_width(before + after) <= u32::MAX,
    ensures
        ({
            let all = utf16::line_starts_of(before + after);
            let few = utf16::line_starts_of(before);
            &&& few.len() <= all.len()
            &&& forall|i: int| 0 <= i < few.len() ==> #[trigger] all[i] == few[i]
            &&& forall|i: int|
                few.len() <= i < all.len() ==> #[trigger] all[i] > utf16::utf16_width(before)
        }),
    decreases after.len(),
{
    let source = before + after;
    units_add_up(before, after, '\n');
    if after.len() == 0 {
        assert(source =~= before);
    } else {
        let shorter = before + after.drop_last();
        assert(source.drop_last() =~= shorter);
        units_add_up(before, after.drop_last(), '\n');
        lines_of_prefix(before, after.drop_last());
    }
}

proof fn starts_stay_before(before: Seq<char>)
    requires
        utf16::utf16_width(before) <= u32::MAX,
    ensures
        utf16::line_starts_of(before).len() > 0,
        forall|i: int|
            0 <= i < utf16::line_starts_of(before).len() ==> #[trigger] utf16::line_starts_of(
                before,
            )[i] <= utf16::utf16_width(before),
    decreases before.len(),
{
    if before.len() > 0 {
        starts_stay_before(before.drop_last());
    }
}

proof fn counted(offsets: Seq<u32>, bound: int, count: int)
    requires
        0 < count <= offsets.len(),
        offsets[count - 1] <= bound,
        forall|i: int| count <= i < offsets.len() ==> #[trigger] offsets[i] > bound,
    ensures
        utf16::count_up_to(offsets, bound) == count,
    decreases offsets.len(),
{
    if count < offsets.len() {
        assert(offsets[offsets.len() - 1] > bound);
        counted(offsets.drop_last(), bound, count);
    }
}

proof fn lines_at_end(before: Seq<char>, after: Seq<char>)
    requires
        utf16::utf16_width(before + after) <= u32::MAX,
    ensures
        ({
            let all = utf16::line_starts_of(before + after);
            let few = utf16::line_starts_of(before);
            let offset = utf16::utf16_width(before) as int;
            &&& few.len() > 0
            &&& few.len() <= all.len()
            &&& utf16::count_up_to(all, offset) == few.len()
            &&& all[few.len() - 1] == few.last()
            &&& offset <= u32::MAX
        }),
{
    let few = utf16::line_starts_of(before);
    let all = utf16::line_starts_of(before + after);
    units_add_up(before, after, '\n');
    starts_stay_before(before);
    lines_of_prefix(before, after);
    assert(all[few.len() - 1] == few[few.len() - 1]);
    counted(all, utf16::utf16_width(before) as int, few.len() as int);
}

proof fn one_line_starts_nothing(earlier: Seq<char>, rest: Seq<char>)
    requires
        is_one_line(rest),
    ensures
        utf16::line_starts_of(earlier + rest) == utf16::line_starts_of(earlier),
    decreases rest.len(),
{
    if rest.len() == 0 {
        assert(earlier + rest =~= earlier);
    } else {
        let shorter = rest.drop_last();
        assert((earlier + rest).drop_last() =~= earlier + shorter);
        assert(rest.contains(rest.last())) by {
            assert(rest[rest.len() - 1] == rest.last());
        }
        assert(is_one_line(shorter)) by {
            if shorter.contains('\n') {
                let i = choose|i: int| 0 <= i < shorter.len() && shorter[i] == '\n';
                assert(rest[i] == '\n');
            }
        }
        one_line_starts_nothing(earlier, shorter);
    }
}

proof fn feeds_are_counted(before: Seq<char>, line: int)
    requires
        has_feeds(before, line),
    ensures
        utf16::line_starts_of(before).len() == line + 1,
        line <= utf16::utf16_width(before),
    decreases line,
{
    if line <= 0 {
        assert(Seq::<char>::empty() + before =~= before);
        one_line_starts_nothing(Seq::empty(), before);
    } else {
        let (earlier, rest) = choose|earlier: Seq<char>, rest: Seq<char>| #[trigger]
            splits(before, earlier, rest) && has_feeds(earlier, line - 1);
        units_add_up(earlier.push('\n'), rest, '\n');
        one_line_starts_nothing(earlier.push('\n'), rest);
        assert(earlier.push('\n').drop_last() =~= earlier);
        assert(earlier.push('\n') =~= earlier + seq!['\n']);
        units_add_up(earlier, seq!['\n'], '\n');
        feeds_are_counted(earlier, line - 1);
    }
}

proof fn units_are_counted(before: Seq<char>, character: int)
    requires
        has_units(before, character),
        utf16::utf16_width(before) <= u32::MAX,
    ensures
        utf16::line_starts_of(before).last() + character == utf16::utf16_width(before),
{
    if is_one_line(before) && character == utf16::utf16_width(before) {
        assert(Seq::<char>::empty() + before =~= before);
        one_line_starts_nothing(Seq::empty(), before);
    } else {
        let (earlier, rest) = choose|earlier: Seq<char>, rest: Seq<char>| #[trigger]
            splits(before, earlier, rest) && character == utf16::utf16_width(rest);
        units_add_up(earlier.push('\n'), rest, '\n');
        one_line_starts_nothing(earlier.push('\n'), rest);
        assert(earlier.push('\n').drop_last() =~= earlier);
    }
}

proof fn standing_is_counted(before: Seq<char>, line: int, character: int)
    requires
        stands_at(before, line, character),
        utf16::utf16_width(before) <= u32::MAX,
    ensures
        utf16::line_starts_of(before).len() == line + 1,
        utf16::line_starts_of(before).last() + character == utf16::utf16_width(before),
        line <= utf16::utf16_width(before),
{
    feeds_are_counted(before, line);
    units_are_counted(before, character);
}

/// The line index gives for an offset the number of line feeds before it, and the number of code
/// units behind the last of them.
pub proof fn line_index_counts_line_feeds(
    before: Seq<char>,
    after: Seq<char>,
    line: int,
    character: int,
)
    requires
        utf16::utf16_width(before + after) <= u32::MAX,
        stands_at(before, line, character),
    ensures
        ({
            let starts = utf16::line_starts_of(before + after);
            let offset = utf16::utf16_width(before) as int;
            &&& utf16::count_up_to(starts, offset) == line + 1
            &&& offset - starts[line] == character
        }),
{
    units_add_up(before, after, '\n');
    lines_at_end(before, after);
    standing_is_counted(before, line, character);
}

/// Every place in a text stands on some line at some character.
pub proof fn every_place_stands_somewhere(before: Seq<char>) -> (place: (int, int))
    ensures
        stands_at(before, place.0, place.1),
        0 <= place.0 <= before.len(),
    decreases before.len(),
{
    if is_one_line(before) {
        (0, utf16::utf16_width(before) as int)
    } else {
        let (earlier, rest) = last_line(before);
        let place = every_place_stands_somewhere(earlier);
        assert(splits(before, earlier, rest));
        assert(has_feeds(before, place.0 + 1));
        (place.0 + 1, utf16::utf16_width(rest) as int)
    }
}

proof fn last_line(before: Seq<char>) -> (parts: (Seq<char>, Seq<char>))
    requires
        !is_one_line(before),
    ensures
        before == parts.0.push('\n') + parts.1,
        is_one_line(parts.1),
    decreases before.len(),
{
    let shorter = before.drop_last();
    if before.last() == '\n' {
        assert(before =~= shorter.push('\n') + Seq::<char>::empty());
        (shorter, Seq::empty())
    } else {
        let i = choose|i: int| 0 <= i < before.len() && before[i] == '\n';
        assert(shorter[i] == '\n');
        let parts = last_line(shorter);
        assert(before =~= shorter.push(before.last()));
        let rest = parts.1.push(before.last());
        assert(before =~= parts.0.push('\n') + rest);
        assert(is_one_line(rest)) by {
            if rest.contains('\n') {
                let j = choose|j: int| 0 <= j < rest.len() && rest[j] == '\n';
                assert(parts.1[j] == '\n');
            }
        }
        (parts.0, rest)
    }
}

/// The mapper gives for a place behind the first line feed of a text its line and character, and
/// for a place in a text of one line its character. On the first line of a text of several lines
/// every character counts as the first.
pub proof fn mapper_gives_lines_and_characters(
    before: Seq<char>,
    after: Seq<char>,
    line: int,
    character: int,
)
    requires
        utf16::utf8_width(before + after) <= u32::MAX,
        stands_at(before, line, character),
    ensures
        utf16::boundaries_of(before + after).line_and_character(
            utf16::utf16_width(before) as u32,
        ) == (if line == 0 && !is_one_line(before + after) {
            (0int, 0int)
        } else {
            (line, character)
        }),
{
    let source = before + after;
    let offset = utf16::utf16_width(before) as u32;
    utf16::utf16_is_no_longer(source);
    units_add_up(before, after, '\n');
    line_index_counts_line_feeds(before, after, line, character);
    utf16::lines_count_newlines(source, offset);
    feeds_are_listed(source);
    length_is_last(source);
    standing_is_counted(before, line, character);
}

proof fn feeds_are_listed(source: Seq<char>)
    ensures
        utf16::newlines_of(source).len() == 0 <==> is_one_line(source),
    decreases source.len(),
{
    if source.len() > 0 {
        let shorter = source.drop_last();
        feeds_are_listed(shorter);
        if source.last() == '\n' {
            assert(source[source.len() - 1] == '\n');
        } else {
            if source.contains('\n') {
                let i = choose|i: int| 0 <= i < source.len() && source[i] == '\n';
                assert(shorter[i] == '\n');
            }
            if shorter.contains('\n') {
                let i = choose|i: int| 0 <= i < shorter.len() && shorter[i] == '\n';
                assert(source[i] == '\n');
            }
        }
    }
}

proof fn length_is_last(source: Seq<char>)
    requires
        utf16::utf16_width(source) <= u32::MAX,
    ensures
        utf16::boundaries_of(source).utf16_length() == utf16::utf16_width(source),
{
    if source.len() > 0 {
        assert(utf16::mapping_of(source).last() == (
            utf16::utf8_width(source) as u32,
            utf16::utf16_width(source) as u32,
        ));
    }
}

/// The token for `marked` in a text stands where `marked` begins and is as long as `marked`, if
/// that is on one line; else there is none.
pub proof fn tokens_cover_their_ranges(
    before: Seq<char>,
    marked: Seq<char>,
    after: Seq<char>,
    line: int,
    character: int,
)
    requires
        utf16::utf16_width(before + marked + after) <= u32::MAX,
        stands_at(before, line, character),
    ensures
        ({
            let source = before + marked + after;
            let range = Range {
                start: utf16::utf16_width(before) as u32,
                end: utf16::utf16_width(before + marked) as u32,
            };
            let token = tokens::token_for(utf16::line_starts_of(source), range);
            &&& is_one_line(marked) ==> (token matches Some(found) && found.0 == line && found.1
                == character && found.2 == utf16::utf16_width(marked))
            &&& !is_one_line(marked) ==> token is None
        }),
{
    let source = before + marked + after;
    let rest = marked + after;
    assert(source =~= before + rest);
    units_add_up(before, rest, '\n');
    units_add_up(before, marked, '\n');
    units_add_up(before + marked, after, '\n');
    line_index_counts_line_feeds(before, rest, line, character);
    standing_is_counted(before, line, character);
    let place = every_place_stands_somewhere(before + marked);
    line_index_counts_line_feeds(before + marked, after, place.0, place.1);
    standing_is_counted(before + marked, place.0, place.1);
    lines_at_end(before, rest);
    lines_at_end(before + marked, after);
    if is_one_line(marked) {
        one_line_starts_nothing(before, marked);
    } else {
        feeds_start_lines(before, marked);
    }
}

proof fn feeds_start_lines(before: Seq<char>, marked: Seq<char>)
    requires
        !is_one_line(marked),
    ensures
        utf16::line_starts_of(before + marked).len() > utf16::line_starts_of(before).len(),
    decreases marked.len(),
{
    let shorter = marked.drop_last();
    assert((before + marked).drop_last() =~= before + shorter);
    if marked.last() == '\n' {
        lines_only_grow(before, shorter);
    } else {
        let i = choose|i: int| 0 <= i < marked.len() && marked[i] == '\n';
        assert(shorter[i] == '\n');
        feeds_start_lines(before, shorter);
    }
}

proof fn lines_only_grow(before: Seq<char>, more: Seq<char>)
    ensures
        utf16::line_starts_of(before + more).len() >= utf16::line_starts_of(before).len(),
    decreases more.len(),
{
    if more.len() == 0 {
        assert(before + more =~= before);
    } else {
        assert((before + more).drop_last() =~= before + more.drop_last());
        lines_only_grow(before, more.drop_last());
    }
}

/// Whether `token` is that of a range of `usage`: of the first type for a client component, of the
/// second for a server component.
pub open spec fn is_token_of(starts: Seq<u32>, usage: UsageView, token: Token) -> bool {
    &&& token.3 == (if usage.kind == Kind::Client {
        0u32
    } else {
        1u32
    })
    &&& exists|i: int|
        0 <= i < usage.ranges.len() && tokens::token_for(starts, #[trigger] usage.ranges[i]) == Some(
            (token.0, token.1, token.2),
        )
}

proof fn placed_is_there(list: Seq<Token>, token: Token, other: Token)
    ensures
        tokens::with_token(list, token).contains(other) <==> list.contains(other) || other == token,
        tokens::with_token(list, token).len() == list.len() + 1,
    decreases list.len(),
{
    let placed = tokens::with_token(list, token);
    if list.len() == 0 || tokens::token_before(token, list[0]) {
        assert(placed[0] == token);
        if list.contains(other) {
            let i = choose|i: int| 0 <= i < list.len() && list[i] == other;
            assert(placed[i + 1] == other);
        }
        if placed.contains(other) {
            let i = choose|i: int| 0 <= i < placed.len() && placed[i] == other;
            if i > 0 {
                assert(list[i - 1] == other);
            }
        }
    } else {
        let rest = list.drop_first();
        let tail = tokens::with_token(rest, token);
        placed_is_there(rest, token, other);
        assert(placed[0] == list[0]);
        if tail.contains(other) {
            let i = choose|i: int| 0 <= i < tail.len() && tail[i] == other;
            assert(placed[i + 1] == other);
        }
        if list.contains(other) {
            let i = choose|i: int| 0 <= i < list.len() && list[i] == other;
            if i > 0 {
                assert(rest[i - 1] == other);
            }
        }
        if rest.contains(other) {
            let i = choose|i: int| 0 <= i < rest.len() && rest[i] == other;
            assert(list[i + 1] == other);
        }
        if placed.contains(other) {
            let i = choose|i: int| 0 <= i < placed.len() && placed[i] == other;
            if i > 0 {
                assert(tail[i - 1] == other);
            } else {
                assert(list[0] == other);
            }
        }
    }
}

proof fn ranges_are_placed(
    list: Seq<Token>,
    starts: Seq<u32>,
    kind: Kind,
    ranges: Seq<Range>,
    count: nat,
    token: Token,
)
    requires
        count <= ranges.len(),
    ensures
        tokens::with_ranges(list, starts, kind, ranges, count).contains(token) <==> list.contains(
            token,
        ) || token.3 == tokens::token_type(kind) && exists|i: int|
            0 <= i < count && tokens::token_for(starts, #[trigger] ranges[i]) == Some(
                (token.0, token.1, token.2),
            ),
    decreases count,
{
    if count > 0 {
        let before = (count - 1) as nat;
        ranges_are_placed(list, starts, kind, ranges, before, token);
        let earlier = tokens::with_ranges(list, starts, kind, ranges, before);
        if let Some(found) = tokens::token_for(starts, ranges[count - 1]) {
            placed_is_there(
                earlier,
                (found.0, found.1, found.2, tokens::token_type(kind)),
                token,
            );
        }
    }
}

/// The tokens of usages are those of all their ranges, each with the type of its usage's kind.
pub proof fn tokens_are_those_of_all_ranges(
    starts: Seq<u32>,
    usages: Seq<UsageView>,
    count: nat,
    token: Token,
)
    requires
        count <= usages.len(),
    ensures
        tokens::tokens_of(starts, usages, count).contains(token) <==> exists|i: int|
            0 <= i < count && is_token_of(starts, #[trigger] usages[i], token),
    decreases count,
{
    if count > 0 {
        let before = (count - 1) as nat;
        let usage = usages[count - 1];
        tokens_are_those_of_all_ranges(starts, usages, before, token);
        ranges_are_placed(
            tokens::tokens_of(starts, usages, before),
            starts,
            usage.kind,
            usage.ranges,
            usage.ranges.len(),
            token,
        );
        if is_token_of(starts, usage, token) {
            assert(is_token_of(starts, usages[count - 1], token));
        }
    }
}

proof fn ranges_are_counted(
    list: Seq<Token>,
    starts: Seq<u32>,
    kind: Kind,
    ranges: Seq<Range>,
    count: nat,
)
    requires
        count <= ranges.len(),
        forall|i: int|
            0 <= i < ranges.len() ==> tokens::token_for(starts, #[trigger] ranges[i]) is Some,
    ensures
        tokens::with_ranges(list, starts, kind, ranges, count).len() == list.len() + count,
    decreases count,
{
    if count > 0 {
        let before = (count - 1) as nat;
        ranges_are_counted(list, starts, kind, ranges, before);
        let found = tokens::token_for(starts, ranges[count - 1])->0;
        assert(tokens::token_for(starts, ranges[count - 1]) is Some);
        placed_is_there(
            tokens::with_ranges(list, starts, kind, ranges, before),
            (found.0, found.1, found.2, tokens::token_type(kind)),
            (found.0, found.1, found.2, tokens::token_type(kind)),
        );
    }
}

/// A usage whose ranges each lie on one line has one token for each of them.
pub proof fn each_range_has_one_token(starts: Seq<u32>, usages: Seq<UsageView>, count: nat)
    requires
        0 < count <= usages.len(),
        forall|i: int|
            0 <= i < usages[count - 1].ranges.len() ==> tokens::token_for(
                starts,
                #[trigger] usages[count - 1].ranges[i],
            ) is Some,
    ensures
        tokens::tokens_of(starts, usages, count).len() == tokens::tokens_of(
            starts,
            usages,
            (count - 1) as nat,
        ).len() + usages[count - 1].ranges.len(),
{
    let usage = usages[count - 1];
    ranges_are_counted(
        tokens::tokens_of(starts, usages, (count - 1) as nat),
        starts,
        usage.kind,
        usage.ranges,
        usage.ranges.len(),
    );
}

proof fn encodings_add_up(first: Seq<char>, second: Seq<char>)
    ensures
        vstd::utf8::encode_utf8(first + second) == vstd::utf8::encode_utf8(first)
            + vstd::utf8::encode_utf8(second),
    decreases first.len(),
{
    if first.len() == 0 {
        assert(first + second =~= second);
        assert(vstd::utf8::encode_utf8(first) + vstd::utf8::encode_utf8(second)
            =~= vstd::utf8::encode_utf8(second));
    } else {
        assert((first + second).drop_first() =~= first.drop_first() + second);
        encodings_add_up(first.drop_first(), second);
        assert(vstd::utf8::encode_utf8(first + second) =~= vstd::utf8::encode_utf8(first)
            + vstd::utf8::encode_utf8(second));
    }
}

proof fn texts_end_on_boundaries(first: Seq<char>, second: Seq<char>)
    ensures
        vstd::utf8::is_char_boundary(
            vstd::utf8::encode_utf8(first + second),
            vstd::utf8::encode_utf8(first).len() as int,
        ),
    decreases first.len(),
{
    let bytes = vstd::utf8::encode_utf8(first + second);
    vstd::utf8::encode_utf8_valid_utf8(first + second);
    encodings_add_up(first, second);
    if first.len() == 0 {
        assert(vstd::utf8::encode_utf8(first).len() == 0);
    } else {
        let rest = first.drop_first();
        assert((first + second).drop_first() =~= rest + second);
        vstd::utf8::encode_utf8_first_scalar(first + second);
        assert(vstd::utf8::pop_first_scalar(bytes) =~= vstd::utf8::encode_utf8(rest + second));
        texts_end_on_boundaries(rest, second);
        vstd::utf8::encode_utf8_valid_utf8(rest + second);
    }
}

/// The part of a text between the bytes where `part` begins and ends is `part`.
pub proof fn slices_are_what_stands_between(
    source: &str,
    before: Seq<char>,
    part: Seq<char>,
    after: Seq<char>,
    start: u32,
    end: u32,
    found: String,
)
    requires
        call_ensures(text::source_slice, (source, start, end), found),
        source@ == before + part + after,
        start == vstd::utf8::encode_utf8(before).len(),
        end == vstd::utf8::encode_utf8(before + part).len(),
    ensures
        found@ == part,
{
    let bytes = vstd::utf8::encode_utf8(source@);
    encodings_add_up(before + part, after);
    encodings_add_up(before, part);
    texts_end_on_boundaries(before + part, after);
    assert(before + part + after =~= before + (part + after));
    texts_end_on_boundaries(before, part + after);
    assert(bytes.subrange(start as int, end as int) =~= vstd::utf8::encode_utf8(part));
    vstd::utf8::encode_utf8_decode_utf8(part);
}

/// Positions, offsets and tokens that are asked for are those of the text that they are asked of.
pub proof fn positions_are_those_of_their_text(
    source: &str,
    before: Seq<char>,
    after: Seq<char>,
    line: int,
    character: int,
    index: Utf16LineIndex,
    place: (u32, u32),
    mapper: Utf16Mapper,
    bytes: u32,
    offset: u32,
    position: (u32, u32),
)
    requires
        vstd::utf8::encode_utf8(source@).len() <= u32::MAX,
        source@ == before + after,
        stands_at(before, line, character),
        call_ensures(Utf16LineIndex::new, (source,), index),
        call_ensures(
            Utf16LineIndex::position,
            (&index, utf16::utf16_width(before) as u32),
            place,
        ),
        call_ensures(Utf16Mapper::new, (source,), mapper),
        call_ensures(Utf16Mapper::to_utf16, (&mapper, bytes), offset),
        call_ensures(
            Utf16Mapper::line_and_character_for_utf16,
            (&mapper, utf16::utf16_width(before) as u32),
            position,
        ),
    ensures
        place.0 == line && place.1 == character,
        bytes == vstd::utf8::encode_utf8(before).len() ==> offset == utf16::utf16_width(before),
        line == 0 && !is_one_line(source@) ==> position.0 == 0 && position.1 == 0,
        line > 0 || is_one_line(source@) ==> position.0 == line && position.1 == character,
{
    utf16::encoded_length(source@);
    utf16::encoded_length(before);
    utf16::utf16_is_no_longer(source@);
    units_add_up(before, after, '\n');
    bytes_add_up(before, after);
    line_index_counts_line_feeds(before, after, line, character);
    standing_is_counted(before, line, character);
    mapper_gives_lines_and_characters(before, after, line, character);
    if bytes == vstd::utf8::encode_utf8(before).len() {
        assert(source@.take(before.len() as int) =~= before);
        utf16::boundaries_map_exactly(source@, before.len() as int, bytes);
    }
}

/// The names of the token types are those for client and for server components, in the order of
/// the numbers of the types.
pub proof fn token_types_have_names(
    legend: Vec<&'static str>,
    client: u32,
    server: u32,
)
    requires
        call_ensures(tokens::semantic_token_type_names, (), legend),
        call_ensures(tokens::token_type_index, (Kind::Client,), client),
        call_ensures(tokens::token_type_index, (Kind::Server,), server),
    ensures
        legend@.len() == 2,
        client < 2 && legend@[client as int]@ == "rscClientComponent"@,
        server < 2 && legend@[server as int]@ == "rscServerComponent"@,
{
}

/// The tokens of usages are those of all their ranges, in order; what is sent for them is each
/// place relative to the one before it.
pub proof fn tokens_are_sent_in_order(
    index: &Utf16LineIndex,
    usages: &Vec<Usage>,
    found: Vec<Token>,
    sent: Vec<EncodedToken>,
    token: Token,
    i: int,
)
    requires
        call_ensures(tokens::semantic_token_tuples, (index, usages), found),
        call_ensures(tokens::delta_encode, (&found,), sent),
        0 < i < found@.len(),
    ensures
        found@.contains(token) <==> exists|k: int|
            0 <= k < usages@.len() && is_token_of(
                index.line_starts@,
                (#[trigger] usages@[k])@,
                token,
            ),
        sent@.len() == found@.len(),
        sent@[0].delta_line == found@[0].0 && sent@[0].delta_start == found@[0].1,
        sent@[i].length == found@[i].2 && sent@[i].token_type == found@[i].3,
        found@[i - 1].0 < found@[i].0 ==> sent@[i].delta_line == found@[i].0 - found@[i - 1].0
            && sent@[i].delta_start == found@[i].1,
        found@[i - 1].0 == found@[i].0 ==> sent@[i].delta_line == 0 && sent@[i].delta_start
            == found@[i].1 - found@[i - 1].1,
        found@[i - 1].0 <= found@[i].0,
        found@[i - 1].0 == found@[i].0 ==> found@[i - 1].1 <= found@[i].1,
{
    let all = names::views(usages@);
    tokens_are_those_of_all_ranges(index.line_starts@, all, all.len(), token);
    tokens::tokens_come_in_order(index.line_starts@, all, all.len());
    tokens::ordered_tokens_ascend(found@);
    assert(found@[i - 1].0 < found@[i].0 || found@[i - 1].0 == found@[i].0 && found@[i - 1].1
        <= found@[i].1);
    if exists|k: int| 0 <= k < all.len() && is_token_of(index.line_starts@, #[trigger] all[k], token) {
        let k = choose|k: int|
            0 <= k < all.len() && is_token_of(index.line_starts@, #[trigger] all[k], token);
        assert(is_token_of(index.line_starts@, usages@[k]@, token));
    }
    if exists|k: int|
        0 <= k < usages@.len() && is_token_of(
            index.line_starts@,
            (#[trigger] usages@[k])@,
            token,
        ) {
        let k = choose|k: int|
            0 <= k < usages@.len() && is_token_of(
                index.line_starts@,
                (#[trigger] usages@[k])@,
                token,
            );
        assert(is_token_of(index.line_starts@, all[k], token));
    }
}

/// The tokens of a source are those of the usages that its analysis for everything finds.
pub proof fn tokens_of_a_source_are_those_of_its_usages<H: SourceHost>(
    path: &str,
    source: &str,
    host: &H,
    found: Vec<Token>,
) -> (usages: Seq<UsageView>)
    requires
        call_ensures(
            tokens::semantic_token_tuples_for_source_with_host::<H>,
            (path, source, host),
            found,
        ),
    ensures
        document::usages_found(
            host,
            path@,
            source@,
            (ScopeConfig {
                declaration: true,
                element: true,
                export: true,
                import: true,
                types: true,
            }),
            usages,
        ),
        forall|token: Token| #[trigger]
            found@.contains(token) <==> exists|k: int|
                0 <= k < usages.len() && is_token_of(
                    utf16::line_starts_of(source@),
                    #[trigger] usages[k],
                    token,
                ),
{
    let usages = choose|usages: Seq<UsageView>|
        document::usages_found(
            host,
            path@,
            source@,
            document::every_usage(),
            usages,
        ) && found@ == #[trigger] tokens::tokens_of(
            utf16::line_starts_of(source@),
            usages,
            usages.len(),
        );
    assert forall|token: Token| #[trigger] found@.contains(token) <==> exists|k: int|
        0 <= k < usages.len() && is_token_of(
            utf16::line_starts_of(source@),
            #[trigger] usages[k],
            token,
        ) by {
        tokens_are_those_of_all_ranges(
            utf16::line_starts_of(source@),
            usages,
            usages.len(),
            token,
        );
    }
    usages
}

} // verus!
