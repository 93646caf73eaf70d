//! Semantic tokens: usages as an editor paints them.
use vstd::prelude::*;
use vstd::string::StringSliceAdditionalSpecFns;

use crate::document;
use crate::document::SourceHost;
use crate::names;
use crate::utf16;
use crate::utf16::Utf16LineIndex;
use crate::{Kind, Range, Usage, UsageView};

verus! {

/// The names of the token types, in the order of their numbers.
pub fn semantic_token_type_names() -> (legend: Vec<&'static str>)
    ensures
        legend@.len() == 2,
        legend@[0]@ == "rscClientComponent"@,
        legend@[1]@ == "rscServerComponent"@,
{
    let mut legend: Vec<&'static str> = Vec::new();
    legend.push("rscClientComponent");
    legend.push("rscServerComponent");
    legend
}

/// The number of the token type for a kind.
pub open spec fn token_type(kind: Kind) -> u32 {
    match kind {
        Kind::Client => 0,
        Kind::Server => 1,
    }
}

/// The number of the token type for a kind.
pub fn token_type_index(kind: Kind) -> (index: u32)
    ensures
        index == token_type(kind),
{
    match kind {
        Kind::Client => 0,
        Kind::Server => 1,
    }
}

/// The line of a UTF-16 offset, where lines start at `starts`.
pub open spec fn line_of(starts: Seq<u32>, offset: u32) -> int {
    utf16::count_up_to(starts, offset as int) - 1
}

/// A line as it is written into a token.
pub open spec fn line_number(line: int) -> int {
    if line <= u32::MAX {
        line
    } else {
        u32::MAX as int
    }
}

/// The line, the character and the length of the token for `range`; none where it goes over
/// lines.
pub open spec fn token_for(starts: Seq<u32>, range: Range) -> Option<(u32, u32, u32)> {
    let start_line = line_of(starts, range.start);
    if line_number(start_line) == line_number(line_of(starts, range.end)) {
        Some(
            (
                line_number(start_line) as u32,
                (range.start - starts[start_line]) as u32,
                if range.end >= range.start {
                    (range.end - range.start) as u32
                } else {
                    0
                },
            ),
        )
    } else {
        None
    }
}

/// The line, the character and the length of the token for `range`; none where it goes over
/// lines.
pub fn token_from_range(index: &Utf16LineIndex, range: Range) -> (token: Option<(u32, u32, u32)>)
    requires
        index.well_formed(),
    ensures
        token == token_for(index.line_starts@, range),
{
    let (start_line, start_character) = index.position(range.start);
    let (end_line, _) = index.position(range.end);
    if start_line == end_line {
        let length: u32 = if range.end >= range.start {
            range.end - range.start
        } else {
            0
        };
        Some((start_line, start_character, length))
    } else {
        None
    }
}

/// A token: its line, its character, its length and its type.
pub type Token = (u32, u32, u32, u32);

/// Whether `a` comes before `b`: by line, character, length and type.
pub open spec fn token_before(a: Token, b: Token) -> bool {
    if a.0 != b.0 {
        a.0 < b.0
    } else if a.1 != b.1 {
        a.1 < b.1
    } else if a.2 != b.2 {
        a.2 < b.2
    } else {
        a.3 < b.3
    }
}

/// Whether `a` comes before `b`: by line, character, length and type.
fn comes_before(a: Token, b: Token) -> (result: bool)
    ensures
        result == token_before(a, b),
{
    if a.0 != b.0 {
        a.0 < b.0
    } else if a.1 != b.1 {
        a.1 < b.1
    } else if a.2 != b.2 {
        a.2 < b.2
    } else {
        a.3 < b.3
    }
}

/// `tokens`, in order, with `token` in its place.
pub open spec fn with_token(tokens: Seq<Token>, token: Token) -> Seq<Token>
    decreases tokens.len(),
{
    if tokens.len() == 0 || token_before(token, tokens[0]) {
        seq![token] + tokens
    } else {
        seq![tokens[0]] + with_token(tokens.drop_first(), token)
    }
}

/// `tokens`, in order, with those of the first `count` of `ranges` in their places.
pub open spec fn with_ranges(
    tokens: Seq<Token>,
    starts: Seq<u32>,
    kind: Kind,
    ranges: Seq<Range>,
    count: nat,
) -> Seq<Token>
    decreases count,
{
    if count == 0 || count > ranges.len() {
        tokens
    } else {
        let earlier = with_ranges(tokens, starts, kind, ranges, (count - 1) as nat);
        match token_for(starts, ranges[count - 1]) {
            Some(token) => with_token(earlier, (token.0, token.1, token.2, token_type(kind))),
            None => earlier,
        }
    }
}

/// The tokens of the first `count` of `usages`, in order.
pub open spec fn tokens_of(starts: Seq<u32>, usages: Seq<UsageView>, count: nat) -> Seq<Token>
    decreases count,
{
    if count == 0 || count > usages.len() {
        Seq::empty()
    } else {
        let usage = usages[count - 1];
        with_ranges(
            tokens_of(starts, usages, (count - 1) as nat),
            starts,
            usage.kind,
            usage.ranges,
            usage.ranges.len(),
        )
    }
}

proof fn token_goes_behind(tokens: Seq<Token>, token: Token, count: int)
    requires
        0 <= count <= tokens.len(),
        forall|i: int| 0 <= i < count ==> !token_before(token, #[trigger] tokens[i]),
        count < tokens.len() ==> token_before(token, tokens[count]),
    ensures
        with_token(tokens, token) == tokens.insert(count, token),
    decreases count,
{
    if count == 0 {
        assert(seq![token] + tokens =~= tokens.insert(0, token));
    } else {
        let rest = tokens.drop_first();
        assert forall|i: int| 0 <= i < count - 1 implies !token_before(
            token,
            #[trigger] rest[i],
        ) by {
            assert(rest[i] == tokens[i + 1]);
        }
        assert(!token_before(token, tokens[0]));
        token_goes_behind(rest, token, count - 1);
        assert(seq![tokens[0]] + rest.insert(count - 1, token) =~= tokens.insert(count, token));
    }
}

/// Puts `token` into its place among `tokens`.
fn insert_token(tokens: &mut Vec<Token>, token: Token)
    ensures
        final(tokens)@ == with_token(old(tokens)@, token),
{
    let mut at: usize = 0;
    while at < tokens.len() && !comes_before(token, tokens[at])
        invariant
            at <= tokens.len(),
            tokens@ == old(tokens)@,
            forall|j: int| 0 <= j < at ==> !token_before(token, #[trigger] tokens@[j]),
        decreases tokens.len() - at,
    {
        at = at + 1;
    }
    proof {
        token_goes_behind(tokens@, token, at as int);
    }
    tokens.insert(at, token);
}

/// The tokens of `usages`, in order. A range that goes over lines has no token.
pub fn semantic_token_tuples(index: &Utf16LineIndex, usages: &Vec<Usage>) -> (tokens: Vec<Token>)
    requires
        index.well_formed(),
    ensures
        tokens@ == tokens_of(index.line_starts@, names::views(usages@), usages@.len()),
{
    let mut tokens: Vec<Token> = Vec::new();
    let ghost all = names::views(usages@);
    let ghost starts = index.line_starts@;
    let mut i: usize = 0;
    while i < usages.len()
        invariant
            i <= usages.len(),
            index.well_formed(),
            all == names::views(usages@),
            starts == index.line_starts@,
            tokens@ == tokens_of(starts, all, i as nat),
        decreases usages.len() - i,
    {
        let usage = &usages[i];
        assert(all[i as int] == usage@);
        let ghost before = tokens@;
        let mut j: usize = 0;
        while j < usage.ranges.len()
            invariant
                j <= usage.ranges.len(),
                index.well_formed(),
                starts == index.line_starts@,
                tokens@ == with_ranges(before, starts, usage.kind, usage.ranges@, j as nat),
            decreases usage.ranges.len() - j,
        {
            match token_from_range(index, usage.ranges[j]) {
                Some((line, character, length)) => {
                    insert_token(
                        &mut tokens,
                        (line, character, length, token_type_index(usage.kind)),
                    );
                },
                None => {},
            }
            j = j + 1;
        }
        i = i + 1;
    }
    tokens
}

/// The tokens of the document `file_path` with the text `source`, in order; `host` reads the
/// modules that it imports. They are those of the usages that the answers of the resolver and
/// the host lead to.
pub fn semantic_token_tuples_for_source_with_host<H: SourceHost>(
    file_path: &str,
    source: &str,
    host: &H,
) -> (tokens: Vec<Token>)
    requires
        source.spec_bytes().len() <= u32::MAX,
    ensures
        exists|usages: Seq<UsageView>|
            document::usages_found(
                host,
                file_path@,
                source@,
                document::every_usage(),
                usages,
            ) && tokens@ == #[trigger] tokens_of(
                utf16::line_starts_of(source@),
                usages,
                usages.len(),
            ),
{
    proof {
        utf16::encoded_length(source@);
        utf16::utf16_is_no_longer(source@);
    }
    let index = Utf16LineIndex::new(source);
    let usages = document::analyze_source_with_host(file_path, source, host);
    semantic_token_tuples(&index, &usages)
}

/// A token as it is sent: its place relative to the token before it.
#[derive(Debug, Clone, Copy, PartialEq, Eq, Structural)]
pub struct EncodedToken {
    pub delta_line: u32,
    pub delta_start: u32,
    pub length: u32,
    pub token_type: u32,
}

/// `a - b`, or zero where that is negative.
pub open spec fn difference(a: u32, b: u32) -> u32 {
    if a >= b {
        (a - b) as u32
    } else {
        0
    }
}

/// `token` relative to the line and the character of the token before it.
pub open spec fn encoded(token: Token, line: u32, character: u32) -> EncodedToken {
    let delta_line = difference(token.0, line);
    EncodedToken {
        delta_line,
        delta_start: if delta_line == 0 {
            difference(token.1, character)
        } else {
            token.1
        },
        length: token.2,
        token_type: token.3,
    }
}

/// The line of the token before the one at `index`.
pub open spec fn line_before(tokens: Seq<Token>, index: int) -> u32 {
    if index > 0 {
        tokens[index - 1].0
    } else {
        0
    }
}

/// The character of the token before the one at `index`.
pub open spec fn character_before(tokens: Seq<Token>, index: int) -> u32 {
    if index > 0 {
        tokens[index - 1].1
    } else {
        0
    }
}

/// `tokens`, each relative to the one before it.
pub open spec fn all_encoded(tokens: Seq<Token>) -> Seq<EncodedToken> {
    Seq::new(
        tokens.len(),
        |i: int| encoded(tokens[i], line_before(tokens, i), character_before(tokens, i)),
    )
}

/// `a - b`, or zero where that is negative.
fn saturating_difference(a: u32, b: u32) -> (result: u32)
    ensures
        result == difference(a, b),
{
    if a >= b {
        a - b
    } else {
        0
    }
}

/// Encodes `tokens`, each relative to the one before it.
pub fn delta_encode(tokens: &Vec<Token>) -> (sent: Vec<EncodedToken>)
    ensures
        sent@ == all_encoded(tokens@),
{
    let mut sent: Vec<EncodedToken> = Vec::new();
    let mut previous_line: u32 = 0;
    let mut previous_start: u32 = 0;
    let mut i: usize = 0;
    while i < tokens.len()
        invariant
            i <= tokens.len(),
            sent@ == all_encoded(tokens@).take(i as int),
            previous_line == line_before(tokens@, i as int),
            previous_start == character_before(tokens@, i as int),
        decreases tokens.len() - i,
    {
        let token = tokens[i];
        let delta_line = saturating_difference(token.0, previous_line);
        let delta_start = if delta_line == 0 {
            saturating_difference(token.1, previous_start)
        } else {
            token.1
        };
        sent.push(
            EncodedToken { delta_line, delta_start, length: token.2, token_type: token.3 },
        );
        previous_line = token.0;
        previous_start = token.1;
        i = i + 1;
        assert(sent@ =~= all_encoded(tokens@).take(i as int));
    }
    assert(all_encoded(tokens@).take(i as int) =~= all_encoded(tokens@));
    sent
}

/// The token that `sent` stands for behind a token at `line` and `character`.
pub open spec fn decoded(sent: EncodedToken, line: u32, character: u32) -> (int, int, u32, u32) {
    (
        line + sent.delta_line,
        if sent.delta_line == 0 {
            character + sent.delta_start
        } else {
            sent.delta_start as int
        },
        sent.length,
        sent.token_type,
    )
}

/// Whether `tokens` come in order.
pub open spec fn ordered(tokens: Seq<Token>) -> bool {
    forall|i: int, j: int|
        0 <= i < j < tokens.len() ==> !token_before(#[trigger] tokens[j], #[trigger] tokens[i])
}

/// Whether `tokens` come by line, and by character within a line.
pub open spec fn ascending(tokens: Seq<Token>) -> bool {
    forall|i: int, j: int|
        0 <= i < j < tokens.len() ==> (#[trigger] tokens[i]).0 < (#[trigger] tokens[j]).0
            || tokens[i].0 == tokens[j].0 && tokens[i].1 <= tokens[j].1
}

/// Tokens in order come by line and character.
pub proof fn ordered_tokens_ascend(tokens: Seq<Token>)
    requires
        ordered(tokens),
    ensures
        ascending(tokens),
{
    assert forall|i: int, j: int| 0 <= i < j < tokens.len() implies (#[trigger] tokens[i]).0 < (
    #[trigger] tokens[j]).0 || tokens[i].0 == tokens[j].0 && tokens[i].1 <= tokens[j].1 by {
        assert(!token_before(tokens[j], tokens[i]));
    }
}

/// Each token of a list that comes by line and character is found again from what is sent for it
/// and the token before it.
pub proof fn sent_tokens_are_found_again(tokens: Seq<Token>, index: int)
    requires
        ascending(tokens),
        0 <= index < tokens.len(),
    ensures
        decoded(
            all_encoded(tokens)[index],
            line_before(tokens, index),
            character_before(tokens, index),
        ) == (tokens[index].0 as int, tokens[index].1 as int, tokens[index].2, tokens[index].3),
{
    if index > 0 {
        assert(tokens[index - 1].0 <= tokens[index].0);
    }
}

proof fn placing_keeps_order(tokens: Seq<Token>, token: Token)
    requires
        ordered(tokens),
    ensures
        ordered(with_token(tokens, token)),
        forall|i: int|
            0 <= i < with_token(tokens, token).len() ==> #[trigger] with_token(tokens, token)[i]
                == token || tokens.contains(with_token(tokens, token)[i]),
    decreases tokens.len(),
{
    let placed = with_token(tokens, token);
    if tokens.len() == 0 || token_before(token, tokens[0]) {
        assert forall|i: int, j: int| 0 <= i < j < placed.len() implies !token_before(
            #[trigger] placed[j],
            #[trigger] placed[i],
        ) by {
            if i > 0 {
                assert(!token_before(tokens[j - 1], tokens[i - 1]));
            } else if j > 1 {
                assert(!token_before(tokens[j - 1], tokens[0]));
            }
        }
        assert forall|i: int| 0 <= i < placed.len() implies #[trigger] placed[i] == token
            || tokens.contains(placed[i]) by {
            if i > 0 {
                assert(tokens[i - 1] == placed[i]);
            }
        }
    } else {
        let rest = tokens.drop_first();
        let tail = with_token(rest, token);
        assert forall|i: int, j: int| 0 <= i < j < rest.len() implies !token_before(
            #[trigger] rest[j],
            #[trigger] rest[i],
        ) by {
            assert(!token_before(tokens[j + 1], tokens[i + 1]));
        }
        placing_keeps_order(rest, token);
        assert forall|i: int, j: int| 0 <= i < j < placed.len() implies !token_before(
            #[trigger] placed[j],
            #[trigger] placed[i],
        ) by {
            assert(placed[j] == tail[j - 1]);
            if i > 0 {
                assert(placed[i] == tail[i - 1]);
            } else if tail[j - 1] != token {
                let k = choose|k: int| 0 <= k < rest.len() && rest[k] == tail[j - 1];
                assert(tokens[k + 1] == placed[j]);
                assert(!token_before(tokens[k + 1], tokens[0]));
            }
        }
        assert forall|i: int| 0 <= i < placed.len() implies #[trigger] placed[i] == token
            || tokens.contains(placed[i]) by {
            if i > 0 {
                assert(placed[i] == tail[i - 1]);
                if tail[i - 1] != token {
                    let k = choose|k: int| 0 <= k < rest.len() && rest[k] == tail[i - 1];
                    assert(tokens[k + 1] == placed[i]);
                }
            } else {
                assert(tokens[0] == placed[i]);
            }
        }
    }
}

proof fn ranges_keep_order(
    tokens: Seq<Token>,
    starts: Seq<u32>,
    kind: Kind,
    ranges: Seq<Range>,
    count: nat,
)
    requires
        ordered(tokens),
    ensures
        ordered(with_ranges(tokens, starts, kind, ranges, count)),
    decreases count,
{
    if 0 < count <= ranges.len() {
        ranges_keep_order(tokens, starts, kind, ranges, (count - 1) as nat);
        if let Some(token) = token_for(starts, ranges[count - 1]) {
            placing_keeps_order(
                with_ranges(tokens, starts, kind, ranges, (count - 1) as nat),
                (token.0, token.1, token.2, token_type(kind)),
            );
        }
    }
}

/// The tokens of usages come in order, as the relative encoding needs them.
pub proof fn tokens_come_in_order(starts: Seq<u32>, usages: Seq<UsageView>, count: nat)
    ensures
        ordered(tokens_of(starts, usages, count)),
    decreases count,
{
    if 0 < count <= usages.len() {
        tokens_come_in_order(starts, usages, (count - 1) as nat);
        let usage = usages[count - 1];
        ranges_keep_order(
            tokens_of(starts, usages, (count - 1) as nat),
            starts,
            usage.kind,
            usage.ranges,
            usage.ranges.len(),
        );
    }
}

} // verus!
