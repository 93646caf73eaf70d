//! UTF-8 byte offsets and UTF-16 code-unit offsets, lines and characters.
//!
//! The parser counts in UTF-8 bytes; editors count in UTF-16 code units.
use vstd::prelude::*;
use vstd::string::StringSliceAdditionalSpecFns;

use crate::text;

verus! {

/// How many bytes `c` takes in UTF-8.
pub open spec fn utf8_len(c: char) -> nat {
    if (c as int) < 0x80 {
        1
    } else if (c as int) < 0x800 {
        2
    } else if (c as int) < 0x10000 {
        3
    } else {
        4
    }
}

/// How many code units `c` takes in UTF-16.
pub open spec fn utf16_len(c: char) -> nat {
    if (c as int) < 0x10000 {
        1
    } else {
        2
    }
}

/// How many bytes `chars` take in UTF-8.
pub open spec fn utf8_width(chars: Seq<char>) -> nat
    decreases chars.len(),
{
    if chars.len() == 0 {
        0
    } else {
        utf8_width(chars.drop_last()) + utf8_len(chars.last())
    }
}

/// How many code units `chars` take in UTF-16.
pub open spec fn utf16_width(chars: Seq<char>) -> nat
    decreases chars.len(),
{
    if chars.len() == 0 {
        0
    } else {
        utf16_width(chars.drop_last()) + utf16_len(chars.last())
    }
}

/// The UTF-16 length of the longest beginning of `chars` that takes at most `bytes` bytes.
pub open spec fn utf16_offset(chars: Seq<char>, bytes: int) -> nat
    decreases chars.len(),
{
    if chars.len() == 0 {
        0
    } else if utf8_width(chars) <= bytes {
        utf16_width(chars)
    } else {
        utf16_offset(chars.drop_last(), bytes)
    }
}

/// The encoding of a text has as many bytes as its characters take.
pub proof fn encoded_length(chars: Seq<char>)
    ensures
        vstd::utf8::encode_utf8(chars).len() == utf8_width(chars),
    decreases chars.len(),
{
    if chars.len() > 0 {
        encoded_length(chars.drop_first());
        width_from_front(chars);
        scalar_length(chars[0]);
    }
}

proof fn scalar_length(c: char)
    ensures
        vstd::utf8::encode_scalar(c as u32).len() == utf8_len(c),
{
    vstd::utf8::char_is_scalar(c);
}

proof fn width_from_front(chars: Seq<char>)
    requires
        chars.len() > 0,
    ensures
        utf8_width(chars) == utf8_len(chars[0]) + utf8_width(chars.drop_first()),
    decreases chars.len(),
{
    if chars.len() == 1 {
        assert(chars.drop_last().len() == 0);
        assert(chars.drop_first().len() == 0);
        assert(utf8_width(chars.drop_last()) == 0);
    } else {
        width_from_front(chars.drop_last());
        assert(chars.drop_last().drop_first() =~= chars.drop_first().drop_last());
    }
}

/// A beginning of a text is no longer than the text, in UTF-8 and in UTF-16, and UTF-16 takes at
/// most one code unit for each byte of UTF-8.
proof fn widths_grow(chars: Seq<char>, count: int)
    requires
        0 <= count <= chars.len(),
    ensures
        utf8_width(chars.take(count)) <= utf8_width(chars),
        utf16_width(chars.take(count)) <= utf16_width(chars),
        utf16_width(chars) <= utf8_width(chars),
        chars.len() <= utf16_width(chars),
        count < chars.len() ==> utf8_width(chars.take(count)) < utf8_width(chars),
        count < chars.len() ==> utf16_width(chars.take(count)) < utf16_width(chars),
    decreases chars.len(),
{
    if count == chars.len() {
        assert(chars.take(count) =~= chars);
        if chars.len() > 0 {
            widths_grow(chars.drop_last(), 0);
        }
    } else {
        widths_grow(chars.drop_last(), count);
        assert(chars.drop_last().take(count) =~= chars.take(count));
    }
}

/// A text takes no more code units in UTF-16 than bytes in UTF-8.
pub proof fn utf16_is_no_longer(chars: Seq<char>)
    ensures
        utf16_width(chars) <= utf8_width(chars),
{
    widths_grow(chars, 0);
}

/// How many bytes `c` takes in UTF-8.
pub fn len_utf8(c: char) -> (len: u32)
    ensures
        len == utf8_len(c),
{
    let code: u32 = c as u32;
    if code < 0x80 {
        1
    } else if code < 0x800 {
        2
    } else if code < 0x10000 {
        3
    } else {
        4
    }
}

/// How many code units `c` takes in UTF-16.
pub fn len_utf16(c: char) -> (len: u32)
    ensures
        len == utf16_len(c),
{
    if (c as u32) < 0x10000 {
        1
    } else {
        2
    }
}

/// How many of the ascending `offsets` are at most `bound`.
pub open spec fn count_up_to(offsets: Seq<u32>, bound: int) -> nat
    decreases offsets.len(),
{
    if offsets.len() == 0 {
        0
    } else if offsets.last() <= bound {
        offsets.len()
    } else {
        count_up_to(offsets.drop_last(), bound)
    }
}

/// Whether `offsets` are strictly ascending.
pub open spec fn ascending(offsets: Seq<u32>) -> bool {
    forall|i: int, j: int| 0 <= i < j < offsets.len() ==> offsets[i] < offsets[j]
}

/// Where the count of offsets up to a bound lies is fixed by its neighbours.
proof fn count_is(offsets: Seq<u32>, bound: int, count: int)
    requires
        0 <= count <= offsets.len(),
        count > 0 ==> offsets[count - 1] <= bound,
        forall|i: int| count <= i < offsets.len() ==> offsets[i] > bound,
    ensures
        count_up_to(offsets, bound) == count,
    decreases offsets.len(),
{
    if count < offsets.len() {
        count_is(offsets.drop_last(), bound, count);
    }
}

/// How many of the ascending `offsets` are at most `bound`.
fn count_offsets(offsets: &Vec<u32>, bound: i64) -> (count: usize)
    requires
        ascending(offsets@),
    ensures
        count == count_up_to(offsets@, bound as int),
        count <= offsets.len(),
{
    let mut low: usize = 0;
    let mut high: usize = offsets.len();
    while low < high
        invariant
            low <= high <= offsets.len(),
            ascending(offsets@),
            low > 0 ==> offsets@[low - 1] <= bound,
            forall|i: int| high <= i < offsets.len() ==> offsets@[i] > bound,
        decreases high - low,
    {
        let middle: usize = low + (high - low) / 2;
        if offsets[middle] as i64 <= bound {
            low = middle + 1;
        } else {
            high = middle;
        }
    }
    proof {
        count_is(offsets@, bound as int, low as int);
    }
    low
}

/// The UTF-16 offsets at which the lines of `source` start.
pub open spec fn line_starts_of(source: Seq<char>) -> Seq<u32>
    decreases source.len(),
{
    if source.len() == 0 {
        seq![0u32]
    } else if source.last() == '\n' {
        line_starts_of(source.drop_last()).push(utf16_width(source) as u32)
    } else {
        line_starts_of(source.drop_last())
    }
}

/// Line index over UTF-16 code-unit offsets.
#[derive(Debug, Clone, PartialEq, Eq)]
pub struct Utf16LineIndex {
    pub line_starts: Vec<u32>,
}

impl Utf16LineIndex {
    /// Whether the lines start in ascending order, the first at the beginning.
    pub open spec fn well_formed(&self) -> bool {
        &&& self.line_starts@.len() > 0
        &&& self.line_starts@[0] == 0
        &&& ascending(self.line_starts@)
    }

    /// The index of the lines of `source`.
    pub fn new(source: &str) -> (index: Self)
        requires
            utf16_width(source@) <= u32::MAX,
        ensures
            index.line_starts@ == line_starts_of(source@),
            index.well_formed(),
    {
        let chars = text::chars_of(source);
        let mut line_starts: Vec<u32> = Vec::new();
        line_starts.push(0);
        let mut offset: u32 = 0;
        let mut i: usize = 0;
        proof {
            assert(chars@.take(0) =~= Seq::<char>::empty());
        }
        while i < chars.len()
            invariant
                i <= chars.len(),
                utf16_width(chars@) <= u32::MAX,
                offset == utf16_width(chars@.take(i as int)),
                line_starts@ == line_starts_of(chars@.take(i as int)),
                line_starts@.len() > 0,
                line_starts@[0] == 0,
                ascending(line_starts@),
                forall|j: int| 0 <= j < line_starts@.len() ==> line_starts@[j] <= offset,
            decreases chars.len() - i,
        {
            let c = chars[i];
            proof {
                let longer = chars@.take(i + 1);
                assert(longer.drop_last() =~= chars@.take(i as int));
                assert(longer.last() == c);
                widths_grow(chars@, i + 1);
                widths_grow(longer, 0);
            }
            offset = offset + len_utf16(c);
            if c == '\n' {
                line_starts.push(offset);
            }
            i = i + 1;
        }
        proof {
            assert(chars@.take(i as int) =~= source@);
        }
        Utf16LineIndex { line_starts }
    }

    /// The zero-based line of a UTF-16 offset, and how far it stands behind the line's start.
    pub fn position(&self, utf16_offset: u32) -> (position: (u32, u32))
        requires
            self.well_formed(),
        ensures
            ({
                let line = count_up_to(self.line_starts@, utf16_offset as int) - 1;
                &&& 0 <= line < self.line_starts@.len()
                &&& position.0 == (if line <= u32::MAX {
                    line
                } else {
                    u32::MAX as int
                })
                &&& position.1 == utf16_offset - self.line_starts@[line]
            }),
    {
        let count = count_offsets(&self.line_starts, utf16_offset as i64);
        proof {
            count_covers(self.line_starts@, utf16_offset as int);
        }
        let line: usize = count - 1;
        let line_start = self.line_starts[line];
        let line: u32 = if line <= 0xffff_ffff {
            line as u32
        } else {
            0xffff_ffff
        };
        (line, utf16_offset - line_start)
    }
}

/// An offset that is counted is at most the bound; where one is, the count is positive.
proof fn count_covers(offsets: Seq<u32>, bound: int)
    requires
        ascending(offsets),
    ensures
        count_up_to(offsets, bound) <= offsets.len(),
        count_up_to(offsets, bound) > 0 ==> offsets[count_up_to(offsets, bound) - 1] <= bound,
        forall|i: int|
            count_up_to(offsets, bound) <= i < offsets.len() ==> offsets[i] > bound,
    decreases offsets.len(),
{
    if offsets.len() > 0 && offsets.last() > bound {
        count_covers(offsets.drop_last(), bound);
        assert forall|i: int|
            count_up_to(offsets, bound) <= i < offsets.len() implies offsets[i] > bound by {
            if i < offsets.len() - 1 {
                assert(offsets.drop_last()[i] > bound);
            }
        }
    }
}

/// The byte offset and the UTF-16 offset of each character boundary of `source`.
pub open spec fn mapping_of(source: Seq<char>) -> Seq<(u32, u32)>
    decreases source.len(),
{
    if source.len() == 0 {
        seq![(0u32, 0u32)]
    } else {
        mapping_of(source.drop_last()).push(
            (utf8_width(source) as u32, utf16_width(source) as u32),
        )
    }
}

/// The UTF-16 offsets of the line feeds of `source`.
pub open spec fn newlines_of(source: Seq<char>) -> Seq<u32>
    decreases source.len(),
{
    if source.len() == 0 {
        Seq::empty()
    } else if source.last() == '\n' {
        newlines_of(source.drop_last()).push(utf16_width(source.drop_last()) as u32)
    } else {
        newlines_of(source.drop_last())
    }
}

/// The UTF-16 offset of the last of `mapping`'s boundaries that is at most `bytes`; zero where
/// there is none.
pub open spec fn offset_at(mapping: Seq<(u32, u32)>, bytes: int) -> u32
    decreases mapping.len(),
{
    if mapping.len() == 0 {
        0
    } else if mapping.last().0 <= bytes {
        mapping.last().1
    } else {
        offset_at(mapping.drop_last(), bytes)
    }
}

/// Maps UTF-8 byte offsets to UTF-16 code-unit offsets.
#[derive(Debug)]
pub struct Utf16Mapper {
    /// The byte offset and the UTF-16 offset of each character boundary.
    pub mapping: Vec<(u32, u32)>,
    /// The UTF-16 offsets of the line feeds.
    pub newline_utf16_offsets: Vec<u32>,
    /// The length of the source in bytes.
    pub source_len: u32,
}

/// What a mapper knows of its source.
#[verifier::ext_equal]
pub struct Boundaries {
    pub mapping: Seq<(u32, u32)>,
    pub newlines: Seq<u32>,
    pub source_len: u32,
}

impl View for Utf16Mapper {
    type V = Boundaries;

    open spec fn view(&self) -> Boundaries {
        Boundaries {
            mapping: self.mapping@,
            newlines: self.newline_utf16_offsets@,
            source_len: self.source_len,
        }
    }
}

/// The boundaries of `source`.
pub open spec fn boundaries_of(source: Seq<char>) -> Boundaries {
    Boundaries {
        mapping: mapping_of(source),
        newlines: newlines_of(source),
        source_len: utf8_width(source) as u32,
    }
}

impl Boundaries {
    /// Whether the boundaries and the line feeds come in ascending order.
    pub open spec fn well_formed(self) -> bool {
        &&& forall|i: int, j: int|
            0 <= i < j < self.mapping.len() ==> (#[trigger] self.mapping[i]).0 < (
            #[trigger] self.mapping[j]).0
        &&& ascending(self.newlines)
        &&& forall|i: int| 0 <= i < self.newlines.len() ==> self.newlines[i] < u32::MAX
    }

    /// The UTF-16 offset of the byte offset `bytes`, which counts no further than the source.
    pub open spec fn utf16(self, bytes: u32) -> u32 {
        offset_at(
            self.mapping,
            if bytes <= self.source_len {
                bytes as int
            } else {
                self.source_len as int
            },
        )
    }

    /// The UTF-16 length of the source.
    pub open spec fn utf16_length(self) -> u32 {
        if self.mapping.len() == 0 {
            0
        } else {
            self.mapping.last().1
        }
    }

    /// The line and the character of a UTF-16 offset that lies in the source. On the first line
    /// of a source that holds a line feed every offset counts as the first character.
    pub open spec fn line_and_character(self, utf16_offset: u32) -> (int, int) {
        let within = if utf16_offset <= self.utf16_length() {
            utf16_offset as int
        } else {
            self.utf16_length() as int
        };
        let line = count_up_to(self.newlines, within - 1) as int;
        let character = if self.newlines.len() == 0 {
            within
        } else if line == 0 {
            0
        } else {
            within - (self.newlines[line - 1] + 1)
        };
        (
            if line <= u32::MAX {
                line
            } else {
                u32::MAX as int
            },
            character,
        )
    }
}

proof fn offset_is(mapping: Seq<(u32, u32)>, bytes: int, count: int)
    requires
        0 <= count <= mapping.len(),
        count > 0 ==> mapping[count - 1].0 <= bytes,
        forall|i: int| count <= i < mapping.len() ==> (#[trigger] mapping[i]).0 > bytes,
    ensures
        offset_at(mapping, bytes) == (if count == 0 {
            0
        } else {
            mapping[count - 1].1
        }),
    decreases mapping.len(),
{
    if count < mapping.len() {
        offset_is(mapping.drop_last(), bytes, count);
    }
}

impl Utf16Mapper {
    /// Builds the mapper of `source`.
    pub fn new(source: &str) -> (mapper: Self)
        requires
            source.spec_bytes().len() <= u32::MAX,
        ensures
            mapper@ == boundaries_of(source@),
            mapper@.well_formed(),
    {
        proof {
            encoded_length(source@);
        }
        let chars = text::chars_of(source);
        let mut mapping: Vec<(u32, u32)> = Vec::new();
        mapping.push((0, 0));
        let mut newline_utf16_offsets: Vec<u32> = Vec::new();
        let mut byte_offset: u32 = 0;
        let mut utf16_offset: u32 = 0;
        let mut i: usize = 0;
        proof {
            assert(chars@.take(0) =~= Seq::<char>::empty());
        }
        while i < chars.len()
            invariant
                i <= chars.len(),
                utf8_width(chars@) <= u32::MAX,
                byte_offset == utf8_width(chars@.take(i as int)),
                utf16_offset == utf16_width(chars@.take(i as int)),
                utf16_offset <= byte_offset,
                mapping@ == mapping_of(chars@.take(i as int)),
                newline_utf16_offsets@ == newlines_of(chars@.take(i as int)),
                forall|j: int, k: int|
                    0 <= j < k < mapping@.len() ==> (#[trigger] mapping@[j]).0 < (
                    #[trigger] mapping@[k]).0,
                forall|j: int| 0 <= j < mapping@.len() ==> (#[trigger] mapping@[j]).0 <= byte_offset,
                ascending(newline_utf16_offsets@),
                forall|j: int|
                    0 <= j < newline_utf16_offsets@.len() ==> newline_utf16_offsets@[j]
                        < utf16_offset,
            decreases chars.len() - i,
        {
            let c = chars[i];
            proof {
                let longer = chars@.take(i + 1);
                assert(longer.drop_last() =~= chars@.take(i as int));
                assert(longer.last() == c);
                widths_grow(chars@, i + 1);
                widths_grow(longer, 0);
            }
            if c == '\n' {
                newline_utf16_offsets.push(utf16_offset);
            }
            byte_offset = byte_offset + len_utf8(c);
            utf16_offset = utf16_offset + len_utf16(c);
            mapping.push((byte_offset, utf16_offset));
            i = i + 1;
        }
        proof {
            assert(chars@.take(i as int) =~= source@);
        }
        Utf16Mapper { mapping, newline_utf16_offsets, source_len: source.len() as u32 }
    }

    /// Converts a UTF-8 byte offset to a UTF-16 code-unit offset. Offsets past the end count as
    /// the end; an offset inside a character counts as the character's start.
    pub fn to_utf16(&self, byte_offset: u32) -> (offset: u32)
        requires
            self@.well_formed(),
        ensures
            offset == self@.utf16(byte_offset),
    {
        let bound: u32 = if byte_offset <= self.source_len {
            byte_offset
        } else {
            self.source_len
        };
        let mut low: usize = 0;
        let mut high: usize = self.mapping.len();
        while low < high
            invariant
                low <= high <= self.mapping.len(),
                self@.well_formed(),
                low > 0 ==> self@.mapping[low - 1].0 <= bound,
                forall|i: int|
                    high <= i < self.mapping.len() ==> (#[trigger] self@.mapping[i]).0 > bound,
            decreases high - low,
        {
            let middle: usize = low + (high - low) / 2;
            let boundary = self.mapping[middle];
            assert(boundary == self@.mapping[middle as int]);
            if boundary.0 <= bound {
                low = middle + 1;
            } else {
                high = middle;
            }
        }
        proof {
            offset_is(self@.mapping, bound as int, low as int);
        }
        if low > 0 {
            self.mapping[low - 1].1
        } else {
            0
        }
    }

    /// Converts a UTF-16 code-unit offset into a zero-based line and character pair. Lines
    /// advance on line feeds only. On the first line of a source that holds a line feed every
    /// offset counts as the first character.
    pub fn line_and_character_for_utf16(&self, utf16_offset: u32) -> (position: (u32, u32))
        requires
            self@.well_formed(),
        ensures
            position.0 == self@.line_and_character(utf16_offset).0,
            position.1 == self@.line_and_character(utf16_offset).1,
    {
        let boundaries = self.mapping.len();
        let length: u32 = if boundaries == 0 {
            0
        } else {
            self.mapping[boundaries - 1].1
        };
        let within: u32 = if utf16_offset <= length {
            utf16_offset
        } else {
            length
        };
        let line = count_offsets(&self.newline_utf16_offsets, within as i64 - 1);
        proof {
            count_covers(self.newline_utf16_offsets@, within - 1);
        }
        let character: u32 = if self.newline_utf16_offsets.len() == 0 {
            within
        } else if line == 0 {
            0
        } else {
            within - (self.newline_utf16_offsets[line - 1] + 1)
        };
        let line: u32 = if line <= 0xffff_ffff {
            line as u32
        } else {
            0xffff_ffff
        };
        (line, character)
    }
}

/// A mapper of `source` gives for each byte offset the UTF-16 length of the characters that end
/// at or before it.
pub proof fn mapper_counts_utf16_units(source: Seq<char>, bytes: u32)
    requires
        utf8_width(source) <= u32::MAX,
    ensures
        boundaries_of(source).utf16(bytes) == utf16_offset(source, bytes as int),
{
    let within = if bytes <= utf8_width(source) {
        bytes as int
    } else {
        utf8_width(source) as int
    };
    mapping_gives_offset(source, within);
    if bytes > utf8_width(source) {
        assert(utf16_offset(source, bytes as int) == utf16_offset(source, within));
    }
}

proof fn mapping_gives_offset(source: Seq<char>, bytes: int)
    requires
        utf8_width(source) <= u32::MAX,
        0 <= bytes,
    ensures
        offset_at(mapping_of(source), bytes) == utf16_offset(source, bytes),
    decreases source.len(),
{
    if source.len() > 0 {
        widths_grow(source, source.len() as int - 1);
        assert(source.take(source.len() as int - 1) =~= source.drop_last());
        mapping_gives_offset(source.drop_last(), bytes);
        let shorter = mapping_of(source.drop_last());
        assert(mapping_of(source).drop_last() =~= shorter);
    }
}

/// On a character boundary the mapper gives the UTF-16 length of the text before it.
pub proof fn boundaries_map_exactly(source: Seq<char>, count: int, bytes: u32)
    requires
        utf8_width(source) <= u32::MAX,
        0 <= count <= source.len(),
        bytes == utf8_width(source.take(count)),
    ensures
        boundaries_of(source).utf16(bytes) == utf16_width(source.take(count)),
{
    mapper_counts_utf16_units(source, bytes);
    exact_offset(source, count);
}

proof fn exact_offset(source: Seq<char>, count: int)
    requires
        0 <= count <= source.len(),
    ensures
        utf16_offset(source, utf8_width(source.take(count)) as int) == utf16_width(
            source.take(count),
        ),
    decreases source.len(),
{
    if count == source.len() {
        assert(source.take(count) =~= source);
    } else {
        widths_grow(source, count);
        exact_offset(source.drop_last(), count);
        assert(source.drop_last().take(count) =~= source.take(count));
    }
}

/// A later byte offset never maps to an earlier UTF-16 offset.
pub proof fn mapping_is_monotonic(source: Seq<char>, earlier: u32, later: u32)
    requires
        utf8_width(source) <= u32::MAX,
        earlier <= later,
    ensures
        boundaries_of(source).utf16(earlier) <= boundaries_of(source).utf16(later),
{
    mapper_counts_utf16_units(source, earlier);
    mapper_counts_utf16_units(source, later);
    offset_is_monotonic(source, earlier as int, later as int);
}

proof fn offset_is_monotonic(source: Seq<char>, earlier: int, later: int)
    requires
        earlier <= later,
    ensures
        utf16_offset(source, earlier) <= utf16_offset(source, later) <= utf16_width(source),
    decreases source.len(),
{
    if source.len() > 0 {
        offset_is_monotonic(source.drop_last(), earlier, later);
        widths_grow(source, source.len() as int - 1);
        assert(source.take(source.len() as int - 1) =~= source.drop_last());
    }
}

/// Each line but the first starts right behind a line feed.
proof fn lines_follow_newlines(source: Seq<char>)
    requires
        utf16_width(source) <= u32::MAX,
    ensures
        line_starts_of(source).len() == newlines_of(source).len() + 1,
        line_starts_of(source)[0] == 0,
        forall|i: int|
            0 <= i < newlines_of(source).len() ==> #[trigger] line_starts_of(source)[i + 1]
                == newlines_of(source)[i] + 1,
        forall|i: int|
            0 <= i < newlines_of(source).len() ==> #[trigger] newlines_of(source)[i]
                < utf16_width(source),
        ascending(newlines_of(source)),
    decreases source.len(),
{
    if source.len() > 0 {
        widths_grow(source, source.len() as int - 1);
        assert(source.take(source.len() as int - 1) =~= source.drop_last());
        lines_follow_newlines(source.drop_last());
        assert forall|i: int|
            0 <= i < newlines_of(source).len() implies #[trigger] line_starts_of(source)[i + 1]
            == newlines_of(source)[i] + 1 by {
            if i < newlines_of(source.drop_last()).len() {
                assert(line_starts_of(source.drop_last())[i + 1] == newlines_of(
                    source.drop_last(),
                )[i] + 1);
            }
        }
        assert forall|i: int| 0 <= i < newlines_of(source).len() implies #[trigger] newlines_of(
            source,
        )[i] < utf16_width(source) by {
            if i < newlines_of(source.drop_last()).len() {
                assert(newlines_of(source.drop_last())[i] < utf16_width(source.drop_last()));
            }
        }
    }
}

/// The line index and the mapper of one source agree on every position within it, but for the
/// characters of the first line where more lines follow.
pub proof fn positions_agree(source: Seq<char>, utf16_offset: u32)
    requires
        utf8_width(source) <= u32::MAX,
        utf16_offset <= utf16_width(source),
        newlines_of(source).len() == 0 || newlines_of(source)[0] < utf16_offset,
    ensures
        ({
            let line = count_up_to(line_starts_of(source), utf16_offset as int) - 1;
            boundaries_of(source).line_and_character(utf16_offset) == (
                line,
                utf16_offset - line_starts_of(source)[line],
            )
        }),
{
    let newlines = newlines_of(source);
    let starts = line_starts_of(source);
    widths_grow(source, 0);
    lines_follow_newlines(source);
    let line = count_up_to(newlines, utf16_offset - 1) as int;
    count_covers(newlines, utf16_offset - 1);
    assert(boundaries_of(source).utf16_length() == utf16_width(source)) by {
        if source.len() > 0 {
            assert(mapping_of(source).last() == (
                utf8_width(source) as u32,
                utf16_width(source) as u32,
            ));
        }
    }
    assert forall|i: int| line + 1 <= i < starts.len() implies starts[i] > utf16_offset by {
        assert(starts[(i - 1) + 1] == newlines[i - 1] + 1);
    }
    if line > 0 {
        assert(starts[(line - 1) + 1] == newlines[line - 1] + 1);
    }
    count_is(starts, utf16_offset as int, line + 1);
    newline_count(source);
}

proof fn newline_count(source: Seq<char>)
    ensures
        newlines_of(source).len() <= source.len(),
    decreases source.len(),
{
    if source.len() > 0 {
        newline_count(source.drop_last());
    }
}

/// The mapper gives no offset behind the end of the source.
pub proof fn offsets_stay_inside(source: Seq<char>, bytes: u32)
    requires
        utf8_width(source) <= u32::MAX,
    ensures
        boundaries_of(source).utf16(bytes) <= utf16_width(source),
{
    mapper_counts_utf16_units(source, bytes);
    offset_is_monotonic(source, bytes as int, bytes as int);
}

/// Two texts have the same lines if and only if their line feeds stand at the same offsets.
pub proof fn lines_are_told_by_newlines(a: Seq<char>, b: Seq<char>)
    requires
        utf16_width(a) <= u32::MAX,
        utf16_width(b) <= u32::MAX,
    ensures
        line_starts_of(a) == line_starts_of(b) <==> newlines_of(a) == newlines_of(b),
{
    lines_follow_newlines(a);
    lines_follow_newlines(b);
    if newlines_of(a) == newlines_of(b) {
        assert forall|i: int| 0 <= i < line_starts_of(a).len() implies line_starts_of(a)[i]
            == line_starts_of(b)[i] by {
            if i > 0 {
                assert(line_starts_of(a)[(i - 1) + 1] == newlines_of(a)[i - 1] + 1);
                assert(line_starts_of(b)[(i - 1) + 1] == newlines_of(b)[i - 1] + 1);
            }
        }
        assert(line_starts_of(a) =~= line_starts_of(b));
    }
    if line_starts_of(a) == line_starts_of(b) {
        assert forall|i: int| 0 <= i < newlines_of(a).len() implies newlines_of(a)[i]
            == newlines_of(b)[i] by {
            assert(line_starts_of(a)[i + 1] == newlines_of(a)[i] + 1);
            assert(line_starts_of(b)[i + 1] == newlines_of(b)[i] + 1);
        }
        assert(newlines_of(a) =~= newlines_of(b));
    }
}

/// The line of an offset is the number of line feeds before it, and the line starts right behind
/// the last of them. An offset behind the end stays on the last line.
pub proof fn lines_count_newlines(source: Seq<char>, utf16_offset: u32)
    requires
        utf16_width(source) <= u32::MAX,
    ensures
        ({
            let line = count_up_to(newlines_of(source), utf16_offset - 1) as int;
            &&& count_up_to(line_starts_of(source), utf16_offset as int) == line + 1
            &&& line_starts_of(source)[line] == (if line == 0 {
                0
            } else {
                newlines_of(source)[line - 1] + 1
            })
        }),
{
    let newlines = newlines_of(source);
    let starts = line_starts_of(source);
    lines_follow_newlines(source);
    let line = count_up_to(newlines, utf16_offset - 1) as int;
    count_covers(newlines, utf16_offset - 1);
    assert forall|i: int| line + 1 <= i < starts.len() implies starts[i] > utf16_offset by {
        assert(starts[(i - 1) + 1] == newlines[i - 1] + 1);
    }
    if line > 0 {
        assert(starts[(line - 1) + 1] == newlines[line - 1] + 1);
    }
    count_is(starts, utf16_offset as int, line + 1);
}

} // verus!
