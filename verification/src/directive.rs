//! The `"use client"` directive at the beginning of a module.
use vstd::prelude::*;

verus! {

/// Where `byte` first stands in `source` from `at` on; the end where it does not.
pub open spec fn next_byte(source: Seq<u8>, at: int, byte: u8) -> int
    decreases source.len() - at,
{
    if at >= source.len() || source[at] == byte {
        at
    } else {
        next_byte(source, at + 1, byte)
    }
}

/// Where `*/` first stands in `source` from `at` on.
pub open spec fn comment_end(source: Seq<u8>, at: int) -> Option<int>
    decreases source.len() - at,
{
    if at + 1 >= source.len() {
        None
    } else if source[at] == 42 && source[at + 1] == 47 {
        Some(at)
    } else {
        comment_end(source, at + 1)
    }
}

/// Whether a quote stands at `at`.
pub open spec fn quote_at(source: Seq<u8>, at: int) -> bool {
    source[at] == 34 || source[at] == 39
}

/// Whether the literal `use client`, in quotes of one kind, stands at `at`.
pub open spec fn use_client_literal_at(source: Seq<u8>, at: int) -> bool {
    &&& quote_at(source, at)
    &&& at + 12 <= source.len()
    &&& source.subrange(at + 1, at + 11) == seq![
        117u8,
        115u8,
        101u8,
        32u8,
        99u8,
        108u8,
        105u8,
        101u8,
        110u8,
        116u8,
    ]
    &&& source[at + 11] == source[at]
}

/// Where the scan goes on behind what stands at `at`: white space, a semicolon, the byte order
/// mark at the very beginning, a comment, or a string. Nothing where anything else stands there,
/// or where a block comment or a string has no end.
pub open spec fn behind_prologue_item(source: Seq<u8>, at: int) -> Option<int> {
    if source[at] <= 32 || source[at] == 59 {
        Some(at + 1)
    } else if at == 0 && source.len() >= 3 && source[0] == 0xEF && source[1] == 0xBB && source[2]
        == 0xBF {
        Some(3)
    } else if source[at] == 47 && at + 1 < source.len() && source[at + 1] == 47 {
        Some(next_byte(source, at + 2, 10))
    } else if source[at] == 47 && at + 1 < source.len() && source[at + 1] == 42 {
        match comment_end(source, at + 2) {
            Some(end) => Some(end + 2),
            None => None,
        }
    } else if quote_at(source, at) && next_byte(source, at + 1, source[at]) < source.len() {
        Some(next_byte(source, at + 1, source[at]) + 1)
    } else {
        None
    }
}

/// Whether the scan from `at` on comes to the directive.
pub open spec fn use_client_from(source: Seq<u8>, at: int) -> bool
    decreases source.len() - at,
{
    if at < 0 || at >= source.len() {
        false
    } else if use_client_literal_at(source, at) {
        true
    } else {
        match behind_prologue_item(source, at) {
            Some(next) => if at < next <= source.len() {
                use_client_from(source, next)
            } else {
                false
            },
            None => false,
        }
    }
}

/// Whether `source` is a client module: only white space, semicolons, comments and other strings
/// stand before the string `use client`.
pub open spec fn is_client_module(source: Seq<u8>) -> bool {
    use_client_from(source, 0)
}

/// Where a byte first stands is not before where the search for it starts.
pub proof fn next_byte_is_ahead(source: Seq<u8>, at: int, byte: u8)
    requires
        at <= source.len(),
    ensures
        at <= next_byte(source, at, byte) <= source.len(),
    decreases source.len() - at,
{
    if at < source.len() && source[at] != byte {
        next_byte_is_ahead(source, at + 1, byte);
    }
}

proof fn comment_end_is_ahead(source: Seq<u8>, at: int)
    ensures
        comment_end(source, at) is Some ==> at <= comment_end(source, at)->0 < source.len() - 1,
    decreases source.len() - at,
{
    if at + 1 < source.len() && !(source[at] == 42 && source[at + 1] == 47) {
        comment_end_is_ahead(source, at + 1);
    }
}

/// Where `byte` first stands in `source` from `at` on; the end where it does not.
pub fn find_byte(source: &[u8], at: usize, byte: u8) -> (found: usize)
    requires
        at <= source@.len(),
    ensures
        found == next_byte(source@, at as int, byte),
        at <= found <= source@.len(),
{
    let mut i: usize = at;
    while i < source.len() && source[i] != byte
        invariant
            at <= i <= source@.len(),
            next_byte(source@, at as int, byte) == next_byte(source@, i as int, byte),
        decreases source@.len() - i,
    {
        i = i + 1;
    }
    i
}

/// Where `*/` first stands in `source` from `at` on.
fn find_comment_end(source: &[u8], at: usize) -> (found: Option<usize>)
    requires
        at <= source@.len(),
    ensures
        match found {
            Some(i) => comment_end(source@, at as int) == Some(i as int) && at <= i && i + 1
                < source@.len(),
            None => comment_end(source@, at as int) is None,
        },
{
    let mut i: usize = at;
    while i < source.len() && i + 1 < source.len()
        invariant
            at <= i <= source@.len(),
            comment_end(source@, at as int) == comment_end(source@, i as int),
        decreases source@.len() - i,
    {
        if source[i] == 42 && source[i + 1] == 47 {
            return Some(i);
        }
        i = i + 1;
    }
    None
}

/// Whether the literal `use client`, in quotes of one kind, stands at `at`.
fn is_use_client_literal(source: &[u8], at: usize) -> (result: bool)
    requires
        at < source@.len(),
    ensures
        result == use_client_literal_at(source@, at as int),
{
    let quote = source[at];
    if (quote != 34 && quote != 39) || source.len() - at < 12 {
        return false;
    }
    let result = source[at + 1] == 117 && source[at + 2] == 115 && source[at + 3] == 101
        && source[at + 4] == 32 && source[at + 5] == 99 && source[at + 6] == 108 && source[at + 7]
        == 105 && source[at + 8] == 101 && source[at + 9] == 110 && source[at + 10] == 116
        && source[at + 11] == quote;
    proof {
        let inner = source@.subrange(at + 1, at + 11);
        let wanted = seq![
            117u8,
            115u8,
            101u8,
            32u8,
            99u8,
            108u8,
            105u8,
            101u8,
            110u8,
            116u8,
        ];
        assert(forall|k: int| 0 <= k < 10 ==> inner[k] == source@[at + 1 + k]);
        if result {
            assert(inner =~= wanted);
        } else if use_client_literal_at(source@, at as int) {
            assert(inner[0] == 117 && inner[1] == 115 && inner[2] == 101 && inner[3] == 32
                && inner[4] == 99 && inner[5] == 108 && inner[6] == 105 && inner[7] == 101
                && inner[8] == 110 && inner[9] == 116);
        }
    }
    result
}

/// Whether `source`, as raw UTF-8 bytes, begins with a `"use client"` directive. Escapes are not
/// interpreted.
pub fn has_use_client_directive(source: &[u8]) -> (result: bool)
    ensures
        result == is_client_module(source@),
{
    let mut i: usize = 0;
    while i < source.len()
        invariant
            i <= source@.len(),
            is_client_module(source@) == use_client_from(source@, i as int),
        decreases source@.len() - i,
    {
        if is_use_client_literal(source, i) {
            return true;
        }
        let byte = source[i];
        if byte <= 32 || byte == 59 {
            i = i + 1;
        } else if i == 0 && source.len() >= 3 && source[0] == 0xEF && source[1] == 0xBB
            && source[2] == 0xBF {
            i = 3;
        } else if byte == 47 && source.len() - i > 1 && source[i + 1] == 47 {
            i = find_byte(source, i + 2, 10);
        } else if byte == 47 && source.len() - i > 1 && source[i + 1] == 42 {
            match find_comment_end(source, i + 2) {
                Some(end) => {
                    i = end + 2;
                },
                None => {
                    return false;
                },
            }
        } else if byte == 34 || byte == 39 {
            let end = find_byte(source, i + 1, byte);
            if end >= source.len() {
                return false;
            }
            i = end + 1;
        } else {
            return false;
        }
    }
    false
}

/// Nothing that follows the directive changes the answer.
pub proof fn directive_ignores_what_follows(source: Seq<u8>, tail: Seq<u8>)
    requires
        is_client_module(source),
    ensures
        is_client_module(source + tail),
{
    scan_ignores_what_follows(source, tail, 0);
}

/// Whether `source` holds nothing from `at` on but what the scan for the directive passes over:
/// white space, semicolons, comments that end in it, and strings other than the directive.
pub open spec fn passed_from(source: Seq<u8>, at: int) -> bool
    decreases source.len() - at,
{
    if at >= source.len() {
        at == source.len()
    } else if at < 0 {
        false
    } else if source[at] <= 32 || source[at] == 59 {
        passed_from(source, at + 1)
    } else if source[at] == 47 && at + 1 < source.len() && source[at + 1] == 47 {
        at < next_byte(source, at + 2, 10) < source.len() && passed_from(
            source,
            next_byte(source, at + 2, 10),
        )
    } else if source[at] == 47 && at + 1 < source.len() && source[at + 1] == 42 {
        match comment_end(source, at + 2) {
            Some(end) => at < end && end + 2 <= source.len() && passed_from(source, end + 2),
            None => false,
        }
    } else if quote_at(source, at) && !use_client_literal_at(source, at) {
        at < next_byte(source, at + 1, source[at]) < source.len() && passed_from(
            source,
            next_byte(source, at + 1, source[at]) + 1,
        )
    } else {
        false
    }
}

/// Whether `source` begins with the byte order mark.
pub open spec fn has_mark(source: Seq<u8>) -> bool {
    source.len() >= 3 && source[0] == 0xEF && source[1] == 0xBB && source[2] == 0xBF
}

/// Blanks, comments and other strings before a module do not change the answer. A byte order mark
/// counts only at the very beginning, so that nothing may stand before it.
pub proof fn directive_ignores_what_precedes(before: Seq<u8>, source: Seq<u8>)
    requires
        passed_from(before, 0),
        !has_mark(source),
    ensures
        is_client_module(before + source) == is_client_module(source),
{
    prologue_is_passed(before, source, 0);
    scan_is_shifted(before, source, 0);
}

proof fn prologue_is_passed(before: Seq<u8>, source: Seq<u8>, at: int)
    requires
        0 <= at,
        passed_from(before, at),
    ensures
        use_client_from(before + source, at) == use_client_from(
            before + source,
            before.len() as int,
        ),
    decreases before.len() - at,
{
    let longer = before + source;
    assert(forall|k: int| 0 <= k < before.len() ==> longer[k] == before[k]);
    if at < before.len() {
        if before[at] == 47 {
            if before[at + 1] == 47 {
                next_byte_with_tail(before, source, at + 2, 10);
                prologue_is_passed(before, source, next_byte(before, at + 2, 10));
            } else {
                comment_end_with_tail(before, source, at + 2);
                comment_end_is_ahead(before, at + 2);
                prologue_is_passed(before, source, comment_end(before, at + 2)->0 + 2);
            }
        } else if quote_at(before, at) {
            let end = next_byte(before, at + 1, before[at]);
            next_byte_with_tail(before, source, at + 1, before[at]);
            next_byte_is_first(before, at + 1, before[at]);
            assert(!use_client_literal_at(longer, at)) by {
                if use_client_literal_at(longer, at) {
                    let inner = longer.subrange(at + 1, at + 11);
                    assert forall|k: int| 0 <= k < 10 implies inner[k] != before[at] by {}
                    if end < at + 11 {
                        assert(inner[end - at - 1] == longer[end]);
                    } else {
                        assert(end == at + 11) by {
                            if end > at + 11 {
                                assert(longer[at + 11] == before[at + 11]);
                            }
                        }
                        assert(before.subrange(at + 1, at + 11) =~= inner);
                        assert(use_client_literal_at(before, at));
                    }
                }
            }
            prologue_is_passed(before, source, end + 1);
        } else {
            prologue_is_passed(before, source, at + 1);
        }
    }
}

proof fn next_byte_is_first(source: Seq<u8>, at: int, byte: u8)
    requires
        0 <= at,
        next_byte(source, at, byte) < source.len(),
    ensures
        at <= next_byte(source, at, byte),
        source[next_byte(source, at, byte)] == byte,
        forall|k: int| at <= k < next_byte(source, at, byte) ==> source[k] != byte,
    decreases source.len() - at,
{
    if at < source.len() && source[at] != byte {
        next_byte_is_first(source, at + 1, byte);
    }
}

proof fn next_byte_is_shifted(before: Seq<u8>, source: Seq<u8>, at: int, byte: u8)
    requires
        0 <= at,
    ensures
        next_byte(before + source, before.len() + at, byte) == before.len() + next_byte(
            source,
            at,
            byte,
        ),
    decreases source.len() - at,
{
    if at < source.len() {
        assert((before + source)[before.len() + at] == source[at]);
        if source[at] != byte {
            next_byte_is_shifted(before, source, at + 1, byte);
        }
    }
}

proof fn comment_end_is_shifted(before: Seq<u8>, source: Seq<u8>, at: int)
    requires
        0 <= at,
    ensures
        comment_end(before + source, before.len() + at) == (match comment_end(source, at) {
            Some(end) => Some(before.len() + end),
            None => None,
        }),
    decreases source.len() - at,
{
    if at + 1 < source.len() {
        assert((before + source)[before.len() + at] == source[at]);
        assert((before + source)[before.len() + at + 1] == source[at + 1]);
        if !(source[at] == 42 && source[at + 1] == 47) {
            comment_end_is_shifted(before, source, at + 1);
        }
    }
}

/// The scan behind what stands before a module goes as in the module itself.
pub proof fn scan_is_shifted(before: Seq<u8>, source: Seq<u8>, at: int)
    requires
        0 <= at,
        !has_mark(source),
    ensures
        use_client_from(before + source, before.len() + at) == use_client_from(source, at),
    decreases source.len() - at,
{
    let longer = before + source;
    let there = before.len() + at;
    if at < source.len() {
        assert(forall|k: int| 0 <= k < source.len() ==> longer[before.len() + k] == source[k]);
        assert(longer[there] == source[at]);
        if at + 12 <= source.len() {
            assert(longer.subrange(there + 1, there + 11) =~= source.subrange(at + 1, at + 11));
            assert(longer[there + 11] == source[at + 11]);
        }
        assert(use_client_literal_at(longer, there) == use_client_literal_at(source, at));
        if before.len() == 0 {
            assert(longer =~= source);
        } else if !use_client_literal_at(source, at) {
            if at + 1 < source.len() {
                assert(longer[there + 1] == source[at + 1]);
            }
            next_byte_is_shifted(before, source, at + 2, 10);
            comment_end_is_shifted(before, source, at + 2);
            next_byte_is_shifted(before, source, at + 1, source[at]);
            assert(behind_prologue_item(longer, there) == (match behind_prologue_item(source, at) {
                Some(next) => Some(before.len() + next),
                None => None,
            }));
            if let Some(next) = behind_prologue_item(source, at) {
                if at < next <= source.len() {
                    scan_is_shifted(before, source, next);
                }
            }
        }
    }
}

proof fn scan_ignores_what_follows(source: Seq<u8>, tail: Seq<u8>, at: int)
    requires
        use_client_from(source, at),
    ensures
        use_client_from(source + tail, at),
    decreases source.len() - at,
{
    let longer = source + tail;
    assert(forall|k: int| 0 <= k < source.len() ==> longer[k] == source[k]);
    if use_client_literal_at(source, at) {
        assert(longer.subrange(at + 1, at + 11) =~= source.subrange(at + 1, at + 11));
    } else {
        let next = behind_prologue_item(source, at)->0;
        assert(use_client_from(source, next));
        if source[at] == 47 && at + 1 < source.len() {
            if source[at + 1] == 47 {
                next_byte_with_tail(source, tail, at + 2, 10);
                next_byte_is_ahead(source, at + 2, 10);
            } else if source[at + 1] == 42 {
                comment_end_with_tail(source, tail, at + 2);
                comment_end_is_ahead(source, at + 2);
            }
        } else if quote_at(source, at) {
            next_byte_with_tail(source, tail, at + 1, source[at]);
            next_byte_is_ahead(source, at + 1, source[at]);
        }
        scan_ignores_what_follows(source, tail, next);
        assert(behind_prologue_item(longer, at) == Some(next) || use_client_literal_at(longer, at));
    }
}

proof fn next_byte_with_tail(source: Seq<u8>, tail: Seq<u8>, at: int, byte: u8)
    requires
        0 <= at,
        next_byte(source, at, byte) < source.len(),
    ensures
        next_byte(source + tail, at, byte) == next_byte(source, at, byte),
    decreases source.len() - at,
{
    if at < source.len() && source[at] != byte {
        next_byte_with_tail(source, tail, at + 1, byte);
        assert((source + tail)[at] == source[at]);
    }
}

proof fn comment_end_with_tail(source: Seq<u8>, tail: Seq<u8>, at: int)
    requires
        0 <= at,
        comment_end(source, at) is Some,
    ensures
        comment_end(source + tail, at) == comment_end(source, at),
    decreases source.len() - at,
{
    assert((source + tail)[at] == source[at]);
    assert((source + tail)[at + 1] == source[at + 1]);
    if !(source[at] == 42 && source[at + 1] == 47) {
        comment_end_with_tail(source, tail, at + 1);
    }
}

} // verus!
