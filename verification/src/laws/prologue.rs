//! Which modules are client modules, said of the bytes that they begin with.
use vstd::prelude::*;

use crate::declarations;
use crate::directive;
use crate::Kind;

verus! {

/// Whether `"use client"`, in double or in single quotes, stands at `at`.
pub open spec fn says_use_client(source: Seq<u8>, at: int) -> bool {
    &&& 0 <= at
    &&& at + 12 <= source.len()
    &&& source[at] == '"' as u8 || source[at] == '\'' as u8
    &&& source[at + 11] == source[at]
    &&& forall|i: int| 0 <= i < 10 ==> source[at + 1 + i] == #[trigger] "use client"@[i] as u8
}

proof fn words_are_the_same(source: Seq<u8>, at: int)
    requires
        0 <= at < source.len(),
    ensures
        says_use_client(source, at) <==> directive::use_client_literal_at(source, at),
{
    reveal_strlit("use client");
    let wanted = seq![117u8, 115u8, 101u8, 32u8, 99u8, 108u8, 105u8, 101u8, 110u8, 116u8];
    let word = "use client"@;
    assert(word.len() == 10);
    assert forall|i: int| 0 <= i < 10 implies wanted[i] == #[trigger] word[i] as u8 by {
        assert(word[0] == 'u' && word[1] == 's' && word[2] == 'e' && word[3] == ' ' && word[4]
            == 'c' && word[5] == 'l' && word[6] == 'i' && word[7] == 'e' && word[8] == 'n'
            && word[9] == 't');
        assert(i == 0 || i == 1 || i == 2 || i == 3 || i == 4 || i == 5 || i == 6 || i == 7 || i
            == 8 || i == 9);
    }
    if at + 12 <= source.len() {
        let part = source.subrange(at + 1, at + 11);
        assert(forall|i: int| 0 <= i < 10 ==> part[i] == source[at + 1 + i]);
        if says_use_client(source, at) {
            assert forall|i: int| 0 <= i < 10 implies part[i] == wanted[i] by {
                assert(source[at + 1 + i] == word[i] as u8);
            }
            assert(part =~= wanted);
        }
        if directive::use_client_literal_at(source, at) {
            assert(part == wanted);
            assert forall|i: int| 0 <= i < 10 implies source[at + 1 + i]
                == #[trigger] word[i] as u8 by {
                assert(part[i] == wanted[i]);
            }
        }
    }
}

/// A module that begins with the directive, in double or in single quotes, is a client module.
pub proof fn modules_that_begin_with_the_directive_are_client_modules(source: Seq<u8>)
    requires
        says_use_client(source, 0),
    ensures
        directive::is_client_module(source),
{
    words_are_the_same(source, 0);
}

/// A byte order mark before a module does not change the answer.
pub proof fn byte_order_marks_do_not_count(source: Seq<u8>)
    requires
        source.len() >= 3,
        directive::has_mark(source),
        !directive::has_mark(source.skip(3)),
    ensures
        directive::is_client_module(source) == directive::is_client_module(source.skip(3)),
{
    let mark = source.take(3);
    let rest = source.skip(3);
    assert(source =~= mark + rest);
    words_are_the_same(source, 0);
    directive::scan_is_shifted(mark, rest, 0);
    assert(!directive::use_client_literal_at(source, 0));
}

/// The first place from `at` on where a byte stands is where the search for it ends.
pub proof fn bytes_are_found_first(source: Seq<u8>, at: int, byte: u8)
    requires
        0 <= at <= source.len(),
    ensures
        ({
            let found = directive::next_byte(source, at, byte);
            &&& at <= found <= source.len()
            &&& found < source.len() ==> source[found] == byte
            &&& forall|i: int| at <= i < found ==> #[trigger] source[i] != byte
        }),
    decreases source.len() - at,
{
    if at < source.len() && source[at] != byte {
        bytes_are_found_first(source, at + 1, byte);
    }
}

/// Whether `*/` stands at `at`.
pub open spec fn ends_comment(source: Seq<u8>, at: int) -> bool {
    at + 2 <= source.len() && source[at] == '*' as u8 && source[at + 1] == '/' as u8
}

/// A block comment ends at the first `*/` behind its beginning.
pub proof fn comments_end_first(source: Seq<u8>, at: int)
    requires
        0 <= at,
    ensures
        match directive::comment_end(source, at) {
            Some(end) => at <= end && ends_comment(source, end) && forall|i: int|
                at <= i < end ==> !#[trigger] ends_comment(source, i),
            None => forall|i: int| at <= i ==> !#[trigger] ends_comment(source, i),
        },
    decreases source.len() - at,
{
    if at + 1 < source.len() && !ends_comment(source, at) {
        comments_end_first(source, at + 1);
    }
}

proof fn byte_in_beginning(source: Seq<u8>, at: int, byte: u8, end: int)
    requires
        0 <= at <= source.len(),
        directive::next_byte(source, at, byte) < end <= source.len(),
    ensures
        directive::next_byte(source.take(end), at, byte) == directive::next_byte(source, at, byte),
    decreases source.len() - at,
{
    bytes_are_found_first(source, at, byte);
    assert(source.take(end)[at] == source[at]);
    if source[at] != byte {
        byte_in_beginning(source, at + 1, byte, end);
    }
}

proof fn comment_in_beginning(source: Seq<u8>, at: int, end: int)
    requires
        0 <= at,
        directive::comment_end(source, at) matches Some(found) && found + 2 <= end
            <= source.len(),
    ensures
        directive::comment_end(source.take(end), at) == directive::comment_end(source, at),
    decreases source.len() - at,
{
    comments_end_first(source, at);
    let found = directive::comment_end(source, at)->0;
    assert(source.take(end)[at] == source[at]);
    assert(source.take(end)[at + 1] == source[at + 1]);
    if at < found {
        assert(!ends_comment(source, at));
        comment_in_beginning(source, at + 1, end);
    }
}

proof fn directive_behind(source: Seq<u8>, at: int) -> (place: int)
    requires
        0 < at || !directive::has_mark(source),
        0 <= at,
        directive::use_client_from(source, at),
    ensures
        at <= place,
        says_use_client(source, place),
        directive::passed_from(source.take(place), at),
    decreases source.len() - at,
{
    words_are_the_same(source, at);
    if directive::use_client_literal_at(source, at) {
        at
    } else {
        let next = directive::behind_prologue_item(source, at)->0;
        let place = directive_behind(source, next);
        let few = source.take(place);
        assert(few[at] == source[at]);
        if at + 1 < place {
            assert(few[at + 1] == source[at + 1]);
        }
        if source[at] <= 32 || source[at] == 59 {
        } else if source[at] == 47 && source[at + 1] == 47 {
            bytes_are_found_first(source, at + 2, 10);
            assert(next != place);
            byte_in_beginning(source, at + 2, 10, place);
        } else if source[at] == 47 && source[at + 1] == 42 {
            comments_end_first(source, at + 2);
            comment_in_beginning(source, at + 2, place);
        } else {
            bytes_are_found_first(source, at + 1, source[at]);
            byte_in_beginning(source, at + 1, source[at], place);
            words_are_the_same(few, at);
            assert(!says_use_client(few, at)) by {
                if says_use_client(few, at) {
                    assert forall|i: int| 0 <= i < 10 implies source[at + 1 + i]
                        == #[trigger] "use client"@[i] as u8 by {
                        assert(few[at + 1 + i] == source[at + 1 + i]);
                    }
                    assert(few[at + 11] == source[at + 11]);
                }
            }
        }
        place
    }
}

/// A client module holds the directive, and nothing stands before it but white space, semicolons,
/// comments, other strings, and a byte order mark at the very beginning.
pub proof fn client_modules_say_so(source: Seq<u8>) -> (place: int)
    requires
        directive::is_client_module(source),
    ensures
        says_use_client(source, place),
        directive::passed_from(
            source.take(place),
            if directive::has_mark(source) {
                3
            } else {
                0
            },
        ),
{
    if directive::has_mark(source) {
        words_are_the_same(source, 0);
        assert(directive::use_client_from(source, 3));
        directive_behind(source, 3)
    } else {
        directive_behind(source, 0)
    }
}

/// A file has the kind that its beginning gives it.
pub proof fn files_have_the_kind_of_their_directive(source: Seq<char>)
    ensures
        declarations::own_kind(source) == Kind::Client <==> directive::is_client_module(
            vstd::utf8::encode_utf8(source),
        ),
        declarations::source_file(source).kind == declarations::own_kind(source),
        declarations::source_file(source).text == source,
{
}

} // verus!
