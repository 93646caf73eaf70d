//! Reports, scopes and words: how results are written down and requests read.
use vstd::prelude::*;

use crate::canonical;
use crate::document::ScopeConfig;
use crate::names;
use crate::paths;
use crate::scope;
use crate::text;
use crate::{Kind, Range, Usage, UsageView};

verus! {

/// A scope that is read from JSON has each flag that the JSON sets, and every other one.
pub proof fn scopes_are_what_their_json_says(json: &str, found: ScopeConfig)
    requires
        call_ensures(scope::parse_scope, (json,), found),
    ensures
        found.declaration == (scope::json_flag(json@, "declaration"@) != Some(false)),
        found.element == (scope::json_flag(json@, "element"@) != Some(false)),
        found.export == (scope::json_flag(json@, "export"@) != Some(false)),
        found.import == (scope::json_flag(json@, "import"@) != Some(false)),
        found.types == (scope::json_flag(json@, "type"@) != Some(false)),
{
}

/// A scope that is put together from flags has each of them where it is given, and is set
/// everywhere else.
pub proof fn scopes_are_what_their_flags_say(
    declaration: Option<bool>,
    element: Option<bool>,
    export: Option<bool>,
    import: Option<bool>,
    types: Option<bool>,
    found: ScopeConfig,
)
    requires
        call_ensures(
            scope::scope_with_flags,
            (declaration, element, export, import, types),
            found,
        ),
    ensures
        found.declaration == (declaration != Some(false)),
        found.element == (element != Some(false)),
        found.export == (export != Some(false)),
        found.import == (import != Some(false)),
        found.types == (types != Some(false)),
{
}

/// Of two texts, the one whose first different character has the smaller code point comes first;
/// a text comes before every longer one that begins with it.
pub proof fn first_differences_decide(
    prefix: Seq<char>,
    x: char,
    a: Seq<char>,
    y: char,
    b: Seq<char>,
)
    ensures
        x != y ==> (text::before(prefix.push(x) + a, prefix.push(y) + b) <==> (x as int) < (
        y as int)),
        text::before(prefix, prefix.push(x) + a),
        !text::before(prefix.push(x) + a, prefix),
    decreases prefix.len(),
{
    let left = prefix.push(x) + a;
    let right = prefix.push(y) + b;
    if prefix.len() > 0 {
        let rest = prefix.drop_first();
        assert(left.drop_first() =~= rest.push(x) + a);
        assert(right.drop_first() =~= rest.push(y) + b);
        assert(left[0] == prefix[0] && right[0] == prefix[0]);
        first_differences_decide(rest, x, a, y, b);
    } else {
        assert(left[0] == x && right[0] == y);
    }
}

/// The words for the kinds are `client` and `server`.
pub proof fn kinds_have_words(kind: Kind, word: &'static str)
    requires
        call_ensures(Kind::as_str, (kind,), word),
    ensures
        kind == Kind::Client ==> word@ == "client"@,
        kind == Kind::Server ==> word@ == "server"@,
{
}

/// Numbers are written in decimal digits, the last digit last.
pub proof fn numbers_are_written_in_decimal(tens: nat, digit: nat)
    requires
        digit < 10,
    ensures
        canonical::decimal(digit) == seq![(48 + digit) as char],
        tens > 0 ==> canonical::decimal(10 * tens + digit) == canonical::decimal(tens).push(
            (48 + digit) as char,
        ),
{
    let value = 10 * tens + digit;
    assert(value / 10 == tens && value % 10 == digit);
}

/// A usage is written as an object with its kind, its tag name, its path and its ranges, in this
/// order; a range as an object with its start and its end.
pub proof fn usages_are_written_as_objects(usage: UsageView, range: Range)
    ensures
        canonical::usage_json(usage) == "{\"kind\":"@ + canonical::quoted(
            if usage.kind == Kind::Client {
                "client"@
            } else {
                "server"@
            },
        ) + ",\"tagName\":"@ + canonical::quoted(usage.tag_name) + ",\"sourceFilePath\":"@
            + canonical::quoted(usage.source_file_path) + ",\"ranges\":["@
            + canonical::ranges_json(usage.ranges, usage.ranges.len()) + "]}"@,
        canonical::range_json(range) == "{\"start\":"@ + canonical::decimal(range.start as nat)
            + ",\"end\":"@ + canonical::decimal(range.end as nat) + "}"@,
{
}

/// Lists are written with a comma between each two of their items.
pub proof fn lists_are_written_with_commas(
    usages: Seq<UsageView>,
    usage: UsageView,
    ranges: Seq<Range>,
    range: Range,
)
    ensures
        canonical::usages_json(seq![usage], 1) == canonical::usage_json(usage),
        usages.len() > 0 ==> canonical::usages_json(usages.push(usage), usages.len() + 1)
            == canonical::usages_json(usages, usages.len()) + ","@ + canonical::usage_json(usage),
        canonical::ranges_json(seq![range], 1) == canonical::range_json(range),
        ranges.len() > 0 ==> canonical::ranges_json(ranges.push(range), ranges.len() + 1)
            == canonical::ranges_json(ranges, ranges.len()) + ","@ + canonical::range_json(range),
{
    usages_before_stay(usages, usage, usages.len());
    ranges_before_stay(ranges, range, ranges.len());
    assert(seq![usage][0] == usage);
    assert(seq![range][0] == range);
}

proof fn usages_before_stay(usages: Seq<UsageView>, usage: UsageView, count: nat)
    requires
        count <= usages.len(),
    ensures
        canonical::usages_json(usages.push(usage), count) == canonical::usages_json(usages, count),
    decreases count,
{
    if count > 0 {
        usages_before_stay(usages, usage, (count - 1) as nat);
        assert(usages.push(usage)[count - 1] == usages[count - 1]);
        assert(usages.push(usage)[0] == usages[0]);
    }
}

proof fn ranges_before_stay(ranges: Seq<Range>, range: Range, count: nat)
    requires
        count <= ranges.len(),
    ensures
        canonical::ranges_json(ranges.push(range), count) == canonical::ranges_json(ranges, count),
    decreases count,
{
    if count > 0 {
        ranges_before_stay(ranges, range, (count - 1) as nat);
        assert(ranges.push(range)[count - 1] == ranges[count - 1]);
        assert(ranges.push(range)[0] == ranges[0]);
    }
}

/// The canonical JSON is the list of the usages in canonical form, in brackets.
pub proof fn reports_are_lists(usages: Seq<UsageView>)
    ensures
        canonical::canonical_json(usages) == "["@ + canonical::usages_json(
            canonical::canonical_usages(usages),
            canonical::canonical_usages(usages).len(),
        ) + "]"@,
        canonical::usages_json(Seq::empty(), 0) == Seq::<char>::empty(),
{
}

/// Whether `a` stands before `b` in a text: it starts earlier, or starts there and ends earlier.
pub open spec fn stands_before(a: Range, b: Range) -> bool {
    a.start < b.start || a.start == b.start && a.end < b.end
}

/// In the canonical order usages come by where they first stand; there, client components before
/// server components; then by their tag names; then by their paths; then by the ranges that
/// follow, the one that has none left first.
pub proof fn usages_come_in_canonical_order(a: UsageView, b: UsageView, count: int)
    ensures
        a.ranges.len() == 0 && b.ranges.len() > 0 ==> canonical::usage_before(a, b),
        a.ranges.len() > 0 && b.ranges.len() > 0 && stands_before(a.ranges[0], b.ranges[0])
            ==> canonical::usage_before(a, b) && !canonical::usage_before(b, a),
        a.ranges.len() > 0 && b.ranges.len() > 0 && a.ranges[0] == b.ranges[0] ==> {
            &&& a.kind == Kind::Client && b.kind == Kind::Server ==> canonical::usage_before(a, b)
                && !canonical::usage_before(b, a)
            &&& a.kind == b.kind && a.tag_name != b.tag_name ==> (canonical::usage_before(a, b)
                <==> text::before(a.tag_name, b.tag_name))
            &&& a.kind == b.kind && a.tag_name == b.tag_name && a.source_file_path
                != b.source_file_path ==> (canonical::usage_before(a, b) <==> text::before(
                a.source_file_path,
                b.source_file_path,
            ))
            &&& a.kind == b.kind && a.tag_name == b.tag_name && a.source_file_path
                == b.source_file_path && 0 <= count && a.ranges.take(count) == b.ranges.take(count)
                && count <= a.ranges.len() && count < b.ranges.len() && (count == a.ranges.len()
                || stands_before(a.ranges[count], b.ranges[count])) ==> canonical::usage_before(
                a,
                b,
            )
        },
{
    if 0 <= count <= a.ranges.len() && count < b.ranges.len() && a.ranges.take(count)
        == b.ranges.take(count) && (count == a.ranges.len() || stands_before(
        a.ranges[count],
        b.ranges[count],
    )) {
        later_ranges_decide(a.ranges, b.ranges, count);
    }
}

proof fn later_ranges_decide(a: Seq<Range>, b: Seq<Range>, count: int)
    requires
        0 <= count <= a.len(),
        count < b.len(),
        a.take(count) == b.take(count),
        count == a.len() || stands_before(a[count], b[count]),
    ensures
        canonical::ranges_before(a, b),
    decreases count,
{
    if count > 0 {
        assert(a.take(count)[0] == a[0] && b.take(count)[0] == b[0]);
        assert(a[0] == b[0]);
        assert(a.drop_first().take(count - 1) =~= a.take(count).drop_first());
        assert(b.drop_first().take(count - 1) =~= b.take(count).drop_first());
        later_ranges_decide(a.drop_first(), b.drop_first(), count - 1);
    }
}

/// Whether `normal` is `usage` with the same name and kind, its path with forward slashes and the
/// drive letter in lower case, and its ranges in the order in which they stand.
pub open spec fn is_normal_form(usage: UsageView, normal: UsageView) -> bool {
    &&& normal.kind == usage.kind
    &&& normal.tag_name == usage.tag_name
    &&& normal.source_file_path == paths::normal_path(usage.source_file_path)
    &&& normal.ranges.to_multiset() == usage.ranges.to_multiset()
    &&& forall|i: int, j: int|
        0 <= i < j < normal.ranges.len() ==> !stands_before(
            #[trigger] normal.ranges[j],
            #[trigger] normal.ranges[i],
        )
}

/// What is reported are the normal forms of the usages, each once.
pub proof fn reports_hold_all_usages(usages: Seq<UsageView>, reported: UsageView)
    ensures
        canonical::canonical_usages(usages).contains(reported) <==> exists|i: int|
            0 <= i < usages.len() && is_normal_form(#[trigger] usages[i], reported),
        canonical::strictly_ordered(canonical::canonical_usages(usages)),
{
    let normal = |usage: UsageView| canonical::normal_usage(usage);
    let given = usages.map_values(normal);
    canonical::canonical_order_holds_the_same_usages(given);
    if given.contains(reported) {
        let i = choose|i: int| 0 <= i < given.len() && given[i] == reported;
        normal_forms_are_normal(usages[i]);
        assert(is_normal_form(usages[i], reported));
    }
    if exists|i: int| 0 <= i < usages.len() && is_normal_form(#[trigger] usages[i], reported) {
        let i = choose|i: int|
            0 <= i < usages.len() && is_normal_form(#[trigger] usages[i], reported);
        let form = canonical::normal_usage(usages[i]);
        normal_forms_are_normal(usages[i]);
        let not_after = |x: Range, y: Range| !stands_before(y, x);
        assert(vstd::relations::total_ordering(not_after));
        assert(vstd::relations::sorted_by(form.ranges, not_after));
        assert(vstd::relations::sorted_by(reported.ranges, not_after));
        vstd::seq_lib::lemma_sorted_unique(form.ranges, reported.ranges, not_after);
        assert(reported == form);
        assert(given[i] == reported);
    }
}

proof fn normal_forms_are_normal(usage: UsageView)
    ensures
        is_normal_form(usage, canonical::normal_usage(usage)),
{
    canonical::sorted_ranges_are_the_same_ranges(usage.ranges);
    let ranges = canonical::sorted_ranges(usage.ranges);
    assert forall|i: int, j: int| 0 <= i < j < ranges.len() implies !stands_before(
        #[trigger] ranges[j],
        #[trigger] ranges[i],
    ) by {
        assert(!canonical::range_before(ranges[j], ranges[i]));
    }
}

/// Serializing usages gives their canonical JSON and leaves them in canonical form.
pub proof fn serializing_gives_reports(usages: &mut Vec<Usage>, json: String)
    requires
        call_ensures(canonical::serialize_canonical, (usages,), json),
    ensures
        json@ == canonical::canonical_json(names::views(old(usages)@)),
        names::views(final(usages)@) == canonical::canonical_usages(names::views(old(usages)@)),
{
}

/// A usage by itself is written as its JSON object, and a path in its canonical form.
pub proof fn usages_and_paths_are_written(usage: &Usage, json: String, path: &str, normal: String)
    requires
        call_ensures(canonical::serialize_usage, (usage,), json),
        call_ensures(canonical::normalize_path, (path,), normal),
    ensures
        json@ == canonical::usage_json(usage@),
        normal@ == paths::normal_path(path@),
{
}

} // verus!
