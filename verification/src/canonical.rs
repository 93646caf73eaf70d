//! The canonical form of usages: compact JSON, without duplicates, in a fixed order.
use vstd::prelude::*;

use crate::names;
use crate::paths;
use crate::text;
use crate::{kind_word, Kind, Range, Usage, UsageView};

verus! {

/// The canonical form of a path: forward slashes, and the drive letter in lower case.
pub fn normalize_path(path: &str) -> (normalized: String)
    ensures
        normalized@ == paths::normal_path(path@),
{
    paths::normalize_path(path)
}

/// The hexadecimal digit for `value`.
pub open spec fn hex_digit(value: int) -> char {
    if value < 10 {
        (value + 48) as char
    } else {
        (value + 87) as char
    }
}

/// `c` inside a JSON string: quotes, backslashes and control characters are escaped, everything
/// else stands for itself.
pub open spec fn escaped(c: char) -> Seq<char> {
    if c == '"' || c == '\\' {
        seq!['\\', c]
    } else if c as int == 8 {
        seq!['\\', 'b']
    } else if c as int == 9 {
        seq!['\\', 't']
    } else if c as int == 10 {
        seq!['\\', 'n']
    } else if c as int == 12 {
        seq!['\\', 'f']
    } else if c as int == 13 {
        seq!['\\', 'r']
    } else if (c as int) < 32 {
        seq!['\\', 'u', '0', '0', hex_digit(c as int / 16), hex_digit(c as int % 16)]
    } else {
        seq![c]
    }
}

/// `value` inside a JSON string.
pub open spec fn escaped_text(value: Seq<char>) -> Seq<char>
    decreases value.len(),
{
    if value.len() == 0 {
        Seq::empty()
    } else {
        escaped(value[0]) + escaped_text(value.drop_first())
    }
}

/// `value` as a JSON string.
pub open spec fn quoted(value: Seq<char>) -> Seq<char> {
    seq!['"'] + escaped_text(value) + seq!['"']
}

/// `serde_json::to_string` of a text: the text in quotes, with quotes, backslashes and control
/// characters escaped. It does not fail on a text.
#[verifier::external_body]
fn to_json_string(value: &str) -> (json: String)
    ensures
        json@ == quoted(value@),
{
    serde_json::to_string(value).unwrap()
}

/// `value` in decimal digits.
pub open spec fn decimal(value: nat) -> Seq<char>
    decreases value,
{
    if value < 10 {
        seq![(value + 48) as char]
    } else {
        decimal(value / 10).push((value % 10 + 48) as char)
    }
}

/// Appends `value` in decimal digits.
fn append_decimal(value: u32, out: &mut String)
    ensures
        final(out)@ == old(out)@ + decimal(value as nat),
    decreases value,
{
    let ghost before = out@;
    if value >= 10 {
        append_decimal(value / 10, out);
    }
    let digit: u8 = (value % 10) as u8;
    out.push((digit + 48) as char);
    proof {
        assert(out@ =~= before + decimal(value as nat));
    }
}

/// `range` as a JSON object.
pub open spec fn range_json(range: Range) -> Seq<char> {
    "{\"start\":"@ + decimal(range.start as nat) + ",\"end\":"@ + decimal(range.end as nat) + "}"@
}

/// The first `count` of `ranges` as JSON objects, with commas between them.
pub open spec fn ranges_json(ranges: Seq<Range>, count: nat) -> Seq<char>
    decreases count,
{
    if count == 0 || count > ranges.len() {
        Seq::empty()
    } else if count == 1 {
        range_json(ranges[0])
    } else {
        ranges_json(ranges, (count - 1) as nat) + ","@ + range_json(ranges[count - 1])
    }
}

/// `usage` as a JSON object.
pub open spec fn usage_json(usage: UsageView) -> Seq<char> {
    "{\"kind\":"@ + quoted(kind_word(usage.kind)) + ",\"tagName\":"@ + quoted(usage.tag_name)
        + ",\"sourceFilePath\":"@ + quoted(usage.source_file_path) + ",\"ranges\":["@
        + ranges_json(usage.ranges, usage.ranges.len()) + "]}"@
}

/// Appends `range` as a JSON object.
fn append_range(range: Range, out: &mut String)
    ensures
        final(out)@ == old(out)@ + range_json(range),
{
    let ghost before = out@;
    out.append("{\"start\":");
    append_decimal(range.start, out);
    out.append(",\"end\":");
    append_decimal(range.end, out);
    out.append("}");
    proof {
        assert(out@ =~= before + range_json(range));
    }
}

/// `usage` as a JSON object.
pub fn serialize_usage(usage: &Usage) -> (json: String)
    ensures
        json@ == usage_json(usage@),
{
    let mut out = String::new();
    out.append("{\"kind\":");
    out.append(to_json_string(usage.kind.as_str()).as_str());
    out.append(",\"tagName\":");
    out.append(to_json_string(usage.tag_name.as_str()).as_str());
    out.append(",\"sourceFilePath\":");
    out.append(to_json_string(usage.source_file_path.as_str()).as_str());
    out.append(",\"ranges\":[");
    let ghost before = out@;
    proof {
        assert(before =~= "{\"kind\":"@ + quoted(kind_word(usage.kind)) + ",\"tagName\":"@
            + quoted(usage@.tag_name) + ",\"sourceFilePath\":"@ + quoted(usage@.source_file_path)
            + ",\"ranges\":["@);
        assert(before + Seq::<char>::empty() =~= before);
    }
    let mut i: usize = 0;
    while i < usage.ranges.len()
        invariant
            i <= usage.ranges.len(),
            out@ == before + ranges_json(usage.ranges@, i as nat),
        decreases usage.ranges.len() - i,
    {
        let ghost earlier = ranges_json(usage.ranges@, i as nat);
        if i > 0 {
            out.append(",");
        }
        append_range(usage.ranges[i], &mut out);
        i = i + 1;
        proof {
            if i > 1 {
                assert(out@ =~= before + (earlier + ","@ + range_json(usage.ranges@[i - 1])));
            } else {
                assert(out@ =~= before + range_json(usage.ranges@[0]));
            }
        }
    }
    out.append("]}");
    proof {
        assert(out@ =~= usage_json(usage@));
    }
    out
}

/// Whether `a` comes before `b`: by start, then by end.
pub open spec fn range_before(a: Range, b: Range) -> bool {
    a.start < b.start || a.start == b.start && a.end < b.end
}

/// Whether `a` comes before `b`: range by range, a shorter list before a longer one.
pub open spec fn ranges_before(a: Seq<Range>, b: Seq<Range>) -> bool
    decreases a.len(),
{
    if b.len() == 0 {
        false
    } else if a.len() == 0 {
        true
    } else if a[0] != b[0] {
        range_before(a[0], b[0])
    } else {
        ranges_before(a.drop_first(), b.drop_first())
    }
}

/// Whether the first of `a` comes before the first of `b`; no range comes before any.
pub open spec fn first_before(a: Seq<Range>, b: Seq<Range>) -> bool {
    b.len() > 0 && (a.len() == 0 || range_before(a[0], b[0]))
}

/// Whether `a` comes before `b` in the canonical order: by the first range, then by kind, client
/// before server, by tag name, by path, and by the other ranges.
pub open spec fn usage_before(a: UsageView, b: UsageView) -> bool {
    if first_before(a.ranges, b.ranges) || first_before(b.ranges, a.ranges) {
        first_before(a.ranges, b.ranges)
    } else if a.kind != b.kind {
        a.kind == Kind::Client
    } else if a.tag_name != b.tag_name {
        text::before(a.tag_name, b.tag_name)
    } else if a.source_file_path != b.source_file_path {
        text::before(a.source_file_path, b.source_file_path)
    } else {
        ranges_before(a.ranges, b.ranges)
    }
}

proof fn ranges_before_is_irreflexive(a: Seq<Range>)
    ensures
        !ranges_before(a, a),
    decreases a.len(),
{
    if a.len() > 0 {
        ranges_before_is_irreflexive(a.drop_first());
    }
}

proof fn ranges_before_is_transitive(a: Seq<Range>, b: Seq<Range>, c: Seq<Range>)
    requires
        ranges_before(a, b),
        ranges_before(b, c),
    ensures
        ranges_before(a, c),
    decreases a.len(),
{
    if a.len() > 0 && b.len() > 0 && c.len() > 0 && a[0] == b[0] && b[0] == c[0] {
        ranges_before_is_transitive(a.drop_first(), b.drop_first(), c.drop_first());
    }
}

proof fn ranges_before_is_total(a: Seq<Range>, b: Seq<Range>)
    ensures
        a == b || ranges_before(a, b) || ranges_before(b, a),
    decreases a.len(),
{
    if a.len() == 0 || b.len() == 0 {
        if a.len() == b.len() {
            assert(a =~= b);
        }
    } else if a[0] == b[0] {
        ranges_before_is_total(a.drop_first(), b.drop_first());
        if a.drop_first() == b.drop_first() {
            assert(a =~= seq![a[0]] + a.drop_first());
            assert(b =~= seq![b[0]] + b.drop_first());
        }
    }
}

/// No usage comes before itself.
pub proof fn usage_before_is_irreflexive(a: UsageView)
    ensures
        !usage_before(a, a),
{
    ranges_before_is_irreflexive(a.ranges);
}

/// The canonical order is transitive.
pub proof fn usage_before_is_transitive(a: UsageView, b: UsageView, c: UsageView)
    requires
        usage_before(a, b),
        usage_before(b, c),
    ensures
        usage_before(a, c),
{
    if a.tag_name != b.tag_name && b.tag_name != c.tag_name && text::before(a.tag_name, b.tag_name)
        && text::before(b.tag_name, c.tag_name) {
        text::before_is_transitive(a.tag_name, b.tag_name, c.tag_name);
        text::before_is_irreflexive(a.tag_name);
    }
    if text::before(a.source_file_path, b.source_file_path) && text::before(
        b.source_file_path,
        c.source_file_path,
    ) {
        text::before_is_transitive(a.source_file_path, b.source_file_path, c.source_file_path);
        text::before_is_irreflexive(a.source_file_path);
    }
    if ranges_before(a.ranges, b.ranges) && ranges_before(b.ranges, c.ranges) {
        ranges_before_is_transitive(a.ranges, b.ranges, c.ranges);
    }
}

/// Of two different usages, one comes before the other.
pub proof fn usage_before_is_total(a: UsageView, b: UsageView)
    ensures
        a == b || usage_before(a, b) || usage_before(b, a),
{
    text::before_is_total(a.tag_name, b.tag_name);
    text::before_is_total(a.source_file_path, b.source_file_path);
    ranges_before_is_total(a.ranges, b.ranges);
}

/// How two usages stand to each other in the canonical order.
#[derive(Debug, Clone, Copy, PartialEq, Eq, Structural)]
pub enum Order {
    Less,
    Equal,
    Greater,
}

/// How two ranges stand to each other: by start, then by end.
fn order_ranges(a: Range, b: Range) -> (order: Order)
    ensures
        order == Order::Less <==> range_before(a, b),
        order == Order::Greater <==> range_before(b, a),
        order == Order::Equal <==> a == b,
{
    if a.start < b.start {
        Order::Less
    } else if b.start < a.start {
        Order::Greater
    } else if a.end < b.end {
        Order::Less
    } else if b.end < a.end {
        Order::Greater
    } else {
        Order::Equal
    }
}

/// How two lists of ranges stand to each other: range by range, a shorter list before a longer
/// one.
fn order_range_lists(a: &Vec<Range>, b: &Vec<Range>) -> (order: Order)
    ensures
        order == Order::Less <==> ranges_before(a@, b@),
        order == Order::Greater <==> ranges_before(b@, a@),
        order == Order::Equal <==> a@ == b@,
{
    let mut i: usize = 0;
    proof {
        assert(a@.skip(0) =~= a@);
        assert(b@.skip(0) =~= b@);
        ranges_before_is_irreflexive(a@);
    }
    while i < a.len() && i < b.len()
        invariant
            i <= a.len(),
            i <= b.len(),
            forall|j: int| 0 <= j < i ==> a@[j] == b@[j],
            ranges_before(a@, b@) == ranges_before(a@.skip(i as int), b@.skip(i as int)),
            ranges_before(b@, a@) == ranges_before(b@.skip(i as int), a@.skip(i as int)),
            !ranges_before(a@, a@),
        decreases a.len() - i,
    {
        proof {
            assert(a@.skip(i as int).drop_first() =~= a@.skip(i + 1));
            assert(b@.skip(i as int).drop_first() =~= b@.skip(i + 1));
        }
        match order_ranges(a[i], b[i]) {
            Order::Equal => {},
            order => {
                return order;
            },
        }
        i = i + 1;
    }
    if i < b.len() {
        Order::Less
    } else if i < a.len() {
        Order::Greater
    } else {
        proof {
            assert(a@ =~= b@);
        }
        Order::Equal
    }
}

/// How two texts stand to each other by code points.
fn order_texts(a: &str, b: &str) -> (order: Order)
    ensures
        order == Order::Less <==> text::before(a@, b@),
        order == Order::Greater <==> text::before(b@, a@),
        order == Order::Equal <==> a@ == b@,
{
    proof {
        text::before_is_total(a@, b@);
        text::before_is_irreflexive(a@);
        if text::before(a@, b@) && text::before(b@, a@) {
            text::before_is_transitive(a@, b@, a@);
        }
    }
    if text::comes_before(a, b) {
        Order::Less
    } else if text::comes_before(b, a) {
        Order::Greater
    } else {
        Order::Equal
    }
}

/// How two usages stand to each other in the canonical order.
pub fn compare_canonical(a: &Usage, b: &Usage) -> (order: Order)
    ensures
        order == Order::Less <==> usage_before(a@, b@),
        order == Order::Greater <==> usage_before(b@, a@),
        order == Order::Equal <==> a@ == b@,
{
    proof {
        usage_before_is_irreflexive(a@);
    }
    let first = if a.ranges.len() == 0 {
        if b.ranges.len() == 0 {
            Order::Equal
        } else {
            Order::Less
        }
    } else if b.ranges.len() == 0 {
        Order::Greater
    } else {
        order_ranges(a.ranges[0], b.ranges[0])
    };
    if let Order::Equal = first {
    } else {
        return first;
    }
    if a.kind != b.kind {
        return if a.kind == Kind::Client {
            Order::Less
        } else {
            Order::Greater
        };
    }
    let by_name = order_texts(a.tag_name.as_str(), b.tag_name.as_str());
    if let Order::Equal = by_name {
    } else {
        return by_name;
    }
    let by_path = order_texts(a.source_file_path.as_str(), b.source_file_path.as_str());
    if let Order::Equal = by_path {
    } else {
        return by_path;
    }
    order_range_lists(&a.ranges, &b.ranges)
}

/// `ranges`, in order, with `range` in its place.
pub open spec fn with_range(ranges: Seq<Range>, range: Range) -> Seq<Range>
    decreases ranges.len(),
{
    if ranges.len() == 0 || range_before(range, ranges[0]) {
        seq![range] + ranges
    } else {
        seq![ranges[0]] + with_range(ranges.drop_first(), range)
    }
}

/// `ranges` in order.
pub open spec fn sorted_ranges(ranges: Seq<Range>) -> Seq<Range>
    decreases ranges.len(),
{
    if ranges.len() == 0 {
        Seq::empty()
    } else {
        with_range(sorted_ranges(ranges.drop_last()), ranges.last())
    }
}

proof fn range_goes_behind(ranges: Seq<Range>, range: Range, count: int)
    requires
        0 <= count <= ranges.len(),
        forall|i: int| 0 <= i < count ==> !range_before(range, #[trigger] ranges[i]),
        count < ranges.len() ==> range_before(range, ranges[count]),
    ensures
        with_range(ranges, range) == ranges.insert(count, range),
    decreases count,
{
    if count == 0 {
        assert(seq![range] + ranges =~= ranges.insert(0, range));
    } else {
        let rest = ranges.drop_first();
        assert forall|i: int| 0 <= i < count - 1 implies !range_before(
            range,
            #[trigger] rest[i],
        ) by {
            assert(rest[i] == ranges[i + 1]);
        }
        assert(!range_before(range, ranges[0]));
        range_goes_behind(rest, range, count - 1);
        assert(seq![ranges[0]] + rest.insert(count - 1, range) =~= ranges.insert(count, range));
    }
}

/// `ranges` in order.
fn sort_ranges(ranges: &Vec<Range>) -> (sorted: Vec<Range>)
    ensures
        sorted@ == sorted_ranges(ranges@),
{
    let mut sorted: Vec<Range> = Vec::new();
    let mut i: usize = 0;
    proof {
        assert(ranges@.take(0) =~= Seq::<Range>::empty());
    }
    while i < ranges.len()
        invariant
            i <= ranges.len(),
            sorted@ == sorted_ranges(ranges@.take(i as int)),
        decreases ranges.len() - i,
    {
        let range = ranges[i];
        proof {
            assert(ranges@.take(i + 1).drop_last() =~= ranges@.take(i as int));
            assert(ranges@.take(i + 1).last() == range);
        }
        let mut at: usize = 0;
        while at < sorted.len() && order_ranges(range, sorted[at]) != Order::Less
            invariant
                at <= sorted.len(),
                forall|j: int| 0 <= j < at ==> !range_before(range, #[trigger] sorted@[j]),
            decreases sorted.len() - at,
        {
            at = at + 1;
        }
        proof {
            range_goes_behind(sorted@, range, at as int);
        }
        sorted.insert(at, range);
        i = i + 1;
    }
    proof {
        assert(ranges@.take(i as int) =~= ranges@);
    }
    sorted
}

/// `usage` with its path in canonical form and its ranges in order.
pub open spec fn normal_usage(usage: UsageView) -> UsageView {
    UsageView {
        source_file_path: paths::normal_path(usage.source_file_path),
        ranges: sorted_ranges(usage.ranges),
        ..usage
    }
}

/// `usages`, in canonical order, with `usage` in its place; one that is there already is not
/// added again.
pub open spec fn with_ordered(usages: Seq<UsageView>, usage: UsageView) -> Seq<UsageView>
    decreases usages.len(),
{
    if usages.len() == 0 {
        seq![usage]
    } else if usages[0] == usage {
        usages
    } else if usage_before(usage, usages[0]) {
        seq![usage] + usages
    } else {
        seq![usages[0]] + with_ordered(usages.drop_first(), usage)
    }
}

/// `usages` in canonical order, without duplicates.
pub open spec fn canonical_order(usages: Seq<UsageView>) -> Seq<UsageView>
    decreases usages.len(),
{
    if usages.len() == 0 {
        Seq::empty()
    } else {
        with_ordered(canonical_order(usages.drop_last()), usages.last())
    }
}

/// The first `count` of `usages` as JSON objects, with commas between them.
pub open spec fn usages_json(usages: Seq<UsageView>, count: nat) -> Seq<char>
    decreases count,
{
    if count == 0 || count > usages.len() {
        Seq::empty()
    } else if count == 1 {
        usage_json(usages[0])
    } else {
        usages_json(usages, (count - 1) as nat) + ","@ + usage_json(usages[count - 1])
    }
}

/// `usages` in canonical form: their paths in canonical form, their ranges in order, without
/// duplicates, in canonical order.
pub open spec fn canonical_usages(usages: Seq<UsageView>) -> Seq<UsageView> {
    canonical_order(usages.map_values(|usage: UsageView| normal_usage(usage)))
}

/// The canonical JSON of `usages`.
pub open spec fn canonical_json(usages: Seq<UsageView>) -> Seq<char> {
    let ordered = canonical_usages(usages);
    "["@ + usages_json(ordered, ordered.len()) + "]"@
}

proof fn usage_goes_behind(usages: Seq<UsageView>, usage: UsageView, count: int)
    requires
        0 <= count <= usages.len(),
        forall|i: int|
            0 <= i < count ==> usage_before(#[trigger] usages[i], usage),
        count < usages.len() ==> usages[count] == usage || usage_before(usage, usages[count]),
    ensures
        with_ordered(usages, usage) == (if count < usages.len() && usages[count] == usage {
            usages
        } else {
            usages.insert(count, usage)
        }),
    decreases count,
{
    if count == 0 {
        assert(seq![usage] + usages =~= usages.insert(0, usage));
        if usages.len() == 0 {
            assert(seq![usage] =~= usages.insert(0, usage));
        }
    } else {
        let rest = usages.drop_first();
        assert forall|i: int| 0 <= i < count - 1 implies usage_before(
            #[trigger] rest[i],
            usage,
        ) by {
            assert(rest[i] == usages[i + 1]);
        }
        assert(usage_before(usages[0], usage));
        usage_before_is_irreflexive(usage);
        if usage_before(usage, usages[0]) {
            usage_before_is_transitive(usage, usages[0], usage);
        }
        usage_goes_behind(rest, usage, count - 1);
        assert(seq![usages[0]] + rest =~= usages);
        assert(seq![usages[0]] + rest.insert(count - 1, usage) =~= usages.insert(count, usage));
    }
}

/// The canonical JSON of `usages`: duplicates are dropped, and the order is the canonical one.
/// `usages` itself comes into canonical form, too.
pub fn serialize_canonical(usages: &mut Vec<Usage>) -> (json: String)
    ensures
        json@ == canonical_json(names::views(old(usages)@)),
        names::views(final(usages)@) == canonical_usages(names::views(old(usages)@)),
{
    broadcast use names::views_of_none;

    let ghost given = names::views(usages@);
    let ghost normal = given.map_values(|usage: UsageView| normal_usage(usage));
    let mut i: usize = 0;
    while i < usages.len()
        invariant
            i <= usages.len(),
            usages@.len() == given.len(),
            normal == given.map_values(|usage: UsageView| normal_usage(usage)),
            forall|j: int| 0 <= j < i ==> (#[trigger] usages@[j])@ == normal[j],
            forall|j: int| i <= j < usages@.len() ==> (#[trigger] usages@[j])@ == given[j],
        decreases usages.len() - i,
    {
        let path = normalize_path(usages[i].source_file_path.as_str());
        let ranges = sort_ranges(&usages[i].ranges);
        usages[i].source_file_path = path;
        usages[i].ranges = ranges;
        i = i + 1;
    }
    proof {
        assert(names::views(usages@) =~= normal);
    }
    let mut ordered: Vec<Usage> = Vec::new();
    let mut i: usize = 0;
    proof {
        assert(normal.take(0) =~= Seq::<UsageView>::empty());
    }
    while i < usages.len()
        invariant
            i <= usages.len(),
            normal == names::views(usages@),
            names::views(ordered@) == canonical_order(normal.take(i as int)),
            forall|j: int, k: int|
                0 <= j < k < ordered@.len() ==> usage_before(
                    (#[trigger] ordered@[j])@,
                    (#[trigger] ordered@[k])@,
                ),
        decreases usages.len() - i,
    {
        let usage = &usages[i];
        let ghost list = names::views(ordered@);
        proof {
            assert(normal.take(i + 1).drop_last() =~= normal.take(i as int));
            assert(normal.take(i + 1).last() == usage@);
            assert(forall|j: int| 0 <= j < list.len() ==> list[j] == (#[trigger] ordered@[j])@);
        }
        let mut at: usize = 0;
        let mut order = Order::Greater;
        while at < ordered.len() && order == Order::Greater
            invariant
                at <= ordered.len(),
                list == names::views(ordered@),
                order == Order::Greater ==> forall|j: int|
                    0 <= j < at ==> usage_before(#[trigger] list[j], usage@),
                order != Order::Greater ==> at < ordered.len() && (forall|j: int|
                    0 <= j < at ==> usage_before(#[trigger] list[j], usage@)),
                order == Order::Less ==> usage_before(usage@, list[at as int]),
                order == Order::Equal ==> list[at as int] == usage@,
            decreases ordered.len() - at, (if order == Order::Greater { 1int } else { 0int }),
        {
            assert(list[at as int] == ordered@[at as int]@);
            order = compare_canonical(usage, &ordered[at]);
            if order == Order::Greater {
                at = at + 1;
            }
        }
        proof {
            usage_goes_behind(list, usage@, at as int);
            usage_before_is_irreflexive(usage@);
        }
        if order != Order::Equal {
            ordered.insert(at, usage.clone());
            proof {
                assert(names::views(ordered@) =~= list.insert(at as int, usage@));
                order_is_kept(list, usage@, at as int);
                assert forall|j: int, k: int| 0 <= j < k < ordered@.len() implies usage_before(
                    (#[trigger] ordered@[j])@,
                    (#[trigger] ordered@[k])@,
                ) by {
                    assert(names::views(ordered@)[j] == ordered@[j]@);
                    assert(names::views(ordered@)[k] == ordered@[k]@);
                }
            }
        }
        i = i + 1;
    }
    proof {
        assert(normal.take(i as int) =~= normal);
    }
    let mut out = String::new();
    out.append("[");
    let ghost start = out@;
    let ghost list = names::views(ordered@);
    proof {
        assert(start =~= "["@);
        assert(start + Seq::<char>::empty() =~= start);
    }
    let mut i: usize = 0;
    while i < ordered.len()
        invariant
            i <= ordered.len(),
            list == names::views(ordered@),
            out@ == start + usages_json(list, i as nat),
        decreases ordered.len() - i,
    {
        let ghost earlier = usages_json(list, i as nat);
        assert(list[i as int] == ordered@[i as int]@);
        if i > 0 {
            out.append(",");
        }
        out.append(serialize_usage(&ordered[i]).as_str());
        i = i + 1;
        proof {
            if i > 1 {
                assert(out@ =~= start + (earlier + ","@ + usage_json(list[i - 1])));
            } else {
                assert(out@ =~= start + usage_json(list[0]));
            }
        }
    }
    out.append("]");
    *usages = ordered;
    out
}

/// Whether `usages` stand strictly in canonical order.
pub open spec fn strictly_ordered(usages: Seq<UsageView>) -> bool {
    forall|i: int, j: int|
        0 <= i < j < usages.len() ==> usage_before(#[trigger] usages[i], #[trigger] usages[j])
}

proof fn order_is_kept(usages: Seq<UsageView>, usage: UsageView, at: int)
    requires
        strictly_ordered(usages),
        0 <= at <= usages.len(),
        forall|i: int| 0 <= i < at ==> usage_before(#[trigger] usages[i], usage),
        at < usages.len() ==> usage_before(usage, usages[at]),
    ensures
        strictly_ordered(usages.insert(at, usage)),
{
    let longer = usages.insert(at, usage);
    assert forall|i: int, j: int| 0 <= i < j < longer.len() implies usage_before(
        #[trigger] longer[i],
        #[trigger] longer[j],
    ) by {
        if i == at && j > at + 1 {
            usage_before_is_transitive(usage, usages[at], usages[j - 1]);
        } else if i < at && j > at {
            assert(usage_before(usages[i], usages[j - 1]));
        }
    }
}

proof fn placing_keeps_order(usages: Seq<UsageView>, usage: UsageView)
    requires
        strictly_ordered(usages),
    ensures
        strictly_ordered(with_ordered(usages, usage)),
        forall|other: UsageView| #[trigger]
            with_ordered(usages, usage).contains(other) <==> usages.contains(other) || other
                == usage,
    decreases usages.len(),
{
    let placed = with_ordered(usages, usage);
    if usages.len() == 0 {
        assert(placed[0] == usage);
    } else if usages[0] == usage {
        assert(usages.contains(usage));
    } else if usage_before(usage, usages[0]) {
        order_is_kept(usages, usage, 0);
        assert(placed =~= usages.insert(0, usage));
        assert(placed[0] == usage);
        assert forall|other: UsageView| usages.contains(other) implies placed.contains(other) by {
            let i = choose|i: int| 0 <= i < usages.len() && usages[i] == other;
            assert(placed[i + 1] == other);
        }
    } else {
        let rest = usages.drop_first();
        let tail = with_ordered(rest, usage);
        assert forall|i: int, j: int| 0 <= i < j < rest.len() implies usage_before(
            #[trigger] rest[i],
            #[trigger] rest[j],
        ) by {
            assert(usage_before(usages[i + 1], usages[j + 1]));
        }
        placing_keeps_order(rest, usage);
        usage_before_is_total(usages[0], usage);
        assert forall|j: int| 0 <= j < tail.len() implies usage_before(
            usages[0],
            #[trigger] tail[j],
        ) by {
            assert(tail.contains(tail[j]));
            if tail[j] != usage {
                let k = choose|k: int| 0 <= k < rest.len() && rest[k] == tail[j];
                assert(usages[k + 1] == tail[j]);
            }
        }
        assert forall|i: int, j: int| 0 <= i < j < placed.len() implies usage_before(
            #[trigger] placed[i],
            #[trigger] placed[j],
        ) by {
            assert(placed[j] == tail[j - 1]);
            if i > 0 {
                assert(placed[i] == tail[i - 1]);
            }
        }
        assert forall|other: UsageView| #[trigger]
            placed.contains(other) <==> usages.contains(other) || other == usage by {
            if placed.contains(other) {
                let i = choose|i: int| 0 <= i < placed.len() && placed[i] == other;
                if i > 0 {
                    assert(tail[i - 1] == other);
                    assert(tail.contains(other));
                    if rest.contains(other) {
                        let k = choose|k: int| 0 <= k < rest.len() && rest[k] == other;
                        assert(usages[k + 1] == other);
                    }
                }
            }
            if usages.contains(other) {
                let i = choose|i: int| 0 <= i < usages.len() && usages[i] == other;
                if i == 0 {
                    assert(placed[0] == other);
                } else {
                    assert(rest[i - 1] == other);
                    assert(tail.contains(other));
                    let k = choose|k: int| 0 <= k < tail.len() && tail[k] == other;
                    assert(placed[k + 1] == other);
                }
            }
            if other == usage {
                assert(tail.contains(other));
                let k = choose|k: int| 0 <= k < tail.len() && tail[k] == other;
                assert(placed[k + 1] == other);
            }
        }
    }
}

/// The canonical list stands strictly in canonical order, so nothing occurs in it twice, and it
/// holds exactly the usages that were given.
pub proof fn canonical_order_holds_the_same_usages(usages: Seq<UsageView>)
    ensures
        strictly_ordered(canonical_order(usages)),
        forall|usage: UsageView| #[trigger]
            canonical_order(usages).contains(usage) <==> usages.contains(usage),
    decreases usages.len(),
{
    if usages.len() > 0 {
        let shorter = usages.drop_last();
        canonical_order_holds_the_same_usages(shorter);
        placing_keeps_order(canonical_order(shorter), usages.last());
        assert forall|usage: UsageView| #[trigger]
            canonical_order(usages).contains(usage) <==> usages.contains(usage) by {
            if usages.contains(usage) {
                let i = choose|i: int| 0 <= i < usages.len() && usages[i] == usage;
                if i < shorter.len() {
                    assert(shorter[i] == usage);
                    assert(shorter.contains(usage));
                }
            }
            if shorter.contains(usage) {
                let i = choose|i: int| 0 <= i < shorter.len() && shorter[i] == usage;
                assert(usages[i] == usage);
            }
            assert(usages[usages.len() - 1] == usages.last());
        }
    }
}

/// Whether `a` and `b` hold the same usages.
pub open spec fn same_usages(a: Seq<UsageView>, b: Seq<UsageView>) -> bool {
    forall|usage: UsageView|
        #![trigger a.contains(usage)]
        #![trigger b.contains(usage)]
        a.contains(usage) <==> b.contains(usage)
}

proof fn ordered_lists_are_unique(a: Seq<UsageView>, b: Seq<UsageView>)
    requires
        strictly_ordered(a),
        strictly_ordered(b),
        same_usages(a, b),
    ensures
        a == b,
    decreases a.len(),
{
    if a.len() == 0 {
        if b.len() > 0 {
            assert(b.contains(b[0]));
            assert(a.contains(b[0]));
        }
        assert(a =~= b);
    } else {
        assert(a.contains(a[0]));
        let i = choose|i: int| 0 <= i < b.len() && b[i] == a[0];
        assert(b.contains(b[0]));
        let j = choose|j: int| 0 <= j < a.len() && a[j] == b[0];
        if i > 0 && j > 0 {
            usage_before_is_transitive(a[0], a[j], b[i]);
            usage_before_is_irreflexive(a[0]);
        }
        assert(a[0] == b[0]);
        let c = a.drop_first();
        let d = b.drop_first();
        assert forall|usage: UsageView| #[trigger] c.contains(usage) <==> #[trigger] d.contains(
            usage,
        ) by {
            usage_before_is_irreflexive(a[0]);
            if c.contains(usage) {
                let k = choose|k: int| 0 <= k < c.len() && c[k] == usage;
                assert(a[k + 1] == usage);
                assert(usage_before(a[0], a[k + 1]));
                assert(a.contains(usage));
                let l = choose|l: int| 0 <= l < b.len() && b[l] == usage;
                assert(d[l - 1] == usage);
            }
            if d.contains(usage) {
                let k = choose|k: int| 0 <= k < d.len() && d[k] == usage;
                assert(b[k + 1] == usage);
                assert(usage_before(b[0], b[k + 1]));
                assert(b.contains(usage));
                let l = choose|l: int| 0 <= l < a.len() && a[l] == usage;
                assert(c[l - 1] == usage);
            }
        }
        assert forall|k: int, l: int| 0 <= k < l < c.len() implies usage_before(
            #[trigger] c[k],
            #[trigger] c[l],
        ) by {
            assert(usage_before(a[k + 1], a[l + 1]));
        }
        assert forall|k: int, l: int| 0 <= k < l < d.len() implies usage_before(
            #[trigger] d[k],
            #[trigger] d[l],
        ) by {
            assert(usage_before(b[k + 1], b[l + 1]));
        }
        ordered_lists_are_unique(c, d);
        assert(a =~= seq![a[0]] + c);
        assert(b =~= seq![b[0]] + d);
    }
}

/// The canonical JSON depends only on which usages there are, not on their order or on how often
/// each one occurs.
pub proof fn canonical_json_ignores_order_and_duplicates(a: Seq<UsageView>, b: Seq<UsageView>)
    requires
        same_usages(a, b),
    ensures
        canonical_json(a) == canonical_json(b),
{
    let normal = |usage: UsageView| normal_usage(usage);
    let c = a.map_values(normal);
    let d = b.map_values(normal);
    assert forall|usage: UsageView| #[trigger] c.contains(usage) <==> #[trigger] d.contains(
        usage,
    ) by {
        if c.contains(usage) {
            let i = choose|i: int| 0 <= i < c.len() && c[i] == usage;
            assert(a.contains(a[i]));
            let j = choose|j: int| 0 <= j < b.len() && b[j] == a[i];
            assert(d[j] == usage);
        }
        if d.contains(usage) {
            let i = choose|i: int| 0 <= i < d.len() && d[i] == usage;
            assert(b.contains(b[i]));
            let j = choose|j: int| 0 <= j < a.len() && a[j] == b[i];
            assert(c[j] == usage);
        }
    }
    canonical_order_holds_the_same_usages(c);
    canonical_order_holds_the_same_usages(d);
    assert forall|usage: UsageView| #[trigger] canonical_order(c).contains(usage)
        <==> #[trigger] canonical_order(d).contains(usage) by {
        assert(c.contains(usage) <==> d.contains(usage));
    }
    ordered_lists_are_unique(canonical_order(c), canonical_order(d));
}

proof fn ordered_usages_stay(usages: Seq<UsageView>)
    requires
        strictly_ordered(usages),
    ensures
        canonical_order(usages) == usages,
{
    canonical_order_holds_the_same_usages(usages);
    ordered_lists_are_unique(canonical_order(usages), usages);
}

/// Whether `ranges` come in order.
pub open spec fn ranges_ordered(ranges: Seq<Range>) -> bool {
    forall|i: int, j: int|
        0 <= i < j < ranges.len() ==> !range_before(#[trigger] ranges[j], #[trigger] ranges[i])
}

proof fn placing_keeps_ranges(ranges: Seq<Range>, range: Range)
    requires
        ranges_ordered(ranges),
    ensures
        ranges_ordered(with_range(ranges, range)),
        with_range(ranges, range).to_multiset() == ranges.to_multiset().insert(range),
    decreases ranges.len(),
{
    broadcast use vstd::seq_lib::group_to_multiset_ensures;

    let count = place_of(ranges, range);
    range_goes_behind(ranges, range, count);
    let placed = ranges.insert(count, range);
    assert forall|i: int, j: int| 0 <= i < j < placed.len() implies !range_before(
        #[trigger] placed[j],
        #[trigger] placed[i],
    ) by {
        if i == count {
            if count < ranges.len() {
                assert(!range_before(ranges[j - 1], ranges[count]) || j - 1 == count);
            }
        } else if j == count {
            assert(!range_before(range, ranges[i]));
        } else if j < count {
            assert(!range_before(ranges[j], ranges[i]));
        } else if i < count {
            assert(!range_before(ranges[j - 1], ranges[i]));
        } else {
            assert(!range_before(ranges[j - 1], ranges[i - 1]));
        }
    }
}

/// Where `range` goes among `ranges`.
proof fn place_of(ranges: Seq<Range>, range: Range) -> (count: int)
    ensures
        0 <= count <= ranges.len(),
        forall|i: int| 0 <= i < count ==> !range_before(range, #[trigger] ranges[i]),
        count < ranges.len() ==> range_before(range, ranges[count]),
    decreases ranges.len(),
{
    if ranges.len() == 0 || range_before(range, ranges[0]) {
        0
    } else {
        let rest = ranges.drop_first();
        let count = place_of(rest, range) + 1;
        assert forall|i: int| 0 <= i < count implies !range_before(range, #[trigger] ranges[i]) by {
            if i > 0 {
                assert(ranges[i] == rest[i - 1]);
            }
        }
        count
    }
}

/// Sorting ranges brings them into order and keeps each as often as it occurs.
pub proof fn sorted_ranges_are_the_same_ranges(ranges: Seq<Range>)
    ensures
        ranges_ordered(sorted_ranges(ranges)),
        sorted_ranges(ranges).to_multiset() == ranges.to_multiset(),
    decreases ranges.len(),
{
    broadcast use vstd::seq_lib::group_to_multiset_ensures;

    if ranges.len() > 0 {
        sorted_ranges_are_the_same_ranges(ranges.drop_last());
        placing_keeps_ranges(sorted_ranges(ranges.drop_last()), ranges.last());
        assert(ranges =~= ranges.drop_last().push(ranges.last()));
    }
}

/// The order in which the ranges of a usage are given does not matter.
pub proof fn order_of_ranges_does_not_matter(a: Seq<Range>, b: Seq<Range>)
    requires
        a.to_multiset() == b.to_multiset(),
    ensures
        sorted_ranges(a) == sorted_ranges(b),
{
    let not_after = |x: Range, y: Range| !range_before(y, x);
    sorted_ranges_are_the_same_ranges(a);
    sorted_ranges_are_the_same_ranges(b);
    assert(vstd::relations::sorted_by(sorted_ranges(a), not_after));
    assert(vstd::relations::sorted_by(sorted_ranges(b), not_after));
    vstd::seq_lib::lemma_sorted_unique(sorted_ranges(a), sorted_ranges(b), not_after);
}

proof fn ordered_ranges_stay(ranges: Seq<Range>)
    requires
        ranges_ordered(ranges),
    ensures
        sorted_ranges(ranges) == ranges,
    decreases ranges.len(),
{
    if ranges.len() > 0 {
        let shorter = ranges.drop_last();
        assert forall|i: int, j: int| 0 <= i < j < shorter.len() implies !range_before(
            #[trigger] shorter[j],
            #[trigger] shorter[i],
        ) by {
            assert(!range_before(ranges[j], ranges[i]));
        }
        ordered_ranges_stay(shorter);
        assert forall|i: int| 0 <= i < shorter.len() implies !range_before(
            ranges.last(),
            #[trigger] shorter[i],
        ) by {
            assert(!range_before(ranges[ranges.len() - 1], ranges[i]));
        }
        range_goes_behind(shorter, ranges.last(), shorter.len() as int);
        assert(shorter.insert(shorter.len() as int, ranges.last()) =~= ranges);
    }
}

proof fn normal_usages_stay(usage: UsageView)
    ensures
        normal_usage(normal_usage(usage)) == normal_usage(usage),
{
    sorted_ranges_are_the_same_ranges(usage.ranges);
    ordered_ranges_stay(sorted_ranges(usage.ranges));
    paths::normalizing_twice_changes_nothing(usage.source_file_path);
}

/// Usages in canonical form stay as they are, so that serializing twice gives the same JSON and
/// changes nothing more.
pub proof fn serializing_twice_changes_nothing(usages: Seq<UsageView>)
    ensures
        canonical_usages(canonical_usages(usages)) == canonical_usages(usages),
        canonical_json(canonical_usages(usages)) == canonical_json(usages),
{
    let normal = |usage: UsageView| normal_usage(usage);
    let given = usages.map_values(normal);
    let once = canonical_usages(usages);
    canonical_order_holds_the_same_usages(given);
    assert forall|i: int| 0 <= i < once.len() implies normal_usage(#[trigger] once[i])
        == once[i] by {
        assert(once.contains(once[i]));
        assert(given.contains(once[i]));
        let k = choose|k: int| 0 <= k < given.len() && given[k] == once[i];
        normal_usages_stay(usages[k]);
    }
    assert(once.map_values(normal) =~= once);
    ordered_usages_stay(once);
}

proof fn same_beginning(prefix: Seq<char>, a: Seq<char>, b: Seq<char>)
    requires
        prefix + a == prefix + b,
    ensures
        a == b,
{
    let n = prefix.len() as int;
    assert(a =~= (prefix + a).skip(n));
    assert(b =~= (prefix + b).skip(n));
}

proof fn escapes_are_told_apart(a: char, b: char, x: Seq<char>, y: Seq<char>)
    requires
        escaped(a) + x == escaped(b) + y,
    ensures
        a == b,
        x == y,
{
    let left = escaped(a) + x;
    let right = escaped(b) + y;
    assert(left[0] == escaped(a)[0]);
    assert(right[0] == escaped(b)[0]);
    if escaped(a).len() > 1 && escaped(b).len() > 1 {
        assert(left[1] == escaped(a)[1]);
        assert(right[1] == escaped(b)[1]);
        if escaped(a).len() == 6 && escaped(b).len() == 6 {
            assert(left[4] == escaped(a)[4]);
            assert(right[4] == escaped(b)[4]);
            assert(left[5] == escaped(a)[5]);
            assert(right[5] == escaped(b)[5]);
        }
    }
    assert(a == b);
    same_beginning(escaped(a), x, y);
}

proof fn quoted_texts_are_told_apart(a: Seq<char>, b: Seq<char>, x: Seq<char>, y: Seq<char>)
    requires
        quoted(a) + x == quoted(b) + y,
    ensures
        a == b,
        x == y,
{
    let open = seq!['"'];
    assert(quoted(a) + x =~= open + (escaped_text(a) + (open + x)));
    assert(quoted(b) + y =~= open + (escaped_text(b) + (open + y)));
    same_beginning(open, escaped_text(a) + (open + x), escaped_text(b) + (open + y));
    contents_are_told_apart(a, b, x, y);
}

proof fn contents_are_told_apart(a: Seq<char>, b: Seq<char>, x: Seq<char>, y: Seq<char>)
    requires
        escaped_text(a) + (seq!['"'] + x) == escaped_text(b) + (seq!['"'] + y),
    ensures
        a == b,
        x == y,
    decreases a.len(),
{
    let end = seq!['"'];
    let left = escaped_text(a) + (end + x);
    let right = escaped_text(b) + (end + y);
    if a.len() == 0 || b.len() == 0 {
        if a.len() > 0 {
            assert(left[0] == escaped(a[0])[0]);
            assert(right[0] == '"');
        }
        if b.len() > 0 {
            assert(right[0] == escaped(b[0])[0]);
            assert(left[0] == '"');
        }
        assert(a =~= b);
        assert(left =~= end + x);
        assert(right =~= end + y);
        same_beginning(end, x, y);
    } else {
        let c = a.drop_first();
        let d = b.drop_first();
        assert(left =~= escaped(a[0]) + (escaped_text(c) + (end + x)));
        assert(right =~= escaped(b[0]) + (escaped_text(d) + (end + y)));
        escapes_are_told_apart(
            a[0],
            b[0],
            escaped_text(c) + (end + x),
            escaped_text(d) + (end + y),
        );
        contents_are_told_apart(c, d, x, y);
        assert(a =~= seq![a[0]] + c);
        assert(b =~= seq![b[0]] + d);
    }
}

/// Whether `c` is a decimal digit.
spec fn is_digit(c: char) -> bool {
    '0' <= c <= '9'
}

proof fn decimals_are_digits(value: nat)
    ensures
        decimal(value).len() > 0,
        forall|i: int| 0 <= i < decimal(value).len() ==> is_digit(#[trigger] decimal(value)[i]),
    decreases value,
{
    if value >= 10 {
        decimals_are_digits(value / 10);
    }
}

proof fn decimals_differ(a: nat, b: nat)
    requires
        decimal(a) == decimal(b),
    ensures
        a == b,
    decreases a,
{
    decimals_are_digits(a / 10);
    decimals_are_digits(b / 10);
    assert(decimal(a).last() == (a % 10 + 48) as char);
    assert(decimal(b).last() == (b % 10 + 48) as char);
    assert(a % 10 == b % 10);
    assert(a == 10 * (a / 10) + a % 10);
    assert(b == 10 * (b / 10) + b % 10);
    if a >= 10 && b >= 10 {
        assert(decimal(a).drop_last() =~= decimal(a / 10));
        assert(decimal(b).drop_last() =~= decimal(b / 10));
        decimals_differ(a / 10, b / 10);
    }
}

proof fn decimals_are_told_apart(a: nat, b: nat, x: Seq<char>, y: Seq<char>)
    requires
        decimal(a) + x == decimal(b) + y,
        x.len() > 0 && !is_digit(x[0]),
        y.len() > 0 && !is_digit(y[0]),
    ensures
        a == b,
        x == y,
{
    decimals_are_digits(a);
    decimals_are_digits(b);
    let left = decimal(a) + x;
    let right = decimal(b) + y;
    let m = decimal(a).len() as int;
    let n = decimal(b).len() as int;
    if m < n {
        assert(left[m] == x[0]);
        assert(right[m] == decimal(b)[m]);
    }
    if n < m {
        assert(right[n] == y[0]);
        assert(left[n] == decimal(a)[n]);
    }
    assert(decimal(a) =~= left.take(m));
    assert(decimal(b) =~= right.take(m));
    decimals_differ(a, b);
    same_beginning(decimal(a), x, y);
}

proof fn ranges_are_told_apart(a: Range, b: Range, x: Seq<char>, y: Seq<char>)
    requires
        range_json(a) + x == range_json(b) + y,
    ensures
        a == b,
        x == y,
{
    let start = "{\"start\":"@;
    let end = ",\"end\":"@;
    let close = "}"@;
    reveal_strlit(",\"end\":");
    reveal_strlit("}");
    let a_rest = decimal(a.end as nat) + (close + x);
    let b_rest = decimal(b.end as nat) + (close + y);
    assert(range_json(a) + x =~= start + (decimal(a.start as nat) + (end + a_rest)));
    assert(range_json(b) + y =~= start + (decimal(b.start as nat) + (end + b_rest)));
    same_beginning(
        start,
        decimal(a.start as nat) + (end + a_rest),
        decimal(b.start as nat) + (end + b_rest),
    );
    assert((end + a_rest)[0] == ',');
    assert((end + b_rest)[0] == ',');
    decimals_are_told_apart(a.start as nat, b.start as nat, end + a_rest, end + b_rest);
    same_beginning(end, a_rest, b_rest);
    assert((close + x)[0] == '}');
    assert((close + y)[0] == '}');
    decimals_are_told_apart(a.end as nat, b.end as nat, close + x, close + y);
    same_beginning(close, x, y);
}

/// The JSON objects of all `ranges`, with commas between them.
spec fn all_ranges_json(ranges: Seq<Range>) -> Seq<char>
    decreases ranges.len(),
{
    if ranges.len() == 0 {
        Seq::empty()
    } else if ranges.len() == 1 {
        range_json(ranges[0])
    } else {
        range_json(ranges[0]) + (","@ + all_ranges_json(ranges.drop_first()))
    }
}

proof fn ranges_json_from_front(ranges: Seq<Range>, count: nat)
    requires
        count <= ranges.len(),
    ensures
        ranges_json(ranges, count) == all_ranges_json(ranges.take(count as int)),
    decreases count,
{
    if count > 1 {
        let shorter = ranges.take(count - 1);
        ranges_json_from_front(ranges, (count - 1) as nat);
        assert(ranges.take(count as int) =~= shorter.push(ranges[count - 1]));
        all_ranges_with_last(shorter, ranges[count - 1]);
    } else if count == 1 {
        assert(ranges.take(1)[0] == ranges[0]);
    }
}

proof fn all_ranges_with_last(ranges: Seq<Range>, last: Range)
    requires
        ranges.len() > 0,
    ensures
        all_ranges_json(ranges.push(last)) == all_ranges_json(ranges) + ","@ + range_json(last),
    decreases ranges.len(),
{
    let longer = ranges.push(last);
    let rest = ranges.drop_first();
    assert(longer.drop_first() =~= rest.push(last));
    if ranges.len() > 1 {
        all_ranges_with_last(rest, last);
        assert(all_ranges_json(longer) =~= all_ranges_json(ranges) + ","@ + range_json(last));
    } else {
        assert(longer.drop_first()[0] == last);
        assert(all_ranges_json(longer.drop_first()) == range_json(last));
        assert(all_ranges_json(longer) =~= range_json(ranges[0]) + ","@ + range_json(last));
    }
}

proof fn range_lists_are_told_apart(a: Seq<Range>, b: Seq<Range>)
    requires
        all_ranges_json(a) + "]}"@ == all_ranges_json(b) + "]}"@,
    ensures
        a == b,
    decreases a.len(),
{
    reveal_strlit("]}");
    reveal_strlit(",");
    reveal_strlit("{\"start\":");
    let close = "]}"@;
    let left = all_ranges_json(a) + close;
    let right = all_ranges_json(b) + close;
    if a.len() == 0 || b.len() == 0 {
        if a.len() > 0 {
            assert(left[0] == range_json(a[0])[0]);
            assert(range_json(a[0])[0] == '{');
            assert(right[0] == ']');
        }
        if b.len() > 0 {
            assert(right[0] == range_json(b[0])[0]);
            assert(range_json(b[0])[0] == '{');
            assert(left[0] == ']');
        }
        assert(a =~= b);
    } else {
        let c = a.drop_first();
        let d = b.drop_first();
        let x = if a.len() == 1 {
            close
        } else {
            ","@ + (all_ranges_json(c) + close)
        };
        let y = if b.len() == 1 {
            close
        } else {
            ","@ + (all_ranges_json(d) + close)
        };
        assert(left =~= range_json(a[0]) + x);
        assert(right =~= range_json(b[0]) + y);
        ranges_are_told_apart(a[0], b[0], x, y);
        assert(x[0] == y[0]);
        if a.len() > 1 {
            same_beginning(","@, all_ranges_json(c) + close, all_ranges_json(d) + close);
            range_lists_are_told_apart(c, d);
        } else {
            assert(c =~= d);
        }
        assert(a =~= seq![a[0]] + c);
        assert(b =~= seq![b[0]] + d);
    }
}

proof fn regrouped(
    a: Seq<char>,
    b: Seq<char>,
    c: Seq<char>,
    d: Seq<char>,
    e: Seq<char>,
    f: Seq<char>,
    g: Seq<char>,
    h: Seq<char>,
    i: Seq<char>,
)
    ensures
        a + b + c + d + e + f + g + h + i == a + (b + (c + (d + (e + (f + (g + (h + i))))))),
{
    let left = a + b + c + d + e + f + g + h + i;
    let right = a + (b + (c + (d + (e + (f + (g + (h + i)))))));
    assert(left =~= right);
}

/// Different usages have different JSON, so that the text of a usage can stand for it.
pub proof fn usages_are_told_apart_by_their_json(a: UsageView, b: UsageView)
    requires
        usage_json(a) == usage_json(b),
    ensures
        a == b,
{
    let kind = "{\"kind\":"@;
    let tag = ",\"tagName\":"@;
    let path = ",\"sourceFilePath\":"@;
    let ranges = ",\"ranges\":["@;
    let close = "]}"@;
    ranges_json_from_front(a.ranges, a.ranges.len());
    ranges_json_from_front(b.ranges, b.ranges.len());
    assert(a.ranges.take(a.ranges.len() as int) =~= a.ranges);
    assert(b.ranges.take(b.ranges.len() as int) =~= b.ranges);
    let a_ranges = all_ranges_json(a.ranges) + close;
    let b_ranges = all_ranges_json(b.ranges) + close;
    let a_path = quoted(a.source_file_path) + (ranges + a_ranges);
    let b_path = quoted(b.source_file_path) + (ranges + b_ranges);
    let a_tag = quoted(a.tag_name) + (path + a_path);
    let b_tag = quoted(b.tag_name) + (path + b_path);
    let a_kind = quoted(kind_word(a.kind)) + (tag + a_tag);
    let b_kind = quoted(kind_word(b.kind)) + (tag + b_tag);
    regrouped(
        kind,
        quoted(kind_word(a.kind)),
        tag,
        quoted(a.tag_name),
        path,
        quoted(a.source_file_path),
        ranges,
        all_ranges_json(a.ranges),
        close,
    );
    regrouped(
        kind,
        quoted(kind_word(b.kind)),
        tag,
        quoted(b.tag_name),
        path,
        quoted(b.source_file_path),
        ranges,
        all_ranges_json(b.ranges),
        close,
    );
    same_beginning(kind, a_kind, b_kind);
    quoted_texts_are_told_apart(kind_word(a.kind), kind_word(b.kind), tag + a_tag, tag + b_tag);
    assert(a.kind == b.kind) by {
        reveal_strlit("client");
        reveal_strlit("server");
        assert("client"@[0] != "server"@[0]);
    }
    same_beginning(tag, a_tag, b_tag);
    quoted_texts_are_told_apart(a.tag_name, b.tag_name, path + a_path, path + b_path);
    same_beginning(path, a_path, b_path);
    quoted_texts_are_told_apart(
        a.source_file_path,
        b.source_file_path,
        ranges + a_ranges,
        ranges + b_ranges,
    );
    same_beginning(ranges, a_ranges, b_ranges);
    range_lists_are_told_apart(a.ranges, b.ranges);
}

} // verus!
