//! What can be decoded: the pages that a writer makes of values are taken, however many rows are read.

use arrow2::datatypes::Field;
use parquet2::metadata::ColumnDescriptor;
use vstd::prelude::*;

use crate::arrow::field_shape;
use crate::arrow::leaf_parts;
use crate::arrow::leaf_unit;
use crate::arrow::page_descriptors;
use crate::arrow::stored_leaf;
use crate::arrow::stored_leaves;
use crate::arrow::PageColumnView;
use crate::decoding::columns_sound;
use crate::decoding::pages_of_columns;
use crate::encoding::byte_strings;
use crate::encoding::delta_count;
use crate::encoding::delta_head;
use crate::encoding::delta_parts_end;
use crate::encoding::fits;
use crate::encoding::is_delta;
use crate::encoding::is_delta_blocks;
use crate::encoding::is_runs;
use crate::encoding::runs_sound;
use crate::encoding::signed;
use crate::encoding::summed;
use crate::encoding::varint;
use crate::encoding::varint_from;
use crate::encoding::zigzag;
use crate::encoding::DeltaHead;
use crate::pages::added;
use crate::pages::column_sound;
use crate::pages::dictionary_of;
use crate::pages::length_sizes;
use crate::pages::lengths_fit;
use crate::pages::ones;
use crate::pages::page_indices;
use crate::pages::pages_sound_from;
use crate::pages::present_values;
use crate::pages::string_sizes;
use crate::pages::verdict_on_page;
use crate::pages::DictionaryView;
use crate::pages::Present;
use crate::pages::Verdict;
use crate::parquet::column_pages;
use crate::parquet::delta_values;
use crate::parquet::encoding_kind;
use crate::parquet::levels_add_up;
use crate::parquet::packed_values;
use crate::parquet::run_values;
use crate::parquet::stored_levels;
use crate::parquet::DataPageView;
use crate::parquet::PageLevels;
use crate::parquet::PlainPageView;
use crate::shape::LeafKind;
use crate::shape::LeafPhysical;
use crate::shape::reading_of;
use crate::shape::set_up;
use crate::shape::FieldShape;
use crate::shape::LeafColumn;
use crate::shape::LeafType;
use crate::shape::Number;
use crate::shape::Reading;

verus! {

/// Whether a leaf is a number that is stored in so many bytes, and kept as it is: a number of that size, or a
/// timestamp that is stored in the unit that it is read in.
pub open spec fn is_stored_number(leaf: LeafType, descriptor: ColumnDescriptor, size: nat) -> bool {
    leaf.layout is Primitive && match (leaf.kind, leaf.number) {
        (
            LeafKind::Plain,
            Some(Number::Int8 | Number::Int16 | Number::Int32 | Number::UInt8 | Number::UInt16 | Number::Float32),
        ) => size == 4,
        (LeafKind::Plain, Some(Number::Int64 | Number::UInt64 | Number::Float64)) => size == 8,
        (LeafKind::Plain, Some(Number::UInt32 | Number::Int128)) => match leaf_parts(descriptor).0 {
            LeafPhysical::Int32 => size == 4,
            LeafPhysical::Int64 => size == 8,
            _ => false,
        },
        (LeafKind::Timestamp(unit), Some(Number::Int64)) => leaf_parts(descriptor).0 is Int64 && size == 8 && (
        leaf_unit(descriptor) is None || leaf_unit(descriptor) == Some(unit)),
        _ => false,
    }
}

/// Whether a page holds levels, and values after them: in its first version after the length of the levels in four
/// bytes, the lowest first, and in its second version after a header that tells it.
pub open spec fn holds(page: DataPageView, levels: Seq<u8>, values: Seq<u8>) -> bool {
    page.bytes.len() <= usize::MAX && match page.levels {
        PageLevels::V1 => page.bytes.len() == 4 + levels.len() + values.len() && page.bytes[0] + 0x100 * page.bytes[1]
            + 0x1_0000 * page.bytes[2] + 0x100_0000 * page.bytes[3] == levels.len() && page.bytes.skip(4) == levels
            + values,
        PageLevels::V2 { rep, def } => rep == 0 && def == levels.len() && page.bytes == levels + values,
    }
}

/// A column without types above it can be decoded if its pages can.
proof fn lemma_one_column(
    columns: Seq<PageColumnView>,
    field: Field,
    num_rows: usize,
    reading: Reading,
    column: LeafColumn,
)
    requires
        columns.len() == 1,
        field_shape(field) matches FieldShape::Leaf { leaf, .. } && !(leaf.layout is Union) && (leaf.kind matches
            LeafKind::FixedSizeBinary(size) ==> num_rows <= isize::MAX as int / size as int),
        column == stored_leaf(columns[0].descriptor),
        reading_of(field_shape(field), false, column) == Some(reading),
        !(reading is Broken),
        16 * num_rows <= isize::MAX,
        forall|i: int|
            0 <= i < stored_levels(columns[0]).len() ==> ((#[trigger] stored_levels(columns[0])[i]) matches Some(
                (rep, def),
            ) ==> i32::MIN <= rep + def <= i32::MAX),
        column_sound(reading, column, column_pages(columns[0]), num_rows),
    ensures
        columns_sound(columns, field, num_rows),
{
    let stored = stored_leaves(page_descriptors(columns));
    let shape = field_shape(field);
    assert(stored =~= seq![column]);
    assert(pages_of_columns(columns) =~= seq![column_pages(columns[0])]);
    assert(levels_add_up(columns[0]));
    assert(num_rows <= isize::MAX as int / 16);
    assert(set_up(shape, false, false, stored, 0) == Some((reading is Refused, 1nat)));
}

/// Pages of values that are all sound can be decoded.
proof fn lemma_all_pages_sound(
    reading: Reading,
    column: LeafColumn,
    num_rows: usize,
    pages: Seq<Option<PlainPageView>>,
    at: nat,
    dictionary: Option<DictionaryView>,
    total: u64,
)
    requires
        forall|i: int|
            at <= i < pages.len() ==> (#[trigger] pages[i] matches Some(PlainPageView::Data(page)) && verdict_on_page(
                reading,
                column,
                num_rows,
                page,
                dictionary,
                total,
            ) == Verdict::Sound(total)),
    ensures
        pages_sound_from(reading, column, num_rows, pages, at, dictionary, total),
    decreases pages.len() - at,
{
    if at < pages.len() {
        lemma_all_pages_sound(reading, column, num_rows, pages, at + 1, dictionary, total);
    }
}

/// Numbers that lie one after the other in their pages can be decoded, none of them null, for any number of
/// rows and any number of values in a page.
pub proof fn law_plain_numbers_can_be_decoded(
    columns: Seq<PageColumnView>,
    field: Field,
    num_rows: usize,
    leaf: LeafType,
    size: nat,
    pages: Seq<DataPageView>,
)
    requires
        columns.len() == 1,
        field_shape(field) matches FieldShape::Leaf { leaf: of, .. } && of == leaf,
        is_stored_number(leaf, columns[0].descriptor, size),
        leaf_parts(columns[0].descriptor).1 is Required,
        leaf_parts(columns[0].descriptor).2 == 0,
        leaf_parts(columns[0].descriptor).3 == 0,
        16 * num_rows <= isize::MAX,
        forall|i: int|
            0 <= i < stored_levels(columns[0]).len() ==> ((#[trigger] stored_levels(columns[0])[i]) matches Some(
                (rep, def),
            ) ==> i32::MIN <= rep + def <= i32::MAX),
        column_pages(columns[0]).len() == pages.len() <= 1024,
        forall|i: int|
            0 <= i < pages.len() ==> #[trigger] column_pages(columns[0])[i] == Some(PlainPageView::Data(pages[i])),
        forall|i: int|
            0 <= i < pages.len() ==> {
                &&& encoding_kind((#[trigger] pages[i]).encoding) is Plain
                &&& pages[i].levels is V1 || pages[i].levels == (PageLevels::V2 { rep: 0, def: 0 })
                &&& pages[i].count <= 0x7fff_ffff
                &&& pages[i].bytes.len() == size * pages[i].count
            },
    ensures
        columns_sound(columns, field, num_rows),
{
    let column = stored_leaf(columns[0].descriptor);
    let reading = reading_of(field_shape(field), false, column)->0;
    assert(reading matches Reading::Number { size: bytes, scaling, .. } && bytes == size && scaling is Kept);
    let all = column_pages(columns[0]);
    assert forall|i: int| 0 <= i < all.len() implies (#[trigger] all[i] matches Some(PlainPageView::Data(page))
        && verdict_on_page(reading, column, num_rows, page, None, 0) == Verdict::Sound(0)) by {
        let page = pages[i];
        assert(encoding_kind(page.encoding) is Plain);
        assert(page.bytes.skip(0) =~= page.bytes);
        assert((size * page.count) % size as int == 0) by (nonlinear_arith)
            requires
                size == 4 || size == 8,
        ;
    }
    lemma_all_pages_sound(reading, column, num_rows, all, 0, None, 0);
    lemma_one_column(columns, field, num_rows, reading, column);
}

/// The prefix counts of values are those of the values that are one.
proof fn lemma_counts_of_ones(values: Seq<u32>, counts: Seq<nat>, k: nat)
    requires
        k < counts.len(),
        counts[0] == 0,
        forall|n: int|
            0 <= n < counts.len() - 1 ==> #[trigger] counts[n + 1] == counts[n] + if values[n] == 1 {
                1nat
            } else {
                0nat
            },
    ensures
        ones(values, k) == counts[k as int],
        ones(values, k) <= k,
    decreases k,
{
    if k > 0 {
        lemma_counts_of_ones(values, counts, (k - 1) as nat);
        assert(counts[(k - 1) + 1] == counts[k - 1] + if values[k - 1] == 1 {
            1nat
        } else {
            0nat
        });
    }
}

/// A page of values that may be null is taken apart: the levels, and the values after them.
proof fn lemma_nullable_page(
    page: DataPageView,
    column: LeafColumn,
    limit: usize,
    levels: Seq<u8>,
    values: Seq<u8>,
    counts: Seq<nat>,
)
    requires
        column.repetition is Optional,
        column.def_level == 1,
        column.rep_level == 0,
        holds(page, levels, values),
        is_runs(levels, 0, 1, limit as nat, false),
        counts.len() == limit + 1,
        counts[0] == 0,
        forall|n: int|
            0 <= n < limit ==> #[trigger] counts[n + 1] == counts[n] + if run_values(levels, 1, limit)[n] == 1 {
                1nat
            } else {
                0nat
            },
    ensures
        present_values(page, column, limit) matches Present::Values { start, used } && used == counts.last()
            && page.bytes.skip(start as int) == values,
        counts.last() <= limit,
{
    lemma_counts_of_ones(run_values(levels, 1, limit), counts, limit as nat);
    let from: int = if page.levels is V1 {
        4
    } else {
        0
    };
    let end = from + levels.len();
    let rest = page.bytes.skip(from);
    assert(rest =~= levels + values);
    assert(page.bytes.subrange(from, end) =~= levels) by {
        assert forall|i: int| 0 <= i < levels.len() implies page.bytes.subrange(from, end)[i] == #[trigger] levels[i] by {
            assert(rest[i] == (levels + values)[i]);
        }
    }
    assert(page.bytes.skip(end) =~= values) by {
        assert forall|i: int| 0 <= i < values.len() implies page.bytes.skip(end)[i] == #[trigger] values[i] by {
            let j = levels.len() + i;
            assert(rest[j] == (levels + values)[j]);
            assert(rest[j] == page.bytes[from + j]);
        }
    }
}

/// Numbers that may be null can be decoded where there is one for each that is not: the levels say which are, and
/// the numbers that are there lie one after the other. Levels past the rows that are read do not matter.
pub proof fn law_nullable_numbers_can_be_decoded(
    columns: Seq<PageColumnView>,
    field: Field,
    num_rows: usize,
    leaf: LeafType,
    size: nat,
    pages: Seq<DataPageView>,
    levels: Seq<Seq<u8>>,
    values: Seq<Seq<u8>>,
    limits: Seq<usize>,
    counts: Seq<Seq<nat>>,
)
    requires
        columns.len() == 1,
        field_shape(field) matches FieldShape::Leaf { leaf: of, .. } && of == leaf,
        is_stored_number(leaf, columns[0].descriptor, size),
        leaf_parts(columns[0].descriptor).1 is Optional,
        leaf_parts(columns[0].descriptor).2 == 1,
        leaf_parts(columns[0].descriptor).3 == 0,
        16 * num_rows <= isize::MAX,
        forall|i: int|
            0 <= i < stored_levels(columns[0]).len() ==> ((#[trigger] stored_levels(columns[0])[i]) matches Some(
                (rep, def),
            ) ==> i32::MIN <= rep + def <= i32::MAX),
        column_pages(columns[0]).len() == pages.len() <= 1024,
        forall|i: int|
            0 <= i < pages.len() ==> #[trigger] column_pages(columns[0])[i] == Some(PlainPageView::Data(pages[i])),
        forall|i: int|
            0 <= i < pages.len() ==> {
                let page = #[trigger] pages[i];
                &&& encoding_kind(page.encoding) is Plain
                &&& page.count <= 0x7fff_ffff
                &&& holds(page, levels[i], values[i])
                &&& limits[i] <= page.count && limits[i] <= num_rows && (limits[i] == page.count || limits[i]
                    == num_rows)
                &&& is_runs(levels[i], 0, 1, limits[i] as nat, false)
                &&& values[i].len() % size == 0
                &&& size * counts[i].last() <= values[i].len()
                &&& counts[i].len() == limits[i] + 1
                &&& counts[i][0] == 0
            },
        forall|i: int, n: int|
            0 <= i < pages.len() && 0 <= n < limits[i] ==> #[trigger] counts[i][n + 1] == counts[i][n] + if run_values(
                levels[i],
                1,
                limits[i],
            )[n] == 1 {
                1nat
            } else {
                0nat
            },
    ensures
        columns_sound(columns, field, num_rows),
{
    let column = stored_leaf(columns[0].descriptor);
    let reading = reading_of(field_shape(field), false, column)->0;
    assert(reading matches Reading::Number { size: bytes, scaling, .. } && bytes == size && scaling is Kept);
    let all = column_pages(columns[0]);
    assert forall|i: int| 0 <= i < all.len() implies (#[trigger] all[i] matches Some(PlainPageView::Data(page))
        && verdict_on_page(reading, column, num_rows, page, None, 0) == Verdict::Sound(0)) by {
        let page = pages[i];
        assert(encoding_kind(page.encoding) is Plain);
        lemma_nullable_page(page, column, limits[i], levels[i], values[i], counts[i]);
        let used = counts[i].last() as int;
        assert(used <= values[i].len() as int / size as int) by (nonlinear_arith)
            requires
                size * used <= values[i].len(),
                size == 4 || size == 8,
        ;
    }
    lemma_all_pages_sound(reading, column, num_rows, all, 0, None, 0);
    lemma_one_column(columns, field, num_rows, reading, column);
}

/// Booleans that may be null can be decoded where there is a bit for each that is not.
pub proof fn law_nullable_booleans_can_be_decoded(
    columns: Seq<PageColumnView>,
    field: Field,
    num_rows: usize,
    leaf: LeafType,
    pages: Seq<DataPageView>,
    levels: Seq<Seq<u8>>,
    values: Seq<Seq<u8>>,
    limits: Seq<usize>,
    counts: Seq<Seq<nat>>,
)
    requires
        columns.len() == 1,
        field_shape(field) matches FieldShape::Leaf { leaf: of, .. } && of == leaf,
        leaf.layout is Boolean,
        leaf.kind is Plain,
        leaf_parts(columns[0].descriptor).1 is Optional,
        leaf_parts(columns[0].descriptor).2 == 1,
        leaf_parts(columns[0].descriptor).3 == 0,
        16 * num_rows <= isize::MAX,
        forall|i: int|
            0 <= i < stored_levels(columns[0]).len() ==> ((#[trigger] stored_levels(columns[0])[i]) matches Some(
                (rep, def),
            ) ==> i32::MIN <= rep + def <= i32::MAX),
        column_pages(columns[0]).len() == pages.len() <= 1024,
        forall|i: int|
            0 <= i < pages.len() ==> #[trigger] column_pages(columns[0])[i] == Some(PlainPageView::Data(pages[i])),
        forall|i: int|
            0 <= i < pages.len() ==> {
                let page = #[trigger] pages[i];
                &&& encoding_kind(page.encoding) is Plain
                &&& page.count <= 0x7fff_ffff
                &&& holds(page, levels[i], values[i])
                &&& limits[i] <= page.count && limits[i] <= num_rows && (limits[i] == page.count || limits[i]
                    == num_rows)
                &&& is_runs(levels[i], 0, 1, limits[i] as nat, false)
                &&& counts[i].last() <= 8 * values[i].len()
                &&& counts[i].len() == limits[i] + 1
                &&& counts[i][0] == 0
            },
        forall|i: int, n: int|
            0 <= i < pages.len() && 0 <= n < limits[i] ==> #[trigger] counts[i][n + 1] == counts[i][n] + if run_values(
                levels[i],
                1,
                limits[i],
            )[n] == 1 {
                1nat
            } else {
                0nat
            },
    ensures
        columns_sound(columns, field, num_rows),
{
    let column = stored_leaf(columns[0].descriptor);
    let reading = Reading::Boolean;
    let all = column_pages(columns[0]);
    assert forall|i: int| 0 <= i < all.len() implies (#[trigger] all[i] matches Some(PlainPageView::Data(page))
        && verdict_on_page(reading, column, num_rows, page, None, 0) == Verdict::Sound(0)) by {
        let page = pages[i];
        assert(encoding_kind(page.encoding) is Plain);
        lemma_nullable_page(page, column, limits[i], levels[i], values[i], counts[i]);
    }
    lemma_all_pages_sound(reading, column, num_rows, all, 0, None, 0);
    lemma_one_column(columns, field, num_rows, reading, column);
}

/// Byte strings of one size, none of them null, that lie one after the other can be decoded.
pub proof fn law_plain_sized_byte_strings_can_be_decoded(
    columns: Seq<PageColumnView>,
    field: Field,
    num_rows: usize,
    leaf: LeafType,
    size: usize,
    pages: Seq<DataPageView>,
)
    requires
        columns.len() == 1,
        field_shape(field) matches FieldShape::Leaf { leaf: of, .. } && of == leaf,
        size > 0,
        leaf.layout is FixedSizeBinary && leaf.kind == LeafKind::FixedSizeBinary(size) || leaf.layout is Primitive
            && leaf.kind is Plain && leaf.number == Some(Number::Int128) && size <= 16 && leaf_parts(
            columns[0].descriptor,
        ).0 == LeafPhysical::FixedLenByteArray(size),
        leaf_parts(columns[0].descriptor).1 is Required,
        16 * num_rows <= isize::MAX,
        size * num_rows <= isize::MAX,
        forall|i: int|
            0 <= i < stored_levels(columns[0]).len() ==> ((#[trigger] stored_levels(columns[0])[i]) matches Some(
                (rep, def),
            ) ==> i32::MIN <= rep + def <= i32::MAX),
        column_pages(columns[0]).len() == pages.len() <= 1024,
        forall|i: int|
            0 <= i < pages.len() ==> #[trigger] column_pages(columns[0])[i] == Some(PlainPageView::Data(pages[i])),
        forall|i: int|
            0 <= i < pages.len() ==> {
                &&& encoding_kind((#[trigger] pages[i]).encoding) is Plain
                &&& pages[i].count <= 0x7fff_ffff
                &&& pages[i].bytes.len() == size * pages[i].count
            },
    ensures
        columns_sound(columns, field, num_rows),
{
    let column = stored_leaf(columns[0].descriptor);
    let reading = Reading::Fixed { size };
    let all = column_pages(columns[0]);
    assert forall|i: int| 0 <= i < all.len() implies (#[trigger] all[i] matches Some(PlainPageView::Data(page))
        && verdict_on_page(reading, column, num_rows, page, None, 0) == Verdict::Sound(0)) by {
        let page = pages[i];
        assert(encoding_kind(page.encoding) is Plain);
        assert((size * page.count) % size as int == 0) by (nonlinear_arith)
            requires
                size > 0,
        ;
    }
    assert(num_rows <= isize::MAX as int / size as int) by (nonlinear_arith)
        requires
            size > 0,
            size * num_rows <= isize::MAX,
    ;
    lemma_all_pages_sound(reading, column, num_rows, all, 0, None, 0);
    lemma_one_column(columns, field, num_rows, reading, column);
}

/// Booleans that are all there can be decoded where there is a bit for each.
pub proof fn law_plain_booleans_can_be_decoded(
    columns: Seq<PageColumnView>,
    field: Field,
    num_rows: usize,
    leaf: LeafType,
    pages: Seq<DataPageView>,
)
    requires
        columns.len() == 1,
        field_shape(field) matches FieldShape::Leaf { leaf: of, .. } && of == leaf,
        leaf.layout is Boolean,
        leaf.kind is Plain,
        leaf_parts(columns[0].descriptor).1 is Required,
        16 * num_rows <= isize::MAX,
        forall|i: int|
            0 <= i < stored_levels(columns[0]).len() ==> ((#[trigger] stored_levels(columns[0])[i]) matches Some(
                (rep, def),
            ) ==> i32::MIN <= rep + def <= i32::MAX),
        column_pages(columns[0]).len() == pages.len() <= 1024,
        forall|i: int|
            0 <= i < pages.len() ==> #[trigger] column_pages(columns[0])[i] == Some(PlainPageView::Data(pages[i])),
        forall|i: int|
            0 <= i < pages.len() ==> {
                &&& encoding_kind((#[trigger] pages[i]).encoding) is Plain
                &&& pages[i].count <= 0x7fff_ffff
                &&& pages[i].count <= 8 * pages[i].bytes.len()
            },
    ensures
        columns_sound(columns, field, num_rows),
{
    let column = stored_leaf(columns[0].descriptor);
    let reading = Reading::Boolean;
    let all = column_pages(columns[0]);
    assert forall|i: int| 0 <= i < all.len() implies (#[trigger] all[i] matches Some(PlainPageView::Data(page))
        && verdict_on_page(reading, column, num_rows, page, None, 0) == Verdict::Sound(0)) by {
        assert(encoding_kind(pages[i].encoding) is Plain);
    }
    lemma_all_pages_sound(reading, column, num_rows, all, 0, None, 0);
    lemma_one_column(columns, field, num_rows, reading, column);
}

/// Byte strings that lie one after the other, each after its length in four bytes, the lowest first, are found
/// where they lie. `ends` are where they end, after the zero that the first one starts at.
pub proof fn law_byte_strings_are_found(bytes: Seq<u8>, ends: Seq<int>)
    requires
        bytes.len() <= usize::MAX,
        ends.len() > 0,
        ends[0] == 0,
        ends.last() <= bytes.len(),
        forall|i: int| 0 <= i < ends.len() ==> 0 <= #[trigger] ends[i],
        forall|i: int| 0 <= i < ends.len() ==> #[trigger] ends[i] <= bytes.len(),
        forall|i: int| 0 <= i < ends.len() - 1 ==> ends[i] + 4 <= #[trigger] ends[i + 1],
        forall|i: int|
            0 <= i < ends.len() - 1 ==> #[trigger] ends[i + 1] == ends[i] + 4 + bytes[ends[i]] + 0x100 * bytes[ends[i]
                + 1] + 0x1_0000 * bytes[ends[i] + 2] + 0x100_0000 * bytes[ends[i] + 3],
    ensures
        byte_strings(bytes, 0, (ends.len() - 1) as nat, seq![]) matches Some(strings) && strings.len() == ends.len()
            - 1 && forall|i: int|
            0 <= i < strings.len() ==> (#[trigger] strings[i]).0 == ends[i] + 4 && strings[i].1 == ends[i + 1],
{
    lemma_byte_strings_from(bytes, ends, 0, seq![]);
}

/// Byte strings are found where they lie, from the `k`-th on.
proof fn lemma_byte_strings_from(bytes: Seq<u8>, ends: Seq<int>, k: nat, found: Seq<(usize, usize)>)
    requires
        bytes.len() <= usize::MAX,
        k < ends.len(),
        ends.last() <= bytes.len(),
        forall|i: int| 0 <= i < ends.len() ==> 0 <= #[trigger] ends[i],
        forall|i: int| 0 <= i < ends.len() ==> #[trigger] ends[i] <= bytes.len(),
        forall|i: int| 0 <= i < ends.len() - 1 ==> ends[i] + 4 <= #[trigger] ends[i + 1],
        forall|i: int|
            0 <= i < ends.len() - 1 ==> #[trigger] ends[i + 1] == ends[i] + 4 + bytes[ends[i]] + 0x100 * bytes[ends[i]
                + 1] + 0x1_0000 * bytes[ends[i] + 2] + 0x100_0000 * bytes[ends[i] + 3],
        found.len() == k,
        forall|i: int|
            0 <= i < k ==> (#[trigger] found[i]).0 == ends[i] + 4 && found[i].1 == ends[i + 1],
    ensures
        byte_strings(bytes, ends[k as int], (ends.len() - 1 - k) as nat, found) matches Some(strings) && strings.len()
            == ends.len() - 1 && forall|i: int|
            0 <= i < strings.len() ==> (#[trigger] strings[i]).0 == ends[i] + 4 && strings[i].1 == ends[i + 1],
    decreases ends.len() - k,
{
    if k < ends.len() - 1 {
        let i = k as int;
        let at = ends[i];
        let end = ends[i + 1];
        assert(at + 4 <= end <= bytes.len());
        lemma_byte_strings_from(bytes, ends, k + 1, found.push(((at + 4) as usize, end as usize)));
    }
}

/// The sizes of byte strings add up to the bytes that they lie in, but for their lengths.
proof fn lemma_sizes_add_up(ends: Seq<int>, strings: Seq<(usize, usize)>, k: nat, total: u64)
    requires
        strings.len() == ends.len() - 1,
        forall|i: int| 0 <= i < ends.len() - 1 ==> ends[i] + 4 <= #[trigger] ends[i + 1],
        forall|i: int|
            0 <= i < strings.len() ==> (#[trigger] strings[i]).0 == ends[i] + 4 && strings[i].1 == ends[i + 1],
        k <= strings.len(),
        total + ends.last() - ends[k as int] - 4 * (strings.len() - k) <= 0x7fff_ffff,
    ensures
        added(string_sizes(strings), k, total) == Some(
            (total + ends.last() - ends[k as int] - 4 * (strings.len() - k)) as u64,
        ),
    decreases strings.len() - k,
{
    lemma_ends_grow(ends, k);
    if k < strings.len() {
        let i = k as int;
        let sizes = string_sizes(strings);
        lemma_ends_grow(ends, k + 1);
        assert(ends[i] + 4 <= ends[i + 1]);
        assert(strings[i].1 - strings[i].0 == ends[i + 1] - ends[i] - 4);
        assert(sizes[i] == ends[i + 1] - ends[i] - 4);
        lemma_sizes_add_up(ends, strings, k + 1, (total + sizes[i]) as u64);
    }
}

/// Each byte string takes four bytes at least.
proof fn lemma_ends_grow(ends: Seq<int>, k: nat)
    requires
        k < ends.len(),
        forall|i: int| 0 <= i < ends.len() - 1 ==> ends[i] + 4 <= #[trigger] ends[i + 1],
    ensures
        ends.last() - ends[k as int] >= 4 * (ends.len() - 1 - k),
    decreases ends.len() - k,
{
    if k < ends.len() - 1 {
        let i = k as int;
        assert(ends[i] + 4 <= ends[i + 1]);
        lemma_ends_grow(ends, k + 1);
    }
}

/// Pages of values that are all sound, with the byte strings counted, can be decoded.
proof fn lemma_counted_pages_sound(
    reading: Reading,
    column: LeafColumn,
    num_rows: usize,
    pages: Seq<Option<PlainPageView>>,
    at: nat,
    totals: Seq<u64>,
)
    requires
        totals.len() == pages.len() + 1,
        at <= pages.len(),
        forall|i: int|
            0 <= i < pages.len() ==> (#[trigger] pages[i] matches Some(PlainPageView::Data(page)) && verdict_on_page(
                reading,
                column,
                num_rows,
                page,
                None,
                totals[i],
            ) == Verdict::Sound(totals[i + 1])),
    ensures
        pages_sound_from(reading, column, num_rows, pages, at, None, totals[at as int]),
    decreases pages.len() - at,
{
    if at < pages.len() {
        assert(pages[at as int] is Some);
        lemma_counted_pages_sound(reading, column, num_rows, pages, at + 1, totals);
    }
}

/// A page of byte strings, none of them null, that lie one after the other is sound.
proof fn lemma_page_of_byte_strings(
    small: bool,
    column: LeafColumn,
    num_rows: usize,
    page: DataPageView,
    ends: Seq<int>,
    total: u64,
)
    requires
        column.repetition is Required,
        column.def_level == 0,
        column.rep_level == 0,
        encoding_kind(page.encoding) is Plain,
        page.levels is V1 || page.levels == (PageLevels::V2 { rep: 0, def: 0 }),
        page.count <= 0x7fff_ffff,
        page.bytes.len() <= usize::MAX,
        ends.len() == page.count + 1,
        ends[0] == 0,
        ends.last() == page.bytes.len(),
        forall|i: int| 0 <= i < ends.len() ==> 0 <= #[trigger] ends[i],
        forall|i: int| 0 <= i < ends.len() ==> #[trigger] ends[i] <= page.bytes.len(),
        forall|i: int| 0 <= i < ends.len() - 1 ==> ends[i] + 4 <= #[trigger] ends[i + 1],
        forall|i: int|
            0 <= i < ends.len() - 1 ==> #[trigger] ends[i + 1] == ends[i] + 4 + page.bytes[ends[i]] + 0x100
                * page.bytes[ends[i] + 1] + 0x1_0000 * page.bytes[ends[i] + 2] + 0x100_0000 * page.bytes[ends[i] + 3],
        small ==> total + page.bytes.len() - 4 * page.count <= 0x7fff_ffff,
    ensures
        verdict_on_page(Reading::Bytes { small }, column, num_rows, page, None, total) == Verdict::Sound(
            if small {
                (total + page.bytes.len() - 4 * page.count) as u64
            } else {
                total
            },
        ),
{
    assert(page.bytes.skip(0) =~= page.bytes);
    law_byte_strings_are_found(page.bytes, ends);
    let strings = byte_strings(page.bytes, 0, page.count as nat, seq![])->0;
    if small {
        lemma_sizes_add_up(ends, strings, 0, total);
    }
}

/// Byte strings, none of them null, that lie one after the other in their pages, each after its length, can be
/// decoded, however long they are and however many rows are read. Where offsets of 32 bits count their bytes,
/// there may be as many of those as such offsets count.
pub proof fn law_plain_byte_strings_can_be_decoded(
    columns: Seq<PageColumnView>,
    field: Field,
    num_rows: usize,
    leaf: LeafType,
    pages: Seq<DataPageView>,
    ends: Seq<Seq<int>>,
    totals: Seq<u64>,
)
    requires
        columns.len() == 1,
        field_shape(field) matches FieldShape::Leaf { leaf: of, .. } && of == leaf,
        leaf.layout is Binary || leaf.layout is Utf8 || leaf.layout is LargeBinary || leaf.layout is LargeUtf8,
        leaf.kind is Plain,
        leaf_parts(columns[0].descriptor).1 is Required,
        leaf_parts(columns[0].descriptor).2 == 0,
        leaf_parts(columns[0].descriptor).3 == 0,
        16 * num_rows <= isize::MAX,
        forall|i: int|
            0 <= i < stored_levels(columns[0]).len() ==> ((#[trigger] stored_levels(columns[0])[i]) matches Some(
                (rep, def),
            ) ==> i32::MIN <= rep + def <= i32::MAX),
        column_pages(columns[0]).len() == pages.len() <= 1024,
        forall|i: int|
            0 <= i < pages.len() ==> #[trigger] column_pages(columns[0])[i] == Some(PlainPageView::Data(pages[i])),
        forall|i: int|
            0 <= i < pages.len() ==> {
                &&& encoding_kind((#[trigger] pages[i]).encoding) is Plain
                &&& pages[i].levels is V1 || pages[i].levels == (PageLevels::V2 { rep: 0, def: 0 })
                &&& pages[i].count <= 0x7fff_ffff
                &&& pages[i].bytes.len() <= usize::MAX
                &&& ends[i].len() == pages[i].count + 1
                &&& ends[i][0] == 0
                &&& ends[i].last() == pages[i].bytes.len()
            },
        forall|i: int, n: int|
            0 <= i < pages.len() && 0 <= n < ends[i].len() ==> 0 <= #[trigger] ends[i][n],
        forall|i: int, n: int|
            0 <= i < pages.len() && 0 <= n < ends[i].len() ==> #[trigger] ends[i][n] <= pages[i].bytes.len(),
        forall|i: int, n: int|
            0 <= i < pages.len() && 0 <= n < pages[i].count ==> ends[i][n] + 4 <= #[trigger] ends[i][n + 1],
        forall|i: int, n: int|
            0 <= i < pages.len() && 0 <= n < pages[i].count ==> #[trigger] ends[i][n + 1] == ends[i][n] + 4
                + pages[i].bytes[ends[i][n]] + 0x100 * pages[i].bytes[ends[i][n] + 1] + 0x1_0000
                * pages[i].bytes[ends[i][n] + 2] + 0x100_0000 * pages[i].bytes[ends[i][n] + 3],
        totals.len() == pages.len() + 1,
        totals[0] == 0,
        forall|i: int|
            0 <= i < pages.len() ==> if leaf.layout is Binary || leaf.layout is Utf8 {
                #[trigger] totals[i + 1] == totals[i] + pages[i].bytes.len() - 4 * pages[i].count && totals[i + 1]
                    <= 0x7fff_ffff
            } else {
                totals[i + 1] == totals[i]
            },
    ensures
        columns_sound(columns, field, num_rows),
{
    let column = stored_leaf(columns[0].descriptor);
    let reading = reading_of(field_shape(field), false, column)->0;
    assert(reading matches Reading::Bytes { small } && small == (leaf.layout is Binary || leaf.layout is Utf8));
    let all = column_pages(columns[0]);
    assert forall|i: int| 0 <= i < all.len() implies (#[trigger] all[i] matches Some(PlainPageView::Data(page))
        && verdict_on_page(reading, column, num_rows, page, None, totals[i]) == Verdict::Sound(totals[i + 1])) by {
        let page = pages[i];
        assert(encoding_kind(page.encoding) is Plain);
        assert(totals[i + 1] >= 0);
        lemma_page_of_byte_strings(
            leaf.layout is Binary || leaf.layout is Utf8,
            column,
            num_rows,
            page,
            ends[i],
            totals[i],
        );
    }
    lemma_counted_pages_sound(reading, column, num_rows, all, 0, totals);
    lemma_one_column(columns, field, num_rows, reading, column);
}

/// A page of byte strings that may be null, where those that are not lie one after the other, is sound.
proof fn lemma_nullable_page_of_byte_strings(
    small: bool,
    column: LeafColumn,
    num_rows: usize,
    page: DataPageView,
    levels: Seq<u8>,
    values: Seq<u8>,
    counts: Seq<nat>,
    ends: Seq<int>,
    total: u64,
)
    requires
        column.repetition is Optional,
        column.def_level == 1,
        column.rep_level == 0,
        encoding_kind(page.encoding) is Plain,
        page.count <= 0x7fff_ffff,
        holds(page, levels, values),
        is_runs(levels, 0, 1, page.count as nat, false),
        counts.len() == page.count + 1,
        counts[0] == 0,
        forall|n: int|
            0 <= n < page.count ==> #[trigger] counts[n + 1] == counts[n] + if run_values(levels, 1, page.count)[n]
                == 1 {
                1nat
            } else {
                0nat
            },
        ends.len() == counts.last() + 1,
        ends[0] == 0,
        ends.last() == values.len(),
        forall|i: int| 0 <= i < ends.len() ==> 0 <= #[trigger] ends[i],
        forall|i: int| 0 <= i < ends.len() ==> #[trigger] ends[i] <= values.len(),
        forall|i: int| 0 <= i < ends.len() - 1 ==> ends[i] + 4 <= #[trigger] ends[i + 1],
        forall|i: int|
            0 <= i < ends.len() - 1 ==> #[trigger] ends[i + 1] == ends[i] + 4 + values[ends[i]] + 0x100 * values[ends[i]
                + 1] + 0x1_0000 * values[ends[i] + 2] + 0x100_0000 * values[ends[i] + 3],
        small ==> total + values.len() - 4 * counts.last() <= 0x7fff_ffff,
    ensures
        verdict_on_page(Reading::Bytes { small }, column, num_rows, page, None, total) == Verdict::Sound(
            if small {
                (total + values.len() - 4 * counts.last()) as u64
            } else {
                total
            },
        ),
{
    lemma_nullable_page(page, column, page.count, levels, values, counts);
    law_byte_strings_are_found(values, ends);
    let strings = byte_strings(values, 0, counts.last(), seq![])->0;
    if small {
        lemma_sizes_add_up(ends, strings, 0, total);
    }
}

/// Byte strings that may be null can be decoded where there is one for each that is not: the levels say which are,
/// and the byte strings that are there lie one after the other, each after its length.
pub proof fn law_nullable_byte_strings_can_be_decoded(
    columns: Seq<PageColumnView>,
    field: Field,
    num_rows: usize,
    leaf: LeafType,
    pages: Seq<DataPageView>,
    levels: Seq<Seq<u8>>,
    values: Seq<Seq<u8>>,
    counts: Seq<Seq<nat>>,
    ends: Seq<Seq<int>>,
    totals: Seq<u64>,
)
    requires
        columns.len() == 1,
        field_shape(field) matches FieldShape::Leaf { leaf: of, .. } && of == leaf,
        leaf.layout is Binary || leaf.layout is Utf8 || leaf.layout is LargeBinary || leaf.layout is LargeUtf8,
        leaf.kind is Plain,
        leaf_parts(columns[0].descriptor).1 is Optional,
        leaf_parts(columns[0].descriptor).2 == 1,
        leaf_parts(columns[0].descriptor).3 == 0,
        16 * num_rows <= isize::MAX,
        forall|i: int|
            0 <= i < stored_levels(columns[0]).len() ==> ((#[trigger] stored_levels(columns[0])[i]) matches Some(
                (rep, def),
            ) ==> i32::MIN <= rep + def <= i32::MAX),
        column_pages(columns[0]).len() == pages.len() <= 1024,
        forall|i: int|
            0 <= i < pages.len() ==> #[trigger] column_pages(columns[0])[i] == Some(PlainPageView::Data(pages[i])),
        forall|i: int|
            0 <= i < pages.len() ==> {
                &&& encoding_kind((#[trigger] pages[i]).encoding) is Plain
                &&& pages[i].count <= 0x7fff_ffff
                &&& holds(pages[i], levels[i], values[i])
                &&& is_runs(levels[i], 0, 1, pages[i].count as nat, false)
                &&& counts[i].len() == pages[i].count + 1
                &&& counts[i][0] == 0
                &&& ends[i].len() == counts[i].last() + 1
                &&& ends[i][0] == 0
                &&& ends[i].last() == values[i].len()
            },
        forall|i: int, n: int|
            0 <= i < pages.len() && 0 <= n < pages[i].count ==> #[trigger] counts[i][n + 1] == counts[i][n]
                + if run_values(levels[i], 1, pages[i].count)[n] == 1 {
                1nat
            } else {
                0nat
            },
        forall|i: int, n: int|
            0 <= i < pages.len() && 0 <= n < ends[i].len() ==> 0 <= #[trigger] ends[i][n],
        forall|i: int, n: int|
            0 <= i < pages.len() && 0 <= n < ends[i].len() ==> #[trigger] ends[i][n] <= values[i].len(),
        forall|i: int, n: int|
            0 <= i < pages.len() && 0 <= n < ends[i].len() - 1 ==> ends[i][n] + 4 <= #[trigger] ends[i][n + 1],
        forall|i: int, n: int|
            0 <= i < pages.len() && 0 <= n < ends[i].len() - 1 ==> #[trigger] ends[i][n + 1] == ends[i][n] + 4
                + values[i][ends[i][n]] + 0x100 * values[i][ends[i][n] + 1] + 0x1_0000 * values[i][ends[i][n] + 2]
                + 0x100_0000 * values[i][ends[i][n] + 3],
        totals.len() == pages.len() + 1,
        totals[0] == 0,
        forall|i: int|
            0 <= i < pages.len() ==> if leaf.layout is Binary || leaf.layout is Utf8 {
                #[trigger] totals[i + 1] == totals[i] + values[i].len() - 4 * counts[i].last() && totals[i + 1]
                    <= 0x7fff_ffff
            } else {
                totals[i + 1] == totals[i]
            },
    ensures
        columns_sound(columns, field, num_rows),
{
    let column = stored_leaf(columns[0].descriptor);
    let reading = reading_of(field_shape(field), false, column)->0;
    assert(reading matches Reading::Bytes { small } && small == (leaf.layout is Binary || leaf.layout is Utf8));
    let all = column_pages(columns[0]);
    assert forall|i: int| 0 <= i < all.len() implies (#[trigger] all[i] matches Some(PlainPageView::Data(page))
        && verdict_on_page(reading, column, num_rows, page, None, totals[i]) == Verdict::Sound(totals[i + 1])) by {
        let page = pages[i];
        assert(encoding_kind(page.encoding) is Plain);
        assert(totals[i + 1] >= 0);
        lemma_nullable_page_of_byte_strings(
            leaf.layout is Binary || leaf.layout is Utf8,
            column,
            num_rows,
            page,
            levels[i],
            values[i],
            counts[i],
            ends[i],
            totals[i],
        );
    }
    lemma_counted_pages_sound(reading, column, num_rows, all, 0, totals);
    lemma_one_column(columns, field, num_rows, reading, column);
}

/// The page of an index that holds one byte string after its length can be decoded, whatever the byte string is.
pub proof fn law_index_page_of_one_value_can_be_decoded(
    column: PageColumnView,
    field: Field,
    page: DataPageView,
    value: Seq<u8>,
)
    requires
        field_shape(field) matches FieldShape::Leaf { leaf, .. } && leaf.layout is Binary && leaf.kind is Plain,
        leaf_parts(column.descriptor).1 is Required,
        leaf_parts(column.descriptor).2 == 0,
        leaf_parts(column.descriptor).3 == 0,
        forall|i: int|
            0 <= i < stored_levels(column).len() ==> ((#[trigger] stored_levels(column)[i]) matches Some((rep, def))
                ==> i32::MIN <= rep + def <= i32::MAX),
        column_pages(column) == seq![Some(PlainPageView::Data(page))],
        encoding_kind(page.encoding) is Plain,
        page.levels is V1 || page.levels == (PageLevels::V2 { rep: 0, def: 0 }),
        page.count == 1,
        page.bytes.len() == 4 + value.len() <= usize::MAX,
        value.len() <= 0x7fff_ffff,
        page.bytes[0] + 0x100 * page.bytes[1] + 0x1_0000 * page.bytes[2] + 0x100_0000 * page.bytes[3] == value.len(),
        page.bytes.skip(4) == value,
    ensures
        columns_sound(seq![column], field, 1),
{
    let leaf = field_shape(field)->Leaf_leaf;
    let ends = seq![0, page.bytes.len() as int];
    assert forall|i: int| 0 <= i < ends.len() - 1 implies ends[i] + 4 <= #[trigger] ends[i + 1] by {
        assert(i == 0);
    }
    assert forall|i: int| 0 <= i < ends.len() - 1 implies #[trigger] ends[i + 1] == ends[i] + 4 + page.bytes[ends[i]]
        + 0x100 * page.bytes[ends[i] + 1] + 0x1_0000 * page.bytes[ends[i] + 2] + 0x100_0000 * page.bytes[ends[i] + 3] by {
        assert(i == 0);
    }
    let totals = seq![0u64, value.len() as u64];
    assert forall|i: int| 0 <= i < 1 implies #[trigger] totals[i + 1] == totals[i] + page.bytes.len() - 4 * page.count
        && totals[i + 1] <= 0x7fff_ffff by {
        assert(i == 0);
    }
    let all_ends = seq![ends];
    assert forall|i: int, n: int| 0 <= i < 1 && 0 <= n < page.count implies all_ends[i][n] + 4
        <= #[trigger] all_ends[i][n + 1] by {
        assert(all_ends[i] == ends && n == 0);
    }
    assert forall|i: int, n: int| 0 <= i < 1 && 0 <= n < page.count implies #[trigger] all_ends[i][n + 1]
        == all_ends[i][n] + 4 + page.bytes[all_ends[i][n]] + 0x100 * page.bytes[all_ends[i][n] + 1] + 0x1_0000
        * page.bytes[all_ends[i][n] + 2] + 0x100_0000 * page.bytes[all_ends[i][n] + 3] by {
        assert(all_ends[i] == ends && n == 0);
    }
    law_plain_byte_strings_can_be_decoded(seq![column], field, 1, leaf, seq![page], all_ends, totals);
}

/// Numbers that are stored once each, in a dictionary, can be decoded from pages of indices of it, none of them
/// null, if each index that is read is one of a number in the dictionary.
pub proof fn law_numbers_of_a_dictionary_can_be_decoded(
    columns: Seq<PageColumnView>,
    field: Field,
    num_rows: usize,
    leaf: LeafType,
    size: nat,
    entries: nat,
    dictionary: Seq<u8>,
    pages: Seq<DataPageView>,
    limits: Seq<usize>,
)
    requires
        columns.len() == 1,
        field_shape(field) matches FieldShape::Leaf { leaf: of, .. } && of == leaf,
        is_stored_number(leaf, columns[0].descriptor, size),
        leaf_parts(columns[0].descriptor).1 is Required,
        leaf_parts(columns[0].descriptor).2 == 0,
        leaf_parts(columns[0].descriptor).3 == 0,
        16 * num_rows <= isize::MAX,
        forall|i: int|
            0 <= i < stored_levels(columns[0]).len() ==> ((#[trigger] stored_levels(columns[0])[i]) matches Some(
                (rep, def),
            ) ==> i32::MIN <= rep + def <= i32::MAX),
        dictionary.len() == size * entries <= usize::MAX,
        column_pages(columns[0]).len() == pages.len() + 1 <= 1024,
        column_pages(columns[0])[0] == Some(
            PlainPageView::Dictionary { count: entries as usize, bytes: dictionary },
        ),
        forall|i: int|
            0 <= i < pages.len() ==> #[trigger] column_pages(columns[0])[i + 1] == Some(
                PlainPageView::Data(pages[i]),
            ),
        forall|i: int|
            0 <= i < pages.len() ==> {
                &&& encoding_kind((#[trigger] pages[i]).encoding) is RleDictionary || encoding_kind(pages[i].encoding)
                    is PlainDictionary
                &&& pages[i].levels is V1 || pages[i].levels == (PageLevels::V2 { rep: 0, def: 0 })
                &&& pages[i].count <= 0x7fff_ffff
                &&& limits[i] <= pages[i].count && limits[i] <= num_rows && (limits[i] == pages[i].count || limits[i]
                    == num_rows)
                &&& pages[i].bytes.len() > 0
                &&& pages[i].bytes[0] <= 32
                &&& runs_sound(pages[i].bytes.skip(1), pages[i].bytes[0] as nat, limits[i])
            },
        forall|i: int, n: int|
            0 <= i < pages.len() && 0 <= n < limits[i] ==> #[trigger] run_values(
                pages[i].bytes.skip(1),
                pages[i].bytes[0] as u32,
                limits[i],
            )[n] < entries,
    ensures
        columns_sound(columns, field, num_rows),
{
    let column = stored_leaf(columns[0].descriptor);
    let reading = reading_of(field_shape(field), false, column)->0;
    assert(reading matches Reading::Number { size: bytes, scaling, .. } && bytes == size && scaling is Kept);
    let all = column_pages(columns[0]);
    let found = DictionaryView { entries: entries as usize, sizes: seq![] };
    assert(dictionary.len() / size == entries) by (nonlinear_arith)
        requires
            dictionary.len() == size * entries,
            size == 4 || size == 8,
    ;
    assert(dictionary_of(reading, entries as usize, dictionary) == Some(found));
    assert(entries <= dictionary.len()) by (nonlinear_arith)
        requires
            dictionary.len() == size * entries,
            size == 4 || size == 8,
    ;
    assert forall|i: int| 1 <= i < all.len() implies (#[trigger] all[i] matches Some(PlainPageView::Data(page))
        && verdict_on_page(reading, column, num_rows, page, Some(found), 0) == Verdict::Sound(0)) by {
        let j = i - 1;
        let page = pages[j];
        let values = page.bytes;
        assert(column_pages(columns[0])[j + 1] == Some(PlainPageView::Data(page)));
        assert(values.skip(0) =~= values);
        assert(values.skip(1) =~= values.drop_first());
        let indices = run_values(values.skip(1), values[0] as u32, limits[j]);
        assert(page_indices(values, limits[j]) == Some(indices));
        assert forall|n: int| 0 <= n < limits[j] implies #[trigger] indices[n] <= entries - 1 by {
            assert(run_values(pages[j].bytes.skip(1), pages[j].bytes[0] as u32, limits[j])[n] < entries);
        }
    }
    lemma_all_pages_sound(reading, column, num_rows, all, 1, Some(found), 0);
    lemma_one_column(columns, field, num_rows, reading, column);
}

/// A variable-length number reads as its groups of seven bits, the lowest first: all of its bytes but the last
/// one say that there are more. `rest` are what the groups from each one on come to.
pub proof fn law_varint_reads_its_groups(bytes: Seq<u8>, at: int, rest: Seq<nat>)
    requires
        2 <= rest.len() <= 10,
        0 <= at,
        at + rest.len() - 1 <= bytes.len(),
        rest.last() == 0,
        forall|i: int|
            0 <= i < rest.len() - 1 ==> #[trigger] rest[i] == bytes[at + i] % 128 + 128 * rest[i + 1],
        forall|i: int| at <= i < at + rest.len() - 2 ==> #[trigger] bytes[i] >= 128,
        bytes[at + rest.len() - 2] < 128,
    ensures
        varint(bytes, at) == Some((rest[0], at + rest.len() - 1)),
{
    lemma_varint_groups(bytes, at, rest, 0);
}

/// A variable-length number reads as its groups, from the `k`-th on.
proof fn lemma_varint_groups(bytes: Seq<u8>, at: int, rest: Seq<nat>, k: nat)
    requires
        2 <= rest.len() <= 10,
        0 <= at,
        at + rest.len() - 1 <= bytes.len(),
        rest.last() == 0,
        forall|i: int|
            0 <= i < rest.len() - 1 ==> #[trigger] rest[i] == bytes[at + i] % 128 + 128 * rest[i + 1],
        forall|i: int| at <= i < at + rest.len() - 2 ==> #[trigger] bytes[i] >= 128,
        bytes[at + rest.len() - 2] < 128,
        k < rest.len() - 1,
    ensures
        varint_from(bytes, at + k, k) == Some((rest[k as int], at + rest.len() - 1)),
    decreases rest.len() - k,
{
    let i = k as int;
    assert(rest[i] == bytes[at + i] % 128 + 128 * rest[i + 1]);
    if k < rest.len() - 2 {
        lemma_varint_groups(bytes, at, rest, k + 1);
        assert(bytes[at + k] >= 128);
    }
}

/// A run of one value, repeated as often as it takes, is taken, however often that is.
pub proof fn law_repeated_run_is_taken(bytes: Seq<u8>, at: int, bits: nat, times: nat, start: int, need: nat, padded: bool)
    requires
        0 <= at < start,
        bits > 0,
        times > 0,
        varint(bytes, at) == Some((2 * times, start)),
        start + (bits + 7) / 8 <= bytes.len(),
        need <= times || is_runs(bytes, start + (bits + 7) / 8, bits, (need - times) as nat, padded),
    ensures
        is_runs(bytes, at, bits, need, padded),
{
    assert((bits + 7) / 8 > 0);
    assert(2 * times / 2 == times);
    reveal_with_fuel(is_runs, 2);
}

/// A run of values, packed in groups of eight, is taken, whatever the values are.
pub proof fn law_packed_run_is_taken(bytes: Seq<u8>, at: int, bits: nat, groups: nat, start: int, need: nat, padded: bool)
    requires
        0 <= at < start,
        bits > 0,
        0 < groups <= 0x1_0000_0000,
        varint(bytes, at) == Some((2 * groups + 1, start)),
        start + groups * bits <= bytes.len(),
        need <= 8 * groups || is_runs(bytes, start + groups * bits, bits, (need - 8 * groups) as nat, padded),
    ensures
        is_runs(bytes, at, bits, need, padded),
{
    assert((2 * groups + 1) / 2 == groups);
    assert(groups * bits > 0) by (nonlinear_arith)
        requires
            groups > 0,
            bits > 0,
    ;
    assert((groups * bits * 8) as nat / bits == 8 * groups) by (nonlinear_arith)
        requires
            bits > 0,
    ;
    reveal_with_fuel(is_runs, 2);
}

/// A number of delta-encoded numbers is the one before it and a difference, whatever the difference is, as long as
/// the numbers, and their products with a factor, have 64 bits. `sums` are the numbers.
proof fn lemma_summed(least: int, differences: Seq<u64>, factor: i64, sums: Seq<int>, k: nat)
    requires
        sums.len() == differences.len() + 1,
        k < sums.len(),
        forall|i: int|
            0 <= i < differences.len() ==> #[trigger] sums[i + 1] == sums[i] + least + (if differences[i]
                <= 0x7fff_ffff_ffff_ffff {
                differences[i] as int
            } else {
                differences[i] - 0x1_0000_0000_0000_0000
            }),
        forall|i: int|
            0 <= i < differences.len() ==> -0x8000_0000_0000_0000 <= #[trigger] sums[i + 1] - sums[i]
                <= 0x7fff_ffff_ffff_ffff,
        forall|i: int| 0 <= i < sums.len() ==> -0x8000_0000_0000_0000 <= #[trigger] sums[i] <= 0x7fff_ffff_ffff_ffff,
        forall|i: int|
            0 <= i < sums.len() ==> -0x8000_0000_0000_0000 <= (#[trigger] sums[i]) * factor <= 0x7fff_ffff_ffff_ffff,
    ensures
        summed(least, differences, k, sums[k as int], factor) == Some(sums.last()),
    decreases sums.len() - k,
{
    if k < differences.len() {
        let i = k as int;
        assert(sums[i + 1] == sums[i] + least + signed(differences[i]));
        assert(-0x8000_0000_0000_0000 <= sums[i + 1] - sums[i] <= 0x7fff_ffff_ffff_ffff);
        assert(fits(sums[i + 1], factor)) by {
            let sum = sums[i + 1];
            assert(-0x8000_0000_0000_0000 <= sum * factor <= 0x7fff_ffff_ffff_ffff);
        }
        lemma_summed(least, differences, factor, sums, k + 1);
    }
}

/// A block of delta-encoded numbers in one part is taken, with the blocks after it, where its bytes are there, and
/// the numbers, and their products with a factor, have 64 bits. `sums` are the number before the block, and its
/// numbers.
pub proof fn law_delta_block_is_taken(
    bytes: Seq<u8>,
    head: DeltaHead,
    at: int,
    left: nat,
    factor: i64,
    least: nat,
    widths: int,
    differences: Seq<u64>,
    sums: Seq<int>,
)
    requires
        head.parts == 1,
        0 < head.part_values <= 0x8000_0000,
        0 < left,
        varint(bytes, at) == Some((least, widths)),
        0 <= widths < bytes.len(),
        0 < bytes[widths] <= 64,
        head.part_values * bytes[widths] <= usize::MAX,
        widths + 1 + head.part_values * bytes[widths] / 8 <= bytes.len(),
        differences == packed_values(
            bytes.subrange(widths + 1, widths + 1 + head.part_values * bytes[widths] / 8),
            bytes[widths] as usize,
            (if left <= head.part_values {
                left
            } else {
                head.part_values
            }) as usize,
        ),
        sums.len() == differences.len() + 1,
        forall|i: int|
            0 <= i < differences.len() ==> #[trigger] sums[i + 1] == sums[i] + (if least % 2 == 0 {
                least as int / 2
            } else {
                -1 - least as int / 2
            }) + (if differences[i] <= 0x7fff_ffff_ffff_ffff {
                differences[i] as int
            } else {
                differences[i] - 0x1_0000_0000_0000_0000
            }),
        forall|i: int|
            0 <= i < differences.len() ==> -0x8000_0000_0000_0000 <= #[trigger] sums[i + 1] - sums[i]
                <= 0x7fff_ffff_ffff_ffff,
        forall|i: int| 0 <= i < sums.len() ==> -0x8000_0000_0000_0000 <= #[trigger] sums[i] <= 0x7fff_ffff_ffff_ffff,
        forall|i: int|
            0 <= i < sums.len() ==> -0x8000_0000_0000_0000 <= (#[trigger] sums[i]) * factor <= 0x7fff_ffff_ffff_ffff,
        left <= head.part_values || is_delta_blocks(
            bytes,
            head,
            widths + 1 + head.part_values * bytes[widths] / 8,
            (left - head.part_values) as nat,
            sums.last(),
            factor,
        ),
    ensures
        is_delta_blocks(bytes, head, at, left, sums[0], factor),
{
    lemma_summed(zigzag(least), differences, factor, sums, 0);
    let end = widths + 1 + head.part_values * bytes[widths] / 8;
    reveal_with_fuel(delta_parts_end, 2);
    assert(delta_parts_end(bytes, head, zigzag(least), widths, 0, widths + 1, left, sums[0], factor) == Some(
        (end, sums.last()),
    ));
    assert(head.parts * head.part_values == head.part_values) by (nonlinear_arith)
        requires
            head.parts == 1,
    ;
    reveal_with_fuel(is_delta_blocks, 2);
}

/// Delta-encoded numbers start with the size of a block, the number of its parts, the number of numbers and the first
/// number. A size of a multiple of 128 in one part is taken, with any number of numbers that have 64 bits.
pub proof fn law_delta_head_is_taken(
    bytes: Seq<u8>,
    factor: i64,
    size: nat,
    count: nat,
    first: nat,
    value: int,
    a: int,
    b: int,
    c: int,
    start: int,
)
    requires
        varint(bytes, 0) == Some((size, a)),
        varint(bytes, a) == Some((1nat, b)),
        varint(bytes, b) == Some((count, c)),
        varint(bytes, c) == Some((first, start)),
        0 < size <= 0x8000_0000,
        size % 128 == 0,
        count <= 0x8000_0000,
        value == (if first % 2 == 0 {
            first as int / 2
        } else {
            -1 - first as int / 2
        }),
        -0x8000_0000_0000_0000 <= value <= 0x7fff_ffff_ffff_ffff,
        -0x8000_0000_0000_0000 <= value * factor <= 0x7fff_ffff_ffff_ffff,
        count <= 1 || is_delta_blocks(
            bytes,
            DeltaHead { parts: 1, part_values: size, count, first: value, start },
            start,
            (count - 1) as nat,
            value,
            factor,
        ),
    ensures
        is_delta(bytes, factor),
        delta_count(bytes) == count,
{
    assert(size / 1 == size);
    assert(delta_head(bytes) == Some(DeltaHead { parts: 1, part_values: size, count, first: value, start }));
}

/// Byte strings lie after their lengths, none of which is negative.
proof fn lemma_lengths_fit(lengths: Seq<i64>, starts: Seq<int>, end: int, k: nat)
    requires
        starts.len() == lengths.len() + 1,
        k < starts.len(),
        starts.last() <= end,
        forall|i: int| 0 <= i < lengths.len() ==> #[trigger] starts[i + 1] == starts[i] + lengths[i],
        forall|i: int| 0 <= i < lengths.len() ==> starts[i] <= #[trigger] starts[i + 1],
    ensures
        lengths_fit(lengths, k, (end - starts[k as int]) as nat),
        starts[k as int] <= end,
    decreases starts.len() - k,
{
    if k < lengths.len() {
        let i = k as int;
        assert(starts[i + 1] == starts[i] + lengths[i]);
        assert(starts[i] <= starts[i + 1]);
        lemma_lengths_fit(lengths, starts, end, k + 1);
    }
}

/// Lengths add up to the bytes that the byte strings lie in.
proof fn lemma_lengths_add_up(lengths: Seq<i64>, starts: Seq<int>, k: nat, total: u64)
    requires
        starts.len() == lengths.len() + 1,
        k < starts.len(),
        forall|i: int| 0 <= i < lengths.len() ==> #[trigger] starts[i + 1] == starts[i] + lengths[i],
        forall|i: int| 0 <= i < lengths.len() ==> starts[i] <= #[trigger] starts[i + 1],
        total + starts.last() - starts[k as int] <= 0x7fff_ffff,
    ensures
        added(length_sizes(lengths), k, total) == Some((total + starts.last() - starts[k as int]) as u64),
    decreases starts.len() - k,
{
    lemma_starts_grow(starts, k);
    if k < lengths.len() {
        let i = k as int;
        assert(starts[i + 1] == starts[i] + lengths[i]);
        assert(starts[i] <= starts[i + 1]);
        lemma_starts_grow(starts, k + 1);
        assert(length_sizes(lengths)[i] == lengths[i]);
        lemma_lengths_add_up(lengths, starts, k + 1, (total + lengths[i]) as u64);
    }
}

/// Byte strings start one after the other.
proof fn lemma_starts_grow(starts: Seq<int>, k: nat)
    requires
        k < starts.len(),
        forall|i: int| 0 <= i < starts.len() - 1 ==> starts[i] <= #[trigger] starts[i + 1],
    ensures
        starts[k as int] <= starts.last(),
    decreases starts.len() - k,
{
    if k < starts.len() - 1 {
        let i = k as int;
        assert(starts[i] <= starts[i + 1]);
        lemma_starts_grow(starts, k + 1);
    }
}

/// A page of byte strings after their delta-encoded lengths is sound.
proof fn lemma_page_of_lengths(
    small: bool,
    column: LeafColumn,
    num_rows: usize,
    page: DataPageView,
    levels: Seq<u8>,
    values: Seq<u8>,
    counts: Seq<nat>,
    lengths: Seq<i64>,
    starts: Seq<int>,
    total: u64,
)
    requires
        column.rep_level == 0,
        if column.repetition is Optional {
            column.def_level == 1 && holds(page, levels, values) && is_runs(
                levels,
                0,
                1,
                page.count as nat,
                false,
            ) && counts.len() == page.count + 1 && counts[0] == 0
        } else {
            column.def_level == 0 && page.bytes == values && (page.levels is V1 || page.levels == (PageLevels::V2 {
                rep: 0,
                def: 0,
            }))
        },
        column.repetition is Optional ==> forall|n: int|
            0 <= n < page.count ==> #[trigger] counts[n + 1] == counts[n] + if run_values(levels, 1, page.count)[n]
                == 1 {
                1nat
            } else {
                0nat
            },
        encoding_kind(page.encoding) is DeltaLengthByteArray,
        page.count <= 0x7fff_ffff,
        is_delta(values, 1),
        starts.len() == lengths.len() + 1,
        0 <= starts[0],
        delta_values(values) == Some((lengths, starts[0] as usize)),
        starts[0] <= usize::MAX,
        starts.last() <= values.len(),
        forall|i: int| 0 <= i < lengths.len() ==> #[trigger] starts[i + 1] == starts[i] + lengths[i],
        forall|i: int| 0 <= i < lengths.len() ==> starts[i] <= #[trigger] starts[i + 1],
        small ==> total + starts.last() - starts[0] <= 0x7fff_ffff,
    ensures
        verdict_on_page(Reading::Bytes { small }, column, num_rows, page, None, total) == Verdict::Sound(
            if small {
                (total + starts.last() - starts[0]) as u64
            } else {
                total
            },
        ),
{
    if column.repetition is Optional {
        lemma_nullable_page(page, column, page.count, levels, values, counts);
    } else {
        assert(page.bytes.skip(0) =~= values);
    }
    lemma_lengths_fit(lengths, starts, values.len() as int, 0);
    if small {
        lemma_lengths_add_up(lengths, starts, 0, total);
    }
}

/// Byte strings that lie one after the other in their pages, after their lengths, which are delta-encoded, can be
/// decoded, whether they may be null or not. `starts` are where the byte strings of a page start, and where the last one ends.
pub proof fn law_byte_strings_after_their_lengths_can_be_decoded(
    columns: Seq<PageColumnView>,
    field: Field,
    num_rows: usize,
    leaf: LeafType,
    pages: Seq<DataPageView>,
    levels: Seq<Seq<u8>>,
    values: Seq<Seq<u8>>,
    counts: Seq<Seq<nat>>,
    lengths: Seq<Seq<i64>>,
    starts: Seq<Seq<int>>,
    totals: Seq<u64>,
)
    requires
        columns.len() == 1,
        field_shape(field) matches FieldShape::Leaf { leaf: of, .. } && of == leaf,
        leaf.layout is Binary || leaf.layout is Utf8 || leaf.layout is LargeBinary || leaf.layout is LargeUtf8,
        leaf.kind is Plain,
        leaf_parts(columns[0].descriptor).1 is Optional && leaf_parts(columns[0].descriptor).2 == 1 || leaf_parts(
            columns[0].descriptor,
        ).1 is Required && leaf_parts(columns[0].descriptor).2 == 0,
        leaf_parts(columns[0].descriptor).3 == 0,
        16 * num_rows <= isize::MAX,
        forall|i: int|
            0 <= i < stored_levels(columns[0]).len() ==> ((#[trigger] stored_levels(columns[0])[i]) matches Some(
                (rep, def),
            ) ==> i32::MIN <= rep + def <= i32::MAX),
        column_pages(columns[0]).len() == pages.len() <= 1024,
        forall|i: int|
            0 <= i < pages.len() ==> #[trigger] column_pages(columns[0])[i] == Some(PlainPageView::Data(pages[i])),
        leaf_parts(columns[0].descriptor).1 is Optional ==> forall|i: int|
            0 <= i < pages.len() ==> holds(#[trigger] pages[i], levels[i], values[i]) && is_runs(
                levels[i],
                0,
                1,
                pages[i].count as nat,
                false,
            ) && counts[i].len() == pages[i].count + 1 && counts[i][0] == 0,
        leaf_parts(columns[0].descriptor).1 is Optional ==> forall|i: int, n: int|
            0 <= i < pages.len() && 0 <= n < pages[i].count ==> #[trigger] counts[i][n + 1] == counts[i][n]
                + if run_values(levels[i], 1, pages[i].count)[n] == 1 {
                1nat
            } else {
                0nat
            },
        leaf_parts(columns[0].descriptor).1 is Required ==> forall|i: int|
            0 <= i < pages.len() ==> (#[trigger] pages[i]).bytes == values[i] && (pages[i].levels is V1
                || pages[i].levels == (PageLevels::V2 { rep: 0, def: 0 })),
        forall|i: int|
            0 <= i < pages.len() ==> {
                &&& encoding_kind((#[trigger] pages[i]).encoding) is DeltaLengthByteArray
                &&& pages[i].count <= 0x7fff_ffff
                &&& is_delta(values[i], 1)
                &&& starts[i].len() == lengths[i].len() + 1
                &&& 0 <= starts[i][0] <= usize::MAX
                &&& delta_values(values[i]) == Some((lengths[i], starts[i][0] as usize))
                &&& starts[i].last() <= values[i].len()
            },
        forall|i: int, n: int|
            0 <= i < pages.len() && 0 <= n < lengths[i].len() ==> #[trigger] starts[i][n + 1] == starts[i][n]
                + lengths[i][n],
        forall|i: int, n: int|
            0 <= i < pages.len() && 0 <= n < lengths[i].len() ==> starts[i][n] <= #[trigger] starts[i][n + 1],
        totals.len() == pages.len() + 1,
        totals[0] == 0,
        forall|i: int|
            0 <= i < pages.len() ==> if leaf.layout is Binary || leaf.layout is Utf8 {
                #[trigger] totals[i + 1] == totals[i] + starts[i].last() - starts[i][0] && totals[i + 1]
                    <= 0x7fff_ffff
            } else {
                totals[i + 1] == totals[i]
            },
    ensures
        columns_sound(columns, field, num_rows),
{
    let column = stored_leaf(columns[0].descriptor);
    let reading = reading_of(field_shape(field), false, column)->0;
    assert(reading matches Reading::Bytes { small } && small == (leaf.layout is Binary || leaf.layout is Utf8));
    let all = column_pages(columns[0]);
    assert forall|i: int| 0 <= i < all.len() implies (#[trigger] all[i] matches Some(PlainPageView::Data(page))
        && verdict_on_page(reading, column, num_rows, page, None, totals[i]) == Verdict::Sound(totals[i + 1])) by {
        let page = pages[i];
        assert(encoding_kind(page.encoding) is DeltaLengthByteArray);
        assert(totals[i + 1] >= 0);
        lemma_page_of_lengths(
            leaf.layout is Binary || leaf.layout is Utf8,
            column,
            num_rows,
            page,
            levels[i],
            values[i],
            counts[i],
            lengths[i],
            starts[i],
            totals[i],
        );
    }
    lemma_counted_pages_sound(reading, column, num_rows, all, 0, totals);
    lemma_one_column(columns, field, num_rows, reading, column);
}

} // verus!
