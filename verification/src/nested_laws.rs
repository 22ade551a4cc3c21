//! What can be decoded of fields with columns below them: the pages that a writer makes of structs and of lists are
//! taken, however many rows are read.

use arrow2::datatypes::Field;
use vstd::prelude::*;

use crate::arrow::field_shape;
use crate::arrow::leaf_parts;
use crate::arrow::page_descriptors;
use crate::arrow::stored_leaf;
use crate::arrow::stored_leaves;
use crate::arrow::PageColumnView;
use crate::decoding::columns_sound;
use crate::decoding::pages_of_columns;
use crate::encoding::byte_strings;
use crate::encoding::runs_sound;
use crate::nesting::adds;
use crate::nesting::bits_of;
use crate::nesting::cut;
use crate::nesting::def_before;
use crate::nesting::fields_read;
use crate::nesting::last_start;
use crate::nesting::leaf_read_from;
use crate::nesting::leaf_values;
use crate::nesting::level_bits;
use crate::nesting::page_entries;
use crate::nesting::rep_before;
use crate::nesting::starts;
use crate::nesting::type_read;
use crate::nesting::values_at;
use crate::nesting::verdict_on_nested_page;
use crate::nesting::with_field;
use crate::nesting::ArrayReadView;
use crate::nesting::FieldsReadView;
use crate::nesting::LeafProgressView;
use crate::nesting::LeafReadView;
use crate::nesting::Nest;
use crate::nesting::NestKind;
use crate::nesting::PageEntriesView;
use crate::nesting::TypeReadView;
use crate::page_laws::holds;
use crate::pages::verdict_on_values;
use crate::pages::Verdict;
use crate::parquet::column_pages;
use crate::parquet::encoding_kind;
use crate::parquet::levels_add_up;
use crate::parquet::run_values;
use crate::parquet::stored_levels;
use crate::parquet::DataPageView;
use crate::parquet::PageEncoding;
use crate::parquet::PageLevels;
use crate::parquet::PlainPageView;
use crate::shape::reading_of;
use crate::shape::set_up;
use crate::shape::set_up_fields;
use crate::shape::FieldShape;
use crate::shape::FieldShapes;
use crate::shape::LeafColumn;
use crate::shape::LeafRepetition;
use crate::shape::LeafType;
use crate::shape::Number;
use crate::shape::PhysicalLayout;
use crate::shape::Reading;

verus! {

/// Whether values of a leaf below other types lie one after the other: numbers of the size of their type, booleans,
/// or byte strings, each after its length in four bytes, the lowest first, and counted by offsets of 64 bits. `ends`
/// are where the byte strings end, after the zero that the first one starts at.
pub open spec fn holds_values(leaf: LeafType, values: Seq<u8>, ends: Seq<int>) -> bool {
    match leaf.layout {
        PhysicalLayout::Boolean => true,
        PhysicalLayout::Primitive => match leaf.number {
            Some(
                Number::Int8 | Number::Int16 | Number::Int32 | Number::UInt8 | Number::UInt16 | Number::Float32,
            ) => values.len() % 4 == 0,
            Some(Number::Int64 | Number::UInt64 | Number::Float64) => values.len() % 8 == 0,
            _ => false,
        },
        PhysicalLayout::LargeBinary | PhysicalLayout::LargeUtf8 => {
            &&& values.len() <= usize::MAX
            &&& ends.len() > 0
            &&& ends[0] == 0
            &&& ends.last() == values.len()
            &&& forall|i: int| 0 <= i < ends.len() ==> 0 <= #[trigger] ends[i]
            &&& forall|i: int| 0 <= i < ends.len() ==> #[trigger] ends[i] <= values.len()
            &&& forall|i: int| 0 <= i < ends.len() - 1 ==> ends[i] + 4 <= #[trigger] ends[i + 1]
            &&& forall|i: int|
                0 <= i < ends.len() - 1 ==> #[trigger] ends[i + 1] == ends[i] + 4 + values[ends[i]] + 0x100
                    * values[ends[i] + 1] + 0x1_0000 * values[ends[i] + 2] + 0x100_0000 * values[ends[i] + 3]
        },
        _ => false,
    }
}

/// Whether a leaf below other types is a number, a boolean or a byte string that offsets of 64 bits count.
pub open spec fn is_plain_leaf(leaf: LeafType) -> bool {
    match leaf.layout {
        PhysicalLayout::Boolean | PhysicalLayout::LargeBinary | PhysicalLayout::LargeUtf8 => true,
        PhysicalLayout::Primitive => leaf.number matches Some(
            Number::Int8
            | Number::Int16
            | Number::Int32
            | Number::Int64
            | Number::UInt8
            | Number::UInt16
            | Number::UInt64
            | Number::Float32
            | Number::Float64,
        ),
        _ => false,
    }
}

/// What a plain leaf is decoded from.
spec fn is_plain_reading(reading: Reading) -> bool {
    match reading {
        Reading::Boolean => true,
        Reading::Number { .. } => true,
        Reading::Bytes { small } => !small,
        _ => false,
    }
}

/// Whether values are sound, however many of them are decoded.
spec fn are_taken(reading: Reading, values: Seq<u8>) -> bool {
    forall|used: usize, total: u64| #[trigger]
        verdict_on_values(reading, PageEncoding::Plain, values, used, false, None, total) == Verdict::Sound(total)
}

/// Byte strings that lie one after the other do not break off, however many of them are looked for.
proof fn lemma_strings_do_not_break_off(
    values: Seq<u8>,
    ends: Seq<int>,
    k: nat,
    most: nat,
    found: Seq<(usize, usize)>,
)
    requires
        k < ends.len(),
        ends.last() == values.len(),
        forall|i: int| 0 <= i < ends.len() ==> 0 <= #[trigger] ends[i],
        forall|i: int| 0 <= i < ends.len() ==> #[trigger] ends[i] <= values.len(),
        forall|i: int| 0 <= i < ends.len() - 1 ==> ends[i] + 4 <= #[trigger] ends[i + 1],
        forall|i: int|
            0 <= i < ends.len() - 1 ==> #[trigger] ends[i + 1] == ends[i] + 4 + values[ends[i]] + 0x100 * values[ends[i]
                + 1] + 0x1_0000 * values[ends[i] + 2] + 0x100_0000 * values[ends[i] + 3],
    ensures
        byte_strings(values, ends[k as int], most, found) is Some,
    decreases most,
{
    if k < ends.len() - 1 && most > 0 {
        let i = k as int;
        let end = ends[i + 1];
        assert(ends[i] + 4 <= end);
        lemma_strings_do_not_break_off(
            values,
            ends,
            k + 1,
            (most - 1) as nat,
            found.push(((ends[i] + 4) as usize, end as usize)),
        );
    }
}

/// Values of a plain leaf that lie one after the other are sound.
proof fn lemma_values_are_taken(leaf: LeafType, nullable: bool, column: LeafColumn, values: Seq<u8>, ends: Seq<int>)
    requires
        is_plain_leaf(leaf),
        holds_values(leaf, values, ends),
    ensures
        reading_of(leaf_shape(nullable, leaf), true, column) matches Some(reading) && are_taken(reading, values),
{
    let reading = reading_of(leaf_shape(nullable, leaf), true, column)->0;
    assert forall|used: usize, total: u64| #[trigger]
        verdict_on_values(reading, PageEncoding::Plain, values, used, false, None, total) == Verdict::Sound(total) by {
        if leaf.layout is LargeBinary || leaf.layout is LargeUtf8 {
            lemma_strings_do_not_break_off(values, ends, 0, used as nat, seq![]);
        }
    }
}

/// Whether entries are rows: none of them repeats.
pub open spec fn are_rows(entries: Seq<(u32, u32)>) -> bool {
    forall|i: int| 0 <= i < entries.len() ==> (#[trigger] entries[i]).0 == 0
}

/// The types on the way to a leaf of a struct that may not be null.
pub open spec fn way(nullable: bool) -> Seq<Nest> {
    seq![Nest { kind: NestKind::Struct, nullable: false }, Nest { kind: NestKind::Leaf, nullable }]
}

/// Each row is a value of the leaf of a struct, or a null.
proof fn lemma_values_of_rows(nullable: bool, entries: Seq<(u32, u32)>, n: nat)
    requires
        n <= entries.len(),
        are_rows(entries),
    ensures
        values_at(way(nullable), entries, 1, n) == n,
        !nullable ==> leaf_values(way(nullable), entries, n) == n,
        leaf_values(way(nullable), entries, n) <= n,
    decreases n,
{
    reveal_with_fuel(def_before, 3);
    reveal_with_fuel(rep_before, 3);
    if n > 0 {
        lemma_values_of_rows(nullable, entries, (n - 1) as nat);
        let entry = entries[n - 1];
        assert(entry.0 == 0);
        assert(starts(way(nullable), 1, entry));
        assert(adds(way(nullable), 1, entry));
    }
}

/// As many entries are taken as there are rows to read.
proof fn lemma_cut_of_rows(entries: Seq<(u32, u32)>, i: nat, rows: nat)
    requires
        i <= entries.len(),
        are_rows(entries),
    ensures
        cut(entries, i, rows) == (if entries.len() - i <= rows {
            (entries.len(), (rows - (entries.len() - i)) as nat)
        } else {
            (i + rows, 0nat)
        }),
    decreases entries.len() - i,
{
    if i < entries.len() {
        assert(entries[i as int].0 == 0);
        if rows > 0 {
            lemma_cut_of_rows(entries, i + 1, (rows - 1) as nat);
        }
    }
}

/// Whether a page of a leaf of a struct holds values, after the levels that say which are null, if any may be.
pub open spec fn holds_leaf(page: DataPageView, nullable: bool, levels: Seq<u8>, values: Seq<u8>) -> bool {
    if nullable {
        holds(page, levels, values) && runs_sound(levels, 1, page.count)
    } else {
        page.bytes == values && (page.levels is V1 || page.levels == (PageLevels::V2 { rep: 0, def: 0 }))
    }
}

/// A page of values that lie one after the other is sound, and its entries are rows.
proof fn lemma_nested_page(
    reading: Reading,
    nullable: bool,
    column: LeafColumn,
    page: DataPageView,
    levels: Seq<u8>,
    values: Seq<u8>,
    progress: LeafProgressView,
)
    requires
        is_plain_reading(reading),
        are_taken(reading, values),
        progress.dictionary is None,
        column.def_level == if nullable {
            1int
        } else {
            0int
        },
        column.rep_level == 0,
        encoding_kind(page.encoding) is Plain,
        page.count <= 0x7fff_ffff,
        holds_leaf(page, nullable, levels, values),
        progress.rows > 0,
        forall|n: int| 0 <= n < page.count ==> #[trigger] run_values(seq![], 0, page.count)[n] == 0,
    ensures
        ({
            let taken = if page.count <= progress.rows {
                page.count as nat
            } else {
                progress.rows
            };
            let r = verdict_on_nested_page(reading, way(nullable), column, page, progress);
            &&& r.0 == Verdict::Sound(progress.total)
            &&& r.1.len() == taken
            &&& are_rows(r.1)
            &&& r.2 == progress.rows - taken
        }),
{
    let from: int = if nullable && page.levels is V1 {
        4
    } else {
        0
    };
    let end = from + if nullable {
        levels.len() as int
    } else {
        0
    };
    let none = page.bytes.subrange(0, 0);
    let defs = page.bytes.subrange(from, end);
    assert(none =~= seq![]);
    reveal_with_fuel(bits_of, 3);
    assert(level_bits(0) == 0);
    assert(level_bits(1) == 1);
    if nullable {
        let rest = page.bytes.skip(from);
        assert(rest =~= levels + values);
        assert(defs =~= levels) by {
            assert forall|i: int| 0 <= i < levels.len() implies defs[i] == #[trigger] levels[i] by {
                assert(rest[i] == (levels + values)[i]);
            }
        }
        assert(page.bytes.skip(end) =~= values) by {
            assert forall|i: int| 0 <= i < values.len() implies page.bytes.skip(end)[i] == #[trigger] values[i] by {
                let j = levels.len() + i;
                assert(rest[j] == (levels + values)[j]);
                assert(rest[j] == page.bytes[from + j]);
            }
        }
    } else {
        assert(defs =~= seq![]);
        assert(page.bytes.skip(end) =~= values);
    }
    let bits: u32 = if nullable {
        1
    } else {
        0
    };
    let entries = Seq::new(
        page.count as nat,
        |i: int| (run_values(none, 0, page.count)[i], run_values(defs, bits, page.count)[i]),
    );
    assert(page_entries(page, column) == PageEntriesView::Entries(entries, end as usize)) by {
        assert(page_entries(page, column) is Entries);
        assert(page_entries(page, column)->Entries_0 =~= entries);
    }
    assert(are_rows(entries));
    lemma_cut_of_rows(entries, 0, progress.rows);
}

/// The pages of a leaf of a struct come to as many rows as are read.
proof fn lemma_nested_leaf(
    reading: Reading,
    nullable: bool,
    column: LeafColumn,
    pages: Seq<DataPageView>,
    levels: Seq<Seq<u8>>,
    values: Seq<Seq<u8>>,
    all: Seq<Option<PlainPageView>>,
    num_rows: usize,
    at: nat,
    progress: LeafProgressView,
    ahead: Seq<nat>,
)
    requires
        is_plain_reading(reading),
        progress.dictionary is None,
        column.def_level == if nullable {
            1int
        } else {
            0int
        },
        column.rep_level == 0,
        nullable ==> column.repetition is Optional,
        all.len() == pages.len(),
        at <= pages.len(),
        forall|i: int| 0 <= i < pages.len() ==> #[trigger] all[i] == Some(PlainPageView::Data(pages[i])),
        forall|i: int|
            0 <= i < pages.len() ==> {
                &&& encoding_kind((#[trigger] pages[i]).encoding) is Plain
                &&& pages[i].count <= 0x7fff_ffff
                &&& holds_leaf(pages[i], nullable, levels[i], values[i])
                &&& are_taken(reading, values[i])
            },
        forall|c: usize, n: int| 0 <= n < c ==> #[trigger] run_values(seq![], 0, c)[n] == 0,
        ahead.len() == pages.len() + 1,
        ahead.last() == 0,
        forall|i: int| 0 <= i < pages.len() ==> #[trigger] ahead[i] == pages[i].count + ahead[i + 1],
        are_rows(progress.entries),
        progress.entries.len() + progress.rows == num_rows,
        progress.started || progress.entries.len() == 0,
        progress.rows <= ahead[at as int],
    ensures
        ({
            let r = leaf_read_from(reading, way(nullable), column, all, at, progress, num_rows);
            if num_rows == 0 && !progress.started {
                r is Nothing
            } else {
                r matches LeafReadView::Entries(entries) && entries.len() == num_rows && are_rows(entries)
            }
        }),
    decreases pages.len() - at,
{
    if progress.rows == 0 {
        lemma_values_of_rows(nullable, progress.entries, progress.entries.len());
    } else {
        let i = at as int;
        if at == pages.len() {
            assert(ahead[i] == 0);
        }
        assert(ahead[i] == pages[i].count + ahead[i + 1]);
        assert(all[i] == Some(PlainPageView::Data(pages[i])));
        let page = pages[i];
        assert(encoding_kind(page.encoding) is Plain);
        lemma_nested_page(reading, nullable, column, page, levels[i], values[i], progress);
        let r = verdict_on_nested_page(reading, way(nullable), column, page, progress);
        let next = LeafProgressView {
            dictionary: progress.dictionary,
            total: progress.total,
            entries: progress.entries + r.1,
            rows: r.2,
            started: true,
        };
        assert(are_rows(next.entries)) by {
            assert forall|k: int| 0 <= k < next.entries.len() implies (#[trigger] next.entries[k]).0 == 0 by {
                if k < progress.entries.len() {
                    assert(progress.entries[k].0 == 0);
                } else {
                    assert(r.1[k - progress.entries.len()].0 == 0);
                }
            }
        }
        lemma_nested_leaf(
            reading,
            nullable,
            column,
            pages,
            levels,
            values,
            all,
            num_rows,
            at + 1,
            next,
            ahead,
        );
    }
}

/// The shape of a leaf that is not an extension type.
pub open spec fn leaf_shape(nullable: bool, leaf: LeafType) -> FieldShape {
    FieldShape::Leaf { nullable, extension: false, leaf }
}

/// The columns of the fields of a struct are set up one after the other.
proof fn lemma_set_up_of_struct(
    shapes: Seq<FieldShapes>,
    leaves: Seq<LeafType>,
    nullable: Seq<bool>,
    stored: Seq<LeafColumn>,
    j: nat,
)
    requires
        shapes.len() == leaves.len() + 1,
        stored.len() == leaves.len(),
        j <= leaves.len(),
        shapes.last() is End,
        forall|i: int|
            0 <= i < leaves.len() ==> #[trigger] shapes[i] == FieldShapes::Field(
                Box::new(leaf_shape(nullable[i], leaves[i])),
                Box::new(shapes[i + 1]),
            ),
        forall|i: int| 0 <= i < leaves.len() ==> is_plain_leaf(#[trigger] leaves[i]),
    ensures
        set_up_fields(shapes[j as int], stored, j, false) == Some((false, leaves.len())),
    decreases leaves.len() - j,
{
    if j < leaves.len() {
        let i = j as int;
        let shape = leaf_shape(nullable[i], leaves[i]);
        assert(shapes[i] == FieldShapes::Field(Box::new(shape), Box::new(shapes[i + 1])));
        assert(is_plain_leaf(leaves[i]));
        assert(set_up(shape, true, true, stored, j) == Some((false, j + 1)));
        lemma_set_up_of_struct(shapes, leaves, nullable, stored, j + 1);
    }
}

/// Whether an array is one of a leaf of a struct with as many rows as are read.
spec fn is_even_array(array: ArrayReadView, num_rows: usize) -> bool {
    &&& array.len == num_rows
    &&& array.above == 1
    &&& array.chain.len() == 2
    &&& array.chain[0] == (Nest { kind: NestKind::Struct, nullable: false })
}

/// Whether the fields of a struct, if there are any yet, have as many rows each as are read.
spec fn are_even(fields: FieldsReadView, num_rows: usize, some: bool) -> bool {
    &&& !fields.fails
    &&& !fields.uneven
    &&& fields.nothing == (some && num_rows == 0)
    &&& if some && num_rows > 0 {
        fields.last matches Some(last) && is_even_array(last, num_rows)
    } else {
        fields.last is None
    }
}

/// A leaf of a struct has as many rows as are read.
proof fn lemma_leaf_of_struct(
    leaf: LeafType,
    nullable: bool,
    stored: Seq<LeafColumn>,
    pages: Seq<DataPageView>,
    levels: Seq<Seq<u8>>,
    values: Seq<Seq<u8>>,
    ends: Seq<Seq<int>>,
    all: Seq<Seq<Option<PlainPageView>>>,
    ahead: Seq<nat>,
    num_rows: usize,
    j: nat,
)
    requires
        j < stored.len() == all.len(),
        is_plain_leaf(leaf),
        stored[j as int].def_level == if nullable {
            1int
        } else {
            0int
        },
        stored[j as int].rep_level == 0,
        nullable ==> stored[j as int].repetition is Optional,
        all[j as int].len() == pages.len() <= 1024,
        forall|n: int|
            0 <= n < pages.len() ==> #[trigger] all[j as int][n] == Some(PlainPageView::Data(pages[n])),
        forall|n: int|
            0 <= n < pages.len() ==> {
                &&& encoding_kind((#[trigger] pages[n]).encoding) is Plain
                &&& pages[n].count <= 0x7fff_ffff
                &&& holds_leaf(pages[n], nullable, levels[n], values[n])
                &&& holds_values(leaf, values[n], ends[n])
            },
        forall|c: usize, n: int| 0 <= n < c ==> #[trigger] run_values(seq![], 0, c)[n] == 0,
        ahead.len() == pages.len() + 1,
        ahead.last() == 0,
        num_rows <= ahead[0],
        forall|n: int| 0 <= n < pages.len() ==> #[trigger] ahead[n] == pages[n].count + ahead[n + 1],
    ensures
        type_read(
            leaf_shape(nullable, leaf),
            seq![Nest { kind: NestKind::Struct, nullable: false }],
            stored,
            all,
            num_rows,
            j,
        ) matches Some((read, next)) && next == j + 1 && if num_rows == 0 {
            read is Nothing
        } else {
            read matches TypeReadView::Array(array) && is_even_array(array, num_rows)
        },
{
    let i = j as int;
    let chain = seq![Nest { kind: NestKind::Struct, nullable: false }];
    let shape = leaf_shape(nullable, leaf);
    assert(chain.push(Nest { kind: NestKind::Leaf, nullable }) =~= way(nullable));
    let reading = reading_of(shape, true, stored[i])->0;
    assert(is_plain_reading(reading));
    assert forall|n: int| 0 <= n < pages.len() implies {
        &&& encoding_kind((#[trigger] pages[n]).encoding) is Plain
        &&& pages[n].count <= 0x7fff_ffff
        &&& holds_leaf(pages[n], nullable, levels[n], values[n])
        &&& are_taken(reading, values[n])
    } by {
        lemma_values_are_taken(leaf, nullable, stored[i], values[n], ends[n]);
    }
    let progress = LeafProgressView {
        dictionary: None,
        total: 0,
        entries: seq![],
        rows: num_rows as nat,
        started: false,
    };
    lemma_nested_leaf(
        reading,
        nullable,
        stored[i],
        pages,
        levels,
        values,
        all[i],
        num_rows,
        0,
        progress,
        ahead,
    );
    if num_rows > 0 {
        let read = leaf_read_from(reading, way(nullable), stored[i], all[i], 0, progress, num_rows);
        lemma_values_of_rows(nullable, read->Entries_0, num_rows as nat);
    }
}

/// The fields of a struct have as many rows as each other.
proof fn lemma_fields_of_struct(
    shapes: Seq<FieldShapes>,
    leaves: Seq<LeafType>,
    nullable: Seq<bool>,
    stored: Seq<LeafColumn>,
    pages: Seq<Seq<DataPageView>>,
    levels: Seq<Seq<Seq<u8>>>,
    values: Seq<Seq<Seq<u8>>>,
    ends: Seq<Seq<Seq<int>>>,
    all: Seq<Seq<Option<PlainPageView>>>,
    ahead: Seq<Seq<nat>>,
    num_rows: usize,
    j: nat,
    before: FieldsReadView,
)
    requires
        shapes.len() == leaves.len() + 1,
        stored.len() == leaves.len(),
        pages.len() == leaves.len(),
        all.len() == leaves.len(),
        j <= leaves.len(),
        shapes.last() is End,
        forall|i: int|
            0 <= i < leaves.len() ==> #[trigger] shapes[i] == FieldShapes::Field(
                Box::new(leaf_shape(nullable[i], leaves[i])),
                Box::new(shapes[i + 1]),
            ),
        forall|i: int| 0 <= i < leaves.len() ==> is_plain_leaf(#[trigger] leaves[i]),
        forall|i: int|
            0 <= i < stored.len() ==> (#[trigger] stored[i]).rep_level == 0 && stored[i].def_level == (if nullable[i] {
                1int
            } else {
                0int
            }) && (nullable[i] ==> stored[i].repetition is Optional),
        forall|i: int| 0 <= i < all.len() ==> (#[trigger] all[i]).len() == pages[i].len() && pages[i].len() <= 1024,
        forall|i: int, n: int|
            0 <= i < all.len() && 0 <= n < pages[i].len() ==> #[trigger] all[i][n] == Some(
                PlainPageView::Data(pages[i][n]),
            ),
        forall|i: int, n: int|
            0 <= i < pages.len() && 0 <= n < pages[i].len() ==> {
                &&& encoding_kind((#[trigger] pages[i][n]).encoding) is Plain
                &&& pages[i][n].count <= 0x7fff_ffff
                &&& holds_leaf(pages[i][n], nullable[i], levels[i][n], values[i][n])
                &&& holds_values(leaves[i], values[i][n], ends[i][n])
            },
        forall|c: usize, n: int| 0 <= n < c ==> #[trigger] run_values(seq![], 0, c)[n] == 0,
        forall|i: int|
            0 <= i < pages.len() ==> (#[trigger] ahead[i]).len() == pages[i].len() + 1 && ahead[i].last() == 0
                && num_rows <= ahead[i][0],
        forall|i: int, n: int|
            0 <= i < pages.len() && 0 <= n < pages[i].len() ==> #[trigger] ahead[i][n] == pages[i][n].count
                + ahead[i][n + 1],
        are_even(before, num_rows, j > 0),
    ensures
        fields_read(
            shapes[j as int],
            seq![Nest { kind: NestKind::Struct, nullable: false }],
            stored,
            all,
            num_rows,
            j,
            before,
        ) matches Some((after, next)) && next == leaves.len() && are_even(after, num_rows, leaves.len() > 0),
    decreases leaves.len() - j,
{
    if j < leaves.len() {
        let i = j as int;
        let chain = seq![Nest { kind: NestKind::Struct, nullable: false }];
        let shape = leaf_shape(nullable[i], leaves[i]);
        assert(shapes[i] == FieldShapes::Field(Box::new(shape), Box::new(shapes[i + 1])));
        assert(is_plain_leaf(leaves[i]));
        assert(all[i].len() == pages[i].len());
        assert(ahead[i].len() == pages[i].len() + 1);
        assert(stored[i].rep_level == 0);
        lemma_leaf_of_struct(
            leaves[i],
            nullable[i],
            stored,
            pages[i],
            levels[i],
            values[i],
            ends[i],
            all,
            ahead[i],
            num_rows,
            j,
        );
        let (read, _) = type_read(shape, chain, stored, all, num_rows, j)->0;
        let after = with_field(before, read);
        assert(are_even(after, num_rows, true));
        assert(fields_read(shapes[i], chain, stored, all, num_rows, j, before) == fields_read(
            shapes[i + 1],
            chain,
            stored,
            all,
            num_rows,
            j + 1,
            after,
        ));
        lemma_fields_of_struct(
            shapes,
            leaves,
            nullable,
            stored,
            pages,
            levels,
            values,
            ends,
            all,
            ahead,
            num_rows,
            j + 1,
            after,
        );
    }
}

/// A struct that may not be null, of any number of fields that may or may not be, can be decoded where the values of
/// each lie one after the other in the pages of its column, which tell of as many rows as are read. Levels of no bits
/// are taken for zeros.
pub proof fn law_structs_can_be_decoded(
    columns: Seq<PageColumnView>,
    field: Field,
    num_rows: usize,
    shapes: Seq<FieldShapes>,
    leaves: Seq<LeafType>,
    nullable: Seq<bool>,
    pages: Seq<Seq<DataPageView>>,
    levels: Seq<Seq<Seq<u8>>>,
    values: Seq<Seq<Seq<u8>>>,
    ends: Seq<Seq<Seq<int>>>,
    ahead: Seq<Seq<nat>>,
)
    requires
        field_shape(field) matches FieldShape::Struct { nullable: optional, fields, .. } && !optional && *fields
            == shapes[0],
        0 < columns.len() == leaves.len() == pages.len(),
        shapes.len() == leaves.len() + 1,
        shapes.last() is End,
        forall|i: int|
            0 <= i < leaves.len() ==> #[trigger] shapes[i] == FieldShapes::Field(
                Box::new(leaf_shape(nullable[i], leaves[i])),
                Box::new(shapes[i + 1]),
            ),
        forall|i: int| 0 <= i < leaves.len() ==> is_plain_leaf(#[trigger] leaves[i]),
        forall|i: int|
            0 <= i < columns.len() ==> leaf_parts((#[trigger] columns[i]).descriptor).1 == (if nullable[i] {
                LeafRepetition::Optional
            } else {
                LeafRepetition::Required
            }),
        forall|i: int|
            0 <= i < columns.len() ==> leaf_parts((#[trigger] columns[i]).descriptor).2 == (if nullable[i] {
                1int
            } else {
                0int
            }),
        forall|i: int| 0 <= i < columns.len() ==> leaf_parts((#[trigger] columns[i]).descriptor).3 == 0,
        16 * num_rows <= isize::MAX,
        forall|i: int, n: int|
            0 <= i < columns.len() && 0 <= n < stored_levels(columns[i]).len() ==> ((#[trigger] stored_levels(
                columns[i],
            )[n]) matches Some((rep, def)) ==> i32::MIN <= rep + def <= i32::MAX),
        forall|i: int|
            0 <= i < columns.len() ==> column_pages(#[trigger] columns[i]).len() == pages[i].len() && pages[i].len()
                <= 1024,
        forall|i: int, n: int|
            0 <= i < columns.len() && 0 <= n < pages[i].len() ==> #[trigger] column_pages(columns[i])[n] == Some(
                PlainPageView::Data(pages[i][n]),
            ),
        forall|i: int, n: int|
            0 <= i < pages.len() && 0 <= n < pages[i].len() ==> {
                &&& encoding_kind((#[trigger] pages[i][n]).encoding) is Plain
                &&& pages[i][n].count <= 0x7fff_ffff
                &&& holds_leaf(pages[i][n], nullable[i], levels[i][n], values[i][n])
                &&& holds_values(leaves[i], values[i][n], ends[i][n])
            },
        forall|c: usize, n: int| 0 <= n < c ==> #[trigger] run_values(seq![], 0, c)[n] == 0,
        forall|i: int|
            0 <= i < pages.len() ==> (#[trigger] ahead[i]).len() == pages[i].len() + 1 && ahead[i].last() == 0
                && num_rows <= ahead[i][0],
        forall|i: int, n: int|
            0 <= i < pages.len() && 0 <= n < pages[i].len() ==> #[trigger] ahead[i][n] == pages[i][n].count
                + ahead[i][n + 1],
    ensures
        columns_sound(columns, field, num_rows),
{
    let stored = stored_leaves(page_descriptors(columns));
    let all = pages_of_columns(columns);
    let shape = field_shape(field);
    assert forall|i: int| 0 <= i < stored.len() implies (#[trigger] stored[i]).rep_level == 0 && stored[i].def_level
        == (if nullable[i] {
        1int
    } else {
        0int
    }) && (nullable[i] ==> stored[i].repetition is Optional) by {
        assert(stored[i] == stored_leaf(columns[i].descriptor));
    }
    assert forall|i: int| 0 <= i < all.len() implies (#[trigger] all[i]).len() == pages[i].len() && pages[i].len()
        <= 1024 by {
        assert(all[i] == column_pages(columns[i]));
    }
    assert forall|i: int, n: int| 0 <= i < all.len() && 0 <= n < pages[i].len() implies #[trigger] all[i][n] == Some(
        PlainPageView::Data(pages[i][n]),
    ) by {
        assert(column_pages(columns[i])[n] == Some(PlainPageView::Data(pages[i][n])));
    }
    assert forall|i: int| 0 <= i < columns.len() implies levels_add_up(#[trigger] columns[i]) by {}
    assert(shapes[0] == FieldShapes::Field(
        Box::new(leaf_shape(nullable[0], leaves[0])),
        Box::new(shapes[0int + 1]),
    ));
    let before = FieldsReadView { fails: false, nothing: false, uneven: false, last: None };
    lemma_set_up_of_struct(shapes, leaves, nullable, stored, 0);
    lemma_fields_of_struct(
        shapes,
        leaves,
        nullable,
        stored,
        pages,
        levels,
        values,
        ends,
        all,
        ahead,
        num_rows,
        0,
        before,
    );
    assert(seq![].push(Nest { kind: NestKind::Struct, nullable: false }) =~= seq![
        Nest { kind: NestKind::Struct, nullable: false },
    ]);
    assert(num_rows <= isize::MAX as int / 16);
    assert(set_up(shape, false, false, stored, 0) == Some((false, leaves.len())));
    assert(type_read(shape, seq![], stored, all, num_rows, 0) is Some);
}

/// The types on the way to an item of a list.
pub open spec fn list_way(nullable: bool, item: bool) -> Seq<Nest> {
    seq![Nest { kind: NestKind::List, nullable }, Nest { kind: NestKind::Leaf, nullable: item }]
}

/// Whether a page holds the levels of lists, and values after them: in its first version each after the length of
/// the levels in four bytes, the lowest first, and in its second version after a header that tells the lengths.
pub open spec fn holds_lists(page: DataPageView, reps: Seq<u8>, defs: Seq<u8>, values: Seq<u8>) -> bool {
    page.bytes.len() <= usize::MAX && match page.levels {
        PageLevels::V1 => {
            let at = 4 + reps.len() as int;
            &&& page.bytes.len() == 8 + reps.len() + defs.len() + values.len()
            &&& page.bytes[0] + 0x100 * page.bytes[1] + 0x1_0000 * page.bytes[2] + 0x100_0000 * page.bytes[3]
                == reps.len()
            &&& page.bytes.subrange(4, at) == reps
            &&& page.bytes[at] + 0x100 * page.bytes[at + 1] + 0x1_0000 * page.bytes[at + 2] + 0x100_0000
                * page.bytes[at + 3] == defs.len()
            &&& page.bytes.subrange(at + 4, at + 4 + defs.len()) == defs
            &&& page.bytes.skip(at + 4 + defs.len()) == values
        },
        PageLevels::V2 { rep, def } => {
            &&& rep == reps.len()
            &&& def == defs.len()
            &&& page.bytes == reps + defs + values
        },
    }
}

/// Items that may not be null are all there.
proof fn lemma_values_of_lists(nullable: bool, item: bool, entries: Seq<(u32, u32)>, n: nat)
    requires
        n <= entries.len(),
    ensures
        !item ==> leaf_values(list_way(nullable, item), entries, n) == values_at(
            list_way(nullable, item),
            entries,
            1,
            n,
        ),
        values_at(list_way(nullable, item), entries, 1, n) <= n,
    decreases n,
{
    if n > 0 {
        lemma_values_of_lists(nullable, item, entries, (n - 1) as nat);
        let chain = list_way(nullable, item);
        let entry = entries[n - 1];
        assert(chain[0].kind is List);
        assert(adds(chain, 1, entry) == starts(chain, 1, entry));
    }
}

/// The last list starts among the items, or after them.
proof fn lemma_last_list(chain: Seq<Nest>, entries: Seq<(u32, u32)>, n: nat)
    requires
        n <= entries.len(),
    ensures
        last_start(chain, entries, 0, n) <= values_at(chain, entries, 1, n),
    decreases n,
{
    if n > 0 {
        lemma_last_list(chain, entries, (n - 1) as nat);
    }
}

/// The number of entries that are taken is no more than there are.
proof fn lemma_cut_ends(entries: Seq<(u32, u32)>, i: nat, rows: nat)
    requires
        i <= entries.len(),
    ensures
        i <= cut(entries, i, rows).0 <= entries.len(),
    decreases entries.len() - i,
{
    if i < entries.len() && !(entries[i as int].0 == 0 && rows == 0) {
        lemma_cut_ends(
            entries,
            i + 1,
            if entries[i as int].0 == 0 {
                (rows - 1) as nat
            } else {
                rows
            },
        );
    }
}

/// A page of lists is sound.
proof fn lemma_list_page(
    reading: Reading,
    chain: Seq<Nest>,
    column: LeafColumn,
    page: DataPageView,
    reps: Seq<u8>,
    defs: Seq<u8>,
    values: Seq<u8>,
    progress: LeafProgressView,
)
    requires
        is_plain_reading(reading),
        are_taken(reading, values),
        progress.dictionary is None,
        column.rep_level == 1,
        1 <= column.def_level <= 3,
        encoding_kind(page.encoding) is Plain,
        page.count <= 0x7fff_ffff,
        holds_lists(page, reps, defs, values),
        runs_sound(reps, 1, page.count),
        runs_sound(
            defs,
            if column.def_level == 1 {
                1
            } else {
                2
            },
            page.count,
        ),
        progress.rows > 0,
    ensures
        ({
            let r = verdict_on_nested_page(reading, chain, column, page, progress);
            r.0 == Verdict::Sound(progress.total) && r.1.len() <= page.count
        }),
{
    reveal_with_fuel(bits_of, 4);
    assert(level_bits(1) == 1 && level_bits(2) == 2 && level_bits(3) == 2);
    let at = 4 + reps.len() as int;
    if page.levels is V2 {
        let a = reps.len() as int;
        let b = a + defs.len();
        assert(page.bytes.subrange(0, a) =~= reps);
        assert(page.bytes.subrange(a, b) =~= defs);
        assert(page.bytes.skip(b) =~= values);
    }
    assert(page_entries(page, column) is Entries);
    let entries = page_entries(page, column)->Entries_0;
    assert(entries.len() == page.count);
    assert(page.bytes.skip(page_entries(page, column)->Entries_1 as int) =~= values);
    lemma_cut_ends(entries, 0, progress.rows);
}

/// The pages of the items of lists are decoded.
proof fn lemma_list_leaf(
    reading: Reading,
    nullable: bool,
    item: bool,
    column: LeafColumn,
    pages: Seq<DataPageView>,
    reps: Seq<Seq<u8>>,
    defs: Seq<Seq<u8>>,
    values: Seq<Seq<u8>>,
    all: Seq<Option<PlainPageView>>,
    num_rows: usize,
    at: nat,
    progress: LeafProgressView,
    ahead: Seq<nat>,
)
    requires
        is_plain_reading(reading),
        progress.dictionary is None,
        column.rep_level == 1,
        1 <= column.def_level <= 3,
        item ==> column.repetition is Optional,
        all.len() == pages.len(),
        at <= pages.len(),
        forall|i: int| 0 <= i < pages.len() ==> #[trigger] all[i] == Some(PlainPageView::Data(pages[i])),
        forall|i: int|
            0 <= i < pages.len() ==> {
                &&& encoding_kind((#[trigger] pages[i]).encoding) is Plain
                &&& pages[i].count <= 0x7fff_ffff
                &&& holds_lists(pages[i], reps[i], defs[i], values[i])
                &&& runs_sound(reps[i], 1, pages[i].count)
                &&& runs_sound(
                    defs[i],
                    if column.def_level == 1 {
                        1
                    } else {
                        2
                    },
                    pages[i].count,
                )
                &&& are_taken(reading, values[i])
            },
        ahead.len() == pages.len() + 1,
        ahead.last() == 0,
        forall|i: int| 0 <= i < pages.len() ==> #[trigger] ahead[i] == pages[i].count + ahead[i + 1],
    ensures
        ({
            let r = leaf_read_from(reading, list_way(nullable, item), column, all, at, progress, num_rows);
            r is Nothing || (r matches LeafReadView::Entries(entries) && entries.len() <= progress.entries.len()
                + ahead[at as int])
        }),
    decreases pages.len() - at,
{
    let chain = list_way(nullable, item);
    if at >= pages.len() || progress.rows == 0 {
        lemma_values_of_lists(nullable, item, progress.entries, progress.entries.len());
    } else {
        let i = at as int;
        assert(ahead[i] == pages[i].count + ahead[i + 1]);
        assert(all[i] == Some(PlainPageView::Data(pages[i])));
        let page = pages[i];
        assert(encoding_kind(page.encoding) is Plain);
        lemma_list_page(reading, chain, column, page, reps[i], defs[i], values[i], progress);
        let r = verdict_on_nested_page(reading, chain, column, page, progress);
        let next = LeafProgressView {
            dictionary: progress.dictionary,
            total: progress.total,
            entries: progress.entries + r.1,
            rows: r.2,
            started: true,
        };
        lemma_list_leaf(
            reading,
            nullable,
            item,
            column,
            pages,
            reps,
            defs,
            values,
            all,
            num_rows,
            at + 1,
            next,
            ahead,
        );
    }
}

/// Lists are put together from the pages of their items.
proof fn lemma_lists_read(
    nullable: bool,
    large: bool,
    item: bool,
    leaf: LeafType,
    column: LeafColumn,
    pages: Seq<DataPageView>,
    reps: Seq<Seq<u8>>,
    defs: Seq<Seq<u8>>,
    values: Seq<Seq<u8>>,
    ends: Seq<Seq<int>>,
    all: Seq<Option<PlainPageView>>,
    num_rows: usize,
    ahead: Seq<nat>,
)
    requires
        is_plain_leaf(leaf),
        column.rep_level == 1,
        1 <= column.def_level <= 3,
        item ==> column.repetition is Optional,
        all.len() == pages.len() <= 1024,
        forall|i: int| 0 <= i < pages.len() ==> #[trigger] all[i] == Some(PlainPageView::Data(pages[i])),
        forall|i: int|
            0 <= i < pages.len() ==> {
                &&& encoding_kind((#[trigger] pages[i]).encoding) is Plain
                &&& pages[i].count <= 0x7fff_ffff
                &&& holds_lists(pages[i], reps[i], defs[i], values[i])
                &&& runs_sound(reps[i], 1, pages[i].count)
                &&& runs_sound(
                    defs[i],
                    if column.def_level == 1 {
                        1
                    } else {
                        2
                    },
                    pages[i].count,
                )
                &&& holds_values(leaf, values[i], ends[i])
            },
        ahead.len() == pages.len() + 1,
        ahead.last() == 0,
        forall|i: int| 0 <= i < pages.len() ==> #[trigger] ahead[i] == pages[i].count + ahead[i + 1],
        !large ==> ahead[0] <= 0x7fff_ffff,
    ensures
        type_read(
            FieldShape::List { nullable, large, item: Box::new(leaf_shape(item, leaf)) },
            seq![],
            seq![column],
            seq![all],
            num_rows,
            0,
        ) is Some,
{
    let below = leaf_shape(item, leaf);
    let reading = reading_of(below, true, column)->0;
    assert(is_plain_reading(reading));
    assert forall|i: int| 0 <= i < pages.len() implies are_taken(reading, #[trigger] values[i]) by {
        assert(encoding_kind(pages[i].encoding) is Plain);
        lemma_values_are_taken(leaf, item, column, values[i], ends[i]);
    }
    let chain = seq![].push(Nest { kind: NestKind::List, nullable });
    assert(chain.push(Nest { kind: NestKind::Leaf, nullable: item }) =~= list_way(nullable, item));
    let progress = LeafProgressView {
        dictionary: None,
        total: 0,
        entries: seq![],
        rows: num_rows as nat,
        started: false,
    };
    lemma_list_leaf(
        reading,
        nullable,
        item,
        column,
        pages,
        reps,
        defs,
        values,
        all,
        num_rows,
        0,
        progress,
        ahead,
    );
    let read = leaf_read_from(reading, list_way(nullable, item), column, all, 0, progress, num_rows);
    if let LeafReadView::Entries(entries) = read {
        lemma_values_of_lists(nullable, item, entries, entries.len());
        lemma_last_list(list_way(nullable, item), entries, entries.len());
    }
    assert(type_read(below, chain, seq![column], seq![all], num_rows, 0) is Some);
}

/// Lists can be decoded whose items lie one after the other in the pages, whatever their levels say: the lists may be
/// null or empty, and the items null, as far as the types say so. Where offsets of 32 bits count the items, there may
/// be as many of them as such offsets count.
pub proof fn law_lists_can_be_decoded(
    columns: Seq<PageColumnView>,
    field: Field,
    num_rows: usize,
    nullable: bool,
    large: bool,
    item: bool,
    leaf: LeafType,
    pages: Seq<DataPageView>,
    reps: Seq<Seq<u8>>,
    defs: Seq<Seq<u8>>,
    values: Seq<Seq<u8>>,
    ends: Seq<Seq<int>>,
    ahead: Seq<nat>,
)
    requires
        columns.len() == 1,
        field_shape(field) == (FieldShape::List { nullable, large, item: Box::new(leaf_shape(item, leaf)) }),
        is_plain_leaf(leaf),
        leaf_parts(columns[0].descriptor).1 == (if item {
            LeafRepetition::Optional
        } else {
            LeafRepetition::Required
        }),
        leaf_parts(columns[0].descriptor).2 == 1 + (if nullable {
            1int
        } else {
            0int
        }) + (if item {
            1int
        } else {
            0int
        }),
        leaf_parts(columns[0].descriptor).3 == 1,
        16 * num_rows <= isize::MAX,
        forall|i: int|
            0 <= i < stored_levels(columns[0]).len() ==> ((#[trigger] stored_levels(columns[0])[i]) matches Some(
                (rep, def),
            ) ==> i32::MIN <= rep + def <= i32::MAX),
        column_pages(columns[0]).len() == pages.len() <= 1024,
        forall|i: int|
            0 <= i < pages.len() ==> #[trigger] column_pages(columns[0])[i] == Some(PlainPageView::Data(pages[i])),
        forall|i: int|
            0 <= i < pages.len() ==> {
                &&& encoding_kind((#[trigger] pages[i]).encoding) is Plain
                &&& pages[i].count <= 0x7fff_ffff
                &&& holds_lists(pages[i], reps[i], defs[i], values[i])
                &&& runs_sound(reps[i], 1, pages[i].count)
                &&& runs_sound(
                    defs[i],
                    if nullable || item {
                        2
                    } else {
                        1
                    },
                    pages[i].count,
                )
                &&& holds_values(leaf, values[i], ends[i])
            },
        ahead.len() == pages.len() + 1,
        ahead.last() == 0,
        forall|i: int| 0 <= i < pages.len() ==> #[trigger] ahead[i] == pages[i].count + ahead[i + 1],
        !large ==> ahead[0] <= 0x7fff_ffff,
    ensures
        columns_sound(columns, field, num_rows),
{
    let column = stored_leaf(columns[0].descriptor);
    let stored = stored_leaves(page_descriptors(columns));
    let all = pages_of_columns(columns);
    let shape = field_shape(field);
    assert(stored =~= seq![column]);
    assert(all =~= seq![column_pages(columns[0])]);
    assert(levels_add_up(columns[0]));
    assert(num_rows <= isize::MAX as int / 16);
    let below = leaf_shape(item, leaf);
    assert(set_up(below, true, false, stored, 0) == Some((false, 1nat)));
    assert(set_up(shape, false, false, stored, 0) == Some((false, 1nat)));
    lemma_lists_read(
        nullable,
        large,
        item,
        leaf,
        column,
        pages,
        reps,
        defs,
        values,
        ends,
        column_pages(columns[0]),
        num_rows,
        ahead,
    );
}

} // verus!
