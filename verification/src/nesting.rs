//! Which pages of the leaf columns of a field can be decoded, and put together to an array of the field.

use vstd::prelude::*;
use vstd::slice::slice_subrange;

use crate::encoding::check_runs_sound;
use crate::encoding::runs_sound;
use crate::pages::check_column;
use crate::pages::check_supported;
use crate::pages::check_values;
use crate::pages::column_sound;
use crate::pages::dictionary_of;
use crate::pages::dictionary_view;
use crate::pages::is_sized;
use crate::pages::is_supported;
use crate::pages::read_dictionary;
use crate::pages::split;
use crate::pages::split_page;
use crate::pages::verdict_on_values;
use crate::pages::Dictionary;
use crate::pages::DictionaryView;
use crate::pages::Split;
use crate::pages::Verdict;
use crate::pages::MOST_PAGES;
use crate::pages::MOST_VALUES;
use crate::parquet::decode_runs;
use crate::parquet::encoding_kind;
use crate::parquet::kind_of;
use crate::parquet::page_view;
use crate::parquet::page_views;
use crate::parquet::run_values;
use crate::parquet::DataPage;
use crate::parquet::DataPageView;
use crate::parquet::PlainPage;
use crate::parquet::PlainPageView;
use crate::shape::check_set_up;
use crate::shape::decoder_set_up;
use crate::shape::read_shape;
use crate::shape::reading_of;
use crate::shape::FieldShape;
use crate::shape::FieldShapes;
use crate::shape::LeafColumn;
use crate::shape::LeafRepetition;
use crate::shape::Reading;
use crate::shape::SetUp;

verus! {

/// What a type is to the types around it.
#[derive(Clone, Copy, Debug, PartialEq, Eq, Structural)]
pub enum NestKind {
    List,
    Struct,
    Leaf,
}

/// A type on the way from a field to one of its leaves.
#[derive(Clone, Copy, Debug, PartialEq, Eq, Structural)]
pub struct Nest {
    pub kind: NestKind,
    pub nullable: bool,
}

/// The definition level of the first `d` types, if they are all there: one for a type that may be null, and
/// one for a list that is not empty.
pub open spec fn def_before(chain: Seq<Nest>, d: nat) -> nat
    decreases d,
{
    if d == 0 {
        0
    } else {
        let nest = chain[d - 1];
        def_before(chain, (d - 1) as nat) + if nest.nullable {
            1nat
        } else {
            0nat
        } + if nest.kind is List {
            1nat
        } else {
            0nat
        }
    }
}

/// The number of lists among the first `d` types.
pub open spec fn rep_before(chain: Seq<Nest>, d: nat) -> nat
    decreases d,
{
    if d == 0 {
        0
    } else {
        rep_before(chain, (d - 1) as nat) + if chain[d - 1].kind is List {
            1nat
        } else {
            0nat
        }
    }
}

/// The levels of the first `d` types.
fn levels_before(chain: &Vec<Nest>, d: usize) -> (r: (u128, u128))
    requires
        d <= chain.len(),
    ensures
        r.0 == def_before(chain@, d as nat),
        r.1 == rep_before(chain@, d as nat),
{
    let mut def: u128 = 0;
    let mut rep: u128 = 0;
    for i in 0..d
        invariant
            d <= chain.len(),
            def == def_before(chain@, i as nat),
            rep == rep_before(chain@, i as nat),
            def <= 2 * i,
            rep <= i,
    {
        let list: bool = chain[i].kind == NestKind::List;
        if chain[i].nullable {
            def = def + 1;
        }
        if list {
            def = def + 1;
            rep = rep + 1;
        }
    }
    (def, rep)
}

/// Whether an entry, which is a repetition level and a definition level, starts a value of the type at `d`.
pub open spec fn starts(chain: Seq<Nest>, d: nat, entry: (u32, u32)) -> bool {
    entry.0 <= rep_before(chain, d) && entry.1 >= def_before(chain, d)
}

/// Whether an entry says that the value of the type at `d`, which may be null, is not.
pub open spec fn filled(chain: Seq<Nest>, d: nat, entry: (u32, u32)) -> bool {
    chain[d as int].nullable && entry.1 > def_before(chain, d)
}

/// Whether an entry adds a value to the type at `d`: one that it starts, or one for a struct above that is
/// null.
pub open spec fn adds(chain: Seq<Nest>, d: nat, entry: (u32, u32)) -> bool
    decreases d,
{
    starts(chain, d, entry) || d > 0 && chain[d - 1].kind is Struct && adds(chain, (d - 1) as nat, entry)
        && !filled(chain, (d - 1) as nat, entry)
}

/// Whether an entry says that the value of the leaf is not null.
pub open spec fn has_value(chain: Seq<Nest>, entry: (u32, u32)) -> bool {
    let leaf = (chain.len() - 1) as nat;
    starts(chain, leaf, entry) && (entry.1 != def_before(chain, leaf) || !chain[leaf as int].nullable)
}

/// Tells whether an entry adds a value to the type at `d`.
fn check_adds(chain: &Vec<Nest>, d: usize, entry: (u32, u32)) -> (r: bool)
    requires
        d < chain.len(),
    ensures
        r == adds(chain@, d as nat, entry),
    decreases d,
{
    let (def, rep) = levels_before(chain, d);
    if entry.0 as u128 <= rep && entry.1 as u128 >= def {
        return true;
    }
    if d == 0 || chain[d - 1].kind != NestKind::Struct {
        return false;
    }
    let (def_above, _) = levels_before(chain, d - 1);
    if chain[d - 1].nullable && entry.1 as u128 > def_above {
        return false;
    }
    check_adds(chain, d - 1, entry)
}

/// How many of the first `k` entries add a value to the type at `d`.
pub open spec fn values_at(chain: Seq<Nest>, entries: Seq<(u32, u32)>, d: nat, k: nat) -> nat
    decreases k,
{
    if k == 0 {
        0
    } else {
        values_at(chain, entries, d, (k - 1) as nat) + if adds(chain, d, entries[k - 1]) {
            1nat
        } else {
            0nat
        }
    }
}

/// Counts the values of the type at `d`.
fn count_values_at(chain: &Vec<Nest>, entries: &Vec<(u32, u32)>, d: usize) -> (r: usize)
    requires
        d < chain.len(),
    ensures
        r == values_at(chain@, entries@, d as nat, entries.len() as nat),
        r <= entries.len(),
{
    let mut r: usize = 0;
    for i in 0..entries.len()
        invariant
            d < chain.len(),
            r == values_at(chain@, entries@, d as nat, i as nat),
            r <= i,
    {
        if check_adds(chain, d, entries[i]) {
            r = r + 1;
        }
    }
    r
}

/// How many of the first `k` entries have a value of the leaf.
pub open spec fn leaf_values(chain: Seq<Nest>, entries: Seq<(u32, u32)>, k: nat) -> nat
    decreases k,
{
    if k == 0 {
        0
    } else {
        leaf_values(chain, entries, (k - 1) as nat) + if has_value(chain, entries[k - 1]) {
            1nat
        } else {
            0nat
        }
    }
}

/// Counts the values of the leaf that the first `k` entries have.
fn count_leaf_values(chain: &Vec<Nest>, entries: &Vec<(u32, u32)>, k: usize) -> (r: usize)
    requires
        chain.len() > 0,
        k <= entries.len(),
    ensures
        r == leaf_values(chain@, entries@, k as nat),
        r <= k,
{
    let leaf: usize = chain.len() - 1;
    let (def, rep) = levels_before(chain, leaf);
    let nullable: bool = chain[leaf].nullable;
    let mut r: usize = 0;
    for i in 0..k
        invariant
            k <= entries.len(),
            leaf == chain.len() - 1,
            def == def_before(chain@, leaf as nat),
            rep == rep_before(chain@, leaf as nat),
            nullable == chain@[leaf as int].nullable,
            r == leaf_values(chain@, entries@, i as nat),
            r <= i,
    {
        let entry = entries[i];
        if entry.0 as u128 <= rep && entry.1 as u128 >= def && (entry.1 as u128 != def || !nullable) {
            r = r + 1;
        }
    }
    r
}

/// Whether one of the first `k` entries adds a null to the type at `d`.
pub open spec fn has_null(chain: Seq<Nest>, entries: Seq<(u32, u32)>, d: nat, k: nat) -> bool {
    chain[d as int].nullable && exists|i: int|
        0 <= i < k && adds(chain, d, #[trigger] entries[i]) && !filled(chain, d, entries[i])
}

/// Tells whether an entry adds a null to the type at `d`.
fn check_null(chain: &Vec<Nest>, entries: &Vec<(u32, u32)>, d: usize) -> (r: bool)
    requires
        d < chain.len(),
    ensures
        r == has_null(chain@, entries@, d as nat, entries.len() as nat),
{
    if !chain[d].nullable {
        return false;
    }
    let (def, _) = levels_before(chain, d);
    for i in 0..entries.len()
        invariant
            d < chain.len(),
            chain@[d as int].nullable,
            def == def_before(chain@, d as nat),
            forall|j: int|
                0 <= j < i ==> !(adds(chain@, d as nat, #[trigger] entries@[j]) && !filled(
                    chain@,
                    d as nat,
                    entries@[j],
                )),
    {
        if check_adds(chain, d, entries[i]) && entries[i].1 as u128 <= def {
            assert(adds(chain@, d as nat, entries@[i as int]) && !filled(chain@, d as nat, entries@[i as int]));
            return true;
        }
    }
    false
}

/// Where the last value of the list at `d` starts among the values of the type below it, going by the first
/// `k` entries.
pub open spec fn last_start(chain: Seq<Nest>, entries: Seq<(u32, u32)>, d: nat, k: nat) -> nat
    decreases k,
{
    if k == 0 {
        0
    } else if adds(chain, d, entries[k - 1]) {
        values_at(chain, entries, d + 1, (k - 1) as nat)
    } else {
        last_start(chain, entries, d, (k - 1) as nat)
    }
}

/// Tells where the last value of the list at `d` starts.
fn find_last_start(chain: &Vec<Nest>, entries: &Vec<(u32, u32)>, d: usize) -> (r: usize)
    requires
        d + 1 < chain.len(),
    ensures
        r == last_start(chain@, entries@, d as nat, entries.len() as nat),
{
    let mut r: usize = 0;
    let mut below: usize = 0;
    for i in 0..entries.len()
        invariant
            d + 1 < chain.len(),
            r == last_start(chain@, entries@, d as nat, i as nat),
            below == values_at(chain@, entries@, (d + 1) as nat, i as nat),
            below <= i,
    {
        if check_adds(chain, d, entries[i]) {
            r = below;
        }
        if check_adds(chain, d + 1, entries[i]) {
            below = below + 1;
        }
    }
    r
}

/// The number of bits of a number.
pub open spec fn bits_of(n: nat) -> nat
    decreases n,
{
    if n == 0 {
        0
    } else {
        1 + bits_of(n / 2)
    }
}

/// A number below `0x8000` has at most fifteen bits.
proof fn lemma_bits_of(n: nat)
    requires
        n <= 0x7fff,
    ensures
        bits_of(n) <= 15,
{
    reveal_with_fuel(bits_of, 16);
}

/// The number of bits of a level, by the largest one. As a number without a sign, a negative one has all
/// bits of its type.
pub open spec fn level_bits(most: i16) -> u32 {
    if most < 0 {
        16
    } else {
        bits_of(most as nat) as u32
    }
}

/// Tells the number of bits of a level.
fn bits_of_level(most: i16) -> (r: u32)
    ensures
        r == level_bits(most),
        r <= 16,
{
    if most < 0 {
        return 16;
    }
    proof {
        lemma_bits_of(most as nat);
    }
    let mut bits: u32 = 0;
    let mut left: i16 = most;
    while left > 0
        invariant
            left >= 0,
            bits + bits_of(left as nat) == bits_of(most as nat) <= 15,
        decreases left,
    {
        bits = bits + 1;
        left = left / 2;
    }
    bits
}

/// The levels of a page.
pub ghost enum PageEntriesView {
    /// The page cannot be taken apart, or its levels cannot be decoded.
    Broken,
    /// The page is refused.
    Refused,
    /// The entries, and where the values start.
    Entries(Seq<(u32, u32)>, usize),
}

/// The levels of a page.
enum PageEntries {
    Broken,
    Refused,
    Entries(Vec<(u32, u32)>, usize),
}

impl View for PageEntries {
    type V = PageEntriesView;

    closed spec fn view(&self) -> PageEntriesView {
        match self {
            PageEntries::Broken => PageEntriesView::Broken,
            PageEntries::Refused => PageEntriesView::Refused,
            PageEntries::Entries(entries, start) => PageEntriesView::Entries(entries@, *start),
        }
    }
}

/// The levels of a page of a column.
pub open spec fn page_entries(page: DataPageView, column: LeafColumn) -> PageEntriesView {
    match split(page.bytes, page.levels, column) {
        Split::Broken => PageEntriesView::Broken,
        Split::Refused => PageEntriesView::Refused,
        Split::Parts { rep_start, rep_end, def_start, def_end } => {
            let reps = page.bytes.subrange(rep_start as int, rep_end as int);
            let defs = page.bytes.subrange(def_start as int, def_end as int);
            let rep_bits = level_bits(column.rep_level);
            let def_bits = level_bits(column.def_level);
            if runs_sound(reps, rep_bits as nat, page.count) && runs_sound(defs, def_bits as nat, page.count) {
                PageEntriesView::Entries(
                    Seq::new(
                        page.count as nat,
                        |i: int|
                            (run_values(reps, rep_bits, page.count)[i], run_values(defs, def_bits, page.count)[i]),
                    ),
                    def_end,
                )
            } else {
                PageEntriesView::Broken
            }
        },
    }
}

/// Reads the levels of a page of a column.
fn read_entries(page: &DataPage, column: LeafColumn) -> (r: PageEntries)
    ensures
        r@ == page_entries(page@, column),
        r matches PageEntries::Entries(entries, start) ==> entries.len() == page.count && start <= page.bytes.len(),
{
    match split_page(page.bytes.as_slice(), page.levels, column) {
        Split::Broken => PageEntries::Broken,
        Split::Refused => PageEntries::Refused,
        Split::Parts { rep_start, rep_end, def_start, def_end } => {
            let reps = slice_subrange(page.bytes.as_slice(), rep_start, rep_end);
            let defs = slice_subrange(page.bytes.as_slice(), def_start, def_end);
            let rep_bits: u32 = bits_of_level(column.rep_level);
            let def_bits: u32 = bits_of_level(column.def_level);
            if !check_runs_sound(reps, rep_bits, page.count) || !check_runs_sound(
                defs,
                def_bits,
                page.count,
            ) {
                return PageEntries::Broken;
            }
            let rep_values = decode_runs(reps, rep_bits, page.count);
            let def_values = decode_runs(defs, def_bits, page.count);
            let mut entries: Vec<(u32, u32)> = Vec::with_capacity(page.count);
            for i in 0..page.count
                invariant
                    rep_values.len() == page.count,
                    def_values.len() == page.count,
                    entries.len() == i,
                    forall|j: int| 0 <= j < i ==> #[trigger] entries@[j] == (rep_values@[j], def_values@[j]),
            {
                entries.push((rep_values[i], def_values[i]));
            }
            assert(page_entries(page@, column) matches PageEntriesView::Entries(expected, _) && entries@
                =~= expected);
            PageEntries::Entries(entries, def_end)
        },
    }
}

/// How many entries, from the `i`-th on, belong to so many rows, and how many rows are then left: a
/// repetition level of zero starts a row.
pub open spec fn cut(entries: Seq<(u32, u32)>, i: nat, rows: nat) -> (nat, nat)
    decreases entries.len() - i,
{
    if i >= entries.len() || entries[i as int].0 == 0 && rows == 0 {
        (i, rows)
    } else if entries[i as int].0 == 0 {
        cut(entries, i + 1, (rows - 1) as nat)
    } else {
        cut(entries, i + 1, rows)
    }
}

/// Tells how many entries belong to so many rows, and how many rows are then left.
fn find_cut(entries: &Vec<(u32, u32)>, rows: usize) -> (r: (usize, usize))
    ensures
        cut(entries@, 0, rows as nat) == (r.0 as nat, r.1 as nat),
        r.0 <= entries.len(),
{
    let mut i: usize = 0;
    let mut left: usize = rows;
    while i < entries.len()
        invariant
            i <= entries.len(),
            cut(entries@, 0, rows as nat) == cut(entries@, i as nat, left as nat),
        decreases entries.len() - i,
    {
        if entries[i].0 == 0 {
            if left == 0 {
                return (i, left);
            }
            left = left - 1;
        }
        i = i + 1;
    }
    (i, left)
}

/// What the pages of a leaf column come to.
pub ghost enum LeafReadView {
    /// They cannot be decoded.
    Broken,
    /// They are refused.
    Fails,
    /// There are no rows in them.
    Nothing,
    /// An array, with these entries.
    Entries(Seq<(u32, u32)>),
}

/// What the pages of a leaf column come to.
enum LeafRead {
    Broken,
    Fails,
    Nothing,
    Entries(Vec<(u32, u32)>),
}

impl View for LeafRead {
    type V = LeafReadView;

    closed spec fn view(&self) -> LeafReadView {
        match self {
            LeafRead::Broken => LeafReadView::Broken,
            LeafRead::Fails => LeafReadView::Fails,
            LeafRead::Nothing => LeafReadView::Nothing,
            LeafRead::Entries(entries) => LeafReadView::Entries(entries@),
        }
    }
}

/// What the pages of a leaf column come to that have some entries, where `rows` of `num_rows` rows are
/// missing. A column without nulls of its own has either no nulls from above or nothing else. Where rows are
/// missing, there are no more keys of a dictionary than rows.
pub open spec fn finished_leaf(
    reading: Reading,
    chain: Seq<Nest>,
    column: LeafColumn,
    entries: Seq<(u32, u32)>,
    rows: nat,
    num_rows: usize,
) -> LeafReadView {
    let values = leaf_values(chain, entries, entries.len());
    if reading is Keys && rows > 0 && values_at(chain, entries, (chain.len() - 1) as nat, entries.len())
        > num_rows {
        LeafReadView::Broken
    } else if !(column.repetition is Optional) && 0 < values && values != values_at(
        chain,
        entries,
        (chain.len() - 1) as nat,
        entries.len(),
    ) {
        if reading is Bytes {
            LeafReadView::Fails
        } else {
            LeafReadView::Broken
        }
    } else {
        LeafReadView::Entries(entries)
    }
}

/// What is known of a leaf column whose pages are being read.
pub ghost struct LeafProgressView {
    pub dictionary: Option<DictionaryView>,
    /// The number of bytes of the byte strings, where offsets of 32 bits count them.
    pub total: u64,
    pub entries: Seq<(u32, u32)>,
    /// The number of rows that are still to be read.
    pub rows: nat,
    /// Whether a page of values has been read.
    pub started: bool,
}

/// What becomes of a page of a leaf column with types above it: the verdict, the entries of the page that
/// belong to the rows to be read, and the rows that are then left.
pub open spec fn verdict_on_nested_page(
    reading: Reading,
    chain: Seq<Nest>,
    column: LeafColumn,
    page: DataPageView,
    progress: LeafProgressView,
) -> (Verdict, Seq<(u32, u32)>, nat) {
    let kind = encoding_kind(page.encoding);
    let nothing = Seq::<(u32, u32)>::empty();
    if page.count > MOST_VALUES || progress.rows == 0 {
        (Verdict::Broken, nothing, 0)
    } else if !is_supported(reading, true, kind, progress.dictionary is Some) {
        (Verdict::Refused, nothing, 0)
    } else {
        match page_entries(page, column) {
            PageEntriesView::Broken => (Verdict::Broken, nothing, 0),
            PageEntriesView::Refused => (Verdict::Refused, nothing, 0),
            PageEntriesView::Entries(entries, start) => {
                let (taken, rows) = cut(entries, 0, progress.rows);
                let verdict = verdict_on_values(
                    reading,
                    kind,
                    page.bytes.skip(start as int),
                    leaf_values(chain, entries, taken) as usize,
                    false,
                    progress.dictionary,
                    progress.total,
                );
                (verdict, entries.take(taken as int), rows)
            },
        }
    }
}

/// What the pages of a leaf column with types above it come to, from the page `at` on.
pub open spec fn leaf_read_from(
    reading: Reading,
    chain: Seq<Nest>,
    column: LeafColumn,
    pages: Seq<Option<PlainPageView>>,
    at: nat,
    progress: LeafProgressView,
    num_rows: usize,
) -> LeafReadView
    decreases pages.len() - at,
{
    let done = if progress.started {
        finished_leaf(reading, chain, column, progress.entries, progress.rows, num_rows)
    } else {
        LeafReadView::Nothing
    };
    if at >= pages.len() || progress.rows == 0 && (progress.started || !(reading is Keys)) {
        done
    } else {
        match pages[at as int] {
            None => LeafReadView::Fails,
            Some(PlainPageView::Dictionary { count, bytes }) => match dictionary_of(reading, count, bytes) {
                None => LeafReadView::Broken,
                Some(dictionary) => leaf_read_from(
                    reading,
                    chain,
                    column,
                    pages,
                    at + 1,
                    LeafProgressView { dictionary: Some(dictionary), ..progress },
                    num_rows,
                ),
            },
            Some(PlainPageView::Data(page)) => match verdict_on_nested_page(
                reading,
                chain,
                column,
                page,
                progress,
            ) {
                (Verdict::Broken, _, _) => LeafReadView::Broken,
                (Verdict::Refused, _, _) => LeafReadView::Fails,
                (Verdict::Sound(total), entries, rows) => leaf_read_from(
                    reading,
                    chain,
                    column,
                    pages,
                    at + 1,
                    LeafProgressView {
                        dictionary: progress.dictionary,
                        total,
                        entries: progress.entries + entries,
                        rows,
                        started: true,
                    },
                    num_rows,
                ),
            },
        }
    }
}

/// What so many rows of the pages of a leaf column with types above it come to.
pub open spec fn leaf_read(
    reading: Reading,
    chain: Seq<Nest>,
    column: LeafColumn,
    pages: Seq<Option<PlainPageView>>,
    num_rows: usize,
) -> LeafReadView {
    if pages.len() > MOST_PAGES {
        LeafReadView::Broken
    } else {
        leaf_read_from(
            reading,
            chain,
            column,
            pages,
            0,
            LeafProgressView {
                dictionary: None,
                total: 0,
                entries: seq![],
                rows: num_rows as nat,
                started: false,
            },
            num_rows,
        )
    }
}

/// Tells what the pages of a leaf column come to that have some entries.
fn finish_leaf(
    reading: Reading,
    chain: &Vec<Nest>,
    column: LeafColumn,
    entries: Vec<(u32, u32)>,
    rows: usize,
    num_rows: usize,
) -> (r: LeafRead)
    requires
        chain.len() > 0,
    ensures
        r@ == finished_leaf(reading, chain@, column, entries@, rows as nat, num_rows),
{
    let keys: bool = match reading {
        Reading::Keys { .. } => true,
        _ => false,
    };
    if keys && rows > 0 && count_values_at(chain, &entries, chain.len() - 1) > num_rows {
        return LeafRead::Broken;
    }
    let values: usize = count_leaf_values(chain, &entries, entries.len());
    if column.repetition != LeafRepetition::Optional && 0 < values && values != count_values_at(
        chain,
        &entries,
        chain.len() - 1,
    ) {
        match reading {
            Reading::Bytes { .. } => LeafRead::Fails,
            _ => LeafRead::Broken,
        }
    } else {
        LeafRead::Entries(entries)
    }
}

/// Reads the pages of a leaf column with types above it.
fn read_leaf(
    reading: Reading,
    chain: &Vec<Nest>,
    column: LeafColumn,
    pages: &Vec<Option<PlainPage>>,
    num_rows: usize,
) -> (r: LeafRead)
    requires
        is_sized(reading),
        chain.len() > 0,
    ensures
        r@ == leaf_read(reading, chain@, column, page_views(pages@), num_rows),
{
    if pages.len() > MOST_PAGES {
        return LeafRead::Broken;
    }
    let keys: bool = match reading {
        Reading::Keys { .. } => true,
        _ => false,
    };
    let ghost views = page_views(pages@);
    let mut dictionary: Option<Dictionary> = None;
    let mut total: u64 = 0;
    let mut entries: Vec<(u32, u32)> = Vec::new();
    let mut rows: usize = num_rows;
    let mut started: bool = false;
    let mut at: usize = 0;
    assert(entries@ =~= seq![]);
    while at < pages.len() && !(rows == 0 && (started || !keys))
        invariant
            is_sized(reading),
            chain.len() > 0,
            pages.len() <= MOST_PAGES,
            views == page_views(pages@),
            keys == (reading is Keys),
            at <= pages.len(),
            reading is Bytes ==> (dictionary matches Some(d) ==> d.sizes.len() == d.entries),
            leaf_read(reading, chain@, column, views, num_rows) == leaf_read_from(
                reading,
                chain@,
                column,
                views,
                at as nat,
                LeafProgressView {
                    dictionary: dictionary_view(dictionary),
                    total,
                    entries: entries@,
                    rows: rows as nat,
                    started,
                },
                num_rows,
            ),
        decreases pages.len() - at,
    {
        assert(views[at as int] == page_view(pages@[at as int]));
        match &pages[at] {
            None => return LeafRead::Fails,
            Some(PlainPage::Dictionary { count, bytes }) => {
                dictionary = read_dictionary(reading, *count, bytes.as_slice());
                if dictionary.is_none() {
                    return LeafRead::Broken;
                }
            },
            Some(PlainPage::Data(page)) => {
                let kind = kind_of(&page.encoding);
                if page.count > MOST_VALUES || rows == 0 {
                    return LeafRead::Broken;
                }
                if !check_supported(reading, true, kind, dictionary.is_some()) {
                    return LeafRead::Fails;
                }
                let (mut found, start) = match read_entries(page, column) {
                    PageEntries::Broken => return LeafRead::Broken,
                    PageEntries::Refused => return LeafRead::Fails,
                    PageEntries::Entries(found, start) => (found, start),
                };
                let (taken, left) = find_cut(&found, rows);
                let used: usize = count_leaf_values(chain, &found, taken);
                let values = slice_subrange(page.bytes.as_slice(), start, page.bytes.len());
                assert(values@ =~= page.bytes@.skip(start as int));
                match check_values(reading, kind, values, used, false, &dictionary, total) {
                    Verdict::Broken => return LeafRead::Broken,
                    Verdict::Refused => return LeafRead::Fails,
                    Verdict::Sound(sum) => {
                        total = sum;
                    },
                }
                let ghost all = found@;
                let ghost before = entries@;
                found.truncate(taken);
                assert(found@ =~= all.take(taken as int));
                entries.append(&mut found);
                assert(entries@ =~= before + all.take(taken as int));
                rows = left;
                started = true;
            },
        }
        at = at + 1;
    }
    if started {
        finish_leaf(reading, chain, column, entries, rows, num_rows)
    } else {
        LeafRead::Nothing
    }
}

/// An array that is made of a leaf, and of the leaves beside it.
pub ghost struct ArrayReadView {
    /// The number of its values.
    pub len: nat,
    /// The types on the way to its last leaf, and the entries of that leaf.
    pub chain: Seq<Nest>,
    pub entries: Seq<(u32, u32)>,
    /// How many of the types are above the array.
    pub above: nat,
}

/// An array that is made of a leaf, and of the leaves beside it.
struct ArrayRead {
    len: usize,
    chain: Vec<Nest>,
    entries: Vec<(u32, u32)>,
    above: usize,
}

impl View for ArrayRead {
    type V = ArrayReadView;

    closed spec fn view(&self) -> ArrayReadView {
        ArrayReadView {
            len: self.len as nat,
            chain: self.chain@,
            entries: self.entries@,
            above: self.above as nat,
        }
    }
}

/// What the pages of the leaves of a type come to.
pub ghost enum TypeReadView {
    /// They are refused.
    Fails,
    /// There are no rows in them.
    Nothing,
    Array(ArrayReadView),
}

/// What the pages of the leaves of a type come to.
enum TypeRead {
    Fails,
    Nothing,
    Array(ArrayRead),
}

impl View for TypeRead {
    type V = TypeReadView;

    closed spec fn view(&self) -> TypeReadView {
        match self {
            TypeRead::Fails => TypeReadView::Fails,
            TypeRead::Nothing => TypeReadView::Nothing,
            TypeRead::Array(array) => TypeReadView::Array(array@),
        }
    }
}

/// The array of lists of the values of an array; `None` where it cannot be made: a list starts after the last
/// value, or there are more values than offsets count.
pub open spec fn array_of_lists(large: bool, values: ArrayReadView) -> Option<ArrayReadView> {
    let d = (values.above - 1) as nat;
    let k = values.entries.len();
    if values.above == 0 || last_start(values.chain, values.entries, d, k) > values.len || !large && values.len
        > i32::MAX {
        None
    } else {
        Some(
            ArrayReadView { len: values_at(values.chain, values.entries, d, k), above: d, ..values },
        )
    }
}

/// Whether the nulls of an array, if it has any, are as many as its values.
pub open spec fn nulls_fit(array: ArrayReadView) -> bool {
    has_null(array.chain, array.entries, array.above, array.entries.len()) ==> values_at(
        array.chain,
        array.entries,
        array.above,
        array.entries.len(),
    ) == array.len
}

/// The array of lists of one size of the values of an array; `None` where it cannot be made: the values
/// cannot be cut, or the lists are not as many as the entries say.
pub open spec fn array_of_sized_lists(size: usize, values: ArrayReadView) -> Option<ArrayReadView> {
    let array = ArrayReadView {
        len: values.len / size as nat,
        above: (values.above - 1) as nat,
        ..values
    };
    if values.above == 0 || size == 0 || values.len % size as nat != 0 || !nulls_fit(array) {
        None
    } else {
        Some(array)
    }
}

/// What the fields of a struct come to.
pub ghost struct FieldsReadView {
    pub fails: bool,
    pub nothing: bool,
    /// Whether two of the arrays have different numbers of values.
    pub uneven: bool,
    /// The array of the last field.
    pub last: Option<ArrayReadView>,
}

/// What the fields of a struct come to.
struct FieldsRead {
    fails: bool,
    nothing: bool,
    uneven: bool,
    last: Option<ArrayRead>,
}

impl View for FieldsRead {
    type V = FieldsReadView;

    closed spec fn view(&self) -> FieldsReadView {
        FieldsReadView {
            fails: self.fails,
            nothing: self.nothing,
            uneven: self.uneven,
            last: match self.last {
                Some(array) => Some(array@),
                None => None,
            },
        }
    }
}

/// What the fields of a struct come to, with one more.
pub open spec fn with_field(fields: FieldsReadView, field: TypeReadView) -> FieldsReadView {
    match field {
        TypeReadView::Fails => FieldsReadView { fails: true, ..fields },
        TypeReadView::Nothing => FieldsReadView { nothing: true, ..fields },
        TypeReadView::Array(array) => FieldsReadView {
            uneven: fields.uneven || (fields.last matches Some(last) && last.len != array.len),
            last: Some(array),
            ..fields
        },
    }
}

/// The array of structs of the arrays of their fields; `None` where it cannot be made: the arrays have
/// different numbers of values, or the structs are not as many as the entries say.
pub open spec fn array_of_structs(fields: FieldsReadView) -> Option<TypeReadView> {
    if fields.nothing {
        Some(TypeReadView::Nothing)
    } else if fields.fails {
        Some(TypeReadView::Fails)
    } else {
        match fields.last {
            None => None,
            Some(last) => {
                let array = ArrayReadView { above: (last.above - 1) as nat, ..last };
                if fields.uneven || last.above == 0 || !nulls_fit(array) {
                    None
                } else {
                    Some(TypeReadView::Array(array))
                }
            },
        }
    }
}

/// What so many rows of the pages of the leaves of a type come to, from the leaf column `at` on, and the
/// position after them; `None` where they cannot be decoded, or not be put together. `chain` are the types
/// above the type.
///
/// A map is put together to one value, which has all of the entries.
pub open spec fn type_read(
    shape: FieldShape,
    chain: Seq<Nest>,
    columns: Seq<LeafColumn>,
    pages: Seq<Seq<Option<PlainPageView>>>,
    num_rows: usize,
    at: nat,
) -> Option<(TypeReadView, nat)>
    decreases shape,
{
    match shape {
        FieldShape::List { nullable, large, item } => match type_read(
            *item,
            chain.push(Nest { kind: NestKind::List, nullable }),
            columns,
            pages,
            num_rows,
            at,
        ) {
            Some((TypeReadView::Array(values), next)) => match array_of_lists(large, values) {
                Some(array) => Some((TypeReadView::Array(array), next)),
                None => None,
            },
            other => other,
        },
        FieldShape::FixedSizeList { nullable, size, item } => match type_read(
            *item,
            chain.push(Nest { kind: NestKind::List, nullable }),
            columns,
            pages,
            num_rows,
            at,
        ) {
            Some((TypeReadView::Array(values), next)) => match array_of_sized_lists(size, values) {
                Some(array) => Some((TypeReadView::Array(array), next)),
                None => None,
            },
            other => other,
        },
        FieldShape::Struct { nullable, fields, .. } => match fields_read(
            *fields,
            chain.push(Nest { kind: NestKind::Struct, nullable }),
            columns,
            pages,
            num_rows,
            at,
            FieldsReadView { fails: false, nothing: false, uneven: false, last: None },
        ) {
            Some((fields, next)) => match array_of_structs(fields) {
                Some(read) => Some((read, next)),
                None => None,
            },
            None => None,
        },
        FieldShape::Mapping { nullable, entries } => match type_read(
            *entries,
            chain.push(Nest { kind: NestKind::List, nullable }),
            columns,
            pages,
            num_rows,
            at,
        ) {
            Some((TypeReadView::Array(entries), next)) => if entries.len <= i32::MAX {
                Some((TypeReadView::Array(ArrayReadView { len: 1, ..entries }), next))
            } else {
                None
            },
            other => other,
        },
        FieldShape::Leaf { nullable, .. } | FieldShape::Dictionary { nullable, .. } => if at < columns.len() && at
            < pages.len() {
            let below = chain.push(Nest { kind: NestKind::Leaf, nullable });
            match reading_of(shape, true, columns[at as int]) {
                None => None,
                Some(reading) => match leaf_read(reading, below, columns[at as int], pages[at as int], num_rows) {
                    LeafReadView::Broken => None,
                    LeafReadView::Fails => Some((TypeReadView::Fails, at + 1)),
                    LeafReadView::Nothing => Some((TypeReadView::Nothing, at + 1)),
                    LeafReadView::Entries(entries) => Some(
                        (
                            TypeReadView::Array(
                                ArrayReadView {
                                    len: values_at(below, entries, chain.len(), entries.len()),
                                    chain: below,
                                    entries,
                                    above: chain.len(),
                                },
                            ),
                            at + 1,
                        ),
                    ),
                },
            }
        } else {
            None
        },
    }
}

/// What so many rows of the pages of the leaves of the fields of a struct come to, from the leaf column `at`
/// on, and the position after them. `before` is what the fields before them came to.
pub open spec fn fields_read(
    fields: FieldShapes,
    chain: Seq<Nest>,
    columns: Seq<LeafColumn>,
    pages: Seq<Seq<Option<PlainPageView>>>,
    num_rows: usize,
    at: nat,
    before: FieldsReadView,
) -> Option<(FieldsReadView, nat)>
    decreases fields,
{
    match fields {
        FieldShapes::End => Some((before, at)),
        FieldShapes::Field(field, rest) => match type_read(*field, chain, columns, pages, num_rows, at) {
            Some((read, next)) => fields_read(
                *rest,
                chain,
                columns,
                pages,
                num_rows,
                next,
                with_field(before, read),
            ),
            None => None,
        },
    }
}

/// The pages of columns in their mathematical form, in order.
pub open spec fn all_page_views(pages: Seq<Vec<Option<PlainPage>>>) -> Seq<Seq<Option<PlainPageView>>> {
    pages.map_values(|pages: Vec<Option<PlainPage>>| page_views(pages@))
}

/// Types with one more.
fn extended(chain: &Vec<Nest>, kind: NestKind, nullable: bool) -> (r: Vec<Nest>)
    ensures
        r@ == chain@.push(Nest { kind, nullable }),
{
    let mut r: Vec<Nest> = Vec::new();
    for i in 0..chain.len()
        invariant
            r@ == chain@.take(i as int),
    {
        r.push(chain[i]);
        assert(r@ =~= chain@.take(i + 1));
    }
    assert(r@ =~= chain@);
    r.push(Nest { kind, nullable });
    r
}

/// Tells whether the nulls of an array, if it has any, are as many as its values.
fn check_nulls(chain: &Vec<Nest>, entries: &Vec<(u32, u32)>, d: usize, len: usize) -> (r: bool)
    requires
        d < chain.len(),
    ensures
        r == nulls_fit(
            (ArrayReadView { len: len as nat, chain: chain@, entries: entries@, above: d as nat }),
        ),
{
    !check_null(chain, entries, d) || count_values_at(chain, entries, d) == len
}

/// A reading does not speak of sizes that are zero.
pub proof fn lemma_reading_is_sized(shape: FieldShape, nested: bool, column: LeafColumn)
    ensures
        reading_of(shape, nested, column) matches Some(reading) ==> is_sized(reading),
{
}

/// Reads the pages of the leaves of a type.
fn read_type(
    shape: &FieldShape,
    chain: &Vec<Nest>,
    columns: &Vec<LeafColumn>,
    pages: &Vec<Vec<Option<PlainPage>>>,
    num_rows: usize,
    at: usize,
) -> (r: Option<(TypeRead, usize)>)
    ensures
        match r {
            Some((read, next)) => type_read(*shape, chain@, columns@, all_page_views(pages@), num_rows, at as nat)
                == Some((read@, next as nat)),
            None => type_read(*shape, chain@, columns@, all_page_views(pages@), num_rows, at as nat) is None,
        },
        r matches Some((TypeRead::Array(array), _)) ==> array.above < array.chain.len(),
    decreases *shape,
{
    match shape {
        FieldShape::List { nullable, large, item } => {
            let below = extended(chain, NestKind::List, *nullable);
            let (read, next) = match read_type(item, &below, columns, pages, num_rows, at) {
                Some(read) => read,
                None => return None,
            };
            let values = match read {
                TypeRead::Array(values) => values,
                other => return Some((other, next)),
            };
            if values.above == 0 {
                return None;
            }
            let d: usize = values.above - 1;
            if find_last_start(&values.chain, &values.entries, d) > values.len || !*large && values.len as u64
                > i32::MAX as u64 {
                return None;
            }
            let len: usize = count_values_at(&values.chain, &values.entries, d);
            Some((TypeRead::Array(ArrayRead { len, above: d, chain: values.chain, entries: values.entries }), next))
        },
        FieldShape::FixedSizeList { nullable, size, item } => {
            let below = extended(chain, NestKind::List, *nullable);
            let (read, next) = match read_type(item, &below, columns, pages, num_rows, at) {
                Some(read) => read,
                None => return None,
            };
            let values = match read {
                TypeRead::Array(values) => values,
                other => return Some((other, next)),
            };
            if values.above == 0 || *size == 0 || values.len % *size != 0 {
                return None;
            }
            let d: usize = values.above - 1;
            let len: usize = values.len / *size;
            if !check_nulls(&values.chain, &values.entries, d, len) {
                return None;
            }
            Some((TypeRead::Array(ArrayRead { len, above: d, chain: values.chain, entries: values.entries }), next))
        },
        FieldShape::Struct { nullable, fields, .. } => {
            let below = extended(chain, NestKind::Struct, *nullable);
            let before = FieldsRead { fails: false, nothing: false, uneven: false, last: None };
            let (read, next) = match read_fields(fields, &below, columns, pages, num_rows, at, before) {
                Some(read) => read,
                None => return None,
            };
            if read.nothing {
                return Some((TypeRead::Nothing, next));
            }
            if read.fails {
                return Some((TypeRead::Fails, next));
            }
            match read.last {
                None => None,
                Some(last) => {
                    if read.uneven || last.above == 0 {
                        return None;
                    }
                    let d: usize = last.above - 1;
                    if !check_nulls(&last.chain, &last.entries, d, last.len) {
                        return None;
                    }
                    let array = ArrayRead {
                        len: last.len,
                        above: d,
                        chain: last.chain,
                        entries: last.entries,
                    };
                    Some((TypeRead::Array(array), next))
                },
            }
        },
        FieldShape::Mapping { nullable, entries } => {
            let below = extended(chain, NestKind::List, *nullable);
            let (read, next) = match read_type(entries, &below, columns, pages, num_rows, at) {
                Some(read) => read,
                None => return None,
            };
            let entries = match read {
                TypeRead::Array(entries) => entries,
                other => return Some((other, next)),
            };
            if entries.len as u64 > i32::MAX as u64 {
                return None;
            }
            let array = ArrayRead {
                len: 1,
                above: entries.above,
                chain: entries.chain,
                entries: entries.entries,
            };
            Some((TypeRead::Array(array), next))
        },
        FieldShape::Leaf { nullable, .. } | FieldShape::Dictionary { nullable, .. } => {
            if at >= columns.len() || at >= pages.len() {
                return None;
            }
            let below = extended(chain, NestKind::Leaf, *nullable);
            let reading = match read_shape(shape, true, columns[at]) {
                Some(reading) => reading,
                None => return None,
            };
            proof {
                lemma_reading_is_sized(*shape, true, columns@[at as int]);
            }
            match read_leaf(reading, &below, columns[at], &pages[at], num_rows) {
                LeafRead::Broken => None,
                LeafRead::Fails => Some((TypeRead::Fails, at + 1)),
                LeafRead::Nothing => Some((TypeRead::Nothing, at + 1)),
                LeafRead::Entries(entries) => {
                    let len: usize = count_values_at(&below, &entries, chain.len());
                    let array = ArrayRead { len, above: chain.len(), chain: below, entries };
                    Some((TypeRead::Array(array), at + 1))
                },
            }
        },
    }
}

/// Reads the pages of the leaves of the fields of a struct.
fn read_fields(
    fields: &FieldShapes,
    chain: &Vec<Nest>,
    columns: &Vec<LeafColumn>,
    pages: &Vec<Vec<Option<PlainPage>>>,
    num_rows: usize,
    at: usize,
    before: FieldsRead,
) -> (r: Option<(FieldsRead, usize)>)
    requires
        before.last matches Some(last) ==> last.above < last.chain.len(),
    ensures
        match r {
            Some((read, next)) => fields_read(
                *fields,
                chain@,
                columns@,
                all_page_views(pages@),
                num_rows,
                at as nat,
                before@,
            ) == Some((read@, next as nat)),
            None => fields_read(
                *fields,
                chain@,
                columns@,
                all_page_views(pages@),
                num_rows,
                at as nat,
                before@,
            ) is None,
        },
        r matches Some((read, _)) ==> (read.last matches Some(last) ==> last.above < last.chain.len()),
    decreases *fields,
{
    match fields {
        FieldShapes::End => Some((before, at)),
        FieldShapes::Field(field, rest) => {
            let (read, next) = match read_type(field, chain, columns, pages, num_rows, at) {
                Some(read) => read,
                None => return None,
            };
            let with = match read {
                TypeRead::Fails => FieldsRead {
                    fails: true,
                    nothing: before.nothing,
                    uneven: before.uneven,
                    last: before.last,
                },
                TypeRead::Nothing => FieldsRead {
                    fails: before.fails,
                    nothing: true,
                    uneven: before.uneven,
                    last: before.last,
                },
                TypeRead::Array(array) => {
                    let differs: bool = match &before.last {
                        Some(last) => last.len != array.len,
                        None => false,
                    };
                    FieldsRead {
                        fails: before.fails,
                        nothing: before.nothing,
                        uneven: before.uneven || differs,
                        last: Some(array),
                    }
                },
            };
            read_fields(rest, chain, columns, pages, num_rows, next, with)
        },
    }
}

/// Whether so many rows of a field can be decoded from the pages of its leaf columns, or are refused.
pub open spec fn pages_sound(
    shape: FieldShape,
    columns: Seq<LeafColumn>,
    pages: Seq<Seq<Option<PlainPageView>>>,
    num_rows: usize,
) -> bool {
    match decoder_set_up(shape, columns, num_rows) {
        SetUp::Broken => false,
        SetUp::Refused => true,
        SetUp::Ready => pages.len() == columns.len() && match shape {
            FieldShape::Leaf { .. } | FieldShape::Dictionary { .. } => columns.len() > 0 && (reading_of(
                shape,
                false,
                columns[0],
            ) matches Some(reading) ==> column_sound(reading, columns[0], pages[0], num_rows)),
            _ => type_read(shape, seq![], columns, pages, num_rows, 0) is Some,
        },
    }
}

/// Tells whether so many rows of a field can be decoded from the pages of its leaf columns, or are refused.
pub fn check_pages(
    shape: &FieldShape,
    columns: &Vec<LeafColumn>,
    pages: &Vec<Vec<Option<PlainPage>>>,
    num_rows: usize,
) -> (r: bool)
    ensures
        r == pages_sound(*shape, columns@, all_page_views(pages@), num_rows),
{
    match check_set_up(shape, columns, num_rows) {
        SetUp::Broken => return false,
        SetUp::Refused => return true,
        SetUp::Ready => {},
    }
    if pages.len() != columns.len() {
        return false;
    }
    match shape {
        FieldShape::Leaf { .. } | FieldShape::Dictionary { .. } => {
            if columns.len() == 0 {
                return false;
            }
            proof {
                lemma_reading_is_sized(*shape, false, columns@[0]);
            }
            match read_shape(shape, false, columns[0]) {
                Some(reading) => check_column(reading, columns[0], &pages[0], num_rows),
                None => true,
            }
        },
        _ => {
            let chain: Vec<Nest> = Vec::new();
            assert(chain@ =~= seq![]);
            read_type(shape, &chain, columns, pages, num_rows, 0).is_some()
        },
    }
}

} // verus!
