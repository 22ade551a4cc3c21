//! Which pages of a leaf column can be decoded.

use vstd::prelude::*;
use vstd::slice::slice_subrange;
use vstd::utf8::valid_utf8;

use crate::encoding::byte_strings;
use crate::encoding::check_delta;
use crate::encoding::check_fits;
use crate::encoding::check_runs;
use crate::encoding::check_runs_sound;
use crate::encoding::delta_count;
use crate::encoding::find_byte_strings;
use crate::encoding::four_bytes;
use crate::encoding::is_delta;
use crate::encoding::is_i64;
use crate::encoding::is_runs;
use crate::encoding::lemma_runs_may_be_padded;
use crate::encoding::read_four_bytes;
use crate::encoding::runs_sound;
use crate::encoding::signed;
use crate::parquet::decode_delta;
use crate::parquet::decode_runs;
use crate::parquet::delta_values;
use crate::parquet::encoding_kind;
use crate::parquet::is_text;
use crate::parquet::kind_of;
use crate::parquet::page_views;
use crate::parquet::run_values;
use crate::parquet::DataPage;
use crate::parquet::DataPageView;
use crate::parquet::PageEncoding;
use crate::parquet::PageLevels;
use crate::parquet::PlainPage;
use crate::parquet::PlainPageView;
use crate::shape::DictionaryValues;
use crate::shape::LeafColumn;
use crate::shape::LeafRepetition;
use crate::shape::Reading;
use crate::shape::Scaling;

verus! {

/// The most pages of a column: what has been decoded of a page waits on the stack for the next one.
pub const MOST_PAGES: usize = 1024;

/// The most values of a page.
pub const MOST_VALUES: usize = 0x7fff_ffff;

/// The most bytes that offsets of 32 bits count.
pub const MOST_BYTES: u64 = 0x7fff_ffff;

/// Where the parts of a page lie: the repetition levels, the definition levels, and after them the values.
#[derive(Clone, Copy, Debug, PartialEq, Eq, Structural)]
pub enum Split {
    /// The page cannot be taken apart.
    Broken,
    /// The page is refused.
    Refused,
    Parts { rep_start: usize, rep_end: usize, def_start: usize, def_end: usize },
}

/// Where levels lie that stand at a position after their length, if there are any; `None` where they break
/// off.
pub open spec fn level_part(bytes: Seq<u8>, at: usize, there: bool) -> Option<(usize, usize)> {
    if !there {
        Some((at, at))
    } else if at + 4 > bytes.len() || at + 4 + four_bytes(bytes, at as int) > bytes.len() {
        None
    } else {
        Some(((at + 4) as usize, (at + 4 + four_bytes(bytes, at as int)) as usize))
    }
}

/// Tells where levels lie that stand at a position after their length.
fn find_level_part(bytes: &[u8], at: usize, there: bool) -> (r: Option<(usize, usize)>)
    requires
        at <= bytes.len(),
    ensures
        r == level_part(bytes@, at, there),
        r matches Some((start, end)) ==> at <= start <= end <= bytes.len(),
{
    if !there {
        return Some((at, at));
    }
    if bytes.len() - at < 4 {
        return None;
    }
    let length: u64 = read_four_bytes(bytes, at);
    if length > (bytes.len() - at - 4) as u64 {
        return None;
    }
    Some((at + 4, at + 4 + length as usize))
}

/// Where the parts of a page lie. Levels that break off after their length are refused, and levels of a
/// negative length. That levels of another length do not break off is not looked at.
pub open spec fn split(bytes: Seq<u8>, levels: PageLevels, column: LeafColumn) -> Split {
    match levels {
        PageLevels::V1 => match level_part(bytes, 0, column.rep_level > 0) {
            None => Split::Refused,
            Some((rep_start, rep_end)) => match level_part(bytes, rep_end, column.def_level > 0) {
                None => Split::Refused,
                Some((def_start, def_end)) => Split::Parts { rep_start, rep_end, def_start, def_end },
            },
        },
        PageLevels::V2 { rep, def } => if rep < 0 || def < 0 {
            Split::Refused
        } else if rep + def > bytes.len() {
            Split::Broken
        } else {
            Split::Parts {
                rep_start: 0,
                rep_end: rep as usize,
                def_start: rep as usize,
                def_end: (rep + def) as usize,
            }
        },
    }
}

/// Takes a page apart.
pub fn split_page(bytes: &[u8], levels: PageLevels, column: LeafColumn) -> (r: Split)
    ensures
        r == split(bytes@, levels, column),
        r matches Split::Parts { rep_start, rep_end, def_start, def_end } ==> rep_start <= rep_end <= def_start
            <= def_end <= bytes.len(),
{
    match levels {
        PageLevels::V1 => match find_level_part(bytes, 0, column.rep_level > 0) {
            None => Split::Refused,
            Some((rep_start, rep_end)) => match find_level_part(bytes, rep_end, column.def_level > 0) {
                None => Split::Refused,
                Some((def_start, def_end)) => Split::Parts { rep_start, rep_end, def_start, def_end },
            },
        },
        PageLevels::V2 { rep, def } => {
            if rep < 0 || def < 0 {
                Split::Refused
            } else if rep as u64 + def as u64 > bytes.len() as u64 {
                Split::Broken
            } else {
                Split::Parts {
                    rep_start: 0,
                    rep_end: rep as usize,
                    def_start: rep as usize,
                    def_end: rep as usize + def as usize,
                }
            }
        },
    }
}

/// How many of the first `k` values are one.
pub open spec fn ones(values: Seq<u32>, k: nat) -> nat
    decreases k,
{
    if k == 0 {
        0
    } else {
        ones(values, (k - 1) as nat) + if values[k - 1] == 1 {
            1nat
        } else {
            0nat
        }
    }
}

/// Counts the values that are one.
fn count_ones(values: &Vec<u32>) -> (r: usize)
    ensures
        r == ones(values@, values.len() as nat),
        r <= values.len(),
{
    let mut r: usize = 0;
    for i in 0..values.len()
        invariant
            r == ones(values@, i as nat),
            r <= i,
    {
        if values[i] == 1 {
            r = r + 1;
        }
    }
    r
}

/// What a page has of values.
#[derive(Clone, Copy, Debug, PartialEq, Eq, Structural)]
pub enum Present {
    /// The page cannot be taken apart, or its levels do not tell which values are null.
    Broken,
    /// The page is refused.
    Refused,
    /// So many values that are not null, from a position on.
    Values { start: usize, used: usize },
}

/// What a page of a column has of values for so many rows, where there are no types above the column: its
/// definition levels are one for a value, and zero for a null.
pub open spec fn present_values(page: DataPageView, column: LeafColumn, limit: usize) -> Present {
    match split(page.bytes, page.levels, column) {
        Split::Broken => Present::Broken,
        Split::Refused => Present::Refused,
        Split::Parts { def_start, def_end, .. } => if column.repetition is Optional {
            let levels = page.bytes.subrange(def_start as int, def_end as int);
            if is_runs(levels, 0, 1, limit as nat, false) {
                Present::Values {
                    start: def_end,
                    used: ones(run_values(levels, 1, limit), limit as nat) as usize,
                }
            } else {
                Present::Broken
            }
        } else {
            Present::Values { start: def_end, used: limit }
        },
    }
}

/// Tells what a page of a column has of values for so many rows.
fn find_present(page: &DataPage, column: LeafColumn, limit: usize) -> (r: Present)
    ensures
        r == present_values(page@, column, limit),
        r matches Present::Values { start, used } ==> start <= page.bytes.len() && used <= limit,
{
    match split_page(page.bytes.as_slice(), page.levels, column) {
        Split::Broken => Present::Broken,
        Split::Refused => Present::Refused,
        Split::Parts { def_start, def_end, .. } => {
            if column.repetition != LeafRepetition::Optional {
                return Present::Values { start: def_end, used: limit };
            }
            let levels = slice_subrange(page.bytes.as_slice(), def_start, def_end);
            if limit == 0 {
                return Present::Values { start: def_end, used: 0 };
            }
            if !check_runs(levels, 1, limit, false) {
                return Present::Broken;
            }
            proof {
                lemma_runs_may_be_padded(levels@, 0, 1, limit as nat);
            }
            let values = decode_runs(levels, 1, limit);
            Present::Values { start: def_end, used: count_ones(&values) }
        },
    }
}

/// The number that eight bytes at a position hold, the lowest first.
pub open spec fn eight_bytes(bytes: Seq<u8>, at: int) -> int {
    signed((four_bytes(bytes, at) + 0x1_0000_0000 * four_bytes(bytes, at + 4)) as u64)
}

/// Reads the number that eight bytes at a position hold.
fn read_eight_bytes(bytes: &[u8], at: usize) -> (r: i128)
    requires
        at + 8 <= bytes.len(),
    ensures
        r == eight_bytes(bytes@, at as int),
        i64::MIN <= r <= i64::MAX,
{
    let n: u64 = read_four_bytes(bytes, at) + 0x1_0000_0000 * read_four_bytes(bytes, at + 4);
    if n <= i64::MAX as u64 {
        n as i128
    } else {
        n as i128 - 0x1_0000_0000_0000_0000
    }
}

/// The day, as astronomers count them, that instants are counted from.
pub const EPOCH_DAY: i64 = 2440588;

/// The number of nanoseconds of a day.
pub const DAY_NANOSECONDS: i64 = 86400000000000;

/// Whether a stored number at a position has 64 bits once it is scaled.
pub open spec fn scales(scaling: Scaling, bytes: Seq<u8>, at: int) -> bool {
    match scaling {
        Scaling::Kept => true,
        Scaling::Times(factor) => is_i64(eight_bytes(bytes, at) * factor),
        Scaling::Instant => {
            let day = (four_bytes(bytes, at + 8) - EPOCH_DAY) * DAY_NANOSECONDS;
            is_i64(day) && is_i64(day + eight_bytes(bytes, at))
        },
    }
}

/// The number of bytes of a stored number that is scaled.
pub open spec fn scaled_size(scaling: Scaling) -> nat {
    if scaling is Instant {
        12
    } else {
        8
    }
}

/// Whether stored numbers, from a position on, have 64 bits once they are scaled.
pub open spec fn all_scale(scaling: Scaling, bytes: Seq<u8>, at: int) -> bool
    decreases bytes.len() - at,
{
    if scaling is Kept || at < 0 || at + scaled_size(scaling) > bytes.len() {
        true
    } else {
        scales(scaling, bytes, at) && all_scale(scaling, bytes, at + scaled_size(scaling))
    }
}

/// Tells whether stored numbers have 64 bits once they are scaled.
fn check_scaling(scaling: Scaling, bytes: &[u8]) -> (r: bool)
    ensures
        r == all_scale(scaling, bytes@, 0),
{
    let size: usize = match scaling {
        Scaling::Kept => return true,
        Scaling::Times(_) => 8,
        Scaling::Instant => 12,
    };
    let mut at: usize = 0;
    while bytes.len() - at >= size
        invariant
            at <= bytes.len(),
            !(scaling is Kept),
            size == scaled_size(scaling),
            all_scale(scaling, bytes@, 0) == all_scale(scaling, bytes@, at as int),
        decreases bytes.len() - at,
    {
        let n: i128 = read_eight_bytes(bytes, at);
        match scaling {
            Scaling::Kept => {},
            Scaling::Times(factor) => {
                if !check_fits(n, factor) {
                    return false;
                }
            },
            Scaling::Instant => {
                let day: i128 = (read_four_bytes(bytes, at + 8) as i128 - EPOCH_DAY as i128)
                    * DAY_NANOSECONDS as i128;
                let instant: i128 = day + n;
                if day < i64::MIN as i128 || day > i64::MAX as i128 || instant < i64::MIN as i128 || instant
                    > i64::MAX as i128 {
                    return false;
                }
            },
        }
        at = at + size;
    }
    true
}

/// What a delta-encoded number is multiplied by.
pub open spec fn factor_of(scaling: Scaling) -> i64 {
    match scaling {
        Scaling::Times(factor) => factor,
        _ => 1,
    }
}

/// What is known of the dictionary of a column.
pub struct Dictionary {
    /// The number of its values.
    pub entries: usize,
    /// The number of bytes of each, for byte strings.
    pub sizes: Vec<usize>,
}

/// The mathematical form of [`Dictionary`].
pub ghost struct DictionaryView {
    pub entries: usize,
    pub sizes: Seq<usize>,
}

impl View for Dictionary {
    type V = DictionaryView;

    open spec fn view(&self) -> DictionaryView {
        DictionaryView { entries: self.entries, sizes: self.sizes@ }
    }
}

/// A dictionary, if there is one, in its mathematical form.
pub open spec fn dictionary_view(dictionary: Option<Dictionary>) -> Option<DictionaryView> {
    match dictionary {
        Some(dictionary) => Some(dictionary@),
        None => None,
    }
}

/// The number of bytes of each byte string, from where they lie.
pub open spec fn string_sizes(strings: Seq<(usize, usize)>) -> Seq<usize> {
    strings.map_values(|s: (usize, usize)| (s.1 - s.0) as usize)
}

/// Tells the number of bytes of each byte string.
fn sizes_of(strings: &Vec<(usize, usize)>) -> (r: Vec<usize>)
    requires
        forall|i: int| 0 <= i < strings.len() ==> (#[trigger] strings@[i]).0 <= strings@[i].1,
    ensures
        r@ == string_sizes(strings@),
{
    let mut sizes: Vec<usize> = Vec::with_capacity(strings.len());
    for i in 0..strings.len()
        invariant
            forall|i: int| 0 <= i < strings.len() ==> (#[trigger] strings@[i]).0 <= strings@[i].1,
            sizes.len() == i,
            forall|j: int| 0 <= j < i ==> #[trigger] sizes@[j] == string_sizes(strings@)[j],
    {
        sizes.push(strings[i].1 - strings[i].0);
    }
    assert(sizes@ =~= string_sizes(strings@));
    sizes
}

/// Whether each of some byte strings is text.
pub open spec fn all_text(bytes: Seq<u8>, strings: Seq<(usize, usize)>) -> bool {
    forall|i: int|
        0 <= i < strings.len() ==> valid_utf8(
            bytes.subrange((#[trigger] strings[i]).0 as int, strings[i].1 as int),
        )
}

/// Tells whether each of some byte strings is text.
fn check_text(bytes: &[u8], strings: &Vec<(usize, usize)>) -> (r: bool)
    requires
        forall|i: int|
            0 <= i < strings.len() ==> (#[trigger] strings@[i]).0 <= strings@[i].1 <= bytes.len(),
    ensures
        r == all_text(bytes@, strings@),
{
    for i in 0..strings.len()
        invariant
            forall|i: int|
                0 <= i < strings.len() ==> (#[trigger] strings@[i]).0 <= strings@[i].1 <= bytes.len(),
            forall|j: int|
                0 <= j < i ==> valid_utf8(
                    bytes@.subrange((#[trigger] strings@[j]).0 as int, strings@[j].1 as int),
                ),
    {
        if !is_text(slice_subrange(bytes, strings[i].0, strings[i].1)) {
            assert(!valid_utf8(bytes@.subrange(strings@[i as int].0 as int, strings@[i as int].1 as int)));
            return false;
        }
    }
    true
}

/// What is known of the dictionary that a page holds; `None` where it cannot be decoded.
pub open spec fn dictionary_of(reading: Reading, count: usize, bytes: Seq<u8>) -> Option<DictionaryView> {
    let unsized_entries = |entries: usize| DictionaryView { entries, sizes: seq![] };
    match reading {
        Reading::Number { size, scaling, .. } => if all_scale(scaling, bytes, 0) {
            Some(unsized_entries((bytes.len() / size as nat) as usize))
        } else {
            None
        },
        Reading::Fixed { size } => Some(unsized_entries((bytes.len() / size as nat) as usize)),
        Reading::Bytes { .. } => match byte_strings(bytes, 0, count as nat, seq![]) {
            Some(strings) => Some(
                DictionaryView { entries: strings.len() as usize, sizes: string_sizes(strings) },
            ),
            None => None,
        },
        Reading::Keys { values, .. } => match values {
            DictionaryValues::Number { scaling, .. } => if all_scale(scaling, bytes, 0) {
                Some(unsized_entries(count))
            } else {
                None
            },
            DictionaryValues::Fixed { size } => if bytes.len() % size as nat == 0 {
                Some(unsized_entries(count))
            } else {
                None
            },
            DictionaryValues::Bytes { text } => match byte_strings(bytes, 0, count as nat, seq![]) {
                Some(strings) => if 4 * count <= bytes.len() && (text ==> all_text(bytes, strings)) {
                    Some(unsized_entries(count))
                } else {
                    None
                },
                None => None,
            },
            DictionaryValues::Broken => None,
        },
        _ => Some(unsized_entries(0)),
    }
}

/// Whether the sizes that a reading speaks of are none of them zero.
pub open spec fn is_sized(reading: Reading) -> bool {
    match reading {
        Reading::Number { size, .. } => size > 0,
        Reading::Fixed { size } => size > 0,
        Reading::Keys { values, .. } => match values {
            DictionaryValues::Number { size, .. } => size > 0,
            DictionaryValues::Fixed { size } => size > 0,
            _ => true,
        },
        _ => true,
    }
}

/// Reads the dictionary that a page holds.
pub fn read_dictionary(reading: Reading, count: usize, bytes: &[u8]) -> (r: Option<Dictionary>)
    requires
        is_sized(reading),
    ensures
        dictionary_view(r) == dictionary_of(reading, count, bytes@),
        reading is Bytes ==> (r matches Some(dictionary) ==> dictionary.sizes.len() == dictionary.entries),
{
    let nothing: Vec<usize> = Vec::new();
    assert(nothing@ =~= seq![]);
    match reading {
        Reading::Number { size, scaling, .. } => {
            if check_scaling(scaling, bytes) {
                Some(Dictionary { entries: bytes.len() / size, sizes: nothing })
            } else {
                None
            }
        },
        Reading::Fixed { size } => Some(Dictionary { entries: bytes.len() / size, sizes: nothing }),
        Reading::Bytes { .. } => match find_byte_strings(bytes, count) {
            Some(strings) => {
                let sizes = sizes_of(&strings);
                Some(Dictionary { entries: strings.len(), sizes })
            },
            None => None,
        },
        Reading::Keys { values, .. } => match values {
            DictionaryValues::Number { scaling, .. } => {
                if check_scaling(scaling, bytes) {
                    Some(Dictionary { entries: count, sizes: nothing })
                } else {
                    None
                }
            },
            DictionaryValues::Fixed { size } => {
                if bytes.len() % size == 0 {
                    Some(Dictionary { entries: count, sizes: nothing })
                } else {
                    None
                }
            },
            DictionaryValues::Bytes { text } => match find_byte_strings(bytes, count) {
                Some(strings) => {
                    if 4 * count as u128 <= bytes.len() as u128 && (!text || check_text(bytes, &strings)) {
                        Some(Dictionary { entries: count, sizes: nothing })
                    } else {
                        None
                    }
                },
                None => None,
            },
            DictionaryValues::Broken => None,
        },
        _ => Some(Dictionary { entries: 0, sizes: nothing }),
    }
}

/// The indices of a dictionary that a page holds: after the number of bits of each, so many of them.
/// `None` where they cannot be decoded.
pub open spec fn page_indices(values: Seq<u8>, count: usize) -> Option<Seq<u32>> {
    if values.len() == 0 || values[0] > 32 || !runs_sound(values.drop_first(), values[0] as nat, count) {
        None
    } else {
        Some(run_values(values.drop_first(), values[0] as u32, count))
    }
}

/// Reads the indices of a dictionary that a page holds.
fn read_indices(values: &[u8], count: usize) -> (r: Option<Vec<u32>>)
    ensures
        match r {
            Some(indices) => page_indices(values@, count) == Some(indices@) && indices.len() == count,
            None => page_indices(values@, count) is None,
        },
{
    if values.len() == 0 {
        return None;
    }
    let bits: u32 = values[0] as u32;
    let rest = slice_subrange(values, 1, values.len());
    assert(rest@ =~= values@.drop_first());
    if bits > 32 || !check_runs_sound(rest, bits, count) {
        return None;
    }
    Some(decode_runs(rest, bits, count))
}

/// Whether the first `k` indices are at most a number.
pub open spec fn at_most(indices: Seq<u32>, k: nat, most: int) -> bool {
    forall|i: int| 0 <= i < k ==> #[trigger] indices[i] <= most
}

/// Tells whether the first `k` indices are below a number.
fn check_below(indices: &Vec<u32>, k: usize, end: u64) -> (r: bool)
    requires
        k <= indices.len(),
    ensures
        r == at_most(indices@, k as nat, end - 1),
{
    for i in 0..k
        invariant
            k <= indices.len(),
            forall|j: int| 0 <= j < i ==> #[trigger] indices@[j] < end,
    {
        if indices[i] as u64 >= end {
            assert(indices@[i as int] > end - 1);
            return false;
        }
    }
    true
}

/// A number of bytes with the sizes added from the one at `i` on; `None` where it is more than offsets of 32
/// bits count.
pub open spec fn added(sizes: Seq<usize>, i: nat, total: u64) -> Option<u64>
    decreases sizes.len() - i,
{
    if i >= sizes.len() {
        Some(total)
    } else if total + sizes[i as int] > MOST_BYTES {
        None
    } else {
        added(sizes, i + 1, (total + sizes[i as int]) as u64)
    }
}

/// Adds sizes to a number of bytes.
fn add_sizes(sizes: &Vec<usize>, total: u64) -> (r: Option<u64>)
    ensures
        r == added(sizes@, 0, total),
{
    let mut sum: u64 = total;
    for i in 0..sizes.len()
        invariant
            added(sizes@, 0, total) == added(sizes@, i as nat, sum),
    {
        if sum as u128 + sizes[i] as u128 > MOST_BYTES as u128 {
            return None;
        }
        sum = sum + sizes[i] as u64;
    }
    Some(sum)
}

/// The sizes of the values of a dictionary that the first `k` indices stand for.
pub open spec fn picked(sizes: Seq<usize>, indices: Seq<u32>, k: nat) -> Seq<usize> {
    Seq::new(k, |i: int| sizes[indices[i] as int])
}

/// Tells the sizes of the values of a dictionary that indices stand for.
fn pick(sizes: &Vec<usize>, indices: &Vec<u32>, k: usize) -> (r: Vec<usize>)
    requires
        k <= indices.len(),
        at_most(indices@, k as nat, sizes.len() - 1),
    ensures
        r@ == picked(sizes@, indices@, k as nat),
{
    let mut r: Vec<usize> = Vec::with_capacity(k);
    for i in 0..k
        invariant
            k <= indices.len(),
            at_most(indices@, k as nat, sizes.len() - 1),
            r.len() == i,
            forall|j: int| 0 <= j < i ==> #[trigger] r@[j] == picked(sizes@, indices@, k as nat)[j],
    {
        assert(indices@[i as int] <= sizes.len() - 1);
        r.push(sizes[indices[i] as usize]);
    }
    assert(r@ =~= picked(sizes@, indices@, k as nat));
    r
}

/// The sizes of byte strings whose lengths are delta-encoded before them, from the `i`-th on, are none of
/// them negative, and they lie in so many bytes.
pub open spec fn lengths_fit(lengths: Seq<i64>, i: nat, left: nat) -> bool
    decreases lengths.len() - i,
{
    if i >= lengths.len() {
        true
    } else {
        0 <= lengths[i as int] <= left && lengths_fit(lengths, i + 1, (left - lengths[i as int]) as nat)
    }
}

/// Tells whether byte strings of some lengths lie in so many bytes.
fn check_lengths(lengths: &Vec<i64>, within: usize) -> (r: bool)
    ensures
        r == lengths_fit(lengths@, 0, within as nat),
{
    let mut left: usize = within;
    for i in 0..lengths.len()
        invariant
            lengths_fit(lengths@, 0, within as nat) == lengths_fit(lengths@, i as nat, left as nat),
    {
        if lengths[i] < 0 || lengths[i] as u64 > left as u64 {
            return false;
        }
        left = left - lengths[i] as usize;
    }
    true
}

/// Lengths as sizes.
pub open spec fn length_sizes(lengths: Seq<i64>) -> Seq<usize> {
    lengths.map_values(|length: i64| length as usize)
}

/// Turns lengths to sizes.
fn sizes_of_lengths(lengths: &Vec<i64>) -> (r: Vec<usize>)
    ensures
        r@ == length_sizes(lengths@),
{
    let mut sizes: Vec<usize> = Vec::with_capacity(lengths.len());
    for i in 0..lengths.len()
        invariant
            sizes.len() == i,
            forall|j: int| 0 <= j < i ==> #[trigger] sizes@[j] == length_sizes(lengths@)[j],
    {
        sizes.push(lengths[i] as usize);
    }
    assert(sizes@ =~= length_sizes(lengths@));
    sizes
}

/// What becomes of a page.
#[derive(Clone, Copy, Debug, PartialEq, Eq, Structural)]
pub enum Verdict {
    /// It cannot be decoded.
    Broken,
    /// It is refused.
    Refused,
    /// It can be decoded. With it, the byte strings have so many bytes, where offsets of 32 bits count
    /// them.
    Sound(u64),
}

/// What becomes of a page that adds byte strings of some sizes.
pub open spec fn verdict_on_sizes(small: bool, sizes: Seq<usize>, total: u64) -> Verdict {
    if small {
        match added(sizes, 0, total) {
            Some(total) => Verdict::Sound(total),
            None => Verdict::Broken,
        }
    } else {
        Verdict::Sound(total)
    }
}

/// Tells what becomes of a page that adds byte strings of some sizes.
fn check_sizes(small: bool, sizes: &Vec<usize>, total: u64) -> (r: Verdict)
    ensures
        r == verdict_on_sizes(small, sizes@, total),
{
    if small {
        match add_sizes(sizes, total) {
            Some(total) => Verdict::Sound(total),
            None => Verdict::Broken,
        }
    } else {
        Verdict::Sound(total)
    }
}

/// A condition as a verdict.
pub open spec fn sound_if(condition: bool, total: u64) -> Verdict {
    if condition {
        Verdict::Sound(total)
    } else {
        Verdict::Broken
    }
}

/// Whether an encoding is that of indices of a dictionary.
pub open spec fn is_indices(kind: PageEncoding) -> bool {
    kind is PlainDictionary || kind is RleDictionary
}

/// Whether pages in an encoding are decoded, for a column that may have types above it.
pub open spec fn is_supported(reading: Reading, nested: bool, kind: PageEncoding, dictionary: bool) -> bool {
    match reading {
        Reading::Number { delta, .. } => is_indices(kind) && dictionary || kind is Plain || kind
            is DeltaBinaryPacked && delta && !nested,
        Reading::Boolean => kind is Plain,
        Reading::Bytes { .. } => is_indices(kind) && dictionary || kind is Plain || kind
            is DeltaLengthByteArray && !nested,
        Reading::Fixed { .. } => is_indices(kind) && dictionary || kind is Plain,
        Reading::Keys { .. } => is_indices(kind) && dictionary,
        _ => false,
    }
}

/// Tells whether pages in an encoding are decoded.
pub fn check_supported(reading: Reading, nested: bool, kind: PageEncoding, dictionary: bool) -> (r: bool)
    ensures
        r == is_supported(reading, nested, kind, dictionary),
{
    let indices: bool = kind == PageEncoding::PlainDictionary || kind == PageEncoding::RleDictionary;
    let plain: bool = kind == PageEncoding::Plain;
    match reading {
        Reading::Number { delta, .. } => indices && dictionary || plain || kind
            == PageEncoding::DeltaBinaryPacked && delta && !nested,
        Reading::Boolean => plain,
        Reading::Bytes { .. } => indices && dictionary || plain || kind
            == PageEncoding::DeltaLengthByteArray && !nested,
        Reading::Fixed { .. } => indices && dictionary || plain,
        Reading::Keys { .. } => indices && dictionary,
        _ => false,
    }
}

/// What becomes of the values of a page in a supported encoding, of which `used` are decoded. Where `exact`
/// is set there must be as many.
pub open spec fn verdict_on_values(
    reading: Reading,
    kind: PageEncoding,
    values: Seq<u8>,
    used: usize,
    exact: bool,
    dictionary: Option<DictionaryView>,
    total: u64,
) -> Verdict {
    if is_indices(kind) {
        match page_indices(values, used) {
            None => Verdict::Broken,
            Some(indices) => match (reading, dictionary) {
                (Reading::Keys { most, .. }, _) => sound_if(at_most(indices, used as nat, most as int), total),
                (Reading::Bytes { small }, Some(dictionary)) => if at_most(
                    indices,
                    used as nat,
                    dictionary.entries - 1,
                ) {
                    verdict_on_sizes(small, picked(dictionary.sizes, indices, used as nat), total)
                } else {
                    Verdict::Broken
                },
                (_, Some(dictionary)) => sound_if(at_most(indices, used as nat, dictionary.entries - 1), total),
                _ => Verdict::Broken,
            },
        }
    } else {
        match reading {
            Reading::Number { size, scaling, .. } => if kind is Plain {
                sound_if(
                    values.len() % size as nat == 0 && (exact ==> used <= values.len() / size as nat)
                        && all_scale(scaling, values, 0),
                    total,
                )
            } else {
                sound_if(
                    is_delta(values, factor_of(scaling)) && (exact ==> used <= delta_count(values)),
                    total,
                )
            },
            Reading::Boolean => sound_if(exact ==> used <= 8 * values.len(), total),
            Reading::Bytes { small } => if kind is Plain {
                match byte_strings(values, 0, used as nat, seq![]) {
                    Some(strings) => verdict_on_sizes(small, string_sizes(strings), total),
                    None => Verdict::Broken,
                }
            } else if is_delta(values, 1) {
                match delta_values(values) {
                    Some((lengths, consumed)) => if lengths_fit(lengths, 0, (values.len() - consumed) as nat) {
                        verdict_on_sizes(small, length_sizes(lengths), total)
                    } else {
                        Verdict::Broken
                    },
                    None => Verdict::Broken,
                }
            } else {
                Verdict::Broken
            },
            Reading::Fixed { size } => sound_if(exact ==> used <= values.len() / size as nat, total),
            _ => Verdict::Broken,
        }
    }
}

/// A condition as a verdict.
fn judge(condition: bool, total: u64) -> (r: Verdict)
    ensures
        r == sound_if(condition, total),
{
    if condition {
        Verdict::Sound(total)
    } else {
        Verdict::Broken
    }
}

/// Tells what becomes of the values of a page in a supported encoding.
pub fn check_values(
    reading: Reading,
    kind: PageEncoding,
    values: &[u8],
    used: usize,
    exact: bool,
    dictionary: &Option<Dictionary>,
    total: u64,
) -> (r: Verdict)
    requires
        is_sized(reading),
        reading is Bytes ==> (*dictionary matches Some(d) ==> d.sizes.len() == d.entries),
    ensures
        r == verdict_on_values(
            reading,
            kind,
            values@,
            used,
            exact,
            dictionary_view(*dictionary),
            total,
        ),
{
    if kind == PageEncoding::PlainDictionary || kind == PageEncoding::RleDictionary {
        let indices = match read_indices(values, used) {
            Some(indices) => indices,
            None => return Verdict::Broken,
        };
        return match reading {
            Reading::Keys { most, .. } => {
                let below: bool = most == u64::MAX || check_below(&indices, used, most + 1);
                judge(below, total)
            },
            Reading::Bytes { small } => match dictionary {
                Some(dictionary) => {
                    if check_below(&indices, used, dictionary.entries as u64) {
                        let sizes = pick(&dictionary.sizes, &indices, used);
                        check_sizes(small, &sizes, total)
                    } else {
                        Verdict::Broken
                    }
                },
                None => Verdict::Broken,
            },
            _ => match dictionary {
                Some(dictionary) => judge(check_below(&indices, used, dictionary.entries as u64), total),
                None => Verdict::Broken,
            },
        };
    }
    let plain: bool = kind == PageEncoding::Plain;
    match reading {
        Reading::Number { size, scaling, .. } => {
            if plain {
                let whole: bool = values.len() % size == 0 && (!exact || used <= values.len() / size);
                judge(whole && check_scaling(scaling, values), total)
            } else {
                let factor: i64 = match scaling {
                    Scaling::Times(factor) => factor,
                    _ => 1,
                };
                match check_delta(values, factor) {
                    Some(count) => judge(!exact || used <= count, total),
                    None => Verdict::Broken,
                }
            }
        },
        Reading::Boolean => judge(!exact || used as u128 <= 8 * values.len() as u128, total),
        Reading::Bytes { small } => {
            if plain {
                match find_byte_strings(values, used) {
                    Some(strings) => {
                        let sizes = sizes_of(&strings);
                        check_sizes(small, &sizes, total)
                    },
                    None => Verdict::Broken,
                }
            } else if check_delta(values, 1).is_some() {
                match decode_delta(values) {
                    Some((lengths, consumed)) => {
                        if check_lengths(&lengths, values.len() - consumed) {
                            let sizes = sizes_of_lengths(&lengths);
                            check_sizes(small, &sizes, total)
                        } else {
                            Verdict::Broken
                        }
                    },
                    None => Verdict::Broken,
                }
            } else {
                Verdict::Broken
            }
        },
        Reading::Fixed { size } => judge(!exact || used <= values.len() / size, total),
        _ => Verdict::Broken,
    }
}

/// What becomes of a page of a column without types above it, of which so many rows are decoded at most. Where
/// no value is null, booleans and byte strings of one size are taken for the whole page. Of byte strings there
/// may be fewer than the page has rows, and then all its rows are gone through.
pub open spec fn verdict_on_page(
    reading: Reading,
    column: LeafColumn,
    num_rows: usize,
    page: DataPageView,
    dictionary: Option<DictionaryView>,
    total: u64,
) -> Verdict {
    let kind = encoding_kind(page.encoding);
    let optional = column.repetition is Optional;
    let whole = kind is Plain && !optional;
    let limit = if page.count <= num_rows || reading is Bytes {
        page.count
    } else {
        num_rows
    };
    if page.count > MOST_VALUES {
        Verdict::Broken
    } else if reading is Nulls {
        Verdict::Sound(total)
    } else if !is_supported(reading, false, kind, dictionary is Some) {
        Verdict::Refused
    } else {
        match reading {
            Reading::Boolean if whole => sound_if(limit <= 8 * page.bytes.len(), total),
            Reading::Fixed { size } if whole => sound_if(page.bytes.len() % size as nat == 0, total),
            _ => match present_values(page, column, limit) {
                Present::Broken => Verdict::Broken,
                Present::Refused => Verdict::Refused,
                Present::Values { start, used } => verdict_on_values(
                    reading,
                    kind,
                    page.bytes.skip(start as int),
                    used,
                    optional,
                    dictionary,
                    total,
                ),
            },
        }
    }
}

/// Tells what becomes of a page of a column without types above it.
fn check_page(
    reading: Reading,
    column: LeafColumn,
    num_rows: usize,
    page: &DataPage,
    dictionary: &Option<Dictionary>,
    total: u64,
) -> (r: Verdict)
    requires
        is_sized(reading),
        reading is Bytes ==> (*dictionary matches Some(d) ==> d.sizes.len() == d.entries),
    ensures
        r == verdict_on_page(reading, column, num_rows, page@, dictionary_view(*dictionary), total),
{
    let kind = kind_of(&page.encoding);
    let optional: bool = column.repetition == LeafRepetition::Optional;
    let whole: bool = kind == PageEncoding::Plain && !optional;
    let strings: bool = match reading {
        Reading::Bytes { .. } => true,
        _ => false,
    };
    let limit: usize = if page.count <= num_rows || strings {
        page.count
    } else {
        num_rows
    };
    if page.count > MOST_VALUES {
        return Verdict::Broken;
    }
    if let Reading::Nulls = reading {
        return Verdict::Sound(total);
    }
    if !check_supported(reading, false, kind, dictionary.is_some()) {
        return Verdict::Refused;
    }
    if whole {
        match reading {
            Reading::Boolean => {
                return judge(limit as u128 <= 8 * page.bytes.len() as u128, total);
            },
            Reading::Fixed { size } => {
                return judge(page.bytes.len() % size == 0, total);
            },
            _ => {},
        }
    }
    match find_present(page, column, limit) {
        Present::Broken => Verdict::Broken,
        Present::Refused => Verdict::Refused,
        Present::Values { start, used } => {
            let values = slice_subrange(page.bytes.as_slice(), start, page.bytes.len());
            assert(values@ =~= page.bytes@.skip(start as int));
            check_values(reading, kind, values, used, optional, dictionary, total)
        },
    }
}

/// Whether so many rows can be decoded from the pages of a column without types above it, from the page `at`
/// on, up to the first that is refused or cannot be had. `dictionary` and `total` are what came before.
pub open spec fn pages_sound_from(
    reading: Reading,
    column: LeafColumn,
    num_rows: usize,
    pages: Seq<Option<PlainPageView>>,
    at: nat,
    dictionary: Option<DictionaryView>,
    total: u64,
) -> bool
    decreases pages.len() - at,
{
    if at >= pages.len() {
        true
    } else {
        match pages[at as int] {
            None => true,
            Some(PlainPageView::Dictionary { count, bytes }) => match dictionary_of(reading, count, bytes) {
                None => false,
                Some(dictionary) => pages_sound_from(
                    reading,
                    column,
                    num_rows,
                    pages,
                    at + 1,
                    Some(dictionary),
                    total,
                ),
            },
            Some(PlainPageView::Data(page)) => match verdict_on_page(
                reading,
                column,
                num_rows,
                page,
                dictionary,
                total,
            ) {
                Verdict::Broken => false,
                Verdict::Refused => true,
                Verdict::Sound(total) => pages_sound_from(
                    reading,
                    column,
                    num_rows,
                    pages,
                    at + 1,
                    dictionary,
                    total,
                ),
            },
        }
    }
}

/// Whether so many rows can be decoded from the pages of a column without types above it. Where there are
/// none to decode, no page is looked at, but for the keys of a dictionary.
pub open spec fn column_sound(
    reading: Reading,
    column: LeafColumn,
    pages: Seq<Option<PlainPageView>>,
    num_rows: usize,
) -> bool {
    num_rows == 0 && !(reading is Keys) || pages.len() <= MOST_PAGES && pages_sound_from(
        reading,
        column,
        num_rows,
        pages,
        0,
        None,
        0,
    )
}

/// Tells whether so many rows can be decoded from the pages of a column without types above it.
pub fn check_column(
    reading: Reading,
    column: LeafColumn,
    pages: &Vec<Option<PlainPage>>,
    num_rows: usize,
) -> (r: bool)
    requires
        is_sized(reading),
    ensures
        r == column_sound(reading, column, page_views(pages@), num_rows),
{
    let keys: bool = match reading {
        Reading::Keys { .. } => true,
        _ => false,
    };
    if num_rows == 0 && !keys {
        return true;
    }
    if pages.len() > MOST_PAGES {
        return false;
    }
    let ghost views = page_views(pages@);
    let mut dictionary: Option<Dictionary> = None;
    let mut total: u64 = 0;
    for at in 0..pages.len()
        invariant
            is_sized(reading),
            views == page_views(pages@),
            reading is Bytes ==> (dictionary matches Some(d) ==> d.sizes.len() == d.entries),
            pages_sound_from(reading, column, num_rows, views, 0, None, 0) == pages_sound_from(
                reading,
                column,
                num_rows,
                views,
                at as nat,
                dictionary_view(dictionary),
                total,
            ),
            pages.len() <= MOST_PAGES,
            keys == (reading is Keys),
            num_rows != 0 || keys,
    {
        assert(views[at as int] == crate::parquet::page_view(pages@[at as int]));
        match &pages[at] {
            None => return true,
            Some(PlainPage::Dictionary { count, bytes }) => {
                dictionary = read_dictionary(reading, *count, bytes.as_slice());
                if dictionary.is_none() {
                    return false;
                }
            },
            Some(PlainPage::Data(page)) => match check_page(reading, column, num_rows, page, &dictionary, total) {
                Verdict::Broken => return false,
                Verdict::Refused => return true,
                Verdict::Sound(sum) => {
                    total = sum;
                },
            },
        }
    }
    true
}

} // verus!
